[package]
name = "net"
version = "0.1.0"
edition = "2021"
publish = false

[dependencies]
malloc_size_of = "0.1"
malloc_size_of_derive = "0.1"
url = "2"

[dev-dependencies]
http = "1"
tokio = { version = "1", default-features = false, features = ["sync"] }
