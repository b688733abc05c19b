//! Requests and responses as the cache sees them: already parsed, with the
//! directives that decide on caching held as plain values.

use crate::headers::{Fields, HeaderMap};
use vstd::prelude::*;
use vstd::string::*;

verus! {

/// A request method.
#[derive(Clone, Copy, Debug, PartialEq, Eq, Structural)]
pub enum Method {
    Get,
    Head,
    Post,
    Put,
    Delete,
    Connect,
    Options,
    Trace,
    Patch,
}

/// What a `Cache-Control` field of a response says.
#[derive(Clone, Copy, Debug)]
pub struct CacheControl {
    /// `no-store`: the response must not be kept.
    pub no_store: bool,
    /// `no-cache`: the response must be revalidated before each use.
    pub no_cache: bool,
    /// `max-age`: for how many seconds the response stays fresh.
    pub max_age: Option<u64>,
}

/// What an `Expires` field of a response says.
#[derive(Clone, Copy, Debug)]
pub enum Expires {
    /// The field holds no date: the response has expired already.
    Invalid,
    /// The second, counted from the epoch, at which the response expires.
    At(u64),
}

/// The body of a response, as a value.
pub enum Body {
    /// The body is complete and has no bytes.
    Empty,
    /// These bytes have come in and more are expected.
    Receiving(Seq<u8>),
    /// The body is complete.
    Done(Seq<u8>),
}

impl Body {
    /// Whether more bytes are expected.
    pub open spec fn is_receiving(self) -> bool {
        self is Receiving
    }

    /// The body after more bytes have come in. A complete body takes none.
    pub open spec fn appended(self, bytes: Seq<u8>) -> Body {
        match self {
            Body::Receiving(have) => Body::Receiving(have + bytes),
            _ => self,
        }
    }

    /// The body after its last byte has come in. A complete body stays as it is.
    pub open spec fn completed(self) -> Body {
        match self {
            Body::Receiving(have) => Body::Done(have),
            _ => self,
        }
    }
}

/// The body of a response: complete (`Empty`, `Done`) or still coming in.
#[derive(Debug)]
pub enum ResponseBody {
    Empty,
    Receiving(Vec<u8>),
    Done(Vec<u8>),
}

impl View for ResponseBody {
    type V = Body;

    open spec fn view(&self) -> Body {
        match self {
            ResponseBody::Empty => Body::Empty,
            ResponseBody::Receiving(bytes) => Body::Receiving(bytes@),
            ResponseBody::Done(bytes) => Body::Done(bytes@),
        }
    }
}

/// A copy of `bytes`.
fn copy_bytes(bytes: &Vec<u8>) -> (r: Vec<u8>)
    ensures
        r@ == bytes@,
{
    let mut r: Vec<u8> = Vec::new();
    let mut i: usize = 0;
    while i < bytes.len()
        invariant
            i <= bytes.len(),
            r@ == bytes@.take(i as int),
        decreases bytes.len() - i,
    {
        r.push(bytes[i]);
        assert(bytes@.take(i + 1) =~= bytes@.take(i as int).push(bytes@[i as int]));
        i += 1;
    }
    assert(bytes@.take(bytes.len() as int) =~= bytes@);
    r
}

impl ResponseBody {
    /// Whether more bytes are expected.
    pub fn is_receiving(&self) -> (r: bool)
        ensures
            r == self@.is_receiving(),
    {
        match self {
            ResponseBody::Receiving(_) => true,
            _ => false,
        }
    }

    /// Takes in more bytes. A complete body takes none.
    pub fn append(&mut self, bytes: &[u8])
        ensures
            final(self)@ == old(self)@.appended(bytes@),
    {
        match self {
            ResponseBody::Receiving(have) => {
                let mut i: usize = 0;
                let ghost start = have@;
                while i < bytes.len()
                    invariant
                        i <= bytes.len(),
                        have@ == start + bytes@.take(i as int),
                    decreases bytes.len() - i,
                {
                    have.push(bytes[i]);
                    assert(bytes@.take(i + 1) =~= bytes@.take(i as int).push(bytes@[i as int]));
                    assert(have@ =~= start + bytes@.take(i + 1));
                    i += 1;
                }
                assert(bytes@.take(bytes.len() as int) =~= bytes@);
            },
            _ => {},
        }
    }

    /// Marks the body as complete. A complete body stays as it is.
    pub fn complete(&mut self)
        ensures
            final(self)@ == old(self)@.completed(),
    {
        let mut taken = ResponseBody::Empty;
        std::mem::swap(self, &mut taken);
        *self = match taken {
            ResponseBody::Receiving(have) => ResponseBody::Done(have),
            other => other,
        };
    }
}

impl Clone for ResponseBody {
    fn clone(&self) -> (r: ResponseBody)
        ensures
            r@ == self@,
    {
        match self {
            ResponseBody::Empty => ResponseBody::Empty,
            ResponseBody::Receiving(bytes) => ResponseBody::Receiving(copy_bytes(bytes)),
            ResponseBody::Done(bytes) => ResponseBody::Done(copy_bytes(bytes)),
        }
    }
}

/// The texts that `list` holds, in order.
pub open spec fn texts(list: Seq<String>) -> Seq<Seq<char>> {
    Seq::new(list.len(), |i: int| list[i]@)
}

/// A copy of `list`.
pub fn copy_texts(list: &Vec<String>) -> (r: Vec<String>)
    ensures
        texts(r@) == texts(list@),
{
    let mut r: Vec<String> = Vec::new();
    let mut i: usize = 0;
    while i < list.len()
        invariant
            i <= list.len(),
            r.len() == i,
            forall|j: int| 0 <= j < i ==> (#[trigger] r@[j])@ == list@[j]@,
        decreases list.len() - i,
    {
        r.push(list[i].clone());
        i += 1;
    }
    assert(texts(r@) =~= texts(list@));
    r
}

/// A request, as a value.
pub struct RequestModel {
    pub method: Method,
    pub url: Seq<char>,
    pub headers: Fields,
}

/// A request that is about to be sent.
pub struct Request {
    pub method: Method,
    pub url: String,
    pub headers: HeaderMap,
}

impl View for Request {
    type V = RequestModel;

    open spec fn view(&self) -> RequestModel {
        RequestModel { method: self.method, url: self.url@, headers: self.headers@ }
    }
}

impl Request {
    /// A request for `url` without header fields.
    pub fn new(method: Method, url: &str) -> (r: Request)
        ensures
            r@ == (RequestModel { method, url: url@, headers: Fields::empty() }),
    {
        Request { method, url: url.to_owned(), headers: HeaderMap::new() }
    }
}

impl Clone for Request {
    fn clone(&self) -> (r: Request)
        ensures
            r@ == self@,
    {
        Request { method: self.method, url: self.url.clone(), headers: self.headers.clone() }
    }
}

/// A response, as a value.
pub struct ResponseModel {
    pub status: u16,
    pub headers: Fields,
    pub cache_control: Option<CacheControl>,
    pub expires: Option<Expires>,
    pub vary: Seq<Seq<char>>,
    pub body: Body,
}

/// A response as it came from the network or as the cache gives it back.
///
/// `headers` holds every field as text. `cache_control`, `expires` and `vary`
/// hold what the fields of those names say, and are what the cache decides by;
/// each is absent where the response has no such field.
pub struct Response {
    pub status: u16,
    pub headers: HeaderMap,
    pub cache_control: Option<CacheControl>,
    pub expires: Option<Expires>,
    /// The names of the request fields that the choice of this response
    /// depended on.
    pub vary: Vec<String>,
    pub body: ResponseBody,
}

impl View for Response {
    type V = ResponseModel;

    open spec fn view(&self) -> ResponseModel {
        ResponseModel {
            status: self.status,
            headers: self.headers@,
            cache_control: self.cache_control,
            expires: self.expires,
            vary: texts(self.vary@),
            body: self.body@,
        }
    }
}

impl Response {
    /// A response with status 200, without header fields and with an empty
    /// body.
    pub fn new() -> (r: Response)
        ensures
            r@ == (ResponseModel {
                status: 200,
                headers: Fields::empty(),
                cache_control: None,
                expires: None,
                vary: Seq::empty(),
                body: Body::Empty,
            }),
    {
        let r = Response {
            status: 200,
            headers: HeaderMap::new(),
            cache_control: None,
            expires: None,
            vary: Vec::new(),
            body: ResponseBody::Empty,
        };
        assert(texts(r.vary@) =~= Seq::empty());
        r
    }
}

impl Clone for Response {
    fn clone(&self) -> (r: Response)
        ensures
            r@ == self@,
    {
        Response {
            status: self.status,
            headers: self.headers.clone(),
            cache_control: self.cache_control,
            expires: self.expires,
            vary: copy_texts(&self.vary),
            body: self.body.clone(),
        }
    }
}

} // verus!
