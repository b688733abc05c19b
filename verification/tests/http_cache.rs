use http::header::{HeaderValue, EXPIRES};
use http::StatusCode;
use net::cache_key::{normalize, CacheKey};
use net::cache_model::Verdict;
use net::freshness::{freshness, Freshness};
use net::headers::{excluded, HeaderMap};
use net::http_cache::{is_cacheable, HttpCache};
use net::message::{CacheControl, Expires, Method, Request, Response, ResponseBody};
use tokio::sync::mpsc::unbounded_channel as unbounded;

fn get(url: &str) -> Request {
    Request::new(Method::Get, url)
}

fn max_age(seconds: u64) -> Option<CacheControl> {
    Some(CacheControl { no_store: false, no_cache: false, max_age: Some(seconds) })
}

fn ok_with_body(body: ResponseBody) -> Response {
    let mut response = Response::new();
    response.body = body;
    response
}

#[test]
fn test_refreshing_resource_sets_done_chan_the_appropriate_value() {
    let response_bodies = vec![
        ResponseBody::Receiving(vec![]),
        ResponseBody::Empty,
        ResponseBody::Done(vec![]),
    ];
    let request = get("https://servo.org");
    let mut response = Response::new();
    // Expires header makes the response cacheable.
    let value = HeaderValue::from_str("-10").unwrap();
    response.headers.insert(EXPIRES.as_str(), value.to_str().unwrap());
    response.expires = Some(Expires::Invalid);
    let mut cache = HttpCache::default();
    response_bodies.iter().for_each(|body| {
        response.body = body.clone();
        // First, store the 'normal' response.
        cache.store(&request, &response);
        // Second, mutate the response into a 304 response, and refresh the stored one.
        response.status = StatusCode::NOT_MODIFIED.as_u16();
        let (send, recv) = unbounded::<Vec<u8>>();
        let mut done_chan = Some((send, recv));
        let refreshed_response = cache.refresh(&request, response.clone(), &mut done_chan);
        // Ensure a resource was found, and refreshed.
        assert!(refreshed_response.is_some());
        match body {
            ResponseBody::Receiving(_) => assert!(done_chan.is_some()),
            ResponseBody::Empty | ResponseBody::Done(_) => assert!(done_chan.is_none()),
        }
    })
}

#[test]
fn refresh_of_a_fresh_200_entry_reconciles_the_waiter_for_each_body_state() {
    let bodies = vec![
        ResponseBody::Receiving(vec![]),
        ResponseBody::Empty,
        ResponseBody::Done(vec![]),
    ];
    for body in bodies {
        let request = get("https://servo.org");
        let mut cache = HttpCache::new();
        let mut response = ok_with_body(body.clone());
        response.expires = Some(Expires::Invalid);
        assert_eq!(response.status, 200);
        cache.store_at(&request, &response, 100);
        response.status = 304;
        let mut waiter = Some(7u8);
        let merged = cache.refresh_at(&request, response, &mut waiter, 200).unwrap();
        assert_eq!(merged.status, 200);
        match body {
            ResponseBody::Receiving(_) => assert_eq!(waiter, Some(7)),
            _ => assert_eq!(waiter, None),
        }
    }
}

#[test]
fn store_then_lookup_gives_back_status_and_headers() {
    let request = get("https://example.org/a");
    let mut response = ok_with_body(ResponseBody::Done(vec![1, 2, 3]));
    response.status = 203;
    response.headers.insert("content-type", "text/plain");
    response.headers.insert("etag", "\"v1\"");
    response.cache_control = max_age(60);
    let mut cache = HttpCache::new();
    cache.store_at(&request, &response, 1_000);
    let found = cache.lookup_at(&request, 1_000).unwrap();
    assert_eq!(found.status, 203);
    assert_eq!(found.headers.len(), 2);
    assert_eq!(found.headers.get("content-type"), Some("text/plain"));
    assert_eq!(found.headers.get("etag"), Some("\"v1\""));
    assert!(matches!(found.body, ResponseBody::Done(ref b) if b == &vec![1, 2, 3]));
    assert_eq!(found.verdict, Verdict::Fresh);
    assert_eq!(found.etag, None);
}

#[test]
fn lookup_on_an_empty_cache_is_a_miss() {
    let cache = HttpCache::new();
    assert!(cache.lookup_at(&get("https://example.org/"), 0).is_none());
    assert!(cache.lookup(&get("https://example.org/")).is_none());
    assert_eq!(cache.len(), 0);
}

#[test]
fn refresh_without_a_stored_entry_returns_nothing_and_keeps_the_waiter() {
    let mut cache = HttpCache::new();
    let mut other = Response::new();
    other.cache_control = max_age(10);
    cache.store_at(&get("https://example.org/other"), &other, 5);
    let mut not_modified = Response::new();
    not_modified.status = 304;
    let mut waiter = Some("waiting");
    let r = cache.refresh_at(&get("https://example.org/never"), not_modified, &mut waiter, 6);
    assert!(r.is_none());
    assert_eq!(waiter, Some("waiting"));
    assert_eq!(cache.len(), 1);
    let mut gone: Option<u8> = None;
    let mut again = Response::new();
    again.status = 304;
    assert!(cache.refresh(&get("https://example.org/never"), again, &mut gone).is_none());
    assert_eq!(gone, None);
}

#[test]
fn refresh_merges_validators_from_both_sides() {
    let request = get("https://example.org/doc");
    let mut stored = Response::new();
    stored.headers.insert("etag", "\"a\"");
    stored.expires = Some(Expires::At(10));
    let mut cache = HttpCache::new();
    cache.store_at(&request, &stored, 0);
    let mut update = Response::new();
    update.status = 304;
    update.headers.insert("last-modified", "Sun, 06 Nov 1994 08:49:37 GMT");
    let mut waiter: Option<u8> = None;
    let merged = cache.refresh_at(&request, update, &mut waiter, 20).unwrap();
    assert_eq!(merged.headers.get("etag"), Some("\"a\""));
    assert_eq!(merged.headers.get("last-modified"), Some("Sun, 06 Nov 1994 08:49:37 GMT"));
    assert_eq!(merged.headers.len(), 2);
    // The entry itself holds the merged fields.
    let found = cache.lookup_at(&request, 20).unwrap();
    assert_eq!(found.headers.get("etag"), Some("\"a\""));
    assert_eq!(found.headers.get("last-modified"), Some("Sun, 06 Nov 1994 08:49:37 GMT"));
}

#[test]
fn refresh_lets_the_update_win_and_keeps_the_status() {
    let request = get("https://example.org/doc");
    let mut stored = ok_with_body(ResponseBody::Done(vec![9]));
    stored.headers.insert("etag", "\"a\"");
    stored.headers.insert("x-kept", "1");
    stored.cache_control = max_age(5);
    let mut cache = HttpCache::new();
    cache.store_at(&request, &stored, 0);
    let mut update = Response::new();
    update.status = 304;
    update.headers.insert("etag", "\"b\"");
    update.cache_control = max_age(100);
    update.body = ResponseBody::Receiving(vec![1]);
    let mut waiter = Some(1u8);
    let merged = cache.refresh_at(&request, update, &mut waiter, 50).unwrap();
    assert_eq!(merged.status, 200);
    assert_eq!(merged.headers.get("etag"), Some("\"b\""));
    assert_eq!(merged.headers.get("x-kept"), Some("1"));
    assert!(matches!(merged.body, ResponseBody::Done(ref b) if b == &vec![9]));
    assert_eq!(merged.cache_control.unwrap().max_age, Some(100));
    assert_eq!(waiter, None);
    // Validated at 50 with 100 seconds to live: fresh until 149, stale from 150.
    assert_eq!(cache.lookup_at(&request, 149).unwrap().verdict, Verdict::Fresh);
    assert_eq!(cache.lookup_at(&request, 150).unwrap().verdict, Verdict::Stale);
}

#[test]
fn refresh_never_takes_over_hop_by_hop_fields() {
    let request = get("https://example.org/doc");
    let mut stored = Response::new();
    stored.headers.insert("connection", "keep-alive");
    stored.headers.insert("content-length", "12");
    stored.headers.insert("content-type", "text/html");
    let mut cache = HttpCache::new();
    cache.store_at(&request, &stored, 0);
    // Storing keeps every field.
    assert_eq!(cache.lookup_at(&request, 0).unwrap().headers.len(), 3);
    let mut update = Response::new();
    update.status = 304;
    update.headers.insert("transfer-encoding", "chunked");
    update.headers.insert("date", "now");
    let mut waiter: Option<u8> = None;
    let merged = cache.refresh_at(&request, update, &mut waiter, 1).unwrap();
    assert_eq!(merged.headers.len(), 2);
    assert_eq!(merged.headers.get("content-type"), Some("text/html"));
    assert_eq!(merged.headers.get("date"), Some("now"));
    assert!(!merged.headers.contains_key("connection"));
    assert!(!merged.headers.contains_key("content-length"));
    assert!(!merged.headers.contains_key("transfer-encoding"));
}

#[test]
fn excluded_names_are_the_hop_by_hop_and_framing_fields() {
    for name in [
        "connection",
        "keep-alive",
        "proxy-authenticate",
        "proxy-authorization",
        "te",
        "trailer",
        "transfer-encoding",
        "upgrade",
        "content-length",
    ] {
        assert!(excluded(name), "{}", name);
    }
    for name in ["etag", "last-modified", "cache-control", "expires", "", "t", "tee"] {
        assert!(!excluded(name), "{}", name);
    }
}

#[test]
fn past_expires_is_stale_whatever_else_is_said() {
    let request = get("https://example.org/old");
    let mut response = Response::new();
    response.headers.insert("etag", "\"e\"");
    response.headers.insert("last-modified", "yesterday");
    response.expires = Some(Expires::At(99));
    response.cache_control = max_age(1_000_000);
    let mut cache = HttpCache::new();
    cache.store_at(&request, &response, 100);
    let found = cache.lookup_at(&request, 100).unwrap();
    assert_eq!(found.verdict, Verdict::Stale);
    assert_eq!(found.etag.as_deref(), Some("\"e\""));
    assert_eq!(found.last_modified.as_deref(), Some("yesterday"));
}

#[test]
fn stale_entry_without_validators_reports_none() {
    let request = get("https://example.org/plain");
    let mut cache = HttpCache::new();
    cache.store_at(&request, &Response::new(), 0);
    let found = cache.lookup_at(&request, 0).unwrap();
    assert_eq!(found.verdict, Verdict::Stale);
    assert_eq!(found.etag, None);
    assert_eq!(found.last_modified, None);
}

#[test]
fn freshness_rules_by_value() {
    let none: Option<CacheControl> = None;
    // No lifetime stated: stale.
    assert_eq!(freshness(none, None, 0, 0), Freshness::Stale);
    // max-age: fresh while the age is below it, stale from the moment it is reached.
    assert_eq!(freshness(max_age(10), None, 100, 100), Freshness::Fresh);
    assert_eq!(freshness(max_age(10), None, 100, 109), Freshness::Fresh);
    assert_eq!(freshness(max_age(10), None, 100, 110), Freshness::Stale);
    assert_eq!(freshness(max_age(0), None, 100, 100), Freshness::Stale);
    // A clock that went back gives age 0.
    assert_eq!(freshness(max_age(1), None, 100, 50), Freshness::Fresh);
    // Expires: stale at that very second and after.
    assert_eq!(freshness(none, Some(Expires::At(200)), 0, 199), Freshness::Fresh);
    assert_eq!(freshness(none, Some(Expires::At(200)), 0, 200), Freshness::Stale);
    assert_eq!(freshness(none, Some(Expires::At(200)), 0, 201), Freshness::Stale);
    assert_eq!(freshness(none, Some(Expires::Invalid), 0, 0), Freshness::Stale);
    // Both stated: each must hold.
    assert_eq!(freshness(max_age(1000), Some(Expires::At(200)), 0, 150), Freshness::Fresh);
    assert_eq!(freshness(max_age(1000), Some(Expires::At(200)), 0, 200), Freshness::Stale);
    assert_eq!(freshness(max_age(100), Some(Expires::At(200)), 0, 100), Freshness::Stale);
    // no-cache and no-store.
    let no_cache = Some(CacheControl { no_store: false, no_cache: true, max_age: Some(10) });
    assert_eq!(freshness(no_cache, None, 0, 0), Freshness::Stale);
    let no_store = Some(CacheControl { no_store: true, no_cache: false, max_age: Some(10) });
    assert_eq!(freshness(no_store, None, 0, 0), Freshness::MustNotStore);
    assert_eq!(freshness(max_age(u64::MAX), None, 0, u64::MAX), Freshness::Stale);
}

#[test]
fn receiving_entry_is_never_reported_fresh() {
    let request = get("https://example.org/stream");
    let mut response = ok_with_body(ResponseBody::Receiving(vec![1]));
    response.cache_control = max_age(60);
    let mut cache = HttpCache::new();
    cache.store_at(&request, &response, 0);
    let found = cache.lookup_at(&request, 1).unwrap();
    assert_eq!(found.verdict, Verdict::Incomplete);
    assert!(found.body.is_receiving());
    // Once stale, it is reported stale, with its body still coming in.
    let later = cache.lookup_at(&request, 60).unwrap();
    assert_eq!(later.verdict, Verdict::Stale);
    assert!(later.body.is_receiving());
}

#[test]
fn body_goes_from_receiving_to_done_and_stays() {
    let request = get("https://example.org/stream");
    let mut response = ok_with_body(ResponseBody::Receiving(vec![1]));
    response.cache_control = max_age(60);
    let mut cache = HttpCache::new();
    cache.store_at(&request, &response, 0);
    cache.append_body(&request, &[2, 3]);
    cache.append_body(&request, &[]);
    cache.append_body(&request, &[4]);
    assert!(matches!(
        cache.lookup_at(&request, 1).unwrap().body,
        ResponseBody::Receiving(ref b) if b == &vec![1, 2, 3, 4]
    ));
    assert!(cache.complete_body(&request));
    assert_eq!(cache.lookup_at(&request, 1).unwrap().verdict, Verdict::Fresh);
    // A second completion is no news, and more bytes are not taken.
    assert!(!cache.complete_body(&request));
    cache.append_body(&request, &[5]);
    assert!(matches!(
        cache.lookup_at(&request, 1).unwrap().body,
        ResponseBody::Done(ref b) if b == &vec![1, 2, 3, 4]
    ));
    // Nothing stored for this one.
    assert!(!cache.complete_body(&get("https://example.org/unknown")));
    cache.append_body(&get("https://example.org/unknown"), &[1]);
    assert_eq!(cache.len(), 1);
}

#[test]
fn done_body_is_not_receiving_after_refresh_or_complete_store() {
    let request = get("https://example.org/done");
    let mut cache = HttpCache::new();
    cache.store_at(&request, &ok_with_body(ResponseBody::Done(vec![1])), 0);
    let mut update = ok_with_body(ResponseBody::Receiving(vec![]));
    update.status = 304;
    let mut waiter = Some(0u8);
    let merged = cache.refresh_at(&request, update, &mut waiter, 1).unwrap();
    assert!(!merged.body.is_receiving());
    cache.store_at(&request, &ok_with_body(ResponseBody::Empty), 2);
    assert!(!cache.lookup_at(&request, 2).unwrap().body.is_receiving());
    assert!(!cache.complete_body(&request));
    assert_eq!(cache.len(), 1);
}

#[test]
fn store_replaces_the_entry_of_the_same_key() {
    let request = get("https://example.org/page");
    let mut first = ok_with_body(ResponseBody::Done(vec![1]));
    first.headers.insert("x-version", "1");
    let mut second = ok_with_body(ResponseBody::Done(vec![2]));
    second.status = 404;
    second.headers.insert("x-other", "2");
    let mut cache = HttpCache::new();
    cache.store_at(&request, &first, 0);
    cache.store_at(&request, &second, 1);
    assert_eq!(cache.len(), 1);
    let found = cache.lookup_at(&request, 1).unwrap();
    assert_eq!(found.status, 404);
    assert_eq!(found.headers.len(), 1);
    assert_eq!(found.headers.get("x-other"), Some("2"));
    assert!(matches!(found.body, ResponseBody::Done(ref b) if b == &vec![2]));
}

#[test]
fn responses_that_may_not_be_stored_are_dropped_silently() {
    let request = get("https://example.org/x");
    let mut cache = HttpCache::new();
    let mut partial = Response::new();
    partial.status = 206;
    assert!(!is_cacheable(&request, &partial));
    cache.store_at(&request, &partial, 0);
    for status in [301u16, 302, 303, 307, 308] {
        let mut redirect = Response::new();
        redirect.status = status;
        assert!(!is_cacheable(&request, &redirect), "{}", status);
        cache.store_at(&request, &redirect, 0);
    }
    let mut no_store = Response::new();
    no_store.cache_control = Some(CacheControl { no_store: true, no_cache: false, max_age: None });
    assert!(!is_cacheable(&request, &no_store));
    cache.store(&request, &no_store);
    let mut any = Response::new();
    any.vary = vec!["accept".to_string(), "*".to_string()];
    assert!(!is_cacheable(&request, &any));
    cache.store_at(&request, &any, 0);
    for method in [
        Method::Post,
        Method::Put,
        Method::Delete,
        Method::Connect,
        Method::Options,
        Method::Trace,
        Method::Patch,
    ] {
        let r = Request::new(method, "https://example.org/x");
        assert!(!is_cacheable(&r, &Response::new()));
        cache.store_at(&r, &Response::new(), 0);
        assert!(cache.lookup_at(&r, 0).is_none());
    }
    assert_eq!(cache.len(), 0);
    assert!(cache.lookup_at(&request, 0).is_none());
    // What may be stored.
    for status in [200u16, 203, 204, 300, 304, 404, 410, 500] {
        let mut r = Response::new();
        r.status = status;
        assert!(is_cacheable(&request, &r), "{}", status);
    }
    assert!(is_cacheable(&Request::new(Method::Head, "https://example.org/x"), &Response::new()));
}

#[test]
fn method_is_part_of_the_key() {
    let mut cache = HttpCache::new();
    cache.store_at(&get("https://example.org/x"), &Response::new(), 0);
    assert!(cache.lookup_at(&Request::new(Method::Head, "https://example.org/x"), 0).is_none());
    assert!(cache.lookup_at(&get("https://example.org/x"), 0).is_some());
    assert!(cache.lookup_at(&get("https://example.org/y"), 0).is_none());
}

#[test]
fn fragment_is_no_part_of_the_key() {
    let mut cache = HttpCache::new();
    cache.store_at(&get("https://example.org/x#top"), &Response::new(), 0);
    assert!(cache.lookup_at(&get("https://example.org/x"), 0).is_some());
    assert!(cache.lookup_at(&get("https://example.org/x#other#more"), 0).is_some());
    assert!(cache.lookup_at(&get("https://example.org/x?q#top"), 0).is_none());
    cache.store_at(&get("https://example.org/x"), &Response::new(), 1);
    assert_eq!(cache.len(), 1);
    assert_eq!(normalize("https://example.org/x#top"), "https://example.org/x");
    assert_eq!(normalize("#"), "");
    assert_eq!(normalize("https://exämple.org/ü#ö"), "https://exämple.org/ü");
    assert_eq!(normalize("no-fragment"), "no-fragment");
}

#[test]
fn vary_selects_among_entries_of_one_url() {
    let url = "https://example.org/negotiated";
    let mut english = get(url);
    english.headers.insert("accept-language", "en");
    let mut german = get(url);
    german.headers.insert("accept-language", "de");
    let plain = get(url);

    let mut for_english = ok_with_body(ResponseBody::Done(vec![b'e']));
    for_english.vary = vec!["accept-language".to_string()];
    let mut for_german = ok_with_body(ResponseBody::Done(vec![b'd']));
    for_german.vary = vec!["accept-language".to_string()];

    let mut cache = HttpCache::new();
    cache.store_at(&english, &for_english, 0);
    cache.store_at(&german, &for_german, 0);
    assert_eq!(cache.len(), 2);
    assert!(matches!(
        cache.lookup_at(&english, 0).unwrap().body,
        ResponseBody::Done(ref b) if b == &vec![b'e']
    ));
    assert!(matches!(
        cache.lookup_at(&german, 0).unwrap().body,
        ResponseBody::Done(ref b) if b == &vec![b'd']
    ));
    // A request without the field matches neither.
    assert!(cache.lookup_at(&plain, 0).is_none());
    let mut french = get(url);
    french.headers.insert("accept-language", "fr");
    assert!(cache.lookup_at(&french, 0).is_none());
    // An entry stored for a request without the field matches only such requests.
    let mut for_plain = ok_with_body(ResponseBody::Done(vec![b'p']));
    for_plain.vary = vec!["accept-language".to_string()];
    cache.store_at(&plain, &for_plain, 0);
    assert_eq!(cache.len(), 3);
    assert!(matches!(
        cache.lookup_at(&plain, 0).unwrap().body,
        ResponseBody::Done(ref b) if b == &vec![b'p']
    ));
    assert!(matches!(
        cache.lookup_at(&english, 0).unwrap().body,
        ResponseBody::Done(ref b) if b == &vec![b'e']
    ));
    // Refresh keeps the selecting fields of the entry.
    let mut update = Response::new();
    update.status = 304;
    let mut waiter: Option<u8> = None;
    let merged = cache.refresh_at(&german, update, &mut waiter, 1).unwrap();
    assert_eq!(merged.vary, vec!["accept-language".to_string()]);
}

#[test]
fn the_entry_stored_last_answers_where_several_match() {
    let url = "https://example.org/two";
    let mut request = get(url);
    request.headers.insert("accept", "text/html");
    let mut cache = HttpCache::new();
    let mut varied = ok_with_body(ResponseBody::Done(vec![1]));
    varied.vary = vec!["accept".to_string()];
    cache.store_at(&request, &varied, 0);
    cache.store_at(&request, &ok_with_body(ResponseBody::Done(vec![2])), 1);
    assert_eq!(cache.len(), 2);
    assert!(matches!(
        cache.lookup_at(&request, 1).unwrap().body,
        ResponseBody::Done(ref b) if b == &vec![2]
    ));
    cache.store_at(&request, &varied, 2);
    assert_eq!(cache.len(), 2);
    assert!(matches!(
        cache.lookup_at(&request, 2).unwrap().body,
        ResponseBody::Done(ref b) if b == &vec![1]
    ));
}

#[test]
fn cache_key_is_built_from_method_url_and_selecting_fields() {
    let mut request = get("https://example.org/k#f");
    request.headers.insert("accept", "a");
    let names = vec!["accept".to_string(), "cookie".to_string()];
    let key = CacheKey::new(&request, &names);
    assert_eq!(key.method(), Method::Get);
    assert_eq!(key.url(), "https://example.org/k");
    assert_eq!(key.names(), names);
    assert!(key.matches(&request));
    assert!(key.same(&key.clone()));
    let mut with_cookie = request.clone();
    with_cookie.headers.insert("cookie", "c");
    assert!(!key.matches(&with_cookie));
    assert!(!key.same(&CacheKey::new(&with_cookie, &names)));
    let mut other_value = get("https://example.org/k");
    other_value.headers.insert("accept", "b");
    assert!(!key.matches(&other_value));
    let mut more = request.clone();
    more.headers.insert("user-agent", "x");
    assert!(key.matches(&more));
    assert!(key.same(&CacheKey::new(&more, &names)));
    assert!(!key.same(&CacheKey::new(&request, &vec!["accept".to_string()])));
    assert!(!key.matches(&Request::new(Method::Head, "https://example.org/k")));
}

#[test]
fn header_map_holds_one_value_for_each_name() {
    let mut headers = HeaderMap::new();
    assert_eq!(headers.len(), 0);
    assert_eq!(headers.get("etag"), None);
    headers.insert("etag", "1");
    headers.insert("date", "d");
    headers.insert("etag", "2");
    assert_eq!(headers.len(), 2);
    assert_eq!(headers.get("etag"), Some("2"));
    assert_eq!(headers.get("date"), Some("d"));
    assert!(headers.contains_key("date"));
    assert!(!headers.contains_key("Date"));
    let copy = headers.clone();
    headers.insert("date", "e");
    assert_eq!(copy.get("date"), Some("d"));
    assert_eq!(HeaderMap::default().len(), 0);
    let mut update = HeaderMap::new();
    update.insert("date", "new");
    update.insert("upgrade", "h2c");
    let merged = copy.merged(&update);
    assert_eq!(merged.len(), 2);
    assert_eq!(merged.get("date"), Some("new"));
    assert_eq!(merged.get("etag"), Some("2"));
}

#[test]
fn response_body_transitions() {
    let mut body = ResponseBody::Receiving(vec![]);
    assert!(body.is_receiving());
    body.append(&[1, 2]);
    body.complete();
    assert!(matches!(body, ResponseBody::Done(ref b) if b == &vec![1, 2]));
    body.append(&[3]);
    body.complete();
    assert!(matches!(body, ResponseBody::Done(ref b) if b == &vec![1, 2]));
    let mut empty = ResponseBody::Empty;
    empty.append(&[1]);
    empty.complete();
    assert!(matches!(empty, ResponseBody::Empty));
    assert!(!empty.is_receiving());
}

#[test]
fn store_and_lookup_read_the_clock() {
    let request = get("https://example.org/clock");
    let mut response = Response::new();
    response.cache_control = max_age(3_600);
    let mut cache = HttpCache::new();
    cache.store(&request, &response);
    // Stored a moment ago with an hour to live.
    assert_eq!(cache.lookup(&request).unwrap().verdict, Verdict::Fresh);
    // The clock reads a time after the year 2001.
    assert_eq!(cache.lookup_at(&request, 1_000_000_000).unwrap().verdict, Verdict::Fresh);
    let mut expired = Response::new();
    expired.expires = Some(Expires::At(1_000_000_000));
    cache.store(&request, &expired);
    assert_eq!(cache.lookup(&request).unwrap().verdict, Verdict::Stale);
}

#[test]
fn invalidate_throws_out_every_entry_of_a_url() {
    let url = "https://example.org/gone";
    let mut cache = HttpCache::new();
    let mut english = get(url);
    english.headers.insert("accept-language", "en");
    let mut varied = Response::new();
    varied.vary = vec!["accept-language".to_string()];
    cache.store_at(&english, &varied, 0);
    cache.store_at(&get(url), &Response::new(), 0);
    cache.store_at(&Request::new(Method::Head, url), &Response::new(), 0);
    cache.store_at(&get("https://example.org/stays"), &Response::new(), 0);
    cache.store_at(&get("https://example.org/gone?q=1"), &Response::new(), 0);
    assert_eq!(cache.len(), 5);
    cache.invalidate("https://example.org/gone#anchor");
    assert_eq!(cache.len(), 2);
    assert!(cache.lookup_at(&english, 0).is_none());
    assert!(cache.lookup_at(&get(url), 0).is_none());
    assert!(cache.lookup_at(&Request::new(Method::Head, url), 0).is_none());
    assert!(cache.lookup_at(&get("https://example.org/stays"), 0).is_some());
    assert!(cache.lookup_at(&get("https://example.org/gone?q=1"), 0).is_some());
    cache.invalidate("https://example.org/never-stored");
    assert_eq!(cache.len(), 2);
    // A refresh after invalidation finds nothing.
    let mut update = Response::new();
    update.status = 304;
    let mut waiter = Some(1u8);
    assert!(cache.refresh_at(&get(url), update, &mut waiter, 1).is_none());
    assert_eq!(waiter, Some(1));
}

#[test]
fn header_map_lists_its_fields() {
    let mut headers = HeaderMap::new();
    headers.insert("b", "2");
    headers.insert("a", "1");
    headers.insert("b", "3");
    let mut list = headers.to_vec();
    list.sort();
    assert_eq!(list, vec![("a".to_string(), "1".to_string()), ("b".to_string(), "3".to_string())]);
    assert!(HeaderMap::new().to_vec().is_empty());
}

#[test]
fn never_stored_key_is_never_found_whatever_else_happens() {
    let asked = get("https://example.org/asked");
    let other = get("https://example.org/other");
    let mut cache = HttpCache::new();
    let mut response = ok_with_body(ResponseBody::Receiving(vec![]));
    response.cache_control = max_age(10);
    cache.store_at(&other, &response, 0);
    cache.append_body(&other, &[1]);
    cache.append_body(&asked, &[1]);
    assert!(cache.complete_body(&other));
    let mut update = Response::new();
    update.status = 304;
    let mut waiter: Option<u8> = None;
    assert!(cache.refresh_at(&other, update.clone(), &mut waiter, 1).is_some());
    cache.invalidate("https://example.org/");
    // A response that may not be stored leaves no entry for the request.
    let mut partial = Response::new();
    partial.status = 206;
    cache.store_at(&asked, &partial, 2);
    let mut held = Some(5u8);
    assert!(cache.refresh_at(&asked, update, &mut held, 3).is_none());
    assert_eq!(held, Some(5));
    assert!(cache.lookup_at(&asked, 3).is_none());
}

#[test]
fn store_of_an_unfinished_body_over_a_complete_one_replaces_it() {
    let request = get("https://example.org/again");
    let mut cache = HttpCache::new();
    cache.store_at(&request, &ok_with_body(ResponseBody::Done(vec![1])), 0);
    cache.store_at(&request, &ok_with_body(ResponseBody::Receiving(vec![2])), 1);
    assert_eq!(cache.len(), 1);
    assert!(matches!(
        cache.lookup_at(&request, 1).unwrap().body,
        ResponseBody::Receiving(ref b) if b == &vec![2]
    ));
}
