//! The cache of HTTP responses.
//!
//! [`HttpCache::store`] takes in the response to a request,
//! [`HttpCache::lookup`] finds the stored response for a request that is about
//! to be sent, and [`HttpCache::refresh`] brings a stored response up to date
//! when the server has confirmed it. None of them waits for anything.
//!
//! The three read the clock. Each has a twin that takes the moment as an
//! argument and whose contract says exactly what it does.

use crate::cache_key::{normalize, normalized, opt_text, CacheKey};
use crate::cache_model::{
    cacheable, entry_of, key_position, latest_match, lemma_key_position, lemma_latest_match,
    lemma_store_keeps_wf, lemma_update_keeps_wf, lemma_without_url, without_key, without_url,
    CacheModel, CandidateModel, EntryModel, Verdict,
};
use crate::freshness::{freshness, Freshness};
use crate::headers::{field, HeaderMap};
use crate::message::{texts, CacheControl, Expires, Method, Request, Response, ResponseBody};
use crate::text::same_text;
use vstd::prelude::*;
use vstd::string::*;

verus! {

/// The seconds that have passed since the epoch, read from the system clock
/// with `SystemTime::elapsed`; `None` where the clock stands before the
/// epoch. Nothing is claimed of the value.
#[verifier::external_body]
fn clock_seconds() -> Option<u64> {
    match std::time::UNIX_EPOCH.elapsed() {
        Ok(elapsed) => Some(elapsed.as_secs()),
        Err(_) => None,
    }
}

/// The moment that the clock gives, in seconds from the epoch: what
/// [`moment_of`] makes of a reading of the clock.
fn now_seconds() -> u64 {
    moment_of(clock_seconds())
}

/// The moment that a reading of the clock stands for, in seconds from the
/// epoch. A clock that stands before the epoch reads as the epoch.
spec fn moment(reading: Option<u64>) -> u64 {
    match reading {
        Some(seconds) => seconds,
        None => 0,
    }
}

/// The moment that a reading of the clock stands for.
fn moment_of(reading: Option<u64>) -> (r: u64)
    ensures
        r == moment(reading),
{
    match reading {
        Some(seconds) => seconds,
        None => 0,
    }
}

/// A stored response.
struct CacheEntry {
    key: CacheKey,
    status: u16,
    headers: HeaderMap,
    cache_control: Option<CacheControl>,
    expires: Option<Expires>,
    body: ResponseBody,
    stored_at: u64,
    validated_at: u64,
}

impl View for CacheEntry {
    type V = EntryModel;

    closed spec fn view(&self) -> EntryModel {
        EntryModel {
            key: self.key@,
            status: self.status,
            headers: self.headers@,
            cache_control: self.cache_control,
            expires: self.expires,
            body: self.body@,
            stored_at: self.stored_at,
            validated_at: self.validated_at,
        }
    }
}

/// What a lookup hands out: the stored response and what may be done with it.
pub struct CachedCandidate {
    pub status: u16,
    pub headers: HeaderMap,
    pub body: ResponseBody,
    pub verdict: Verdict,
    /// The value for `If-None-Match`, where the entry must be revalidated and
    /// has an `etag` field.
    pub etag: Option<String>,
    /// The value for `If-Modified-Since`, where the entry must be revalidated
    /// and has a `last-modified` field.
    pub last_modified: Option<String>,
}

impl View for CachedCandidate {
    type V = CandidateModel;

    open spec fn view(&self) -> CandidateModel {
        CandidateModel {
            status: self.status,
            headers: self.headers@,
            body: self.body@,
            verdict: self.verdict,
            etag: opt_text(self.etag),
            last_modified: opt_text(self.last_modified),
        }
    }
}

/// The entries that `list` holds, as values.
spec fn models(list: Seq<CacheEntry>) -> Seq<EntryModel> {
    Seq::new(list.len(), |i: int| list[i]@)
}

/// Whether the response to a request may be stored.
pub fn is_cacheable(request: &Request, response: &Response) -> (r: bool)
    ensures
        r == cacheable(request@, response@),
{
    if request.method != Method::Get && request.method != Method::Head {
        return false;
    }
    match response.cache_control {
        Some(c) => {
            if c.no_store {
                return false;
            }
        },
        None => {},
    }
    let status: u16 = response.status;
    if status == 206 || status == 301 || status == 302 || status == 303 || status == 307 || status
        == 308 {
        return false;
    }
    let mut i: usize = 0;
    while i < response.vary.len()
        invariant
            i <= response.vary.len(),
            forall|j: int| 0 <= j < i ==> (#[trigger] texts(response.vary@)[j]) != "*"@,
        decreases response.vary.len() - i,
    {
        if same_text(response.vary[i].as_str(), "*") {
            assert(texts(response.vary@)[i as int] == "*"@);
            return false;
        }
        i += 1;
    }
    true
}

/// The place in `list` of the entry from which `request` is answered.
fn find(list: &Vec<CacheEntry>, request: &Request) -> (r: Option<usize>)
    ensures
        match r {
            Some(i) => i < list.len() && latest_match(models(list@), request@) == Some(i as int),
            None => latest_match(models(list@), request@) is None,
        },
{
    let mut i: usize = list.len();
    while i > 0
        invariant
            i <= list.len(),
            forall|j: int|
                i <= j < list.len() ==> !(#[trigger] models(list@)[j]).key.matches(request@),
        decreases i,
    {
        i -= 1;
        if list[i].key.matches(request) {
            proof {
                lemma_latest_match(models(list@), request@);
                assert(models(list@)[i as int].key.matches(request@));
            }
            return Some(i);
        }
    }
    proof {
        lemma_latest_match(models(list@), request@);
    }
    None
}

/// The place in `list` of the entry with the key `key`.
fn position(list: &Vec<CacheEntry>, key: &CacheKey) -> (r: Option<usize>)
    ensures
        match r {
            Some(i) => i < list.len() && key_position(models(list@), key@) == Some(i as int),
            None => key_position(models(list@), key@) is None,
        },
{
    let mut i: usize = list.len();
    while i > 0
        invariant
            i <= list.len(),
            forall|j: int| i <= j < list.len() ==> (#[trigger] models(list@)[j]).key != key@,
        decreases i,
    {
        i -= 1;
        if list[i].key.same(key) {
            proof {
                lemma_key_position(models(list@), key@);
                assert(models(list@)[i as int].key == key@);
            }
            return Some(i);
        }
    }
    proof {
        lemma_key_position(models(list@), key@);
    }
    None
}

/// The value of the field `name`, as a string of its own.
fn owned_field(headers: &HeaderMap, name: &str) -> (r: Option<String>)
    ensures
        opt_text(r) == field(headers@, name@),
{
    match headers.get(name) {
        Some(v) => Some(v.to_owned()),
        None => None,
    }
}

/// The cache of HTTP responses.
pub struct HttpCache {
    entries: Vec<CacheEntry>,
}

impl View for HttpCache {
    type V = CacheModel;

    closed spec fn view(&self) -> CacheModel {
        CacheModel { entries: models(self.entries@) }
    }
}

impl HttpCache {
    #[verifier::type_invariant]
    spec fn well_formed(self) -> bool {
        self@.wf()
    }

    /// A cache without entries.
    pub fn new() -> (r: HttpCache)
        ensures
            r@ == CacheModel::empty(),
            r@.wf(),
    {
        let r = HttpCache { entries: Vec::new() };
        assert(r@.entries =~= Seq::empty());
        r
    }

    /// The number of entries.
    pub fn len(&self) -> (n: usize)
        ensures
            n == self@.entries.len(),
            self@.wf(),
    {
        proof {
            use_type_invariant(self);
        }
        self.entries.len()
    }

    /// Takes in the response to `request` as it is at the moment `now`: see
    /// [`CacheModel::store`]. The body is stored as far as it has come in.
    pub fn store_at(&mut self, request: &Request, response: &Response, now: u64)
        ensures
            final(self)@ == old(self)@.store(request@, response@, now),
            final(self)@.wf(),
    {
        proof {
            use_type_invariant(&*self);
            lemma_store_keeps_wf(self@, request@, response@, now);
        }
        if !is_cacheable(request, response) {
            return ;
        }
        let entry = CacheEntry {
            key: CacheKey::new(request, &response.vary),
            status: response.status,
            headers: response.headers.clone(),
            cache_control: response.cache_control,
            expires: response.expires,
            body: response.body.clone(),
            stored_at: now,
            validated_at: now,
        };
        assert(entry@ == entry_of(request@, response@, now));
        let mut list: Vec<CacheEntry> = Vec::new();
        std::mem::swap(&mut list, &mut self.entries);
        let ghost before = models(list@);
        match position(&list, &entry.key) {
            Some(i) => {
                list.remove(i);
                assert(models(list@) =~= before.remove(i as int));
            },
            None => {},
        }
        assert(models(list@) == without_key(before, entry@.key));
        let ghost rest = models(list@);
        list.push(entry);
        assert(models(list@) =~= rest.push(entry@));
        self.entries = list;
    }

    /// Takes in the response to `request` as it is now. What is done is what
    /// [`HttpCache::store_at`] does with the moment that the clock gives.
    pub fn store(&mut self, request: &Request, response: &Response)
        ensures
            exists|now: u64| final(self)@ == old(self)@.store(request@, response@, now),
            !cacheable(request@, response@) ==> final(self)@ == old(self)@,
            final(self)@.wf(),
    {
        let now = now_seconds();
        self.store_at(request, response, now);
    }

    /// The stored response for `request` and what may be done with it at the
    /// moment `now`: see [`CacheModel::lookup`]. `None` where nothing is
    /// stored for the request.
    pub fn lookup_at(&self, request: &Request, now: u64) -> (r: Option<CachedCandidate>)
        ensures
            match r {
                Some(candidate) => self@.lookup(request@, now) == Some(candidate@),
                None => self@.lookup(request@, now) is None,
            },
    {
        match find(&self.entries, request) {
            Some(i) => {
                let entry = &self.entries[i];
                assert(entry@ == self@.entries[i as int]);
                let fresh = freshness(entry.cache_control, entry.expires, entry.validated_at, now);
                let verdict = if fresh == Freshness::Fresh {
                    if entry.body.is_receiving() {
                        Verdict::Incomplete
                    } else {
                        Verdict::Fresh
                    }
                } else {
                    Verdict::Stale
                };
                let stale = verdict == Verdict::Stale;
                let etag = if stale {
                    owned_field(&entry.headers, "etag")
                } else {
                    None
                };
                let last_modified = if stale {
                    owned_field(&entry.headers, "last-modified")
                } else {
                    None
                };
                Some(
                    CachedCandidate {
                        status: entry.status,
                        headers: entry.headers.clone(),
                        body: entry.body.clone(),
                        verdict,
                        etag,
                        last_modified,
                    },
                )
            },
            None => None,
        }
    }

    /// The stored response for `request` and what may be done with it now.
    /// What is handed out is what [`HttpCache::lookup_at`] hands out for the
    /// moment that the clock gives.
    pub fn lookup(&self, request: &Request) -> (r: Option<CachedCandidate>)
        ensures
            exists|now: u64|
                match r {
                    Some(candidate) => self@.lookup(request@, now) == Some(candidate@),
                    None => self@.lookup(request@, now) is None,
                },
            r is Some <==> self@.found(request@) is Some,
    {
        let now = now_seconds();
        let r = self.lookup_at(request, now);
        assert(match r {
            Some(candidate) => self@.lookup(request@, now) == Some(candidate@),
            None => self@.lookup(request@, now) is None,
        });
        r
    }

    /// Brings the stored response for `request` up to date with `response`,
    /// by which the server has confirmed it at the moment `now`, and hands out
    /// the stored response as it then is: see [`CacheModel::refresh`].
    ///
    /// `done_chan` is what the caller holds to wait for a body that is still
    /// coming in. It is taken away where the stored body is complete, and
    /// left alone where the body is still coming in or nothing is stored.
    pub fn refresh_at<N>(
        &mut self,
        request: &Request,
        response: Response,
        done_chan: &mut Option<N>,
        now: u64,
    ) -> (r: Option<Response>)
        requires
            response@.status == 304,
        ensures
            final(self)@ == old(self)@.refresh(request@, response@, now),
            final(self)@.wf(),
            match r {
                Some(merged) => old(self)@.refreshed_response(request@, response@, now) == Some(
                    merged@,
                ),
                None => old(self)@.refreshed_response(request@, response@, now) is None,
            },
            *final(done_chan) == if old(self)@.body_is_complete(request@) {
                None
            } else {
                *old(done_chan)
            },
    {
        proof {
            use_type_invariant(&*self);
        }
        let mut list: Vec<CacheEntry> = Vec::new();
        std::mem::swap(&mut list, &mut self.entries);
        let ghost before = models(list@);
        let found = find(&list, request);
        let result = match found {
            Some(i) => {
                let mut entry = list.remove(i);
                assert(entry@ == before[i as int]);
                entry.headers = entry.headers.merged(&response.headers);
                if response.cache_control.is_some() {
                    entry.cache_control = response.cache_control;
                }
                if response.expires.is_some() {
                    entry.expires = response.expires;
                }
                entry.validated_at = now;
                assert(entry@ == before[i as int].refreshed(response@, now));
                if !entry.body.is_receiving() {
                    *done_chan = None;
                }
                let merged = Response {
                    status: entry.status,
                    headers: entry.headers.clone(),
                    cache_control: entry.cache_control,
                    expires: entry.expires,
                    vary: entry.key.names(),
                    body: entry.body.clone(),
                };
                assert(merged@ == entry@.response());
                proof {
                    lemma_update_keeps_wf(CacheModel { entries: before }, i as int, entry@);
                }
                list.insert(i, entry);
                assert(models(list@) =~= before.update(i as int, entry@));
                Some(merged)
            },
            None => None,
        };
        self.entries = list;
        result
    }

    /// Brings the stored response for `request` up to date with `response`,
    /// by which the server has just confirmed it. What is done is what
    /// [`HttpCache::refresh_at`] does with the moment that the clock gives.
    pub fn refresh<N>(&mut self, request: &Request, response: Response, done_chan: &mut Option<N>)
        -> (r: Option<Response>)
        requires
            response@.status == 304,
        ensures
            exists|now: u64|
                {
                    &&& final(self)@ == old(self)@.refresh(request@, response@, now)
                    &&& match r {
                        Some(merged) => old(self)@.refreshed_response(request@, response@, now)
                            == Some(merged@),
                        None => old(self)@.refreshed_response(request@, response@, now) is None,
                    }
                },
            r is Some <==> old(self)@.found(request@) is Some,
            r is None ==> final(self)@ == old(self)@,
            final(self)@.wf(),
            *final(done_chan) == if old(self)@.body_is_complete(request@) {
                None
            } else {
                *old(done_chan)
            },
    {
        let now = now_seconds();
        let r = self.refresh_at(request, response, done_chan, now);
        assert({
            &&& self@ == old(self)@.refresh(request@, response@, now)
            &&& match r {
                Some(merged) => old(self)@.refreshed_response(request@, response@, now) == Some(
                    merged@,
                ),
                None => old(self)@.refreshed_response(request@, response@, now) is None,
            }
        });
        r
    }

    /// Throws out every entry that is stored for `url`, whatever its method
    /// and its selecting fields. The fragment of `url` does not count.
    pub fn invalidate(&mut self, url: &str)
        ensures
            final(self)@ == old(self)@.invalidate(url@),
            final(self)@.wf(),
    {
        proof {
            use_type_invariant(&*self);
            lemma_without_url(self@.entries, normalized(url@));
        }
        let wanted = normalize(url);
        let mut list: Vec<CacheEntry> = Vec::new();
        std::mem::swap(&mut list, &mut self.entries);
        let ghost before = models(list@);
        let ghost mut seen: int = 0;
        let mut i: usize = 0;
        assert(before.take(0) =~= Seq::empty());
        assert(before.skip(0) =~= before);
        while i < list.len()
            invariant
                0 <= seen <= before.len(),
                i <= list.len(),
                i == without_url(before.take(seen), wanted@).len(),
                list.len() - i == before.len() - seen,
                models(list@) == without_url(before.take(seen), wanted@) + before.skip(seen),
            decreases before.len() - seen,
        {
            let ghost kept = without_url(before.take(seen), wanted@);
            assert(models(list@)[i as int] == before.skip(seen)[0]);
            assert(before.take(seen + 1).drop_last() =~= before.take(seen));
            assert(before.take(seen + 1).last() == before[seen]);
            let ghost current = models(list@);
            if same_text(list[i].key.url(), wanted.as_str()) {
                list.remove(i);
                assert(models(list@) =~= current.remove(i as int));
                assert(current.remove(i as int) =~= kept + before.skip(seen + 1));
            } else {
                assert(kept.push(before[seen]) + before.skip(seen + 1) =~= kept + before.skip(
                    seen,
                ));
                i += 1;
            }
            proof {
                seen = seen + 1;
            }
        }
        assert(before.take(seen) =~= before);
        assert(models(list@) =~= without_url(before, wanted@));
        self.entries = list;
    }

    /// Adds bytes that have come in to the body stored for `request`. A
    /// complete body takes none, and so does a request for which nothing is
    /// stored.
    pub fn append_body(&mut self, request: &Request, bytes: &[u8])
        ensures
            final(self)@ == old(self)@.append_body(request@, bytes@),
            final(self)@.wf(),
    {
        proof {
            use_type_invariant(&*self);
        }
        let mut list: Vec<CacheEntry> = Vec::new();
        std::mem::swap(&mut list, &mut self.entries);
        let ghost before = models(list@);
        match find(&list, request) {
            Some(i) => {
                let mut entry = list.remove(i);
                assert(entry@ == before[i as int]);
                entry.body.append(bytes);
                proof {
                    lemma_update_keeps_wf(CacheModel { entries: before }, i as int, entry@);
                }
                list.insert(i, entry);
                assert(models(list@) =~= before.update(i as int, entry@));
            },
            None => {},
        }
        self.entries = list;
    }

    /// Marks the body stored for `request` as complete, and says whether
    /// that is news: `true` where the body was still coming in, so that those
    /// who wait for it are to be told, once.
    pub fn complete_body(&mut self, request: &Request) -> (r: bool)
        ensures
            final(self)@ == old(self)@.complete_body(request@),
            final(self)@.wf(),
            r == old(self)@.body_is_pending(request@),
    {
        proof {
            use_type_invariant(&*self);
        }
        let mut list: Vec<CacheEntry> = Vec::new();
        std::mem::swap(&mut list, &mut self.entries);
        let ghost before = models(list@);
        let mut news = false;
        match find(&list, request) {
            Some(i) => {
                let mut entry = list.remove(i);
                assert(entry@ == before[i as int]);
                news = entry.body.is_receiving();
                entry.body.complete();
                proof {
                    lemma_update_keeps_wf(CacheModel { entries: before }, i as int, entry@);
                }
                list.insert(i, entry);
                assert(models(list@) =~= before.update(i as int, entry@));
            },
            None => {},
        }
        self.entries = list;
        news
    }
}

impl Default for HttpCache {
    fn default() -> (r: HttpCache)
        ensures
            r@ == CacheModel::empty(),
    {
        HttpCache::new()
    }
}

} // verus!
