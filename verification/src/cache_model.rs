//! What the cache holds and what its operations do, as values.
//!
//! The cache is an ordered collection of entries, the one stored last at the
//! end. No two entries have the same key. A request is answered from the
//! entry stored last among those whose key it has.

use crate::cache_key::{key_of, normalized, KeyModel};
use crate::freshness::{evaluate, forbids_storing, Freshness};
use crate::headers::{field, merge_fields, Fields};
use crate::message::{Body, CacheControl, Expires, Method, RequestModel, ResponseModel};
use vstd::prelude::*;

verus! {

/// What a lookup says of the entry it found.
#[derive(Clone, Copy, Debug, PartialEq, Eq, Structural)]
pub enum Verdict {
    /// The entry is fresh and its body is complete: it may be served.
    Fresh,
    /// The entry must be revalidated before it is served.
    Stale,
    /// The entry is fresh, but its body is still coming in: it is there, and
    /// it cannot be served yet.
    Incomplete,
}

/// A stored response, as a value.
pub struct EntryModel {
    pub key: KeyModel,
    pub status: u16,
    pub headers: Fields,
    pub cache_control: Option<CacheControl>,
    pub expires: Option<Expires>,
    pub body: Body,
    /// When the response was stored.
    pub stored_at: u64,
    /// When the response was stored or last confirmed by the server.
    pub validated_at: u64,
}

/// What a lookup hands out, as a value.
pub struct CandidateModel {
    pub status: u16,
    pub headers: Fields,
    pub body: Body,
    pub verdict: Verdict,
    /// The stored `etag` field, where the entry is stale and has one.
    pub etag: Option<Seq<char>>,
    /// The stored `last-modified` field, where the entry is stale and has one.
    pub last_modified: Option<Seq<char>>,
}

/// Whether a status is that of a redirect.
pub open spec fn is_redirect(status: u16) -> bool {
    status == 301 || status == 302 || status == 303 || status == 307 || status == 308
}

/// Whether the response to a request may be stored: the method is `GET` or
/// `HEAD`, the response does not forbid it, its status is neither that of a
/// partial response nor that of a redirect, and it does not depend on more
/// than the request's fields (`Vary: *`).
pub open spec fn cacheable(request: RequestModel, response: ResponseModel) -> bool {
    &&& request.method == Method::Get || request.method == Method::Head
    &&& !forbids_storing(response.cache_control)
    &&& response.status != 206
    &&& !is_redirect(response.status)
    &&& !response.vary.contains("*"@)
}

/// The entry that storing `response` for `request` at `now` makes.
pub open spec fn entry_of(request: RequestModel, response: ResponseModel, now: u64) -> EntryModel {
    EntryModel {
        key: key_of(request, response.vary),
        status: response.status,
        headers: response.headers,
        cache_control: response.cache_control,
        expires: response.expires,
        body: response.body,
        stored_at: now,
        validated_at: now,
    }
}

/// The later of two values of a directive: that of the revalidation where it
/// has one.
pub open spec fn updated<T>(stored: Option<T>, update: Option<T>) -> Option<T> {
    if update is Some {
        update
    } else {
        stored
    }
}

impl EntryModel {
    /// The verdict of the freshness rules on this entry at `now`.
    pub open spec fn freshness(self, now: u64) -> Freshness {
        evaluate(self.cache_control, self.expires, self.validated_at, now)
    }

    /// What a lookup says of this entry at `now`. An entry whose body is
    /// still coming in is never called fresh.
    pub open spec fn verdict(self, now: u64) -> Verdict {
        if self.freshness(now) == Freshness::Fresh {
            if self.body.is_receiving() {
                Verdict::Incomplete
            } else {
                Verdict::Fresh
            }
        } else {
            Verdict::Stale
        }
    }

    /// What a lookup hands out for this entry at `now`. The validators are
    /// given for a stale entry only.
    pub open spec fn candidate(self, now: u64) -> CandidateModel {
        let stale = self.verdict(now) == Verdict::Stale;
        CandidateModel {
            status: self.status,
            headers: self.headers,
            body: self.body,
            verdict: self.verdict(now),
            etag: if stale {
                field(self.headers, "etag"@)
            } else {
                None
            },
            last_modified: if stale {
                field(self.headers, "last-modified"@)
            } else {
                None
            },
        }
    }

    /// This entry after the server has confirmed it at `now` with `update`:
    /// the fields are merged, a directive of the update replaces the stored
    /// one, and the key, the status and the body stay.
    pub open spec fn refreshed(self, update: ResponseModel, now: u64) -> EntryModel {
        EntryModel {
            headers: merge_fields(self.headers, update.headers),
            cache_control: updated(self.cache_control, update.cache_control),
            expires: updated(self.expires, update.expires),
            validated_at: now,
            ..self
        }
    }

    /// This entry as a response.
    pub open spec fn response(self) -> ResponseModel {
        ResponseModel {
            status: self.status,
            headers: self.headers,
            cache_control: self.cache_control,
            expires: self.expires,
            vary: self.key.names(),
            body: self.body,
        }
    }
}

/// The place of the entry stored last among those whose key `request` has.
pub open spec fn latest_match(entries: Seq<EntryModel>, request: RequestModel) -> Option<int>
    decreases entries.len(),
{
    if entries.len() == 0 {
        None
    } else if entries.last().key.matches(request) {
        Some(entries.len() - 1)
    } else {
        latest_match(entries.drop_last(), request)
    }
}

/// The place of the entry stored last among those with the key `key`.
pub open spec fn key_position(entries: Seq<EntryModel>, key: KeyModel) -> Option<int>
    decreases entries.len(),
{
    if entries.len() == 0 {
        None
    } else if entries.last().key == key {
        Some(entries.len() - 1)
    } else {
        key_position(entries.drop_last(), key)
    }
}

/// `entries` without the entry of that key, if there is one.
pub open spec fn without_key(entries: Seq<EntryModel>, key: KeyModel) -> Seq<EntryModel> {
    match key_position(entries, key) {
        Some(i) => entries.remove(i),
        None => entries,
    }
}

/// `entries` without those that are stored for the URL `url`.
pub open spec fn without_url(entries: Seq<EntryModel>, url: Seq<char>) -> Seq<EntryModel>
    decreases entries.len(),
{
    if entries.len() == 0 {
        entries
    } else if entries.last().key.url == url {
        without_url(entries.drop_last(), url)
    } else {
        without_url(entries.drop_last(), url).push(entries.last())
    }
}

/// What is left without the entries for a URL: the other entries, each once
/// and in their order.
pub proof fn lemma_without_url(entries: Seq<EntryModel>, url: Seq<char>)
    ensures
        without_url(entries, url).len() <= entries.len(),
        forall|j: int|
            0 <= j < without_url(entries, url).len() ==> (#[trigger] without_url(
                entries,
                url,
            )[j]).key.url != url && entries.contains(without_url(entries, url)[j]),
        forall|i: int|
            0 <= i < entries.len() && (#[trigger] entries[i]).key.url != url ==> without_url(
                entries,
                url,
            ).contains(entries[i]),
        (CacheModel { entries }).wf() ==> (CacheModel { entries: without_url(entries, url) }).wf(),
    decreases entries.len(),
{
    let rest = without_url(entries, url);
    if entries.len() > 0 {
        let shorter = entries.drop_last();
        let last = entries.last();
        let before = without_url(shorter, url);
        lemma_without_url(shorter, url);
        assert forall|j: int| 0 <= j < rest.len() implies (#[trigger] rest[j]).key.url != url
            && entries.contains(rest[j]) by {
            if j < before.len() {
                assert(rest[j] == before[j]);
                let i = choose|i: int| 0 <= i < shorter.len() && shorter[i] == before[j];
                assert(entries[i] == rest[j]);
            } else {
                assert(entries[entries.len() - 1] == rest[j]);
            }
        }
        assert forall|i: int|
            0 <= i < entries.len() && (#[trigger] entries[i]).key.url != url implies rest.contains(
            entries[i],
        ) by {
            if i < shorter.len() {
                assert(shorter[i] == entries[i]);
                let j = choose|j: int| 0 <= j < before.len() && before[j] == shorter[i];
                assert(rest[j] == entries[i]);
            } else {
                assert(rest[rest.len() - 1] == entries[i]);
            }
        }
        if (CacheModel { entries }).wf() {
            assert forall|a: int, b: int|
                0 <= a < shorter.len() && 0 <= b < shorter.len() && a != b implies (
            #[trigger] shorter[a]).key != (#[trigger] shorter[b]).key by {
                assert(shorter[a] == entries[a] && shorter[b] == entries[b]);
            }
            assert forall|a: int, b: int|
                0 <= a < rest.len() && 0 <= b < rest.len() && a != b implies (
            #[trigger] rest[a]).key != (#[trigger] rest[b]).key by {
                if a < before.len() && b < before.len() {
                    assert(rest[a] == before[a] && rest[b] == before[b]);
                } else {
                    let c = if a < before.len() {
                        a
                    } else {
                        b
                    };
                    assert(rest[c] == before[c]);
                    let i = choose|i: int| 0 <= i < shorter.len() && shorter[i] == before[c];
                    assert(entries[i].key != entries[entries.len() - 1].key);
                }
            }
        }
    }
}

/// What `latest_match` finds matches, and nothing after it does.
pub proof fn lemma_latest_match(entries: Seq<EntryModel>, request: RequestModel)
    ensures
        match latest_match(entries, request) {
            Some(i) => {
                &&& 0 <= i < entries.len()
                &&& entries[i].key.matches(request)
                &&& forall|j: int|
                    i < j < entries.len() ==> !(#[trigger] entries[j]).key.matches(request)
            },
            None => forall|j: int|
                0 <= j < entries.len() ==> !(#[trigger] entries[j]).key.matches(request),
        },
    decreases entries.len(),
{
    if entries.len() > 0 && !entries.last().key.matches(request) {
        let shorter = entries.drop_last();
        lemma_latest_match(shorter, request);
        assert forall|j: int| 0 <= j < shorter.len() implies shorter[j] == entries[j] by {}
        match latest_match(shorter, request) {
            Some(i) => {
                assert forall|j: int| i < j < entries.len() implies !(
                #[trigger] entries[j]).key.matches(request) by {
                    if j < shorter.len() {
                        assert(shorter[j] == entries[j]);
                    }
                }
            },
            None => {
                assert forall|j: int| 0 <= j < entries.len() implies !(
                #[trigger] entries[j]).key.matches(request) by {
                    if j < shorter.len() {
                        assert(shorter[j] == entries[j]);
                    }
                }
            },
        }
    }
}

/// What `key_position` finds has the key, and nothing after it has.
pub proof fn lemma_key_position(entries: Seq<EntryModel>, key: KeyModel)
    ensures
        match key_position(entries, key) {
            Some(i) => {
                &&& 0 <= i < entries.len()
                &&& entries[i].key == key
                &&& forall|j: int| i < j < entries.len() ==> (#[trigger] entries[j]).key != key
            },
            None => forall|j: int| 0 <= j < entries.len() ==> (#[trigger] entries[j]).key != key,
        },
    decreases entries.len(),
{
    if entries.len() > 0 && entries.last().key != key {
        let shorter = entries.drop_last();
        lemma_key_position(shorter, key);
        match key_position(shorter, key) {
            Some(i) => {
                assert forall|j: int| i < j < entries.len() implies (#[trigger] entries[j]).key
                    != key by {
                    if j < shorter.len() {
                        assert(shorter[j] == entries[j]);
                    }
                }
            },
            None => {
                assert forall|j: int| 0 <= j < entries.len() implies (#[trigger] entries[j]).key
                    != key by {
                    if j < shorter.len() {
                        assert(shorter[j] == entries[j]);
                    }
                }
            },
        }
    }
}

/// The contents of a cache.
pub struct CacheModel {
    pub entries: Seq<EntryModel>,
}

impl CacheModel {
    /// The cache without entries.
    pub open spec fn empty() -> CacheModel {
        CacheModel { entries: Seq::empty() }
    }

    /// No two entries have the same key.
    pub open spec fn wf(self) -> bool {
        forall|i: int, j: int|
            0 <= i < self.entries.len() && 0 <= j < self.entries.len() && i != j ==> (
            #[trigger] self.entries[i]).key != (#[trigger] self.entries[j]).key
    }

    /// The entry from which `request` is answered, if there is one.
    pub open spec fn found(self, request: RequestModel) -> Option<EntryModel> {
        match latest_match(self.entries, request) {
            Some(i) => Some(self.entries[i]),
            None => None,
        }
    }

    /// The cache after the response to a request has been handed to it at
    /// `now`.
    ///
    /// A response that may not be stored leaves the cache as it is. Any other
    /// takes the place of the entry of its key, if there is one, status,
    /// fields, directives and body, and becomes the entry stored last.
    pub open spec fn store(self, request: RequestModel, response: ResponseModel, now: u64)
        -> CacheModel {
        if cacheable(request, response) {
            let entry = entry_of(request, response, now);
            CacheModel { entries: without_key(self.entries, entry.key).push(entry) }
        } else {
            self
        }
    }

    /// What a lookup for `request` at `now` hands out.
    pub open spec fn lookup(self, request: RequestModel, now: u64) -> Option<CandidateModel> {
        match self.found(request) {
            Some(entry) => Some(entry.candidate(now)),
            None => None,
        }
    }

    /// The cache after the server has answered the revalidation of `request`
    /// with `update` at `now`: the entry from which the request is answered is
    /// brought up to date. Without such an entry the cache stays as it is.
    pub open spec fn refresh(self, request: RequestModel, update: ResponseModel, now: u64)
        -> CacheModel {
        match latest_match(self.entries, request) {
            Some(i) => CacheModel {
                entries: self.entries.update(i, self.entries[i].refreshed(update, now)),
            },
            None => self,
        }
    }

    /// The response that a refresh hands out: the entry as it is after the
    /// refresh.
    pub open spec fn refreshed_response(
        self,
        request: RequestModel,
        update: ResponseModel,
        now: u64,
    ) -> Option<ResponseModel> {
        match self.found(request) {
            Some(entry) => Some(entry.refreshed(update, now).response()),
            None => None,
        }
    }

    /// Whether a refresh for `request` tells its caller that there is nothing
    /// to wait for: there is an entry and its body is complete.
    pub open spec fn body_is_complete(self, request: RequestModel) -> bool {
        self.found(request) matches Some(entry) && !entry.body.is_receiving()
    }

    /// The cache after the fetch that owns the body of the entry for
    /// `request` has received more bytes.
    pub open spec fn append_body(self, request: RequestModel, bytes: Seq<u8>) -> CacheModel {
        match latest_match(self.entries, request) {
            Some(i) => CacheModel {
                entries: self.entries.update(
                    i,
                    EntryModel { body: self.entries[i].body.appended(bytes), ..self.entries[i] },
                ),
            },
            None => self,
        }
    }

    /// The cache after the fetch that owns the body of the entry for
    /// `request` has received its last byte, or has given up.
    pub open spec fn complete_body(self, request: RequestModel) -> CacheModel {
        match latest_match(self.entries, request) {
            Some(i) => CacheModel {
                entries: self.entries.update(
                    i,
                    EntryModel { body: self.entries[i].body.completed(), ..self.entries[i] },
                ),
            },
            None => self,
        }
    }

    /// The cache after every entry for `url` has been thrown out, whatever
    /// its method and its selecting fields.
    pub open spec fn invalidate(self, url: Seq<char>) -> CacheModel {
        CacheModel { entries: without_url(self.entries, normalized(url)) }
    }

    /// Whether completing the body for `request` is the moment to tell those
    /// who wait for it: there is an entry and its body was still coming in.
    pub open spec fn body_is_pending(self, request: RequestModel) -> bool {
        self.found(request) matches Some(entry) && entry.body.is_receiving()
    }
}

/// One thing that is done to a cache.
pub enum Operation {
    /// A response is handed in.
    Store { request: RequestModel, response: ResponseModel, now: u64 },
    /// The server has confirmed a stored response.
    Refresh { request: RequestModel, update: ResponseModel, now: u64 },
    /// More bytes of a body have come in.
    AppendBody { request: RequestModel, bytes: Seq<u8> },
    /// A body has come to its end.
    CompleteBody { request: RequestModel },
    /// What is stored for a URL is thrown out.
    Invalidate { url: Seq<char> },
}

impl Operation {
    /// Whether this hands in a response that is stored under `key`.
    pub open spec fn stores_under(self, key: KeyModel) -> bool {
        self matches Operation::Store { request, response, .. } && cacheable(request, response)
            && key_of(request, response.vary) == key
    }

    /// Whether this hands in a response that is stored under a key that
    /// `asked` has.
    pub open spec fn stores_for(self, asked: RequestModel) -> bool {
        self matches Operation::Store { request, response, .. } && cacheable(request, response)
            && key_of(request, response.vary).matches(asked)
    }

    /// Whether this throws out what is stored under `key`.
    pub open spec fn invalidates(self, key: KeyModel) -> bool {
        self matches Operation::Invalidate { url } && normalized(url) == key.url
    }

    /// Whether this hands in a response whose body is still coming in.
    pub open spec fn brings_unfinished_body(self) -> bool {
        self matches Operation::Store { response, .. } && response.body.is_receiving()
    }
}

impl CacheModel {
    /// The cache after `op`.
    pub open spec fn apply(self, op: Operation) -> CacheModel {
        match op {
            Operation::Store { request, response, now } => self.store(request, response, now),
            Operation::Refresh { request, update, now } => self.refresh(request, update, now),
            Operation::AppendBody { request, bytes } => self.append_body(request, bytes),
            Operation::CompleteBody { request } => self.complete_body(request),
            Operation::Invalidate { url } => self.invalidate(url),
        }
    }

    /// The cache after `ops`, one after the other.
    pub open spec fn apply_all(self, ops: Seq<Operation>) -> CacheModel
        decreases ops.len(),
    {
        if ops.len() == 0 {
            self
        } else {
            self.apply_all(ops.drop_last()).apply(ops.last())
        }
    }

    /// Whether an entry is stored under `key` whose body is complete.
    pub open spec fn holds_complete(self, key: KeyModel) -> bool {
        exists|i: int|
            0 <= i < self.entries.len() && (#[trigger] self.entries[i]).key == key
                && !self.entries[i].body.is_receiving()
    }
}

/// Without the entry of a key, no entry has that key, and the keys stay
/// distinct.
pub proof fn lemma_without_key(cache: CacheModel, key: KeyModel)
    requires
        cache.wf(),
    ensures
        (CacheModel { entries: without_key(cache.entries, key) }).wf(),
        forall|j: int|
            0 <= j < without_key(cache.entries, key).len() ==> (#[trigger] without_key(
                cache.entries,
                key,
            )[j]).key != key,
{
    let entries = cache.entries;
    let rest = without_key(entries, key);
    lemma_key_position(entries, key);
    match key_position(entries, key) {
        Some(i) => {
            assert forall|j: int| 0 <= j < rest.len() implies (#[trigger] rest[j]).key != key by {
                if j < i {
                    assert(rest[j] == entries[j]);
                    assert(entries[j].key != entries[i].key);
                } else {
                    assert(rest[j] == entries[j + 1]);
                    assert(entries[j + 1].key != entries[i].key);
                }
            }
            assert forall|a: int, b: int|
                0 <= a < rest.len() && 0 <= b < rest.len() && a != b implies (
            #[trigger] rest[a]).key != (#[trigger] rest[b]).key by {
                let a0 = if a < i {
                    a
                } else {
                    a + 1
                };
                let b0 = if b < i {
                    b
                } else {
                    b + 1
                };
                assert(rest[a] == entries[a0]);
                assert(rest[b] == entries[b0]);
                assert(entries[a0].key != entries[b0].key);
            }
        },
        None => {},
    }
}

/// Storing keeps the keys distinct.
pub proof fn lemma_store_keeps_wf(
    cache: CacheModel,
    request: RequestModel,
    response: ResponseModel,
    now: u64,
)
    requires
        cache.wf(),
    ensures
        cache.store(request, response, now).wf(),
{
    if cacheable(request, response) {
        let entry = entry_of(request, response, now);
        let rest = without_key(cache.entries, entry.key);
        lemma_without_key(cache, entry.key);
        let after = rest.push(entry);
        assert forall|a: int, b: int|
            0 <= a < after.len() && 0 <= b < after.len() && a != b implies (
        #[trigger] after[a]).key != (#[trigger] after[b]).key by {
            if a < rest.len() {
                assert(after[a] == rest[a]);
            }
            if b < rest.len() {
                assert(after[b] == rest[b]);
            }
        }
    }
}

/// Replacing an entry by one of the same key keeps the keys distinct.
pub proof fn lemma_update_keeps_wf(cache: CacheModel, i: int, entry: EntryModel)
    requires
        cache.wf(),
        0 <= i < cache.entries.len(),
        entry.key == cache.entries[i].key,
    ensures
        (CacheModel { entries: cache.entries.update(i, entry) }).wf(),
{
    let after = cache.entries.update(i, entry);
    assert forall|a: int, b: int|
        0 <= a < after.len() && 0 <= b < after.len() && a != b implies (#[trigger] after[a]).key
        != (#[trigger] after[b]).key by {
        assert(after[a].key == cache.entries[a].key);
        assert(after[b].key == cache.entries[b].key);
    }
}

} // verus!
