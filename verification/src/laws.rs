//! What holds of the cache whatever it has been through.

use crate::cache_key::{lemma_key_matches_its_request, normalized, KeyModel};
use crate::cache_model::{
    cacheable, entry_of, key_position, latest_match, lemma_key_position, lemma_latest_match,
    lemma_store_keeps_wf, lemma_update_keeps_wf, lemma_without_url, without_key, CacheModel,
    EntryModel, Operation,
    Verdict,
};
use crate::freshness::{expires_reached, max_age_used_up};
use crate::headers::{field, is_excluded, merge_fields, Fields};
use crate::message::{RequestModel, ResponseModel};
use vstd::prelude::*;

verus! {

/// A response that may be stored is found again by the request it was stored
/// for, at any later moment, with the status, the fields and the body that it
/// had when it was stored.
pub proof fn law_store_then_lookup(
    cache: CacheModel,
    request: RequestModel,
    response: ResponseModel,
    now: u64,
    at: u64,
)
    requires
        cacheable(request, response),
    ensures
        cache.store(request, response, now).found(request) == Some(
            entry_of(request, response, now),
        ),
        cache.store(request, response, now).lookup(request, at) matches Some(candidate) && {
            &&& candidate.status == response.status
            &&& candidate.headers == response.headers
            &&& candidate.body == response.body
        },
{
    let entry = entry_of(request, response, now);
    let after = cache.store(request, response, now);
    lemma_key_matches_its_request(request, response.vary);
    assert(after.entries.last() == entry);
}

/// What is not stored is not found: a request that no entry answers gets
/// nothing from a lookup, and a refresh for it changes nothing, hands out
/// nothing and does not call the body complete.
pub proof fn law_unknown_request(
    cache: CacheModel,
    request: RequestModel,
    update: ResponseModel,
    now: u64,
)
    requires
        cache.found(request) is None,
    ensures
        cache.lookup(request, now) is None,
        cache.refresh(request, update, now) == cache,
        cache.refreshed_response(request, update, now) is None,
        !cache.body_is_complete(request),
        !cache.body_is_pending(request),
{
}

/// The cache without entries answers no request.
pub proof fn law_empty_cache_answers_nothing(request: RequestModel)
    ensures
        CacheModel::empty().found(request) is None,
{
}

/// A request is answered if and only if some entry has a key that it has.
pub proof fn law_found(cache: CacheModel, request: RequestModel)
    ensures
        cache.found(request) is Some <==> exists|i: int|
            0 <= i < cache.entries.len() && (#[trigger] cache.entries[i]).key.matches(request),
        cache.found(request) matches Some(entry) ==> entry.key.matches(request),
{
    lemma_latest_match(cache.entries, request);
}

/// An operation that stores nothing for a request leaves a request that was
/// not answered without an answer.
pub proof fn law_unknown_stays_unknown(cache: CacheModel, op: Operation, asked: RequestModel)
    requires
        cache.found(asked) is None,
        !op.stores_for(asked),
    ensures
        cache.apply(op).found(asked) is None,
{
    let after = cache.apply(op);
    lemma_latest_match(cache.entries, asked);
    lemma_latest_match(after.entries, asked);
    assert forall|j: int| 0 <= j < after.entries.len() implies !(
    #[trigger] after.entries[j]).key.matches(asked) by {
        match op {
            Operation::Store { request, response, now } => {
                if cacheable(request, response) {
                    let entry = entry_of(request, response, now);
                    let rest = without_key(cache.entries, entry.key);
                    lemma_key_position(cache.entries, entry.key);
                    if j < rest.len() {
                        assert(after.entries[j] == rest[j]);
                        match key_position(cache.entries, entry.key) {
                            Some(i) => {
                                if j < i {
                                    assert(rest[j] == cache.entries[j]);
                                } else {
                                    assert(rest[j] == cache.entries[j + 1]);
                                }
                            },
                            None => {},
                        }
                    }
                }
            },
            Operation::Refresh { request, update, now } => {
                lemma_latest_match(cache.entries, request);
                assert(after.entries[j].key == cache.entries[j].key);
            },
            Operation::AppendBody { request, bytes } => {
                lemma_latest_match(cache.entries, request);
                assert(after.entries[j].key == cache.entries[j].key);
            },
            Operation::CompleteBody { request } => {
                lemma_latest_match(cache.entries, request);
                assert(after.entries[j].key == cache.entries[j].key);
            },
            Operation::Invalidate { url } => {
                lemma_without_url(cache.entries, normalized(url));
                let i = choose|i: int|
                    0 <= i < cache.entries.len() && cache.entries[i] == after.entries[j];
                assert(!cache.entries[i].key.matches(asked));
            },
        }
    }
}

/// A refresh on a key that was never stored finds nothing: after any run of
/// operations on a new cache of which none stores a response for a request,
/// that request is not answered.
pub proof fn law_never_stored_is_never_found(ops: Seq<Operation>, asked: RequestModel)
    requires
        forall|k: int| 0 <= k < ops.len() ==> !(#[trigger] ops[k]).stores_for(asked),
    ensures
        CacheModel::empty().apply_all(ops).found(asked) is None,
    decreases ops.len(),
{
    if ops.len() > 0 {
        let earlier = ops.drop_last();
        assert forall|k: int| 0 <= k < earlier.len() implies !(#[trigger] earlier[k]).stores_for(
            asked,
        ) by {
            assert(earlier[k] == ops[k]);
        }
        law_never_stored_is_never_found(earlier, asked);
        law_unknown_stays_unknown(CacheModel::empty().apply_all(earlier), ops.last(), asked);
    }
}

/// What a merge makes of each field: nothing of an excluded one, else the
/// value of the update where it has one, else the stored value.
pub proof fn law_merge(stored: Fields, update: Fields, name: Seq<char>)
    ensures
        field(merge_fields(stored, update), name) == if is_excluded(name) {
            None
        } else if update.contains_key(name) {
            field(update, name)
        } else {
            field(stored, name)
        },
{
}

/// Neither validator is excluded from a merge.
pub proof fn law_validators_are_merged()
    ensures
        !is_excluded("etag"@),
        !is_excluded("last-modified"@),
{
    reveal_strlit("etag");
    reveal_strlit("last-modified");
    reveal_strlit("connection");
    reveal_strlit("keep-alive");
    reveal_strlit("proxy-authenticate");
    reveal_strlit("proxy-authorization");
    reveal_strlit("te");
    reveal_strlit("trailer");
    reveal_strlit("transfer-encoding");
    reveal_strlit("upgrade");
    reveal_strlit("content-length");
    assert("etag"@.len() == 4);
    assert("last-modified"@.len() == 13);
    assert("upgrade"@[0] == 'u');
    assert("trailer"@[0] == 't');
    assert("etag"@[0] == 'e');
}

/// Where the stored entry has an `etag` and no `last-modified`, and the
/// update has a `last-modified` and no `etag`, the merged fields have both.
pub proof fn law_merge_keeps_both_validators(
    stored: Fields,
    update: Fields,
    etag: Seq<char>,
    last_modified: Seq<char>,
)
    requires
        field(stored, "etag"@) == Some(etag),
        field(stored, "last-modified"@) is None,
        field(update, "etag"@) is None,
        field(update, "last-modified"@) == Some(last_modified),
    ensures
        field(merge_fields(stored, update), "etag"@) == Some(etag),
        field(merge_fields(stored, update), "last-modified"@) == Some(last_modified),
{
    law_validators_are_merged();
}

/// After a refresh the entry is found with its fields merged, and with the
/// key, the status and the body that it had.
pub proof fn law_refresh_then_lookup(
    cache: CacheModel,
    request: RequestModel,
    update: ResponseModel,
    now: u64,
    at: u64,
)
    requires
        cache.found(request) is Some,
    ensures
        cache.refresh(request, update, now).found(request) == Some(
            cache.found(request)->0.refreshed(update, now),
        ),
        cache.refresh(request, update, now).lookup(request, at) matches Some(candidate) && {
            &&& candidate.status == cache.found(request)->0.status
            &&& candidate.body == cache.found(request)->0.body
            &&& candidate.headers == merge_fields(cache.found(request)->0.headers, update.headers)
        },
        cache.refreshed_response(request, update, now) matches Some(merged) && {
            &&& merged.status == cache.found(request)->0.status
            &&& merged.body == cache.found(request)->0.body
            &&& merged.headers == merge_fields(cache.found(request)->0.headers, update.headers)
        },
        cache.refresh(request, update, now).entries.len() == cache.entries.len(),
{
    let after = cache.refresh(request, update, now);
    lemma_latest_match(cache.entries, request);
    lemma_latest_match(after.entries, request);
    let i = latest_match(cache.entries, request)->0;
    assert(after.entries[i].key == cache.entries[i].key);
    assert forall|j: int| i < j < after.entries.len() implies !(
    #[trigger] after.entries[j]).key.matches(request) by {
        assert(after.entries[j] == cache.entries[j]);
    }
}

/// A stored response whose `Expires` names a moment that has come or passed
/// is reported stale by a lookup, whatever else it says, together with the
/// validators that it carries.
pub proof fn law_past_expires_is_stale(
    cache: CacheModel,
    request: RequestModel,
    response: ResponseModel,
    now: u64,
    at: u64,
)
    requires
        cacheable(request, response),
        expires_reached(response.expires, at),
    ensures
        cache.store(request, response, now).lookup(request, at) matches Some(candidate) && {
            &&& candidate.verdict == Verdict::Stale
            &&& candidate.etag == field(response.headers, "etag"@)
            &&& candidate.last_modified == field(response.headers, "last-modified"@)
        },
{
    law_store_then_lookup(cache, request, response, now, at);
}

/// A lookup calls an entry fresh only if its body is complete, and gives
/// validators only for a stale entry.
pub proof fn law_verdicts(entry: EntryModel, at: u64)
    ensures
        entry.candidate(at).verdict == Verdict::Fresh ==> !entry.body.is_receiving(),
        entry.candidate(at).verdict == Verdict::Incomplete ==> entry.body.is_receiving(),
        entry.candidate(at).verdict != Verdict::Stale ==> entry.candidate(at).etag is None
            && entry.candidate(at).last_modified is None,
        max_age_used_up(entry.cache_control, entry.validated_at, at) || expires_reached(
            entry.expires,
            at,
        ) ==> entry.candidate(at).verdict == Verdict::Stale,
{
}

/// The keys stay distinct whatever is done.
pub proof fn law_keys_stay_distinct(cache: CacheModel, op: Operation)
    requires
        cache.wf(),
    ensures
        cache.apply(op).wf(),
{
    match op {
        Operation::Store { request, response, now } => {
            lemma_store_keeps_wf(cache, request, response, now);
        },
        Operation::Refresh { request, update, now } => {
            lemma_latest_match(cache.entries, request);
            match latest_match(cache.entries, request) {
                Some(i) => {
                    lemma_update_keeps_wf(cache, i, cache.entries[i].refreshed(update, now));
                },
                None => {},
            }
        },
        Operation::AppendBody { request, bytes } => {
            lemma_latest_match(cache.entries, request);
            match latest_match(cache.entries, request) {
                Some(i) => {
                    lemma_update_keeps_wf(
                        cache,
                        i,
                        EntryModel {
                            body: cache.entries[i].body.appended(bytes),
                            ..cache.entries[i]
                        },
                    );
                },
                None => {},
            }
        },
        Operation::CompleteBody { request } => {
            lemma_latest_match(cache.entries, request);
            match latest_match(cache.entries, request) {
                Some(i) => {
                    lemma_update_keeps_wf(
                        cache,
                        i,
                        EntryModel { body: cache.entries[i].body.completed(), ..cache.entries[i] },
                    );
                },
                None => {},
            }
        },
        Operation::Invalidate { url } => {
            lemma_without_url(cache.entries, normalized(url));
        },
    }
}

/// A complete body stays complete: where an entry with a complete body is
/// stored under a key, it still is after an operation, unless the operation
/// stores under that very key a response whose body is still coming in, or
/// throws the entry out.
pub proof fn law_complete_body_stays_complete(cache: CacheModel, op: Operation, key: KeyModel)
    requires
        cache.holds_complete(key),
        !(op.stores_under(key) && op.brings_unfinished_body()),
        !op.invalidates(key),
    ensures
        cache.apply(op).holds_complete(key),
{
    let after = cache.apply(op);
    let i = choose|i: int|
        0 <= i < cache.entries.len() && (#[trigger] cache.entries[i]).key == key
            && !cache.entries[i].body.is_receiving();
    match op {
        Operation::Store { request, response, now } => {
            if cacheable(request, response) {
                let entry = entry_of(request, response, now);
                let rest = without_key(cache.entries, entry.key);
                lemma_key_position(cache.entries, entry.key);
                if entry.key == key {
                    assert(after.entries[rest.len() as int] == entry);
                } else {
                    match key_position(cache.entries, entry.key) {
                        Some(k) => {
                            let j = if i < k {
                                i
                            } else {
                                i - 1
                            };
                            assert(rest[j] == cache.entries[i]);
                            assert(after.entries[j] == cache.entries[i]);
                        },
                        None => {
                            assert(after.entries[i] == cache.entries[i]);
                        },
                    }
                }
            } else {
                assert(after.entries[i] == cache.entries[i]);
            }
        },
        Operation::Refresh { request, update, now } => {
            lemma_latest_match(cache.entries, request);
            assert(after.entries[i].key == key && !after.entries[i].body.is_receiving());
        },
        Operation::AppendBody { request, bytes } => {
            lemma_latest_match(cache.entries, request);
            assert(after.entries[i].key == key && !after.entries[i].body.is_receiving());
        },
        Operation::CompleteBody { request } => {
            lemma_latest_match(cache.entries, request);
            assert(after.entries[i].key == key && !after.entries[i].body.is_receiving());
        },
        Operation::Invalidate { url } => {
            lemma_without_url(cache.entries, normalized(url));
            assert(after.entries.contains(cache.entries[i]));
            let j = choose|j: int|
                0 <= j < after.entries.len() && after.entries[j] == cache.entries[i];
            assert(after.entries[j].key == key && !after.entries[j].body.is_receiving());
        },
    }
}

/// Once the body stored under a key is complete, it is complete after any
/// run of operations of which none stores under that key a response whose
/// body is still coming in, and none throws the entry out.
pub proof fn law_complete_body_is_final(cache: CacheModel, ops: Seq<Operation>, key: KeyModel)
    requires
        cache.holds_complete(key),
        forall|k: int|
            0 <= k < ops.len() ==> !((#[trigger] ops[k]).stores_under(key)
                && ops[k].brings_unfinished_body()) && !ops[k].invalidates(key),
    ensures
        cache.apply_all(ops).holds_complete(key),
    decreases ops.len(),
{
    if ops.len() > 0 {
        let earlier = ops.drop_last();
        assert forall|k: int| 0 <= k < earlier.len() implies !((#[trigger] earlier[k]).stores_under(
            key,
        ) && earlier[k].brings_unfinished_body()) && !earlier[k].invalidates(key) by {
            assert(earlier[k] == ops[k]);
        }
        law_complete_body_is_final(cache, earlier, key);
        law_complete_body_stays_complete(cache.apply_all(earlier), ops.last(), key);
    }
}

/// With distinct keys, the entry with a complete body is the only one under
/// its key: no entry under that key has a body that is still coming in.
pub proof fn law_complete_means_not_receiving(cache: CacheModel, key: KeyModel)
    requires
        cache.wf(),
        cache.holds_complete(key),
    ensures
        forall|j: int|
            0 <= j < cache.entries.len() && (#[trigger] cache.entries[j]).key == key
                ==> !cache.entries[j].body.is_receiving(),
{
    let i = choose|i: int|
        0 <= i < cache.entries.len() && (#[trigger] cache.entries[i]).key == key
            && !cache.entries[i].body.is_receiving();
    assert forall|j: int|
        0 <= j < cache.entries.len() && (#[trigger] cache.entries[j]).key
            == key implies !cache.entries[j].body.is_receiving() by {
        if j != i {
            assert(cache.entries[i].key != cache.entries[j].key);
        }
    }
}

/// After what is stored for a URL has been thrown out, no request for that
/// URL is answered, whatever its fragment, and what is stored for other URLs
/// is found as before.
pub proof fn law_invalidated_is_not_found(cache: CacheModel, url: Seq<char>, asked: RequestModel)
    ensures
        normalized(asked.url) == normalized(url) ==> cache.invalidate(url).found(asked) is None,
        normalized(asked.url) != normalized(url) ==> cache.invalidate(url).found(asked)
            == cache.found(asked),
    decreases cache.entries.len(),
{
    let after = cache.invalidate(url);
    lemma_without_url(cache.entries, normalized(url));
    lemma_latest_match(after.entries, asked);
    if normalized(asked.url) != normalized(url) && cache.entries.len() > 0 {
        let shorter = CacheModel { entries: cache.entries.drop_last() };
        let last = cache.entries.last();
        law_invalidated_is_not_found(shorter, url, asked);
        let reduced = shorter.invalidate(url);
        lemma_latest_match(shorter.entries, asked);
        lemma_latest_match(reduced.entries, asked);
        if last.key.matches(asked) {
            assert(last.key.url == normalized(asked.url));
            assert(after.entries.last() == last);
            assert(cache.found(asked) == Some(last));
            assert(after.found(asked) == Some(last));
        } else {
            assert(cache.found(asked) == shorter.found(asked)) by {
                if latest_match(shorter.entries, asked) is Some {
                    let i = latest_match(shorter.entries, asked)->0;
                    assert(cache.entries[i] == shorter.entries[i]);
                }
            }
            if last.key.url != normalized(url) {
                assert(after.entries.last() == last);
                assert(after.entries.drop_last() =~= reduced.entries);
                assert(after.found(asked) == reduced.found(asked)) by {
                    if latest_match(reduced.entries, asked) is Some {
                        let i = latest_match(reduced.entries, asked)->0;
                        assert(after.entries[i] == reduced.entries[i]);
                    }
                }
            } else {
                assert(after.entries == reduced.entries);
            }
        }
    }
}

} // verus!
