//! Whether a stored response may be used without asking the server again.
//!
//! Time is counted in seconds from the epoch. A response without `max-age`
//! and without `Expires` is never taken for fresh: it is revalidated before
//! each use.

use crate::message::{CacheControl, Expires};
use vstd::prelude::*;

verus! {

/// The verdict on a stored response.
#[derive(Clone, Copy, Debug, PartialEq, Eq, Structural)]
pub enum Freshness {
    /// It may be served as it is.
    Fresh,
    /// It must be revalidated before it is served.
    Stale,
    /// It should not have been stored at all.
    MustNotStore,
}

/// The seconds that have passed since a response was last validated.
pub open spec fn age(validated_at: u64, now: u64) -> int {
    if now >= validated_at {
        now - validated_at
    } else {
        0
    }
}

/// Whether the response forbids storing it.
pub open spec fn forbids_storing(cache_control: Option<CacheControl>) -> bool {
    cache_control matches Some(c) && c.no_store
}

/// Whether the response asks to be revalidated before each use.
pub open spec fn always_revalidates(cache_control: Option<CacheControl>) -> bool {
    cache_control matches Some(c) && c.no_cache
}

/// Whether the response says for how long it stays fresh.
pub open spec fn has_lifetime(cache_control: Option<CacheControl>, expires: Option<Expires>) -> bool {
    (cache_control matches Some(c) && c.max_age is Some) || expires is Some
}

/// Whether the seconds that `max-age` grants are used up: the age has reached
/// them or gone beyond.
pub open spec fn max_age_used_up(
    cache_control: Option<CacheControl>,
    validated_at: u64,
    now: u64,
) -> bool {
    cache_control matches Some(c) && c.max_age matches Some(m) && m <= age(validated_at, now)
}

/// Whether the moment that `Expires` names has come or passed. A field
/// without a date has expired at once.
pub open spec fn expires_reached(expires: Option<Expires>, now: u64) -> bool {
    match expires {
        Some(Expires::Invalid) => true,
        Some(Expires::At(t)) => t <= now,
        None => false,
    }
}

/// The verdict on a response with the given directives, last validated at
/// `validated_at`, at the moment `now`.
///
/// Fresh is what states a lifetime, has none of its lifetimes used up, and
/// neither forbids storing nor asks for revalidation.
pub open spec fn evaluate(
    cache_control: Option<CacheControl>,
    expires: Option<Expires>,
    validated_at: u64,
    now: u64,
) -> Freshness {
    if forbids_storing(cache_control) {
        Freshness::MustNotStore
    } else if always_revalidates(cache_control) || !has_lifetime(cache_control, expires)
        || max_age_used_up(cache_control, validated_at, now) || expires_reached(expires, now) {
        Freshness::Stale
    } else {
        Freshness::Fresh
    }
}

/// The verdict on a response with the given directives, last validated at
/// `validated_at`, at the moment `now`.
pub fn freshness(
    cache_control: Option<CacheControl>,
    expires: Option<Expires>,
    validated_at: u64,
    now: u64,
) -> (r: Freshness)
    ensures
        r == evaluate(cache_control, expires, validated_at, now),
{
    let age: u64 = if now >= validated_at {
        now - validated_at
    } else {
        0
    };
    let mut stale = true;
    match cache_control {
        Some(c) => {
            if c.no_store {
                return Freshness::MustNotStore;
            }
            if c.no_cache {
                return Freshness::Stale;
            }
            match c.max_age {
                Some(m) => {
                    if m <= age {
                        return Freshness::Stale;
                    }
                    stale = false;
                },
                None => {},
            }
        },
        None => {},
    }
    match expires {
        Some(Expires::Invalid) => {
            return Freshness::Stale;
        },
        Some(Expires::At(t)) => {
            if t <= now {
                return Freshness::Stale;
            }
            stale = false;
        },
        None => {},
    }
    if stale {
        Freshness::Stale
    } else {
        Freshness::Fresh
    }
}

/// A response whose `Expires` names a moment that has come or passed is
/// never fresh, whatever else it says.
pub proof fn lemma_expired_is_never_fresh(
    cache_control: Option<CacheControl>,
    expires: Option<Expires>,
    validated_at: u64,
    now: u64,
)
    requires
        expires_reached(expires, now),
    ensures
        evaluate(cache_control, expires, validated_at, now) != Freshness::Fresh,
{
}

/// A response whose `max-age` is used up is never fresh, whatever else it says.
pub proof fn lemma_used_up_is_never_fresh(
    cache_control: Option<CacheControl>,
    expires: Option<Expires>,
    validated_at: u64,
    now: u64,
)
    requires
        max_age_used_up(cache_control, validated_at, now),
    ensures
        evaluate(cache_control, expires, validated_at, now) != Freshness::Fresh,
{
}

/// A response that states no lifetime is never fresh.
pub proof fn lemma_no_lifetime_is_never_fresh(
    cache_control: Option<CacheControl>,
    expires: Option<Expires>,
    validated_at: u64,
    now: u64,
)
    requires
        !has_lifetime(cache_control, expires),
    ensures
        evaluate(cache_control, expires, validated_at, now) != Freshness::Fresh,
{
}

/// Once a response is no longer fresh it does not become fresh again as time
/// goes on.
pub proof fn lemma_freshness_does_not_return(
    cache_control: Option<CacheControl>,
    expires: Option<Expires>,
    validated_at: u64,
    now: u64,
    later: u64,
)
    requires
        now <= later,
        evaluate(cache_control, expires, validated_at, now) != Freshness::Fresh,
    ensures
        evaluate(cache_control, expires, validated_at, later) != Freshness::Fresh,
{
}

} // verus!
