//! Matching one function: from its representation to its fingerprint, and
//! from the fingerprint to an outcome in the store of its platform.

use vstd::prelude::*;
use crate::identity::{FunctionIdentity, PlatformIdentity, SessionIdentity};
use crate::platform::PlatformCache;
use crate::session::{
    fingerprint_answer, fingerprint_cached, outcome_served, representation_view, SessionCaches,
};
use crate::store::{Outcome, SignatureStore};
use crate::table::offered;

verus! {

/// Why a function was not matched.
#[derive(Clone, Copy, Debug, PartialEq, Eq, Structural)]
pub enum MatchError {
    /// No platform could be resolved, so there is no store to look in.
    PlatformUnset,
    /// The host has no representation of the function.
    UnavailableRepresentation,
}

/// Matches one function of a session. Without a platform the request fails
/// and changes nothing. Else the fingerprint is the cached one, or is
/// computed from the representation; a function with neither fails alone,
/// and again nothing changes. With a fingerprint, the platform's store is
/// the cached one, or `defaults` where none was cached, and the outcome is
/// the cached one, or what that store reports for the fingerprint.
pub fn match_function(
    platforms: &mut PlatformCache,
    caches: &mut SessionCaches,
    platform: Option<PlatformIdentity>,
    defaults: SignatureStore,
    s: SessionIdentity,
    f: FunctionIdentity,
    representation: Option<&[u8]>,
) -> (result: Result<Outcome, MatchError>)
    ensures
        final(caches).signatures == old(caches).signatures,
        match platform {
            None => {
                &&& result == Err::<Outcome, MatchError>(MatchError::PlatformUnset)
                &&& *final(platforms) == *old(platforms)
                &&& *final(caches) == *old(caches)
            },
            Some(p) => {
                let answer = fingerprint_answer(
                    old(caches).fingerprints.entries(),
                    (s, f),
                    representation_view(representation),
                );
                &&& final(caches).fingerprints.entries() == fingerprint_cached(
                    old(caches).fingerprints.entries(),
                    (s, f),
                    answer,
                )
                &&& match answer {
                    Err(_) => {
                        &&& result == Err::<Outcome, MatchError>(
                            MatchError::UnavailableRepresentation,
                        )
                        &&& *final(platforms) == *old(platforms)
                        &&& final(caches).outcomes == old(caches).outcomes
                    },
                    Ok(g) => {
                        let stores = offered(old(platforms).stores(), p, defaults);
                        &&& final(platforms).stores() == stores
                        &&& result is Ok
                        &&& outcome_served(
                            old(caches).outcomes.entries(),
                            (s, f),
                            stores[p].candidates(g),
                            result->Ok_0@,
                            final(caches).outcomes.entries(),
                        )
                    },
                }
            },
        },
{
    match platform {
        None => Err(MatchError::PlatformUnset),
        Some(p) => {
            match caches.fingerprint_for(s, f, representation) {
                Err(_) => Err(MatchError::UnavailableRepresentation),
                Ok(g) => {
                    let store = platforms.get_or_build(p, defaults);
                    Ok(caches.match_for(store, s, f, g))
                },
            }
        },
    }
}

} // verus!
