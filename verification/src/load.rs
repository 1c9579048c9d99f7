//! Loading a signature file for the platform of the session at hand.

use vstd::prelude::*;
use crate::identity::PlatformIdentity;
use crate::platform::{loaded, PlatformCache};
use crate::store::SignatureStore;

verus! {

/// A payload was malformed or truncated.
#[derive(Clone, Copy, Debug, PartialEq, Eq, Structural)]
pub struct ParseError;

/// Why a load was refused.
#[derive(Clone, Copy, Debug, PartialEq, Eq, Structural)]
pub enum LoadError {
    /// The session has no default platform, so there is no store to load into.
    PlatformUnset,
    /// The payload did not parse.
    Parse,
}

/// The command that loads a signature file.
#[derive(Clone, Copy, Debug, PartialEq, Eq, Structural)]
pub struct LoadSignatureFile;

impl LoadSignatureFile {
    /// What a load returns: a failure without a platform, a failure for a
    /// payload that did not parse, else success.
    pub open spec fn verdict(
        platform: Option<PlatformIdentity>,
        payload: Result<SignatureStore, ParseError>,
    ) -> Result<(), LoadError> {
        match (platform, payload) {
            (None, _) => Err(LoadError::PlatformUnset),
            (Some(_), Err(_)) => Err(LoadError::Parse),
            (Some(_), Ok(_)) => Ok(()),
        }
    }

    /// Loads a parsed payload into the cache, for the session's default
    /// platform. A refused load leaves the cache exactly as it was; a load
    /// that succeeds merges the payload into the platform's store, built
    /// from `defaults` first where the platform had none.
    pub fn action(
        &self,
        cache: &mut PlatformCache,
        platform: Option<PlatformIdentity>,
        defaults: SignatureStore,
        payload: Result<SignatureStore, ParseError>,
    ) -> (result: Result<(), LoadError>)
        ensures
            result == Self::verdict(platform, payload),
            result is Err ==> *final(cache) == *old(cache),
            result is Ok ==> loaded(
                old(cache).stores(),
                platform->Some_0,
                defaults,
                payload->Ok_0,
                final(cache).stores(),
            ),
    {
        match platform {
            None => Err(LoadError::PlatformUnset),
            Some(p) => match payload {
                Err(_) => Err(LoadError::Parse),
                Ok(store) => {
                    cache.load_and_merge(p, defaults, store);
                    Ok(())
                },
            },
        }
    }

    /// The command is available in every session.
    pub fn valid(&self) -> (available: bool)
        ensures
            available,
    {
        true
    }
}

} // verus!
