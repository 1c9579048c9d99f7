//! Keys that stand for objects owned by the host: a platform, an analysis
//! session, a function inside a session, a type definition.

use vstd::prelude::*;
use vstd::string::StringSliceAdditionalSpecFns;
use crate::fingerprint::{digest, digest_bytes};

verus! {

/// The identity of a type definition.
#[derive(Clone, Copy, Debug, PartialEq, Eq, Structural, Hash)]
pub struct TypeIdentity {
    pub value: u64,
}

/// A key for a host platform, derived from the platform's name.
#[derive(Clone, Copy, Debug, PartialEq, Eq, Structural, Hash)]
pub struct PlatformIdentity {
    pub value: u64,
}

/// A key for one open analysis session.
#[derive(Clone, Copy, Debug, PartialEq, Eq, Structural, Hash)]
pub struct SessionIdentity {
    pub value: u64,
}

/// A key for a function inside its session.
#[derive(Clone, Copy, Debug, PartialEq, Eq, Structural, Hash)]
pub struct FunctionIdentity {
    pub value: u64,
}

impl PlatformIdentity {
    /// The key of the platform with the given name: the digest of the name's
    /// bytes, so that equal names give equal keys in every process.
    pub fn from_name(name: &str) -> (result: PlatformIdentity)
        ensures
            result.value == digest(name.spec_bytes()),
    {
        PlatformIdentity { value: digest_bytes(name.as_bytes()) }
    }
}

} // verus!
