//! Fingerprints: a fixed-width digest of a function's address-normalised
//! byte encoding.

use vstd::prelude::*;

verus! {

/// The identity of a function's normalised code content.
#[derive(Clone, Copy, Debug, PartialEq, Eq, Structural, Hash)]
pub struct Fingerprint {
    pub value: u64,
}

/// The host could not produce a normalised representation for a function.
#[derive(Clone, Copy, Debug, PartialEq, Eq, Structural)]
pub struct UnavailableRepresentation;

/// The digest of the empty byte sequence.
pub const DIGEST_BASIS: u64 = 0xcbf2_9ce4_8422_2325u64;

/// The multiplier applied after each byte is folded in.
pub const DIGEST_PRIME: u64 = 0x0000_0100_0000_01b3u64;

/// Folds one byte into a running digest: xor, then multiply modulo 2^64.
pub open spec fn digest_step(state: u64, byte: u8) -> u64 {
    (state ^ (byte as u64)).wrapping_mul(DIGEST_PRIME)
}

/// The digest of a byte sequence: the bytes folded in from first to last,
/// starting from `DIGEST_BASIS`.
pub open spec fn digest(bytes: Seq<u8>) -> u64
    decreases bytes.len(),
{
    if bytes.len() == 0 {
        DIGEST_BASIS
    } else {
        digest_step(digest(bytes.drop_last()), bytes.last())
    }
}

/// Computes `digest` of a byte slice.
pub fn digest_bytes(bytes: &[u8]) -> (result: u64)
    ensures
        result == digest(bytes@),
{
    let mut state: u64 = DIGEST_BASIS;
    let mut i: usize = 0;
    while i < bytes.len()
        invariant
            i <= bytes.len(),
            state == digest(bytes@.take(i as int)),
        decreases bytes.len() - i,
    {
        proof {
            assert(bytes@.take(i + 1).drop_last() =~= bytes@.take(i as int));
        }
        state = (state ^ (bytes[i] as u64)).wrapping_mul(DIGEST_PRIME);
        i += 1;
    }
    proof {
        assert(bytes@.take(bytes.len() as int) =~= bytes@);
    }
    state
}

/// The fingerprint of a function, given the normalised representation that
/// the host produced for it, if it produced one.
pub open spec fn fingerprint_of(representation: Option<Seq<u8>>) -> Result<
    Fingerprint,
    UnavailableRepresentation,
> {
    match representation {
        Some(bytes) => Ok(Fingerprint { value: digest(bytes) }),
        None => Err(UnavailableRepresentation),
    }
}

/// Computes the fingerprint of a function from its normalised representation.
/// The result depends on the bytes alone; a missing representation is the
/// only failure.
pub fn compute_fingerprint(representation: Option<&[u8]>) -> (result: Result<
    Fingerprint,
    UnavailableRepresentation,
>)
    ensures
        result == fingerprint_of(
            match representation {
                Some(bytes) => Some(bytes@),
                None => None,
            },
        ),
{
    match representation {
        Some(bytes) => Ok(Fingerprint { value: digest_bytes(bytes) }),
        None => Err(UnavailableRepresentation),
    }
}

} // verus!
