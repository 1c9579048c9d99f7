//! Function-signature matching: content-derived fingerprints, a signature
//! store that merges layers of signature data without losing candidates,
//! and the caches that memoise work per platform and per analysis session.

pub mod fingerprint;
pub mod identity;
pub mod load;
pub mod matching;
pub mod platform;
pub mod record;
pub mod session;
pub mod store;
pub mod table;
