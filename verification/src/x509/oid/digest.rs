//! Hash algorithm OIDs (used by `DigestAlgorithm` and `SignedAttributes`).

use vstd::prelude::*;

verus! {

/// `id-sha256` — 2.16.840.1.101.3.4.2.1
pub const SHA256: [u64; 9] = [2, 16, 840, 1, 101, 3, 4, 2, 1];

/// `id-sha384` — 2.16.840.1.101.3.4.2.2
pub const SHA384: [u64; 9] = [2, 16, 840, 1, 101, 3, 4, 2, 2];

/// `id-sha512` — 2.16.840.1.101.3.4.2.3
pub const SHA512: [u64; 9] = [2, 16, 840, 1, 101, 3, 4, 2, 3];

} // verus!
