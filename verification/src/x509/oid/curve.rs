//! Named curve OIDs (domain parameters for `ecPublicKey`).

use vstd::prelude::*;

verus! {

/// `prime256v1` / P-256 — 1.2.840.10045.3.1.7
pub const P256: [u64; 7] = [1, 2, 840, 10045, 3, 1, 7];

/// `secp384r1` / P-384 — 1.3.132.0.34
pub const P384: [u64; 5] = [1, 3, 132, 0, 34];

/// `secp521r1` / P-521 — 1.3.132.0.35
pub const P521: [u64; 5] = [1, 3, 132, 0, 35];

/// `secp256k1` — 1.3.132.0.10
pub const SECP256K1: [u64; 5] = [1, 3, 132, 0, 10];

} // verus!
