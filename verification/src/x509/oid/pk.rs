//! All known *public-key* algorithm OIDs (used to gate key handling).

use vstd::prelude::*;

verus! {

/// `rsaEncryption` — 1.2.840.113549.1.1.1
pub const RSA: [u64; 7] = [1, 2, 840, 113549, 1, 1, 1];

/// `id-RSASSA-PSS` — 1.2.840.113549.1.1.10
pub const RSA_PSS: [u64; 7] = [1, 2, 840, 113549, 1, 1, 10];

/// `id-dsa` — 1.2.840.10040.4.1
pub const DSA: [u64; 6] = [1, 2, 840, 10040, 4, 1];

/// `ecPublicKey` — 1.2.840.10045.2.1
pub const EC: [u64; 6] = [1, 2, 840, 10045, 2, 1];

/// `id-Ed25519` — 1.3.101.112
pub const ED25519: [u64; 4] = [1, 3, 101, 112];

/// `id-Ed448` — 1.3.101.113
pub const ED448: [u64; 4] = [1, 3, 101, 113];

} // verus!
