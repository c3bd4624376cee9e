//! Signature algorithm OIDs (`AlgorithmIdentifier.algorithm`).

use vstd::prelude::*;

verus! {

/// `sha256WithRSAEncryption` — 1.2.840.113549.1.1.11
pub const SHA256_RSA: [u64; 7] = [1, 2, 840, 113549, 1, 1, 11];

/// `sha384WithRSAEncryption` — 1.2.840.113549.1.1.12
pub const SHA384_RSA: [u64; 7] = [1, 2, 840, 113549, 1, 1, 12];

/// `sha512WithRSAEncryption` — 1.2.840.113549.1.1.13
pub const SHA512_RSA: [u64; 7] = [1, 2, 840, 113549, 1, 1, 13];

/// `ecdsa-with-SHA256` — 1.2.840.10045.4.3.2
pub const SHA256_ECDSA: [u64; 7] = [1, 2, 840, 10045, 4, 3, 2];

/// `ecdsa-with-SHA384` — 1.2.840.10045.4.3.3
pub const SHA384_ECDSA: [u64; 7] = [1, 2, 840, 10045, 4, 3, 3];

/// `ecdsa-with-SHA512` — 1.2.840.10045.4.3.4
pub const SHA512_ECDSA: [u64; 7] = [1, 2, 840, 10045, 4, 3, 4];

/// `id-dsa-with-sha256` — 2.16.840.1.101.3.4.3.2
pub const SHA256_DSA: [u64; 9] = [2, 16, 840, 1, 101, 3, 4, 3, 2];

/// `id-Ed25519` — 1.3.101.112 (params absent)
pub const ED25519: [u64; 4] = [1, 3, 101, 112];

/// `id-Ed448` — 1.3.101.113
pub const ED448: [u64; 4] = [1, 3, 101, 113];

} // verus!
