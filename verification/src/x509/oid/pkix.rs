//! Other PKIX OIDs.

use vstd::prelude::*;

verus! {

/// `id-pkix-ocsp` (OCSP response type) — 1.3.6.1.5.5.7.48.1
pub const OCSP: [u64; 9] = [1, 3, 6, 1, 5, 5, 7, 48, 1];

/// `id-pkix-ocsp-basic` (the basic OCSP response type) — 1.3.6.1.5.5.7.48.1.1
pub const OCSP_BASIC: [u64; 10] = [1, 3, 6, 1, 5, 5, 7, 48, 1, 1];

/// `id-ad-ocsp` (AIA access method) — 1.3.6.1.5.5.7.48.1
pub const AD_OCSP: [u64; 9] = [1, 3, 6, 1, 5, 5, 7, 48, 1];

/// `id-ad-caIssuers` (AIA access method) — 1.3.6.1.5.5.7.48.2
pub const AD_CA_ISSUERS: [u64; 9] = [1, 3, 6, 1, 5, 5, 7, 48, 2];

/// `anyPolicy` — 2.5.29.32.0
pub const ANY_POLICY: [u64; 5] = [2, 5, 29, 32, 0];

} // verus!
