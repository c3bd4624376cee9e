//! PKIX *extension* OIDs (X.509 v3 certificate extensions).

use vstd::prelude::*;

verus! {

/// `id-ce-basicConstraints` — 2.5.29.19
pub const BASIC_CONSTRAINTS: [u64; 4] = [2, 5, 29, 19];

/// `id-ce-keyUsage` — 2.5.29.15
pub const KEY_USAGE: [u64; 4] = [2, 5, 29, 15];

/// `id-ce-extKeyUsage` — 2.5.29.37
pub const EXT_KEY_USAGE: [u64; 4] = [2, 5, 29, 37];

/// `id-ce-subjectAltName` — 2.5.29.17
pub const SUBJECT_ALT_NAME: [u64; 4] = [2, 5, 29, 17];

/// `id-ce-issuerAltName` — 2.5.29.18
pub const ISSUER_ALT_NAME: [u64; 4] = [2, 5, 29, 18];

/// `id-ce-subjectKeyIdentifier` — 2.5.29.14
pub const SUBJECT_KEY_IDENTIFIER: [u64; 4] = [2, 5, 29, 14];

/// `id-ce-authorityKeyIdentifier` — 2.5.29.35
pub const AUTHORITY_KEY_IDENTIFIER: [u64; 4] = [2, 5, 29, 35];

/// `id-ce-cRLDistributionPoints` — 2.5.29.31
pub const CRL_DISTRIBUTION_POINTS: [u64; 4] = [2, 5, 29, 31];

/// `id-pe-authorityInfoAccess` — 1.3.6.1.5.5.7.1.1
pub const AUTHORITY_INFO_ACCESS: [u64; 9] = [1, 3, 6, 1, 5, 5, 7, 1, 1];

/// `id-ce-certificatePolicies` — 2.5.29.32
pub const CERTIFICATE_POLICIES: [u64; 4] = [2, 5, 29, 32];

/// `id-ce-policyConstraints` — 2.5.29.36
pub const POLICY_CONSTRAINTS: [u64; 4] = [2, 5, 29, 36];

/// `id-ce-nameConstraints` — 2.5.29.30
pub const NAME_CONSTRAINTS: [u64; 4] = [2, 5, 29, 30];

/// `id-ce-inhibitAnyPolicy` — 2.5.29.54
pub const INHIBIT_ANY_POLICY: [u64; 4] = [2, 5, 29, 54];

/// `id-ce-freshestCRL` — 2.5.29.46
pub const FRESHEST_CRL: [u64; 4] = [2, 5, 29, 46];

/// `id-ce-cRLNumber` — 2.5.29.20
pub const CRL_NUMBER: [u64; 4] = [2, 5, 29, 20];

/// `id-ce-deltaCRLIndicator` — 2.5.29.27
pub const DELTA_CRL_INDICATOR: [u64; 4] = [2, 5, 29, 27];

/// `id-ce-issuingDistributionPoint` — 2.5.29.28
pub const ISSUING_DISTRIBUTION_POINT: [u64; 4] = [2, 5, 29, 28];

} // verus!
