//! X.520 `AttributeType` OIDs used inside `RelativeDistinguishedName`.

use vstd::prelude::*;

verus! {

/// `id-at-commonName` (CN) — 2.5.4.3
pub const COMMON_NAME: [u64; 4] = [2, 5, 4, 3];

/// `id-at-surname` (SN) — 2.5.4.4
pub const SURNAME: [u64; 4] = [2, 5, 4, 4];

/// `id-at-serialNumber` — 2.5.4.5
pub const SERIAL_NUMBER: [u64; 4] = [2, 5, 4, 5];

/// `id-at-countryName` (C) — 2.5.4.6
pub const COUNTRY: [u64; 4] = [2, 5, 4, 6];

/// `id-at-localityName` (L) — 2.5.4.7
pub const LOCALITY: [u64; 4] = [2, 5, 4, 7];

/// `id-at-stateOrProvinceName` (ST) — 2.5.4.8
pub const STATE: [u64; 4] = [2, 5, 4, 8];

/// `id-at-organizationName` (O) — 2.5.4.10
pub const ORGANIZATION: [u64; 4] = [2, 5, 4, 10];

/// `id-at-organizationalUnitName` (OU) — 2.5.4.11
pub const ORG_UNIT: [u64; 4] = [2, 5, 4, 11];

/// `id-at-title` — 2.5.4.12
pub const TITLE: [u64; 4] = [2, 5, 4, 12];

/// `id-at-pseudonym` — 2.5.4.65
pub const PSEUDONYM: [u64; 4] = [2, 5, 4, 65];

/// `pkcs-9 emailAddress` — 1.2.840.113549.1.9.1
pub const EMAIL: [u64; 7] = [1, 2, 840, 113549, 1, 9, 1];

} // verus!
