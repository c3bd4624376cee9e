//! Key-usage bit positions (per RFC 5280 §4.2.1.3, bit 0 = most significant).

use vstd::prelude::*;

verus! {

/// `digitalSignature` (bit 0).
pub const DIGITAL_SIGNATURE: u8 = 0;

/// `nonRepudiation` (bit 1).
pub const NON_REPUDIATION: u8 = 1;

/// `keyEncipherment` (bit 2).
pub const KEY_ENCIPHERMENT: u8 = 2;

/// `dataEncipherment` (bit 3).
pub const DATA_ENCIPHERMENT: u8 = 3;

/// `keyAgreement` (bit 4).
pub const KEY_AGREEMENT: u8 = 4;

/// `keyCertSign` (bit 5).
pub const KEY_CERT_SIGN: u8 = 5;

/// `cRLSign` (bit 6).
pub const CRL_SIGN: u8 = 6;

/// `encipherOnly` (bit 7).
pub const ENCIPHER_ONLY: u8 = 7;

/// `decipherOnly` (bit 8).
pub const DECIPHER_ONLY: u8 = 8;

} // verus!
