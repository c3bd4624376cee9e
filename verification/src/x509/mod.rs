//! X.509v3 certificate parsing, validation, and chain building.

pub mod oid;
pub mod algorithm;
pub mod spki;
pub mod verify;
pub mod time;
pub mod name;
pub mod extensions;
pub mod certificate;
pub mod crl;
pub mod ocsp;
pub mod chain;
