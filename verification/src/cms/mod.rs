//! Cryptographic Message Syntax (PKCS#7 / CMS, RFC 5652).
//!
//! The CMS `ContentInfo` family (`SignedData`, `EnvelopedData`,
//! `DigestedData`, `EncryptedData`) on top of the codec, plus PKCS#7 v1.5
//! (RFC 2315) legacy compatibility. All cryptographic math is delegated to a
//! pluggable backend (the same
//! [`SignatureVerifier`](crate::x509::verify::SignatureVerifier) trait the
//! X.509 layer uses).

pub mod error;
pub mod oid;
pub mod algorithm;
pub mod attributes;
pub mod content_info;
pub mod cert;
pub mod signer_info;
pub mod signed_data;
pub mod verify;
pub mod recipient_info;
pub mod enveloped_data;
