//! CMS-specific error type.
//!
//! Wraps the lower-level codec [`Error`](crate::asn1::error::Error) and adds
//! failures specific to Cryptographic Message Syntax processing (unknown content
//! types, unsupported versions/algorithms, signature mismatches).

use crate::asn1::error::Error as CoreError;
use vstd::prelude::*;
use vstd::std_specs::convert::FromSpecImpl;

verus! {

/// Result alias used throughout the CMS layer.
pub type Result<T> = core::result::Result<T, Error>;

/// Errors produced while parsing or verifying CMS/PKCS#7 messages.
#[derive(Clone, PartialEq, Eq, Debug)]
pub enum Error {
    /// An error from the underlying ASN.1 codec.
    Asn1(CoreError),
    /// The top-level content type was not a recognised CMS/PKCS#7 type.
    UnsupportedContentType,
    /// A structure carried a version number this implementation cannot handle.
    UnsupportedVersion,
    /// An algorithm OID was not recognised or is not supported here.
    UnsupportedAlgorithm,
    /// A `SignerInfo` was missing the `signedAttrs` required to verify it.
    MissingSignedAttributes,
    /// The encapsulated content required to verify a signature was absent
    /// (detached signature with no external content supplied).
    MissingContent,
    /// The `message-digest` signed attribute did not match the computed digest.
    MessageDigestMismatch,
    /// The cryptographic backend reported an invalid signature.
    VerificationFailed,
    /// The wire structure was not arranged as RFC 5652 / RFC 2315 require.
    UnexpectedStructure,
}

/// The human-readable description of a CMS error.
pub open spec fn cms_error_text(e: Error) -> Seq<char> {
    match e {
        Error::Asn1(c) => "ASN.1 error: "@ + crate::asn1::error::error_text(c),
        Error::UnsupportedContentType => "unsupported CMS content type"@,
        Error::UnsupportedVersion => "unsupported CMS version"@,
        Error::UnsupportedAlgorithm => "unsupported algorithm"@,
        Error::MissingSignedAttributes => "signer info is missing signedAttrs"@,
        Error::MissingContent => "encapsulated content is required but absent"@,
        Error::MessageDigestMismatch => "message-digest attribute mismatch"@,
        Error::VerificationFailed => "signature verification failed"@,
        Error::UnexpectedStructure => "unexpected CMS structure"@,
    }
}

impl Error {
    /// The human-readable description of this error.
    pub fn to_string(&self) -> (s: String)
        ensures
            s@ == cms_error_text(*self),
    {
        match self {
            Error::Asn1(c) => {
                let mut s = String::from_str("ASN.1 error: ");
                let t = c.to_string();
                crate::asn1::util::push_str(&mut s, t.as_str());
                s
            },
            Error::UnsupportedContentType => String::from_str("unsupported CMS content type"),
            Error::UnsupportedVersion => String::from_str("unsupported CMS version"),
            Error::UnsupportedAlgorithm => String::from_str("unsupported algorithm"),
            Error::MissingSignedAttributes => String::from_str("signer info is missing signedAttrs"),
            Error::MissingContent => String::from_str("encapsulated content is required but absent"),
            Error::MessageDigestMismatch => String::from_str("message-digest attribute mismatch"),
            Error::VerificationFailed => String::from_str("signature verification failed"),
            Error::UnexpectedStructure => String::from_str("unexpected CMS structure"),
        }
    }
}

/// The codec error a CMS error becomes: its own codec error, or a generic
/// processing error.
pub open spec fn spec_to_core(e: Error) -> CoreError {
    match e {
        Error::Asn1(c) => c,
        _ => CoreError::Custom("cms processing error"),
    }
}

impl From<CoreError> for Error {
    fn from(e: CoreError) -> (r: Self) {
        Error::Asn1(e)
    }
}

impl FromSpecImpl<CoreError> for Error {
    open spec fn obeys_from_spec() -> bool {
        true
    }

    open spec fn from_spec(e: CoreError) -> Self {
        Error::Asn1(e)
    }
}

impl From<Error> for CoreError {
    fn from(e: Error) -> (r: Self) {
        match e {
            Error::Asn1(c) => c,
            _ => CoreError::Custom("cms processing error"),
        }
    }
}

impl FromSpecImpl<Error> for CoreError {
    open spec fn obeys_from_spec() -> bool {
        true
    }

    open spec fn from_spec(e: Error) -> Self {
        spec_to_core(e)
    }
}

} // verus!
