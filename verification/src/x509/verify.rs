//! Pluggable cryptographic backend for signature verification and hashing.
//!
//! The X.509 and CMS layers contain **no cryptographic primitives** of their
//! own: all signature math is delegated to a caller-supplied
//! [`SignatureVerifier`] implementation (for example one backed by `ring`,
//! `RustCrypto`, or a hardware token).

use vstd::prelude::*;

verus! {

/// Errors reported by a [`SignatureVerifier`] backend.
#[derive(Clone, Copy, PartialEq, Eq, Debug, Structural)]
pub enum VerifyError {
    /// The backend does not implement the requested algorithm.
    UnsupportedAlgorithm,
    /// The supplied key material could not be parsed.
    InvalidKey,
    /// The signature did not verify (cryptographically invalid).
    InvalidSignature,
    /// The backend encountered an internal error.
    Internal,
}

/// The human-readable description of a backend error.
pub open spec fn verify_error_text(e: VerifyError) -> Seq<char> {
    match e {
        VerifyError::UnsupportedAlgorithm => "unsupported algorithm"@,
        VerifyError::InvalidKey => "invalid key material"@,
        VerifyError::InvalidSignature => "invalid signature"@,
        VerifyError::Internal => "internal crypto backend error"@,
    }
}

impl VerifyError {
    /// The human-readable description of this error.
    pub fn to_string(&self) -> (s: &'static str)
        ensures
            s@ == verify_error_text(*self),
    {
        match self {
            VerifyError::UnsupportedAlgorithm => "unsupported algorithm",
            VerifyError::InvalidKey => "invalid key material",
            VerifyError::InvalidSignature => "invalid signature",
            VerifyError::Internal => "internal crypto backend error",
        }
    }
}

/// A pluggable signature-verification and digest backend.
///
/// All algorithm selection is by raw OID bytes (the on-wire encoding of an
/// `OBJECT IDENTIFIER`), so the backend is not tied to any particular registry.
/// A backend that declares [`SignatureVerifier::obeys_backend_spec`] answers
/// as its [`SignatureVerifier::spec_digest`] and
/// [`SignatureVerifier::spec_verify_signature`] say, a function of the
/// arguments alone; of any other backend nothing is assumed.
pub trait SignatureVerifier {
    /// Whether this backend answers as its spec functions say.
    open spec fn obeys_backend_spec() -> bool {
        false
    }

    /// The digest this backend gives of `data` under `alg_oid`.
    open spec fn spec_digest(&self, alg_oid: Seq<u8>, data: Seq<u8>) -> core::result::Result<Seq<u8>, VerifyError> {
        arbitrary()
    }

    /// This backend's answer on whether `signature` over `message` verifies.
    open spec fn spec_verify_signature(
        &self,
        sig_alg_oid: Seq<u8>,
        key_alg_oid: Seq<u8>,
        public_key: Seq<u8>,
        message: Seq<u8>,
        signature: Seq<u8>,
    ) -> core::result::Result<bool, VerifyError> {
        arbitrary()
    }

    /// Compute the digest of `data` using the algorithm identified by `alg_oid`
    /// (e.g. `id-sha256`). Returns the raw digest bytes.
    fn digest(&self, alg_oid: &[u8], data: &[u8]) -> (r: core::result::Result<Vec<u8>, VerifyError>)
        ensures
            Self::obeys_backend_spec() ==> match self.spec_digest(alg_oid@, data@) {
                Ok(d) => r is Ok && r->Ok_0@ == d,
                Err(e) => r == Err::<Vec<u8>, VerifyError>(e),
            },
    ;

    /// Verify `signature` over `message` with the signature scheme
    /// `sig_alg_oid`, the key algorithm `key_alg_oid` and the raw key bits
    /// `public_key`.
    fn verify_signature(
        &self,
        sig_alg_oid: &[u8],
        key_alg_oid: &[u8],
        public_key: &[u8],
        message: &[u8],
        signature: &[u8],
    ) -> (r: core::result::Result<bool, VerifyError>)
        ensures
            Self::obeys_backend_spec() ==> r == self.spec_verify_signature(
                sig_alg_oid@,
                key_alg_oid@,
                public_key@,
                message@,
                signature@,
            ),
    ;
}

} // verus!
