//! `AlgorithmIdentifier` and helpers for recognizing signature / public-key
//! algorithms from their OIDs.

use crate::asn1::any::{spec_any_at, Any};
use crate::asn1::decode::{decoded, enter, finish, lemma_expect_tlv_progress, spec_nested_at, spec_prim_at, Decode};
use crate::asn1::length::Length;
use crate::asn1::error::{Error, Result};
use crate::asn1::reader::{Config, Reader};
use crate::asn1::tag::{spec_universal, spec_universal_constructed, Tag};
use crate::asn1::types::{spec_oid_arcs, spec_oid_content, ObjectIdentifier};
use crate::x509::oid::{self, digest, oid_eq, pk, sig, Oid};
use vstd::prelude::*;

verus! {

broadcast use crate::asn1::reader::Reader::lemma_nonneg;

/// `AlgorithmIdentifier` — `SEQUENCE { algorithm OID, parameters ANY OPTIONAL }`.
///
/// The `parameters` field is captured raw (as an [`Any`]) because its meaning
/// depends on `algorithm`. Callers interpret it via the typed accessors.
#[derive(Clone, Copy, Debug, PartialEq, Eq)]
pub struct AlgorithmIdentifier<'a> {
    /// The algorithm OID.
    pub algorithm: ObjectIdentifier<'a>,
    /// Optional parameters (`None` means the field was absent).
    pub parameters: Option<Any<'a>>,
}

/// An `AlgorithmIdentifier` as values: the OID bytes and the parameters
/// element (tag, length, value bytes, whole encoding), if present.
pub type AlgorithmView = (Seq<u8>, Option<(Tag, Length, Seq<u8>, Seq<u8>)>);

impl<'a> View for AlgorithmIdentifier<'a> {
    type V = AlgorithmView;

    open spec fn view(&self) -> AlgorithmView {
        (self.algorithm.0@, match self.parameters {
            Some(p) => Some(p@),
            None => None,
        })
    }
}

/// The content of an `AlgorithmIdentifier` SEQUENCE: the OID, then at most
/// one element of any kind as the parameters, and nothing after it.
pub open spec fn spec_alg_id_body(c: Seq<u8>, config: Config) -> Result<AlgorithmView> {
    match spec_prim_at(c, 0, config, spec_universal(6), |b: Seq<u8>| spec_oid_content(b)) {
        Err(e) => Err(e),
        Ok((oid, p)) => if p >= c.len() {
            Ok((oid, None))
        } else {
            match spec_any_at(c, p, config) {
                Err(e) => Err(e),
                Ok((a, q)) => if q >= c.len() {
                    Ok((oid, Some(a)))
                } else {
                    Err(Error::TrailingData)
                },
            }
        },
    }
}

/// The `AlgorithmIdentifier` at `pos` of `s`, met at nesting `depth`.
#[verifier::opaque]
pub open spec fn spec_alg_id_at(s: Seq<u8>, pos: int, config: Config, depth: int) -> Result<(AlgorithmView, int)> {
    spec_nested_at(s, pos, config, depth, spec_universal_constructed(16), |c: Seq<u8>, d: int| spec_alg_id_body(c, config))
}

/// The arcs of the algorithm OID `alg` equal `expected`.
pub open spec fn spec_alg_is(alg: Seq<u8>, expected: Seq<u64>) -> bool {
    spec_oid_arcs(alg) == Some(expected)
}

/// The digest algorithm a signature algorithm OID implies.
pub open spec fn spec_digest_for(alg: Seq<u8>) -> Option<Seq<u64>> {
    if spec_alg_is(alg, sig::SHA256_RSA@) || spec_alg_is(alg, sig::SHA256_ECDSA@) {
        Some(digest::SHA256@)
    } else if spec_alg_is(alg, sig::SHA384_RSA@) || spec_alg_is(alg, sig::SHA384_ECDSA@) {
        Some(digest::SHA384@)
    } else if spec_alg_is(alg, sig::SHA512_RSA@) || spec_alg_is(alg, sig::SHA512_ECDSA@) {
        Some(digest::SHA512@)
    } else {
        None
    }
}

impl<'a> AlgorithmIdentifier<'a> {
    /// The raw algorithm OID bytes.
    pub fn oid(&self) -> (b: &'a [u8])
        ensures
            b@ == self.algorithm.0@,
    {
        self.algorithm.as_bytes()
    }

    /// Returns `true` if the algorithm OID equals `expected`.
    pub fn is_oid(&self, expected: &[u64]) -> (r: bool)
        ensures
            r == spec_alg_is(self.algorithm.0@, expected@),
    {
        oid_eq(&self.algorithm, expected)
    }

    /// Returns `true` if this identifies an RSA key (`rsaEncryption`).
    pub fn is_rsa_key(&self) -> (r: bool)
        ensures
            r == spec_alg_is(self.algorithm.0@, pk::RSA@),
    {
        self.is_oid(&pk::RSA)
    }

    /// Returns `true` if this identifies an `ecPublicKey`.
    pub fn is_ec_key(&self) -> (r: bool)
        ensures
            r == spec_alg_is(self.algorithm.0@, pk::EC@),
    {
        self.is_oid(&pk::EC)
    }

    /// Returns `true` if this identifies an Ed25519 key.
    pub fn is_ed25519_key(&self) -> (r: bool)
        ensures
            r == spec_alg_is(self.algorithm.0@, pk::ED25519@),
    {
        self.is_oid(&pk::ED25519)
    }

    /// Returns `true` if this is an RSA *signature* scheme (PKCS#1 v1.5).
    pub fn is_rsa_signature(&self) -> (r: bool)
        ensures
            r == (spec_alg_is(self.algorithm.0@, sig::SHA256_RSA@) || spec_alg_is(self.algorithm.0@, sig::SHA384_RSA@)
                || spec_alg_is(self.algorithm.0@, sig::SHA512_RSA@)),
    {
        self.is_oid(&sig::SHA256_RSA) || self.is_oid(&sig::SHA384_RSA) || self.is_oid(&sig::SHA512_RSA)
    }

    /// Returns `true` if this is an ECDSA signature scheme.
    pub fn is_ecdsa_signature(&self) -> (r: bool)
        ensures
            r == (spec_alg_is(self.algorithm.0@, sig::SHA256_ECDSA@) || spec_alg_is(self.algorithm.0@, sig::SHA384_ECDSA@)
                || spec_alg_is(self.algorithm.0@, sig::SHA512_ECDSA@)),
    {
        self.is_oid(&sig::SHA256_ECDSA) || self.is_oid(&sig::SHA384_ECDSA) || self.is_oid(&sig::SHA512_ECDSA)
    }

    /// Returns `true` if this is the Ed25519 signature scheme (`params` absent).
    pub fn is_ed25519_signature(&self) -> (r: bool)
        ensures
            r == spec_alg_is(self.algorithm.0@, sig::ED25519@),
    {
        self.is_oid(&sig::ED25519)
    }

    /// The hash OID implied by this signature algorithm, if it carries one.
    ///
    /// Used when verifying `SignedAttributes` / `SignedData` digest algorithms.
    pub fn digest_oid(&self) -> (r: Option<Oid>)
        ensures
            match spec_digest_for(self.algorithm.0@) {
                Some(d) => r is Some && r->Some_0@ == d,
                None => r is None,
            },
    {
        if self.is_rsa_signature() || self.is_ecdsa_signature() {
            if self.is_oid(&sig::SHA256_RSA) || self.is_oid(&sig::SHA256_ECDSA) {
                return Some(&digest::SHA256);
            }
            if self.is_oid(&sig::SHA384_RSA) || self.is_oid(&sig::SHA384_ECDSA) {
                return Some(&digest::SHA384);
            }
            if self.is_oid(&sig::SHA512_RSA) || self.is_oid(&sig::SHA512_ECDSA) {
                return Some(&digest::SHA512);
            }
        }
        None
    }
}

impl<'a> Decode<'a> for AlgorithmIdentifier<'a> {
    open spec fn spec_decode(s: Seq<u8>, pos: int, config: crate::asn1::reader::Config, depth: int) -> crate::asn1::error::Result<(<Self as View>::V, int)> {
        spec_alg_id_at(s, pos, config, depth)
    }

    fn decode(r: &mut Reader<'a>) -> (res: Result<Self>)
        ensures
            decoded(*old(r), *final(r), res, spec_alg_id_at(old(r).spec_input(), old(r).spec_pos(), old(r).spec_config(), old(r).spec_depth())),
            res matches Ok(v) ==> spec_oid_content(v.algorithm.0@) is Ok,
    {
        proof {
            reveal(spec_alg_id_at);
            lemma_expect_tlv_progress(r.spec_input(), r.spec_pos(), r.spec_config(), spec_universal_constructed(16));
        }
        let mut inner = enter(r, Tag::universal_constructed(Tag::SEQUENCE))?;
        let algorithm = ObjectIdentifier::decode(&mut inner)?;
        let parameters = if inner.is_empty() {
            None
        } else {
            Some(Any::decode(&mut inner)?)
        };
        finish(&inner)?;
        Ok(AlgorithmIdentifier { algorithm, parameters })
    }
}

/// Decode an `AlgorithmIdentifier` from a complete DER `SEQUENCE`.
pub fn decode_algorithm_identifier(bytes: &[u8]) -> (res: Result<AlgorithmIdentifier<'_>>)
    ensures
        res matches Ok(v) ==> spec_oid_content(v.algorithm.0@) is Ok,
        bytes@.len() == 0 ==> res is Err,
{
    let mut r = Reader::new(bytes, Config::der());
    let v = AlgorithmIdentifier::decode(&mut r)?;
    if !r.is_empty() {
        return Err(Error::TrailingData);
    }
    Ok(v)
}

} // verus!
