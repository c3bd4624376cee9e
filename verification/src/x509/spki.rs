//! `SubjectPublicKeyInfo` (SPKI) decoding and per-algorithm key accessors.

use crate::asn1::decode::{decoded, enter, finish, lemma_expect_tlv_progress, spec_nested_at, spec_prim_at, Decode};
use crate::asn1::error::{Error, Result};
use crate::asn1::reader::{spec_default_config, Config, EncodingRule, Reader};
use crate::asn1::tag::{spec_universal, spec_universal_constructed, Tag};
use crate::asn1::types::{spec_bitstring_content, spec_integer_content, BitString, Integer};
use crate::x509::algorithm::{spec_alg_id_at, AlgorithmIdentifier, AlgorithmView};
use vstd::prelude::*;

verus! {

broadcast use crate::asn1::reader::Reader::lemma_nonneg;

/// `SubjectPublicKeyInfo` — `SEQUENCE { algorithm AlgorithmIdentifier,
/// subjectPublicKey BIT STRING }`.
#[derive(Clone, Copy, Debug, PartialEq, Eq)]
pub struct SubjectPublicKeyInfo<'a> {
    /// The key's algorithm (and any parameters, e.g. the EC named curve).
    pub algorithm: AlgorithmIdentifier<'a>,
    /// The subject public key, as a `BIT STRING`.
    pub subject_public_key: BitString<'a>,
}

impl<'a> View for SubjectPublicKeyInfo<'a> {
    /// The algorithm and the key BIT STRING (unused bits, data).
    type V = (AlgorithmView, (u8, Seq<u8>));

    open spec fn view(&self) -> (AlgorithmView, (u8, Seq<u8>)) {
        (self.algorithm@, self.subject_public_key@)
    }
}

/// The content of a `SubjectPublicKeyInfo` SEQUENCE read at nesting
/// `depth`: the algorithm, the key BIT STRING, and nothing after them.
pub open spec fn spec_spki_body(c: Seq<u8>, config: Config, depth: int) -> Result<(AlgorithmView, (u8, Seq<u8>))> {
    match spec_alg_id_at(c, 0, config, depth) {
        Err(e) => Err(e),
        Ok((alg, p)) => match spec_prim_at(c, p, config, spec_universal(3), |b: Seq<u8>| spec_bitstring_content(b)) {
            Err(e) => Err(e),
            Ok((key, q)) => if q < c.len() {
                Err(Error::TrailingData)
            } else {
                Ok((alg, key))
            },
        },
    }
}

/// The `SubjectPublicKeyInfo` at `pos` of `s`, met at nesting `depth`.
#[verifier::opaque]
pub open spec fn spec_spki_at(s: Seq<u8>, pos: int, config: Config, depth: int) -> Result<((AlgorithmView, (u8, Seq<u8>)), int)> {
    spec_nested_at(s, pos, config, depth, spec_universal_constructed(16), |c: Seq<u8>, d: int| spec_spki_body(c, config, d))
}

/// The content of an `RSAPublicKey` SEQUENCE: two INTEGERs and nothing
/// after them.
pub open spec fn spec_rsa_key_body(c: Seq<u8>, config: Config) -> Result<(Seq<u8>, Seq<u8>)> {
    match spec_prim_at(c, 0, config, spec_universal(2), |b: Seq<u8>| spec_integer_content(b, config.rule)) {
        Err(e) => Err(e),
        Ok((n, p)) => match spec_prim_at(c, p, config, spec_universal(2), |b: Seq<u8>| spec_integer_content(b, config.rule)) {
            Err(e) => Err(e),
            Ok((e, q)) => if q < c.len() {
                Err(Error::TrailingData)
            } else {
                Ok((n, e))
            },
        },
    }
}

/// The `RSAPublicKey` at `pos` of `s`, met at nesting `depth`.
pub open spec fn spec_rsa_key_at(s: Seq<u8>, pos: int, config: Config, depth: int) -> Result<((Seq<u8>, Seq<u8>), int)> {
    spec_nested_at(s, pos, config, depth, spec_universal_constructed(16), |c: Seq<u8>, d: int| spec_rsa_key_body(c, config))
}

/// The `RSAPublicKey` that fills `data`, read under DER.
pub open spec fn spec_rsa_key_der(data: Seq<u8>) -> Result<(Seq<u8>, Seq<u8>)> {
    match spec_rsa_key_at(data, 0, spec_default_config(EncodingRule::Der), 0) {
        Err(e) => Err(e),
        Ok((v, n)) => if n < data.len() {
            Err(Error::TrailingData)
        } else {
            Ok(v)
        },
    }
}

impl<'a> SubjectPublicKeyInfo<'a> {
    /// The raw key material bytes (the `BIT STRING` data octets).
    pub fn key_data(&self) -> (b: &'a [u8])
        ensures
            b@ == self.subject_public_key.data@,
    {
        self.subject_public_key.data
    }

    /// Decode the key as an RSA public key (`RSAPublicKey` SEQUENCE, DER,
    /// filling the key data).
    pub fn rsa_public_key(&self) -> (res: Result<RsaPublicKey<'a>>)
        ensures
            self.subject_public_key.data@.len() == 0 ==> res is Err,
            match spec_rsa_key_der(self.subject_public_key.data@) {
                Ok(v) => res is Ok && res->Ok_0@ == v,
                Err(e) => res == Err::<RsaPublicKey<'a>, Error>(e),
            },
            res matches Ok(k) ==> spec_integer_content(k.modulus.0@, EncodingRule::Der) is Ok
                && spec_integer_content(k.public_exponent.0@, EncodingRule::Der) is Ok,
    {
        let mut r = Reader::new(self.key_data(), Config::der());
        let k = RsaPublicKey::decode(&mut r)?;
        if !r.is_empty() {
            return Err(Error::TrailingData);
        }
        Ok(k)
    }

    /// Return the raw EC point bytes (the `BIT STRING` data) for `ecPublicKey`.
    pub fn ec_point(&self) -> (b: &'a [u8])
        ensures
            b@ == self.subject_public_key.data@,
    {
        self.key_data()
    }

    /// Return the raw Ed25519 / Ed448 public-key bytes (the `BIT STRING` data).
    pub fn edwards_key(&self) -> (b: &'a [u8])
        ensures
            b@ == self.subject_public_key.data@,
    {
        self.key_data()
    }
}

impl<'a> Decode<'a> for SubjectPublicKeyInfo<'a> {
    open spec fn spec_decode(s: Seq<u8>, pos: int, config: crate::asn1::reader::Config, depth: int) -> crate::asn1::error::Result<(<Self as View>::V, int)> {
        spec_spki_at(s, pos, config, depth)
    }

    fn decode(r: &mut Reader<'a>) -> (res: Result<Self>)
        ensures
            decoded(*old(r), *final(r), res, spec_spki_at(old(r).spec_input(), old(r).spec_pos(), old(r).spec_config(), old(r).spec_depth())),
    {
        proof {
            reveal(spec_spki_at);
            lemma_expect_tlv_progress(r.spec_input(), r.spec_pos(), r.spec_config(), spec_universal_constructed(16));
        }
        let mut inner = enter(r, Tag::universal_constructed(Tag::SEQUENCE))?;
        let algorithm = AlgorithmIdentifier::decode(&mut inner)?;
        let subject_public_key = BitString::decode(&mut inner)?;
        finish(&inner)?;
        Ok(SubjectPublicKeyInfo { algorithm, subject_public_key })
    }
}

/// `RSAPublicKey` — `SEQUENCE { modulus INTEGER, publicExponent INTEGER }`.
#[derive(Clone, Copy, Debug, PartialEq, Eq)]
pub struct RsaPublicKey<'a> {
    /// The RSA modulus *n*.
    pub modulus: Integer<'a>,
    /// The RSA public exponent *e*.
    pub public_exponent: Integer<'a>,
}

impl<'a> View for RsaPublicKey<'a> {
    /// The modulus and exponent bytes.
    type V = (Seq<u8>, Seq<u8>);

    open spec fn view(&self) -> (Seq<u8>, Seq<u8>) {
        (self.modulus.0@, self.public_exponent.0@)
    }
}

impl<'a> Decode<'a> for RsaPublicKey<'a> {
    open spec fn spec_decode(s: Seq<u8>, pos: int, config: crate::asn1::reader::Config, depth: int) -> crate::asn1::error::Result<(<Self as View>::V, int)> {
        spec_rsa_key_at(s, pos, config, depth)
    }

    fn decode(r: &mut Reader<'a>) -> (res: Result<Self>)
        ensures
            decoded(*old(r), *final(r), res, spec_rsa_key_at(old(r).spec_input(), old(r).spec_pos(), old(r).spec_config(), old(r).spec_depth())),
            res matches Ok(k) ==> spec_integer_content(k.modulus.0@, old(r).spec_config().rule) is Ok
                && spec_integer_content(k.public_exponent.0@, old(r).spec_config().rule) is Ok,
    {
        proof { lemma_expect_tlv_progress(r.spec_input(), r.spec_pos(), r.spec_config(), spec_universal_constructed(16)); }
        let mut inner = enter(r, Tag::universal_constructed(Tag::SEQUENCE))?;
        let modulus = Integer::decode(&mut inner)?;
        let public_exponent = Integer::decode(&mut inner)?;
        finish(&inner)?;
        Ok(RsaPublicKey { modulus, public_exponent })
    }
}

} // verus!
