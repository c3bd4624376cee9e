//! `SignerInfo` — the per-signer signature metadata inside `SignedData`.
//!
//! ```asn1
//! SignerInfo ::= SEQUENCE {
//!     version            CMSVersion,
//!     sid                SignerIdentifier,
//!     digestAlgorithm    DigestAlgorithmIdentifier,
//!     signedAttrs   [0] IMPLICIT SET OF Attribute OPTIONAL,
//!     signatureAlgorithm SignatureAlgorithmIdentifier,
//!     signature          SignatureValue,
//!     unsignedAttrs [1] IMPLICIT SET OF Attribute OPTIONAL }
//!
//! SignerIdentifier ::= CHOICE {
//!     issuerAndSerialNumber IssuerAndSerialNumber,
//!     subjectKeyIdentifier  [0] IMPLICIT SubjectKeyIdentifier }
//! ```

use crate::asn1::decode::{decoded, enter, lemma_expect_tlv_progress, spec_nested_at, spec_prim_at, Decode};
use crate::asn1::error::{Error as CoreError, Result as CoreResult};
use crate::asn1::length::{spec_encode_length, Length};
use crate::asn1::reader::{spec_default_config, spec_read_tlv, Config, EncodingRule, Reader};
use crate::asn1::tag::{spec_context, spec_universal, spec_universal_constructed, Class, Tag};
use crate::asn1::types::{spec_as_u64, spec_integer_content, Integer, OctetString};
use crate::asn1::util::{bytes_eq, constant_time_eq};
use crate::asn1::writer::Writer;
use crate::cms::algorithm::AlgorithmIdentifier;
use crate::cms::attributes::{decode_attribute_set, spec_attribute_set, Attribute};
use crate::cms::cert::CertFields;
use crate::cms::error::{spec_to_core, Error, Result};
use crate::x509::algorithm::{spec_alg_id_at, AlgorithmView};
use vstd::prelude::*;

verus! {

broadcast use crate::asn1::reader::Reader::lemma_nonneg;

/// How a `SignerInfo` identifies its signing certificate.
#[derive(Clone, Copy, PartialEq, Eq, Debug)]
pub enum SignerIdentifier<'a> {
    /// An `IssuerAndSerialNumber` (CMS `SignedData` version 1).
    IssuerAndSerialNumber {
        /// The issuer `Name` TLV (tag + length + value).
        issuer: &'a [u8],
        /// The raw `serialNumber` INTEGER bytes.
        serial: &'a [u8],
    },
    /// A `SubjectKeyIdentifier` (CMS `SignedData` version 3).
    SubjectKeyIdentifier(&'a [u8]),
}

impl<'a> View for SignerIdentifier<'a> {
    /// Whether the signer is named by key identifier, then the key identifier
    /// (or the issuer TLV) and the serial bytes (empty for a key identifier).
    type V = (bool, Seq<u8>, Seq<u8>);

    open spec fn view(&self) -> (bool, Seq<u8>, Seq<u8>) {
        match *self {
            SignerIdentifier::SubjectKeyIdentifier(id) => (true, id@, Seq::empty()),
            SignerIdentifier::IssuerAndSerialNumber { issuer, serial } => (false, issuer@, serial@),
        }
    }
}

/// The `signedAttrs` of a `SignerInfo`: the `SET OF Attribute` payload plus the
/// raw bytes needed to re-encode it as a canonical `SET` for signature
/// verification (signatures are over the `SET`, not the `[0]` implicit tag).
#[derive(Clone, Debug)]
pub struct SignedAttributes<'a> {
    /// The `SET OF Attribute` content bytes (between the `SET` tag/length).
    pub raw: &'a [u8],
    /// The decoded attributes.
    pub attributes: Vec<Attribute<'a>>,
}

/// The first index of `attrs` whose type OID bytes are `oid`.
pub open spec fn spec_first_attr(attrs: Seq<Attribute>, oid: Seq<u8>) -> Option<int> {
    if exists|i: int| 0 <= i < attrs.len() && attrs[i].type_id.0@ == oid {
        Some(choose|i: int| 0 <= i < attrs.len() && attrs[i].type_id.0@ == oid && forall|j: int| 0 <= j < i ==> #[trigger] attrs[j].type_id.0@ != oid)
    } else {
        None
    }
}

impl<'a> SignedAttributes<'a> {
    /// Re-encode the attributes as a canonical DER `SET` (tag `0x31`), which is
    /// the exact byte string a signature is computed over when `signedAttrs`
    /// are present.
    pub fn der(&self) -> (out: Vec<u8>)
        requires
            self.raw@.len() < 0x100_0000_0000,
        ensures
            out@ == seq![0x31u8] + spec_encode_length(Length::Definite(self.raw@.len() as usize)) + self.raw@,
    {
        let mut w = Writer::new_vec();
        let set_tag = Tag::universal_constructed(Tag::SET);
        let b = set_tag.to_byte();
        let _ = w.write_u8(b);
        let _ = w.write_length(Length::Definite(self.raw.len()));
        let _ = w.write_bytes(self.raw);
        let out = w.into_vec();
        proof {
            assert(seq![b] == crate::asn1::tag::spec_encode_tag(set_tag));
            assert(seq![b][0] == b);
            assert(crate::asn1::tag::spec_encode_tag(set_tag)[0] == 0x31);
        }
        assert(out@ =~= seq![0x31u8] + spec_encode_length(Length::Definite(self.raw@.len() as usize)) + self.raw@);
        out
    }

    /// Find a signed attribute by OID bytes.
    pub fn find(&self, oid: &[u8]) -> (r: Option<&Attribute<'a>>)
        ensures
            match spec_first_attr(self.attributes@, oid@) {
                Some(i) => r is Some && *r->Some_0 == self.attributes@[i],
                None => r is None,
            },
    {
        let mut i: usize = 0;
        while i < self.attributes.len()
            invariant
                i <= self.attributes@.len(),
                forall|j: int| 0 <= j < i ==> #[trigger] self.attributes@[j].type_id.0@ != oid@,
            decreases self.attributes@.len() - i,
        {
            if bytes_eq(self.attributes[i].type_id.0, oid) {
                let ghost k = i as int;
                assert(spec_first_attr(self.attributes@, oid@) == Some(k)) by {
                    let c = spec_first_attr(self.attributes@, oid@)->Some_0;
                    assert(0 <= c < self.attributes@.len());
                    if c < k {
                    } else if c > k {
                    }
                }
                return Some(&self.attributes[i]);
            }
            i += 1;
        }
        None
    }
}

/// A decoded `SignerInfo`.
#[derive(Clone, Debug)]
pub struct SignerInfo<'a> {
    /// CMS version (1 for `IssuerAndSerialNumber`, 3 for `SubjectKeyIdentifier`).
    pub version: u64,
    /// The signer identifier.
    pub sid: SignerIdentifier<'a>,
    /// The digest algorithm applied to the encapsulated content.
    pub digest_algorithm: AlgorithmIdentifier<'a>,
    /// The signed attributes (present in essentially all modern CMS).
    pub signed_attrs: Option<SignedAttributes<'a>>,
    /// The signature algorithm.
    pub signature_algorithm: AlgorithmIdentifier<'a>,
    /// The raw signature value.
    pub signature: &'a [u8],
    /// The unsigned attributes (e.g. countersignatures), if present.
    pub unsigned_attrs: Option<Vec<Attribute<'a>>>,
}

/// A `SignerInfo` as values.
pub ghost struct SignerInfoView {
    /// The version.
    pub version: u64,
    /// The signer identifier.
    pub sid: (bool, Seq<u8>, Seq<u8>),
    /// The digest algorithm.
    pub digest_algorithm: AlgorithmView,
    /// The raw payload and the attributes of `signedAttrs`, if present.
    pub signed_attrs: Option<(Seq<u8>, Seq<(Seq<u8>, Seq<u8>)>)>,
    /// The signature algorithm.
    pub signature_algorithm: AlgorithmView,
    /// The signature bytes.
    pub signature: Seq<u8>,
    /// The unsigned attributes, if present.
    pub unsigned_attrs: Option<Seq<(Seq<u8>, Seq<u8>)>>,
}

/// The attributes of a list, as values.
pub open spec fn spec_attrs_view(v: Seq<Attribute>) -> Seq<(Seq<u8>, Seq<u8>)> {
    v.map_values(|a: Attribute| a@)
}

/// The signed attributes, as values.
pub open spec fn spec_signed_view(o: Option<SignedAttributes>) -> Option<(Seq<u8>, Seq<(Seq<u8>, Seq<u8>)>)> {
    match o {
        Some(sa) => Some((sa.raw@, spec_attrs_view(sa.attributes@))),
        None => None,
    }
}

/// The unsigned attributes, as values.
pub open spec fn spec_unsigned_view(o: Option<Vec<Attribute>>) -> Option<Seq<(Seq<u8>, Seq<u8>)>> {
    match o {
        Some(v) => Some(spec_attrs_view(v@)),
        None => None,
    }
}

impl<'a> View for SignerInfo<'a> {
    type V = SignerInfoView;

    open spec fn view(&self) -> SignerInfoView {
        SignerInfoView {
            version: self.version,
            sid: self.sid@,
            digest_algorithm: self.digest_algorithm@,
            signed_attrs: spec_signed_view(self.signed_attrs),
            signature_algorithm: self.signature_algorithm@,
            signature: self.signature@,
            unsigned_attrs: spec_unsigned_view(self.unsigned_attrs),
        }
    }
}

/// The `sid` of a `SignerInfo` at `p` of `c`: a `[0]` key identifier, or an
/// `IssuerAndSerialNumber` SEQUENCE whose first element (the issuer, kept
/// whole) and second element (the serial's value bytes) are read under DER;
/// the value and the offset after it.
pub open spec fn spec_sid_at(c: Seq<u8>, p: int, config: Config) -> CoreResult<((bool, Seq<u8>, Seq<u8>), int)> {
    match spec_read_tlv(c, p, config) {
        Err(e) => Err(e),
        Ok((t, _, a, b, n)) => if t == spec_context(false, 0) {
            Ok(((true, c.subrange(a, b), Seq::empty()), n))
        } else if t.class == Class::Universal && t.number == 16 {
            let v = c.subrange(a, b);
            match spec_read_tlv(v, 0, spec_default_config(EncodingRule::Der)) {
                Err(e) => Err(e),
                Ok((_, _, _, _, q)) => match spec_read_tlv(v, q, spec_default_config(EncodingRule::Der)) {
                    Err(e) => Err(e),
                    Ok((_, _, a2, b2, _)) => Ok(((false, v.subrange(0, q), v.subrange(a2, b2)), n)),
                },
            }
        } else {
            Err(spec_to_core(Error::UnexpectedStructure))
        },
    }
}

/// The end of a `SignerInfo` from `q` of `c`: the signature OCTET STRING,
/// then, if anything follows, the `[1]` unsigned attributes.
pub open spec fn spec_signer_tail(c: Seq<u8>, q: int, config: Config) -> Result<(Seq<u8>, Option<Seq<(Seq<u8>, Seq<u8>)>>)> {
    match spec_prim_at(c, q, config, spec_universal(4), |b: Seq<u8>| Ok::<Seq<u8>, CoreError>(b)) {
        Err(e) => Err(Error::Asn1(e)),
        Ok((sig, q2)) => if q2 >= c.len() {
            Ok((sig, None))
        } else {
            match spec_read_tlv(c, q2, config) {
                Err(e) => Err(Error::Asn1(e)),
                Ok((t, _, a, b, _)) => if t != spec_context(false, 1) {
                    Err(Error::UnexpectedStructure)
                } else {
                    match spec_attribute_set(c.subrange(a, b)) {
                        Ok(v) => Ok((sig, Some(v))),
                        Err(e) => Err(e),
                    }
                },
            }
        },
    }
}

/// The `SignerInfo` with the given leading fields whose tail starts at `q`
/// of `c`.
pub open spec fn spec_signer_with_tail(
    c: Seq<u8>,
    q: int,
    config: Config,
    version: u64,
    sid: (bool, Seq<u8>, Seq<u8>),
    dig: AlgorithmView,
    signed: Option<(Seq<u8>, Seq<(Seq<u8>, Seq<u8>)>)>,
    sig_alg: AlgorithmView,
) -> Result<SignerInfoView> {
    match spec_signer_tail(c, q, config) {
        Err(e) => Err(e),
        Ok((sig, unsigned)) => Ok(
            SignerInfoView {
                version,
                sid,
                digest_algorithm: dig,
                signed_attrs: signed,
                signature_algorithm: sig_alg,
                signature: sig,
                unsigned_attrs: unsigned,
            },
        ),
    }
}

/// The content of a `SignerInfo` SEQUENCE read at nesting `depth`: version
/// (at most eight bytes), sid, digest algorithm, the optional `[0]` signed
/// attributes, signature algorithm (re-read alone under DER when no signed
/// attributes precede it), and the tail.
pub open spec fn spec_signer_info_body(c: Seq<u8>, config: Config, depth: int) -> CoreResult<SignerInfoView> {
    match spec_prim_at(c, 0, config, spec_universal(2), |b: Seq<u8>| spec_integer_content(b, config.rule)) {
        Err(e) => Err(e),
        Ok((ver, p1)) => match spec_as_u64(ver) {
            None => Err(spec_to_core(Error::UnsupportedVersion)),
            Some(version) => match spec_sid_at(c, p1, config) {
                Err(e) => Err(e),
                Ok((sid, p2)) => match spec_alg_id_at(c, p2, config, depth) {
                    Err(e) => Err(e),
                    Ok((dig, p3)) => match spec_read_tlv(c, p3, config) {
                        Err(e) => Err(e),
                        Ok((t, _, a, b, p4)) => if t == spec_context(false, 0) {
                            match spec_attribute_set(c.subrange(a, b)) {
                                Err(e) => Err(spec_to_core(e)),
                                Ok(attrs) => match spec_alg_id_at(c, p4, config, depth) {
                                    Err(e) => Err(e),
                                    Ok((sig_alg, p5)) => match spec_signer_with_tail(
                                        c,
                                        p5,
                                        config,
                                        version,
                                        sid,
                                        dig,
                                        Some((c.subrange(a, b), attrs)),
                                        sig_alg,
                                    ) {
                                        Ok(v) => Ok(v),
                                        Err(e) => Err(spec_to_core(e)),
                                    },
                                },
                            }
                        } else {
                            match spec_alg_id_at(c.subrange(p3, p4), 0, spec_default_config(EncodingRule::Der), 0) {
                                Err(e) => Err(e),
                                Ok((sig_alg, _)) => match spec_signer_with_tail(c, p4, config, version, sid, dig, None, sig_alg) {
                                    Ok(v) => Ok(v),
                                    Err(e) => Err(spec_to_core(e)),
                                },
                            }
                        },
                    },
                },
            },
        },
    }
}

/// The `SignerInfo` at `pos` of `s`, met at nesting `depth`.
#[verifier::opaque]
pub open spec fn spec_signer_info_at(s: Seq<u8>, pos: int, config: Config, depth: int) -> CoreResult<(SignerInfoView, int)> {
    spec_nested_at(s, pos, config, depth, spec_universal_constructed(16), |c: Seq<u8>, d: int| spec_signer_info_body(c, config, d))
}

/// The signer identified by `sid` is the certificate with the fields `c`:
/// by subject key identifier, or by issuer TLV and serial number.
pub open spec fn spec_signer_matches(sid: SignerIdentifier, c: CertFields) -> bool {
    match sid {
        SignerIdentifier::SubjectKeyIdentifier(id) => match c.subject_key_id {
            Some(ski) => ski@ == id@,
            None => false,
        },
        SignerIdentifier::IssuerAndSerialNumber { issuer, serial } => c.issuer@ == issuer@ && c.serial@ == serial@,
    }
}

impl<'a> SignerInfo<'a> {
    /// The digest-algorithm OID bytes.
    pub fn digest_algorithm_bytes(&self) -> (b: &'a [u8])
        ensures
            b@ == self.digest_algorithm.algorithm.0@,
    {
        self.digest_algorithm.algorithm_bytes()
    }

    /// The signature-algorithm OID bytes.
    pub fn signature_algorithm_bytes(&self) -> (b: &'a [u8])
        ensures
            b@ == self.signature_algorithm.algorithm.0@,
    {
        self.signature_algorithm.algorithm_bytes()
    }

    /// Constant-time match of this signer against an extracted certificate.
    pub fn matches_cert(&self, cert: &CertFields<'a>) -> (r: bool)
        ensures
            r == spec_signer_matches(self.sid, *cert),
    {
        match &self.sid {
            SignerIdentifier::SubjectKeyIdentifier(id) => match cert.subject_key_id {
                Some(ski) => constant_time_eq(ski, id),
                None => false,
            },
            SignerIdentifier::IssuerAndSerialNumber { issuer, serial } => {
                constant_time_eq(cert.issuer, issuer) && constant_time_eq(cert.serial, serial)
            },
        }
    }
}

impl<'a> Decode<'a> for SignerInfo<'a> {
    open spec fn spec_decode(s: Seq<u8>, pos: int, config: crate::asn1::reader::Config, depth: int) -> crate::asn1::error::Result<(<Self as View>::V, int)> {
        spec_signer_info_at(s, pos, config, depth)
    }

    fn decode(r: &mut Reader<'a>) -> (res: CoreResult<Self>)
        ensures
            decoded(*old(r), *final(r), res, spec_signer_info_at(old(r).spec_input(), old(r).spec_pos(), old(r).spec_config(), old(r).spec_depth())),
    {
        proof {
            reveal(spec_signer_info_at);
            lemma_expect_tlv_progress(r.spec_input(), r.spec_pos(), r.spec_config(), spec_universal_constructed(16));
        }
        let mut s = enter(r, Tag::universal_constructed(Tag::SEQUENCE))?;
        // version
        let version = match Integer::decode(&mut s)?.as_u64() {
            Some(v) => v,
            None => {
                return Err(CoreError::from(Error::UnsupportedVersion));
            },
        };

        // sid
        let (tag, _, value) = s.read_tlv()?;
        let sid = if tag == Tag::context(false, 0) {
            SignerIdentifier::SubjectKeyIdentifier(value)
        } else if tag.is_universal(Tag::SEQUENCE) {
            let mut ias = Reader::new(value, Config::der());
            let issuer = full_tlv(&mut ias)?;
            let (_, _, serial) = ias.read_tlv()?;
            SignerIdentifier::IssuerAndSerialNumber { issuer, serial }
        } else {
            return Err(CoreError::from(Error::UnexpectedStructure));
        };

        let digest_algorithm = AlgorithmIdentifier::decode(&mut s)?;

        // Optional signedAttrs [0] IMPLICIT SET OF Attribute.
        let start = s.position();
        let (tag, _, value) = s.read_tlv()?;
        if tag == Tag::context(false, 0) {
            let attributes = match decode_attribute_set(value) {
                Ok(v) => v,
                Err(e) => {
                    return Err(CoreError::from(e));
                },
            };
            let signed_attrs = Some(SignedAttributes { raw: value, attributes });
            let signature_algorithm = AlgorithmIdentifier::decode(&mut s)?;
            match finish_signer(&mut s, version, sid, digest_algorithm, signed_attrs, signature_algorithm) {
                Ok(si) => Ok(si),
                Err(e) => Err(CoreError::from(e)),
            }
        } else {
            // This TLV is actually the signatureAlgorithm; re-parse it.
            let end = s.position();
            let full = s.slice(start, end);
            let mut sig_r = Reader::new(full, Config::der());
            let signature_algorithm = AlgorithmIdentifier::decode(&mut sig_r)?;
            match finish_signer(&mut s, version, sid, digest_algorithm, None, signature_algorithm) {
                Ok(si) => Ok(si),
                Err(e) => Err(CoreError::from(e)),
            }
        }
    }
}

/// Read the signature and the optional unsigned attributes that end a
/// `SignerInfo`.
fn finish_signer<'a>(
    s: &mut Reader<'a>,
    version: u64,
    sid: SignerIdentifier<'a>,
    digest_algorithm: AlgorithmIdentifier<'a>,
    signed_attrs: Option<SignedAttributes<'a>>,
    signature_algorithm: AlgorithmIdentifier<'a>,
) -> (res: Result<SignerInfo<'a>>)
    ensures
        final(s).same_source(*old(s)),
        res matches Ok(si) ==> si.version == version && si.sid == sid,
        match spec_signer_with_tail(
            old(s).spec_input(),
            old(s).spec_pos(),
            old(s).spec_config(),
            version,
            sid@,
            digest_algorithm@,
            spec_signed_view(signed_attrs),
            signature_algorithm@,
        ) {
            Ok(v) => res is Ok && res->Ok_0@ == v,
            Err(e) => res == Err::<SignerInfo<'a>, Error>(e),
        },
{
    let signature = match OctetString::decode(s) {
        Ok(o) => o.0,
        Err(e) => {
            return Err(Error::Asn1(e));
        },
    };
    let unsigned_attrs = if s.is_empty() {
        None
    } else {
        let (tag, _, value) = match s.read_tlv() {
            Ok(t) => t,
            Err(e) => {
                return Err(Error::Asn1(e));
            },
        };
        if tag != Tag::context(false, 1) {
            return Err(Error::UnexpectedStructure);
        }
        Some(decode_attribute_set(value)?)
    };
    Ok(SignerInfo { version, sid, digest_algorithm, signed_attrs, signature_algorithm, signature, unsigned_attrs })
}

/// Read the next whole TLV and return it (tag + length + value) as borrowed bytes.
fn full_tlv<'a>(r: &mut Reader<'a>) -> (res: CoreResult<&'a [u8]>)
    ensures
        final(r).same_source(*old(r)),
        match spec_read_tlv(old(r).spec_input(), old(r).spec_pos(), old(r).spec_config()) {
            Ok((_, _, _, _, n)) => res is Ok && res->Ok_0@ == old(r).spec_input().subrange(old(r).spec_pos(), n)
                && final(r).spec_pos() == n,
            Err(e) => res == Err::<&'a [u8], CoreError>(e),
        },
{
    let start = r.position();
    r.read_tlv()?;
    let end = r.position();
    Ok(r.slice(start, end))
}

} // verus!
