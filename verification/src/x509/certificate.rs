//! `TBSCertificate` and `Certificate` decoding (RFC 5280 §4.1).

use crate::asn1::any::{spec_any_at, Any};
use crate::asn1::decode::{decoded, enter, finish, lemma_expect_tlv_progress, read_primitive, spec_expect_tlv, spec_nested_at, spec_prim_at, Decode};
use crate::asn1::error::{Error, Result};
use crate::asn1::reader::{Config, Reader};
use crate::asn1::tag::{spec_context, spec_universal, spec_universal_constructed, Tag};
use crate::asn1::types::{spec_as_u64, spec_bitstring_content, spec_integer_content, BitString, Integer};
use crate::x509::algorithm::{spec_alg_id_at, AlgorithmIdentifier, AlgorithmView};
use crate::x509::crl::spec_next_tag_is;
use crate::x509::extensions::{spec_bc_der, spec_extensions_content, spec_first_ext, spec_no_unknown_critical, Extensions};
use crate::x509::name::{spec_name_at, Name};
use crate::x509::oid::ext;
use crate::x509::spki::{spec_spki_at, SubjectPublicKeyInfo};
use crate::x509::time::{spec_validity_at, spec_window_contains, UnixTime, Validity};
use vstd::prelude::*;

verus! {

broadcast use crate::asn1::reader::Reader::lemma_nonneg;

/// The encoded body of a `TBSCertificate`.
#[derive(Clone, Debug, PartialEq, Eq)]
pub struct TBSCertificate<'a> {
    /// The certificate version: 1 (default), 2, or 3.
    pub version: u8,
    /// The certificate serial number.
    pub serial_number: Integer<'a>,
    /// The signature algorithm asserted by the issuer.
    pub signature: AlgorithmIdentifier<'a>,
    /// The issuer `Name`.
    pub issuer: Name<'a>,
    /// The validity period.
    pub validity: Validity<'a>,
    /// The subject `Name`.
    pub subject: Name<'a>,
    /// The subject's public key.
    pub subject_public_key_info: SubjectPublicKeyInfo<'a>,
    /// The extensions (empty if this is not a v3 certificate).
    pub extensions: Extensions<'a>,
}

/// A `TBSCertificate` as values.
pub ghost struct TbsView {
    /// The version number (1, 2 or 3).
    pub version: u8,
    /// The serial number bytes.
    pub serial_number: Seq<u8>,
    /// The signature algorithm asserted inside.
    pub signature: AlgorithmView,
    /// The issuer.
    pub issuer: (Seq<Seq<(Seq<u8>, (bool, u32, Seq<u8>))>>, Seq<u8>),
    /// The validity window.
    pub validity: ((bool, Seq<u8>), (bool, Seq<u8>)),
    /// The subject.
    pub subject: (Seq<Seq<(Seq<u8>, (bool, u32, Seq<u8>))>>, Seq<u8>),
    /// The subject public key info.
    pub subject_public_key_info: (AlgorithmView, (u8, Seq<u8>)),
    /// The extensions.
    pub extensions: Seq<(Seq<u8>, bool, Seq<u8>)>,
}

impl<'a> View for TBSCertificate<'a> {
    type V = TbsView;

    open spec fn view(&self) -> TbsView {
        TbsView {
            version: self.version,
            serial_number: self.serial_number.0@,
            signature: self.signature@,
            issuer: self.issuer@,
            validity: self.validity@,
            subject: self.subject@,
            subject_public_key_info: self.subject_public_key_info@,
            extensions: self.extensions@,
        }
    }
}

/// The version number a `[0]` version INTEGER `v` gives: one more than its
/// low byte, saturating.
pub open spec fn spec_version_number(v: u64) -> u8 {
    if v % 256 == 255 {
        255
    } else {
        (v % 256 + 1) as u8
    }
}

/// The version of a `TBSCertificate` value `t` and the offset after it: read
/// from the `[0]` element's value if that comes first (at most eight bytes),
/// else 1.
pub open spec fn spec_tbs_version(t: Seq<u8>, config: Config) -> Result<(u8, int)> {
    if spec_next_tag_is(t, 0, spec_context(true, 0)) {
        match spec_any_at(t, 0, config) {
            Err(e) => Err(e),
            Ok((va, q)) => match spec_prim_at(va.2, 0, config, spec_universal(2), |b: Seq<u8>| spec_integer_content(b, config.rule)) {
                Err(e) => Err(e),
                Ok((ib, _)) => match spec_as_u64(ib) {
                    None => Err(Error::Custom("version too large")),
                    Some(v) => Ok((spec_version_number(v), q)),
                },
            },
        }
    } else {
        Ok((1, 0))
    }
}

/// The offset after the `[1]`/`[2]` unique identifiers that start at `q` of
/// `t`.
pub open spec fn spec_skip_unique_ids(t: Seq<u8>, q: int, config: Config) -> Result<int>
    decreases t.len() - q,
{
    if q >= 0 && (spec_next_tag_is(t, q, spec_context(false, 1)) || spec_next_tag_is(t, q, spec_context(false, 2))) {
        match spec_any_at(t, q, config) {
            Err(e) => Err(e),
            Ok((_, n)) => if q < n <= t.len() {
                spec_skip_unique_ids(t, n, config)
            } else {
                Ok(n)
            },
        }
    } else {
        Ok(q)
    }
}

/// The extensions of a `TBSCertificate` value `t` from `q`: the `[3]`
/// wrapper around the extensions SEQUENCE, which must fill it, or none.
pub open spec fn spec_tbs_extensions(t: Seq<u8>, q: int, config: Config) -> Result<Seq<(Seq<u8>, bool, Seq<u8>)>> {
    if spec_next_tag_is(t, q, spec_context(true, 3)) {
        match spec_any_at(t, q, config) {
            Err(e) => Err(e),
            Ok((ea, _)) => match spec_expect_tlv(ea.2, 0, config, spec_universal_constructed(16)) {
                Err(e) => Err(e),
                Ok((a, b, m)) => if m < ea.2.len() {
                    Err(Error::TrailingData)
                } else {
                    spec_extensions_content(ea.2.subrange(a, b), config)
                },
            },
        }
    } else {
        Ok(Seq::empty())
    }
}

/// The fields of a `TBSCertificate` value `t` (read from the top level).
pub open spec fn spec_tbs(t: Seq<u8>, config: Config) -> Result<TbsView> {
    match spec_tbs_version(t, config) {
        Err(e) => Err(e),
        Ok((version, q0)) => match spec_prim_at(t, q0, config, spec_universal(2), |b: Seq<u8>| spec_integer_content(b, config.rule)) {
            Err(e) => Err(e),
            Ok((serial_number, q1)) => match spec_alg_id_at(t, q1, config, 0) {
                Err(e) => Err(e),
                Ok((signature, q2)) => match spec_name_at(t, q2, config) {
                    Err(e) => Err(e),
                    Ok((issuer, q3)) => match spec_validity_at(t, q3, config, 0) {
                        Err(e) => Err(e),
                        Ok((validity, q4)) => match spec_name_at(t, q4, config) {
                            Err(e) => Err(e),
                            Ok((subject, q5)) => match spec_spki_at(t, q5, config, 0) {
                                Err(e) => Err(e),
                                Ok((subject_public_key_info, q6)) => match spec_skip_unique_ids(t, q6, config) {
                                    Err(e) => Err(e),
                                    Ok(q7) => match spec_tbs_extensions(t, q7, config) {
                                        Err(e) => Err(e),
                                        Ok(extensions) => Ok(
                                            TbsView {
                                                version,
                                                serial_number,
                                                signature,
                                                issuer,
                                                validity,
                                                subject,
                                                subject_public_key_info,
                                                extensions,
                                            },
                                        ),
                                    },
                                },
                            },
                        },
                    },
                },
            },
        },
    }
}

/// A `Certificate` as values.
pub ghost struct CertificateView {
    /// The to-be-signed body.
    pub tbs: TbsView,
    /// The outer signature algorithm.
    pub signature_algorithm: AlgorithmView,
    /// The signature BIT STRING (unused bits, data).
    pub signature_value: (u8, Seq<u8>),
    /// The whole encoding of `tbsCertificate`.
    pub tbs_der: Seq<u8>,
}

/// The content of a `Certificate` SEQUENCE read at nesting `depth`: the
/// `tbsCertificate` element, the signature algorithm, the signature BIT
/// STRING, and nothing after them.
pub open spec fn spec_certificate_body(c: Seq<u8>, config: Config, depth: int) -> Result<CertificateView> {
    match spec_any_at(c, 0, config) {
        Err(e) => Err(e),
        Ok((tbs_any, p1)) => match spec_tbs(tbs_any.2, config) {
            Err(e) => Err(e),
            Ok(tbs) => match spec_alg_id_at(c, p1, config, depth) {
                Err(e) => Err(e),
                Ok((signature_algorithm, p2)) => match spec_prim_at(c, p2, config, spec_universal(3), |b: Seq<u8>| spec_bitstring_content(b)) {
                    Err(e) => Err(e),
                    Ok((signature_value, p3)) => if p3 < c.len() {
                        Err(Error::TrailingData)
                    } else {
                        Ok(CertificateView { tbs, signature_algorithm, signature_value, tbs_der: tbs_any.3 })
                    },
                },
            },
        },
    }
}

/// The `Certificate` at `pos` of `s`, met at nesting `depth`.
pub open spec fn spec_certificate_at(s: Seq<u8>, pos: int, config: Config, depth: int) -> Result<(CertificateView, int)> {
    spec_nested_at(s, pos, config, depth, spec_universal_constructed(16), |c: Seq<u8>, d: int| spec_certificate_body(c, config, d))
}

/// A certificate with the extensions `exts` is a CA: its BasicConstraints
/// extension is present, decodes, and asserts cA.
pub open spec fn spec_is_ca(exts: Seq<crate::x509::extensions::Extension>) -> bool {
    match spec_first_ext(exts, ext::BASIC_CONSTRAINTS@) {
        None => false,
        Some(i) => match spec_bc_der(exts[i].extn_value@) {
            Ok(bc) => bc.ca,
            Err(_) => false,
        },
    }
}

impl<'a> TBSCertificate<'a> {
    /// The serial number as raw bytes.
    pub fn serial_number_bytes(&self) -> (b: &'a [u8])
        ensures
            b@ == self.serial_number.0@,
    {
        self.serial_number.as_bytes()
    }

    /// Whether the certificate is a CA (per `BasicConstraints`).
    pub fn is_ca(&self) -> (r: bool)
        ensures
            r == spec_is_ca(self.extensions.spec_list()),
    {
        match self.extensions.basic_constraints() {
            Ok(Some(bc)) => bc.ca,
            _ => false,
        }
    }
}

/// An X.509v3 `Certificate`.
#[derive(Clone, Debug, PartialEq, Eq)]
pub struct Certificate<'a> {
    /// The to-be-signed certificate body.
    pub tbs: TBSCertificate<'a>,
    /// The signature algorithm (outer, asserted by the issuer).
    pub signature_algorithm: AlgorithmIdentifier<'a>,
    /// The signature value (`BIT STRING` data octets).
    pub signature_value: BitString<'a>,
    /// The raw DER of `tbsCertificate`, retained for signature verification.
    pub(crate) tbs_der: &'a [u8],
}

impl<'a> View for Certificate<'a> {
    type V = CertificateView;

    closed spec fn view(&self) -> CertificateView {
        CertificateView {
            tbs: self.tbs@,
            signature_algorithm: self.signature_algorithm@,
            signature_value: self.signature_value@,
            tbs_der: self.tbs_der@,
        }
    }
}

impl<'a> Certificate<'a> {
    /// The retained DER of the `TBSCertificate`.
    pub closed spec fn spec_tbs_der(&self) -> Seq<u8> {
        self.tbs_der@
    }

    /// The to-be-signed body.
    pub closed spec fn spec_tbs(&self) -> TBSCertificate<'a> {
        self.tbs
    }

    /// The outer signature algorithm.
    pub closed spec fn spec_signature_algorithm(&self) -> AlgorithmIdentifier<'a> {
        self.signature_algorithm
    }

    /// The signature value.
    pub closed spec fn spec_signature_value(&self) -> BitString<'a> {
        self.signature_value
    }

    /// The to-be-signed body.
    pub fn tbs(&self) -> (t: &TBSCertificate<'a>)
        ensures
            *t == self.spec_tbs(),
    {
        &self.tbs
    }

    /// The outer signature algorithm.
    pub fn signature_algorithm(&self) -> (a: &AlgorithmIdentifier<'a>)
        ensures
            *a == self.spec_signature_algorithm(),
    {
        &self.signature_algorithm
    }

    /// The signature value.
    pub fn signature_value(&self) -> (b: &BitString<'a>)
        ensures
            *b == self.spec_signature_value(),
    {
        &self.signature_value
    }

    /// The raw DER of the `TBSCertificate` (the signed message).
    pub fn tbs_certificate_der(&self) -> (b: &'a [u8])
        ensures
            b@ == self.spec_tbs_der(),
    {
        self.tbs_der
    }

    /// The issuer `Name`.
    pub fn issuer(&self) -> (n: &Name<'a>)
        ensures
            *n == self.spec_tbs().issuer,
    {
        &self.tbs.issuer
    }

    /// The subject `Name`.
    pub fn subject(&self) -> (n: &Name<'a>)
        ensures
            *n == self.spec_tbs().subject,
    {
        &self.tbs.subject
    }

    /// The subject public key info.
    pub fn subject_public_key_info(&self) -> (k: &SubjectPublicKeyInfo<'a>)
        ensures
            *k == self.spec_tbs().subject_public_key_info,
    {
        &self.tbs.subject_public_key_info
    }

    /// The serial number.
    pub fn serial_number(&self) -> (s: Integer<'a>)
        ensures
            s == self.spec_tbs().serial_number,
    {
        self.tbs.serial_number
    }

    /// Whether the certificate is within its validity period at `now`.
    pub fn is_valid_at(&self, now: UnixTime) -> (r: bool)
        ensures
            r == spec_window_contains(self.spec_tbs().validity.not_before@, self.spec_tbs().validity.not_after@, now.0),
    {
        self.tbs.validity.contains(now)
    }

    /// Returns `true` if this certificate is self-signed (subject == issuer by
    /// DER), ignoring the signature itself.
    pub fn is_self_signed_name(&self) -> (r: bool)
        ensures
            r == (self.spec_tbs().issuer.spec_der() == self.spec_tbs().subject.spec_der()),
    {
        self.tbs.issuer.der_eq(&self.tbs.subject)
    }
}

impl<'a> Decode<'a> for Certificate<'a> {
    open spec fn spec_decode(s: Seq<u8>, pos: int, config: crate::asn1::reader::Config, depth: int) -> crate::asn1::error::Result<(<Self as View>::V, int)> {
        spec_certificate_at(s, pos, config, depth)
    }

    fn decode(r: &mut Reader<'a>) -> (res: Result<Self>)
        ensures
            decoded(*old(r), *final(r), res, spec_certificate_at(old(r).spec_input(), old(r).spec_pos(), old(r).spec_config(), old(r).spec_depth())),
            res matches Ok(c) ==> spec_no_unknown_critical(c.spec_tbs().extensions.spec_list()),
    {
        proof { lemma_expect_tlv_progress(r.spec_input(), r.spec_pos(), r.spec_config(), spec_universal_constructed(16)); }
        let mut inner = enter(r, Tag::universal_constructed(Tag::SEQUENCE))?;
        proof { crate::asn1::reader::lemma_read_tlv_bounds(inner.spec_input(), inner.spec_pos(), inner.spec_config()); }
        let tbs_any = Any::decode(&mut inner)?;
        let tbs = decode_tbs(tbs_any.value, *inner.config())?;
        let signature_algorithm = AlgorithmIdentifier::decode(&mut inner)?;
        let signature_value = BitString::decode(&mut inner)?;
        finish(&inner)?;
        Ok(Certificate { tbs, signature_algorithm, signature_value, tbs_der: tbs_any.full })
    }
}

/// Whether the next tag of `r` is `t` (false when no tag can be read).
fn next_tag_is(r: &Reader<'_>, t: Tag) -> (b: bool)
    ensures
        b == spec_next_tag_is(r.spec_input(), r.spec_pos(), t),
{
    match r.peek_tag() {
        Ok(x) => x == t,
        Err(_) => false,
    }
}

/// Read the version of a `TBSCertificate` from `r`, at its start.
fn decode_tbs_version(r: &mut Reader<'_>, config: Config) -> (res: Result<u8>)
    requires
        old(r).spec_pos() == 0,
        old(r).spec_config() == config,
    ensures
        final(r).same_source(*old(r)),
        match spec_tbs_version(old(r).spec_input(), config) {
            Ok((v, q)) => res == Ok::<u8, Error>(v) && final(r).spec_pos() == q,
            Err(e) => res == Err::<u8, Error>(e),
        },
{
    let mut version: u8 = 1;
    if next_tag_is(r, Tag::context(true, 0)) {
        let v_any = Any::decode(r)?;
        let mut sub = Reader::new(v_any.value, config);
        let v = match Integer::decode(&mut sub)?.as_u64() {
            Some(v) => v,
            None => {
                return Err(Error::Custom("version too large"));
            },
        };
        assert((v as u8) as int == v % 256) by (bit_vector);
        version = (v as u8).saturating_add(1);
    }
    Ok(version)
}

/// Skip the `[1]`/`[2]` unique identifiers (rare, v2/v1).
fn skip_unique_ids(r: &mut Reader<'_>) -> (res: Result<()>)
    ensures
        final(r).same_source(*old(r)),
        match spec_skip_unique_ids(old(r).spec_input(), old(r).spec_pos(), old(r).spec_config()) {
            Ok(q) => res is Ok && final(r).spec_pos() == q,
            Err(e) => res == Err::<(), Error>(e),
        },
{
    let ghost s = r.spec_input();
    let ghost config = r.spec_config();
    let ghost start = r.spec_pos();
    while next_tag_is(r, Tag::context(false, 1)) || next_tag_is(r, Tag::context(false, 2))
        invariant
            r.same_source(*old(r)),
            s == r.spec_input(),
            config == r.spec_config(),
            start == old(r).spec_pos(),
            spec_skip_unique_ids(s, r.spec_pos(), config) == spec_skip_unique_ids(s, start, config),
        decreases r.spec_input().len() - r.spec_pos(),
    {
        proof { crate::asn1::reader::lemma_read_tlv_bounds(r.spec_input(), r.spec_pos(), r.spec_config()); }
        Any::decode(r)?;
    }
    Ok(())
}

/// Read the optional `[3]` extensions of a `TBSCertificate` from `r`.
fn decode_tbs_extensions<'a>(r: &mut Reader<'a>, config: Config) -> (res: Result<Extensions<'a>>)
    requires
        old(r).spec_config() == config,
    ensures
        match spec_tbs_extensions(old(r).spec_input(), old(r).spec_pos(), config) {
            Ok(v) => res is Ok && res->Ok_0@ == v,
            Err(e) => res == Err::<Extensions<'a>, Error>(e),
        },
        res matches Ok(e) ==> spec_no_unknown_critical(e.spec_list()),
{
    let mut extensions = Extensions::empty();
    if next_tag_is(r, Tag::context(true, 3)) {
        // `[3] EXPLICIT Extensions`, where `Extensions ::= SEQUENCE OF Extension`.
        let e_any = Any::decode(r)?;
        let mut er = Reader::new(e_any.value, config);
        let body = read_primitive(&mut er, Tag::universal_constructed(Tag::SEQUENCE))?;
        if !er.is_empty() {
            return Err(Error::TrailingData);
        }
        extensions = Extensions::from_content(body, config)?;
    }
    Ok(extensions)
}

fn decode_tbs(content: &[u8], config: Config) -> (res: Result<TBSCertificate<'_>>)
    ensures
        match spec_tbs(content@, config) {
            Ok(v) => res is Ok && res->Ok_0@ == v,
            Err(e) => res == Err::<TBSCertificate<'_>, Error>(e),
        },
        res matches Ok(t) ==> spec_no_unknown_critical(t.extensions.spec_list()),
{
    let mut r = Reader::new(content, config);
    let version = decode_tbs_version(&mut r, config)?;
    let serial_number = Integer::decode(&mut r)?;
    let signature = AlgorithmIdentifier::decode(&mut r)?;
    let issuer = Name::decode(&mut r)?;
    let validity = Validity::decode(&mut r)?;
    let subject = Name::decode(&mut r)?;
    let subject_public_key_info = SubjectPublicKeyInfo::decode(&mut r)?;
    skip_unique_ids(&mut r)?;
    let extensions = decode_tbs_extensions(&mut r, config)?;
    Ok(TBSCertificate { version, serial_number, signature, issuer, validity, subject, subject_public_key_info, extensions })
}

} // verus!
