//! `SignedData` — the CMS signed-message content type (RFC 5652 §5.1), plus the
//! legacy PKCS#7 v1.5 (`SignedData`) layout it supersedes.
//!
//! ```asn1
//! SignedData ::= SEQUENCE {
//!     version           CMSVersion,
//!     digestAlgorithms  DigestAlgorithmIdentifiers,
//!     encapContentInfo  EncapsulatedContentInfo,
//!     certificates  [0] IMPLICIT CertificateSet OPTIONAL,
//!     crls          [1] IMPLICIT CertificateRevocationLists OPTIONAL,
//!     signerInfos       SignerInfos }
//!
//! EncapsulatedContentInfo ::= SEQUENCE {
//!     eContentType ContentType,
//!     eContent   [0] EXPLICIT OCTET STRING OPTIONAL }
//! ```

use crate::asn1::any::{spec_any_at, Any};
use crate::asn1::decode::{
    decoded, enter, finish, lemma_expect_tlv_progress, lemma_items_step, list_result, read_set_of, spec_items_from, spec_nested_at,
    spec_prepend, spec_prim_at, spec_set_of_content, Decode,
};
use crate::asn1::error::{Error as CoreError, Result as CoreResult};
use crate::asn1::length::Length;
use crate::asn1::reader::{spec_default_config, spec_read_tlv, Config, EncodingRule, Reader};
use crate::asn1::tag::{spec_context, spec_universal, spec_universal_constructed, Class, Tag};
use crate::asn1::types::{spec_as_u64, spec_integer_content, spec_oid_content, Integer, ObjectIdentifier, OctetString};
use crate::cms::algorithm::AlgorithmIdentifier;
use crate::cms::cert::{extract_cert_fields, spec_cert_fields, CertFields};
use crate::cms::error::{spec_to_core, Error, Result};
use crate::cms::signer_info::{spec_signer_info_at, SignerIdentifier, SignerInfo, SignerInfoView};
use crate::x509::algorithm::AlgorithmView;
use vstd::prelude::*;

verus! {

broadcast use crate::asn1::reader::Reader::lemma_nonneg;

/// A decoded `SignedData` message.
#[derive(Clone, Debug)]
pub struct SignedData<'a> {
    /// CMS version (`1` for `IssuerAndSerialNumber`, `3` for `SubjectKeyIdentifier`).
    pub version: u64,
    /// The `digestAlgorithms` set.
    pub digest_algorithms: Vec<AlgorithmIdentifier<'a>>,
    /// The encapsulated content type OID.
    pub e_content_type: ObjectIdentifier<'a>,
    /// The encapsulated (eContent) bytes, if present (absent for detached signatures).
    pub e_content: Option<OctetString<'a>>,
    /// Embedded certificates (`CertificateSet`), stored opaque for later decode.
    pub certificates: Vec<Any<'a>>,
    /// Embedded CRLs (`CertificateRevocationLists`), stored opaque.
    pub crls: Vec<Any<'a>>,
    /// The signer infos.
    pub signer_infos: Vec<SignerInfo<'a>>,
}

/// A `SignedData` as values.
pub ghost struct SignedDataView {
    /// The version.
    pub version: u64,
    /// The digest algorithms.
    pub digest_algorithms: Seq<AlgorithmView>,
    /// The encapsulated content type OID bytes.
    pub e_content_type: Seq<u8>,
    /// The encapsulated content, if present.
    pub e_content: Option<Seq<u8>>,
    /// The embedded certificates, as elements.
    pub certificates: Seq<(Tag, Length, Seq<u8>, Seq<u8>)>,
    /// The embedded CRLs, as elements.
    pub crls: Seq<(Tag, Length, Seq<u8>, Seq<u8>)>,
    /// The signer infos.
    pub signer_infos: Seq<SignerInfoView>,
}

impl<'a> View for SignedData<'a> {
    type V = SignedDataView;

    open spec fn view(&self) -> SignedDataView {
        SignedDataView {
            version: self.version,
            digest_algorithms: self.digest_algorithms@.map_values(|a: AlgorithmIdentifier<'a>| a@),
            e_content_type: self.e_content_type.0@,
            e_content: match self.e_content {
                Some(o) => Some(o.0@),
                None => None,
            },
            certificates: self.certificates@.map_values(|a: Any<'a>| a@),
            crls: self.crls@.map_values(|a: Any<'a>| a@),
            signer_infos: self.signer_infos@.map_values(|si: SignerInfo<'a>| si@),
        }
    }
}

/// The `digestAlgorithms` SET at `pos` of `s`, met at nesting `depth`.
pub open spec fn spec_digest_algs_at(s: Seq<u8>, pos: int, config: Config, depth: int) -> CoreResult<(Seq<AlgorithmView>, int)> {
    spec_nested_at(
        s,
        pos,
        config,
        depth,
        spec_universal_constructed(17),
        |c: Seq<u8>, d: int| spec_set_of_content::<AlgorithmIdentifier>(c, 0, config, d),
    )
}

/// The content of an `EncapsulatedContentInfo`: the content type, then
/// optionally a `[0]` whose value starts with the OCTET STRING (read alone
/// under DER); nothing may follow.
pub open spec fn spec_encap_body(c: Seq<u8>, config: Config) -> CoreResult<(Seq<u8>, Option<Seq<u8>>)> {
    match spec_prim_at(c, 0, config, spec_universal(6), |b: Seq<u8>| spec_oid_content(b)) {
        Err(e) => Err(e),
        Ok((oid, p)) => if p >= c.len() {
            Ok((oid, None))
        } else {
            match spec_read_tlv(c, p, config) {
                Err(e) => Err(e),
                Ok((t, _, a, b, q)) => if t != spec_context(true, 0) {
                    Err(spec_to_core(Error::UnexpectedStructure))
                } else {
                    match spec_prim_at(
                        c.subrange(a, b),
                        0,
                        spec_default_config(EncodingRule::Der),
                        spec_universal(4),
                        |x: Seq<u8>| Ok::<Seq<u8>, CoreError>(x),
                    ) {
                        Err(e) => Err(e),
                        Ok((os, _)) => if q < c.len() {
                            Err(CoreError::TrailingData)
                        } else {
                            Ok((oid, Some(os)))
                        },
                    }
                },
            }
        },
    }
}

/// The `EncapsulatedContentInfo` at `pos` of `s`, met at nesting `depth`.
pub open spec fn spec_encap_at(s: Seq<u8>, pos: int, config: Config, depth: int) -> CoreResult<((Seq<u8>, Option<Seq<u8>>), int)> {
    spec_nested_at(s, pos, config, depth, spec_universal_constructed(16), |c: Seq<u8>, d: int| spec_encap_body(c, config))
}

/// Reading one element of a top-level BER list.
pub open spec fn spec_any_item() -> spec_fn(Seq<u8>, int) -> CoreResult<((Tag, Length, Seq<u8>, Seq<u8>), int)> {
    |s: Seq<u8>, p: int| spec_any_at(s, p, spec_default_config(EncodingRule::Ber))
}

/// Reading one `SignerInfo` of a top-level DER list.
pub open spec fn spec_signer_item() -> spec_fn(Seq<u8>, int) -> CoreResult<(SignerInfoView, int)> {
    |s: Seq<u8>, p: int| spec_signer_info_at(s, p, spec_default_config(EncodingRule::Der), 0)
}

/// The `signerInfos` SET at `q` of `c`: its elements read as `SignerInfo`s
/// (under DER, from the top level); the list and the offset after the SET.
pub open spec fn spec_signer_set_at(c: Seq<u8>, q: int, config: Config) -> CoreResult<(Seq<SignerInfoView>, int)> {
    match spec_read_tlv(c, q, config) {
        Err(e) => Err(e),
        Ok((t, _, a, b, n)) => if !(t.class == Class::Universal && t.number == 17) {
            Err(spec_to_core(Error::UnexpectedStructure))
        } else {
            match spec_items_from(c.subrange(a, b), 0, spec_signer_item()) {
                Err(e) => Err(e),
                Ok(v) => Ok((v, n)),
            }
        },
    }
}

/// The value with the given fields, if nothing follows `end` in `c`.
pub open spec fn spec_signed_data_end(
    c: Seq<u8>,
    end: int,
    version: u64,
    algs: Seq<AlgorithmView>,
    encap: (Seq<u8>, Option<Seq<u8>>),
    certs: Seq<(Tag, Length, Seq<u8>, Seq<u8>)>,
    crls: Seq<(Tag, Length, Seq<u8>, Seq<u8>)>,
    signers: Seq<SignerInfoView>,
) -> CoreResult<SignedDataView> {
    if end < c.len() {
        Err(CoreError::TrailingData)
    } else {
        Ok(
            SignedDataView {
                version,
                digest_algorithms: algs,
                e_content_type: encap.0,
                e_content: encap.1,
                certificates: certs,
                crls,
                signer_infos: signers,
            },
        )
    }
}

/// What follows the optional `[1]` CRLs: the `signerInfos` SET at `q`, then
/// the end.
pub open spec fn spec_signed_data_set_tail(
    c: Seq<u8>,
    q: int,
    config: Config,
    version: u64,
    algs: Seq<AlgorithmView>,
    encap: (Seq<u8>, Option<Seq<u8>>),
    certs: Seq<(Tag, Length, Seq<u8>, Seq<u8>)>,
    crls: Seq<(Tag, Length, Seq<u8>, Seq<u8>)>,
) -> CoreResult<SignedDataView> {
    match spec_signer_set_at(c, q, config) {
        Err(e) => Err(e),
        Ok((signers, n)) => spec_signed_data_end(c, n, version, algs, encap, certs, crls, signers),
    }
}

/// What follows the encapsulated content info from `p3` of `c`: the element
/// there is `[0]` certificates (then `[1]` CRLs or the signer infos' value),
/// `[1]` CRLs, or else the signer infos' value; nothing may follow.
pub open spec fn spec_signed_data_rest(
    c: Seq<u8>,
    p3: int,
    config: Config,
    version: u64,
    algs: Seq<AlgorithmView>,
    encap: (Seq<u8>, Option<Seq<u8>>),
) -> CoreResult<SignedDataView> {
    match spec_read_tlv(c, p3, config) {
        Err(e) => Err(e),
        Ok((t, _, a, b, p4)) => if t == spec_context(true, 0) {
            match spec_items_from(c.subrange(a, b), 0, spec_any_item()) {
                Err(e) => Err(e),
                Ok(certs) => match spec_read_tlv(c, p4, config) {
                    Err(e) => Err(e),
                    Ok((t2, _, a2, b2, p5)) => if t2 == spec_context(true, 1) {
                        match spec_items_from(c.subrange(a2, b2), 0, spec_any_item()) {
                            Err(e) => Err(e),
                            Ok(crls) => spec_signed_data_set_tail(c, p5, config, version, algs, encap, certs, crls),
                        }
                    } else {
                        match spec_items_from(c.subrange(a2, b2), 0, spec_signer_item()) {
                            Err(e) => Err(e),
                            Ok(signers) => spec_signed_data_end(c, p5, version, algs, encap, certs, Seq::empty(), signers),
                        }
                    },
                },
            }
        } else if t == spec_context(true, 1) {
            match spec_items_from(c.subrange(a, b), 0, spec_any_item()) {
                Err(e) => Err(e),
                Ok(crls) => spec_signed_data_set_tail(c, p4, config, version, algs, encap, Seq::empty(), crls),
            }
        } else {
            match spec_items_from(c.subrange(a, b), 0, spec_signer_item()) {
                Err(e) => Err(e),
                Ok(signers) => spec_signed_data_end(c, p4, version, algs, encap, Seq::empty(), Seq::empty(), signers),
            }
        },
    }
}

/// The content of a `SignedData` SEQUENCE read at nesting `depth`: version,
/// digest algorithms, encapsulated content info; then the element after it
/// is `[0]` certificates (then `[1]` CRLs or the signer infos' value), `[1]`
/// CRLs, or else the signer infos' value; nothing may follow.
pub open spec fn spec_signed_data_body(c: Seq<u8>, config: Config, depth: int) -> CoreResult<SignedDataView> {
    match spec_prim_at(c, 0, config, spec_universal(2), |b: Seq<u8>| spec_integer_content(b, config.rule)) {
        Err(e) => Err(e),
        Ok((ver, p1)) => match spec_as_u64(ver) {
            None => Err(spec_to_core(Error::UnsupportedVersion)),
            Some(version) => match spec_digest_algs_at(c, p1, config, depth) {
                Err(e) => Err(e),
                Ok((algs, p2)) => match spec_encap_at(c, p2, config, depth) {
                    Err(e) => Err(e),
                    Ok((encap, p3)) => spec_signed_data_rest(c, p3, config, version, algs, encap),
                },
            },
        },
    }
}

/// The `SignedData` at `pos` of `s`, met at nesting `depth`.
pub open spec fn spec_signed_data_at(s: Seq<u8>, pos: int, config: Config, depth: int) -> CoreResult<(SignedDataView, int)> {
    spec_nested_at(s, pos, config, depth, spec_universal_constructed(16), |c: Seq<u8>, d: int| spec_signed_data_body(c, config, d))
}

/// The DER of an embedded certificate: the value of a `[0]` (constructed)
/// wrapper, or the element itself.
pub open spec fn spec_cert_der(c: Any) -> Seq<u8> {
    if c.tag == spec_context(true, 0) {
        c.value@
    } else {
        c.full@
    }
}

impl<'a> SignedData<'a> {
    /// Detect legacy PKCS#7 v1.5 (`SignedData`): RFC 2315 uses version `1` and
    /// lacks the `SubjectKeyIdentifier` signer-identifier choice. CMS (RFC 5652)
    /// uses version `3` (or `1` with `IssuerAndSerialNumber`); the on-wire
    /// structures otherwise decode identically.
    pub fn is_pkcs7_legacy(&self) -> (r: bool)
        ensures
            r == (self.version == 1 && forall|i: int| 0 <= i < self.signer_infos@.len() ==> (#[trigger] self.signer_infos@[i]).sid is IssuerAndSerialNumber),
    {
        if self.version != 1 {
            return false;
        }
        let mut i: usize = 0;
        while i < self.signer_infos.len()
            invariant
                i <= self.signer_infos@.len(),
                forall|j: int| 0 <= j < i ==> (#[trigger] self.signer_infos@[j]).sid is IssuerAndSerialNumber,
            decreases self.signer_infos@.len() - i,
        {
            match self.signer_infos[i].sid {
                SignerIdentifier::IssuerAndSerialNumber { .. } => {},
                _ => {
                    return false;
                },
            }
            i += 1;
        }
        true
    }

    /// The encapsulated content bytes, or `None` if this is a detached signature.
    pub fn content_bytes(&self) -> (r: Option<&'a [u8]>)
        ensures
            match self.e_content {
                Some(o) => r is Some && r->Some_0@ == o.0@,
                None => r is None,
            },
    {
        match self.e_content {
            Some(o) => Some(o.0),
            None => None,
        }
    }

    /// Extract the verification fields of every embedded certificate, in order.
    ///
    /// Embedded certificates arrive inside a `CertificateChoices` wrapper: a
    /// plain X.509 `Certificate` is `[0] EXPLICIT Certificate`, so the explicit
    /// tag is unwrapped to recover the `Certificate` SEQUENCE before extracting.
    pub fn embedded_certs(&self) -> (v: Vec<Result<CertFields<'a>>>)
        ensures
            v@.len() == self.certificates@.len(),
            forall|i: int|
                0 <= i < v@.len() ==> match spec_cert_fields(spec_cert_der(self.certificates@[i])) {
                    Ok(f) => (#[trigger] v@[i]) is Ok && v@[i]->Ok_0@ == f,
                    Err(e) => v@[i] == Err::<CertFields<'a>, Error>(e),
                },
    {
        let mut out: Vec<Result<CertFields<'a>>> = Vec::new();
        let mut i: usize = 0;
        while i < self.certificates.len()
            invariant
                i <= self.certificates@.len(),
                out@.len() == i,
                forall|k: int|
                    0 <= k < i ==> match spec_cert_fields(spec_cert_der(self.certificates@[k])) {
                        Ok(f) => (#[trigger] out@[k]) is Ok && out@[k]->Ok_0@ == f,
                        Err(e) => out@[k] == Err::<CertFields<'a>, Error>(e),
                    },
            decreases self.certificates@.len() - i,
        {
            let c = &self.certificates[i];
            let der = if c.tag == Tag::context(true, 0) { c.value } else { c.full };
            out.push(extract_cert_fields(der));
            i += 1;
        }
        out
    }
}

impl<'a> Decode<'a> for SignedData<'a> {
    open spec fn spec_decode(s: Seq<u8>, pos: int, config: crate::asn1::reader::Config, depth: int) -> crate::asn1::error::Result<(<Self as View>::V, int)> {
        spec_signed_data_at(s, pos, config, depth)
    }

    fn decode(r: &mut Reader<'a>) -> (res: CoreResult<Self>)
        ensures
            decoded(*old(r), *final(r), res, spec_signed_data_at(old(r).spec_input(), old(r).spec_pos(), old(r).spec_config(), old(r).spec_depth())),
    {
        proof { lemma_expect_tlv_progress(r.spec_input(), r.spec_pos(), r.spec_config(), spec_universal_constructed(16)); }
        let mut inner = enter(r, Tag::universal_constructed(Tag::SEQUENCE))?;
        let version = match Integer::decode(&mut inner)?.as_u64() {
            Some(v) => v,
            None => {
                return Err(CoreError::from(Error::UnsupportedVersion));
            },
        };

        // digestAlgorithms ::= SET OF AlgorithmIdentifier
        let digest_algorithms = read_set_of::<AlgorithmIdentifier<'_>>(&mut inner)?;

        // encapContentInfo
        let (e_content_type, e_content) = decode_encap_content_info(&mut inner)?;

        decode_signed_data_rest(&mut inner, version, digest_algorithms, e_content_type, e_content)
    }
}

/// Read what follows the encapsulated content info of a `SignedData` from
/// `inner`, which must end with it, and build the value.
fn decode_signed_data_rest<'a>(
    inner: &mut Reader<'a>,
    version: u64,
    digest_algorithms: Vec<AlgorithmIdentifier<'a>>,
    e_content_type: ObjectIdentifier<'a>,
    e_content: Option<OctetString<'a>>,
) -> (res: CoreResult<SignedData<'a>>)
    ensures
        final(inner).same_source(*old(inner)),
        match spec_signed_data_rest(
            old(inner).spec_input(),
            old(inner).spec_pos(),
            old(inner).spec_config(),
            version,
            digest_algorithms@.map_values(|a: AlgorithmIdentifier<'a>| a@),
            (e_content_type.0@, match e_content {
                Some(o) => Some(o.0@),
                None => None,
            }),
        ) {
            Ok(v) => res is Ok && res->Ok_0@ == v,
            Err(e) => res == Err::<SignedData<'a>, CoreError>(e),
        },
{
    // Optional certificates [0] and crls [1].
    let mut certificates: Vec<Any<'a>> = Vec::new();
    let mut crls: Vec<Any<'a>> = Vec::new();
    assert(certificates@.map_values(|a: Any<'a>| a@) =~= Seq::<(Tag, Length, Seq<u8>, Seq<u8>)>::empty());
    assert(crls@.map_values(|a: Any<'a>| a@) =~= Seq::<(Tag, Length, Seq<u8>, Seq<u8>)>::empty());

    let (tag, _, value) = inner.read_tlv()?;
    let signer_infos = if tag == Tag::context(true, 0) {
        certificates = split_any_set(value)?;
        let (tag2, _, value2) = inner.read_tlv()?;
        if tag2 == Tag::context(true, 1) {
            crls = split_any_set(value2)?;
            read_signer_infos_set(inner)?
        } else {
            // Not crls: this is signerInfos (SET).
            decode_signer_infos(value2)?
        }
    } else if tag == Tag::context(true, 1) {
        crls = split_any_set(value)?;
        read_signer_infos_set(inner)?
    } else {
        // Neither certificates nor crls: this TLV is signerInfos.
        decode_signer_infos(value)?
    };
    finish(inner)?;
    let sd = SignedData { version, digest_algorithms, e_content_type, e_content, certificates, crls, signer_infos };
    assert(sd@.certificates == certificates@.map_values(|a: Any<'a>| a@));
    Ok(sd)
}

/// Read the `SET OF SignerInfo` element that ends a `SignedData`.
fn read_signer_infos_set<'a>(inner: &mut Reader<'a>) -> (res: CoreResult<Vec<SignerInfo<'a>>>)
    ensures
        final(inner).same_source(*old(inner)),
        match spec_signer_set_at(old(inner).spec_input(), old(inner).spec_pos(), old(inner).spec_config()) {
            Ok((v, n)) => res is Ok && res->Ok_0@.map_values(|si: SignerInfo<'a>| si@) == v && final(inner).spec_pos() == n,
            Err(e) => res == Err::<Vec<SignerInfo<'a>>, CoreError>(e),
        },
{
    let (st, _, sval) = inner.read_tlv()?;
    if !st.is_universal(Tag::SET) {
        return Err(CoreError::from(Error::UnexpectedStructure));
    }
    let v = decode_signer_infos(sval)?;
    Ok(v)
}

/// Decode an `EncapsulatedContentInfo` (or legacy PKCS#7 `contentInfo`, which is
/// structurally identical at this level).
fn decode_encap_content_info<'a>(r: &mut Reader<'a>) -> (res: CoreResult<(ObjectIdentifier<'a>, Option<OctetString<'a>>)>)
    ensures
        final(r).same_source(*old(r)),
        match spec_encap_at(old(r).spec_input(), old(r).spec_pos(), old(r).spec_config(), old(r).spec_depth()) {
            Ok((v, n)) => res is Ok && res->Ok_0.0@ == v.0 && (match res->Ok_0.1 {
                Some(o) => Some(o.0@),
                None => None,
            }) == v.1 && final(r).spec_pos() == n,
            Err(e) => res == Err::<(ObjectIdentifier<'a>, Option<OctetString<'a>>), CoreError>(e),
        },
{
    proof { lemma_expect_tlv_progress(r.spec_input(), r.spec_pos(), r.spec_config(), spec_universal_constructed(16)); }
    let mut inner = enter(r, Tag::universal_constructed(Tag::SEQUENCE))?;
    let e_content_type = ObjectIdentifier::decode(&mut inner)?;
    let e_content = if inner.is_empty() {
        None
    } else {
        let (tag, _, value) = inner.read_tlv()?;
        if tag != Tag::context(true, 0) {
            return Err(CoreError::from(Error::UnexpectedStructure));
        }
        // value is the inner OCTET STRING TLV.
        let os = OctetString::decode(&mut Reader::new(value, Config::der()))?;
        Some(os)
    };
    finish(&inner)?;
    Ok((e_content_type, e_content))
}

/// Split a SET OF content into its constituent `Any` elements (BER).
fn split_any_set<'a>(content: &'a [u8]) -> (res: CoreResult<Vec<Any<'a>>>)
    ensures
        list_result(res, spec_items_from(content@, 0, spec_any_item())),
{
    let mut r = Reader::new(content, Config::ber());
    let mut out: Vec<Any<'a>> = Vec::new();
    let ghost s = content@;
    assert(spec_prepend(out@.map_values(|a: Any<'a>| a@), spec_items_from(s, 0, spec_any_item())) =~= spec_items_from(s, 0, spec_any_item()));
    while !r.is_empty()
        invariant
            r.spec_input() == s,
            s == content@,
            r.spec_config() == spec_default_config(EncodingRule::Ber),
            spec_prepend(out@.map_values(|a: Any<'a>| a@), spec_items_from(s, r.spec_pos(), spec_any_item()))
                == spec_items_from(s, 0, spec_any_item()),
        decreases r.spec_input().len() - r.spec_pos(),
    {
        let ghost p = r.spec_pos();
        let ghost before = out@.map_values(|a: Any<'a>| a@);
        let a = Any::decode(&mut r)?;
        proof { lemma_items_step::<(Tag, Length, Seq<u8>, Seq<u8>), CoreError>(s, p, spec_any_item(), before, a@, r.spec_pos()); }
        out.push(a);
        assert(out@.map_values(|a: Any<'a>| a@) =~= before.push(a@));
    }
    let ghost fin = out@.map_values(|a: Any<'a>| a@);
    assert(fin + Seq::<(Tag, Length, Seq<u8>, Seq<u8>)>::empty() =~= fin);
    Ok(out)
}

/// Decode a `SET OF SignerInfo` from its raw content bytes (DER).
fn decode_signer_infos<'a>(content: &'a [u8]) -> (res: CoreResult<Vec<SignerInfo<'a>>>)
    ensures
        list_result(res, spec_items_from(content@, 0, spec_signer_item())),
{
    let mut r = Reader::new(content, Config::der());
    let mut out: Vec<SignerInfo<'a>> = Vec::new();
    let ghost s = content@;
    assert(spec_prepend(out@.map_values(|a: SignerInfo<'a>| a@), spec_items_from(s, 0, spec_signer_item())) =~= spec_items_from(s, 0, spec_signer_item()));
    while !r.is_empty()
        invariant
            r.spec_input() == s,
            s == content@,
            r.spec_config() == spec_default_config(EncodingRule::Der),
            r.spec_depth() == 0,
            spec_prepend(out@.map_values(|a: SignerInfo<'a>| a@), spec_items_from(s, r.spec_pos(), spec_signer_item()))
                == spec_items_from(s, 0, spec_signer_item()),
        decreases r.spec_input().len() - r.spec_pos(),
    {
        let ghost p = r.spec_pos();
        let ghost before = out@.map_values(|a: SignerInfo<'a>| a@);
        let a = SignerInfo::decode(&mut r)?;
        proof { lemma_items_step::<SignerInfoView, CoreError>(s, p, spec_signer_item(), before, a@, r.spec_pos()); }
        out.push(a);
        assert(out@.map_values(|a: SignerInfo<'a>| a@) =~= before.push(a@));
    }
    let ghost fin = out@.map_values(|a: SignerInfo<'a>| a@);
    assert(fin + Seq::<SignerInfoView>::empty() =~= fin);
    Ok(out)
}

} // verus!
