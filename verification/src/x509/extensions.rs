//! X.509v3 certificate extensions.
//!
//! Parsing is *fail-closed*: an unrecognized `critical` extension causes
//! [`Extensions::from_content`] to return
//! [`Error::UnknownCriticalExtension`], matching RFC 5280 §4.2.

pub mod key_usage_bit;

use crate::asn1::any::{spec_any_at, Any};
use crate::asn1::decode::{
    decoded, enter, finish, spec_filling, lemma_expect_tlv_progress, lemma_items_step, spec_expect_tlv, spec_items_from, spec_nested_at,
    spec_prepend, spec_prim_at, Decode,
};
use crate::asn1::error::{Error, Result};
use crate::asn1::reader::{spec_default_config, Config, EncodingRule, Reader};
use crate::asn1::tag::{spec_context, spec_decode_tag, spec_universal, spec_universal_constructed, Tag};
use crate::asn1::types::{
    spec_as_u64, spec_bitstring_content, spec_boolean_content, spec_integer_content, spec_oid_arcs, spec_oid_content, BitString, Boolean,
    Integer, ObjectIdentifier, OctetString,
};
use crate::asn1::tag::Class;
use crate::x509::name::{spec_name_at, Name};
use crate::asn1::length::Length;
use crate::asn1::decode::list_result;
use crate::x509::oid::{eku, ext, oid_eq, oid_in, pkix};
use vstd::prelude::*;

verus! {

broadcast use crate::asn1::reader::Reader::lemma_nonneg;

/// A single certificate extension: `SEQUENCE { extnID OID, critical BOOLEAN
/// DEFAULT FALSE, extnValue OCTET STRING }`.
///
/// `extn_value` holds the *inner* DER of the extension value (i.e. the content
/// of the `OCTET STRING`), ready to be decoded by the typed accessors.
#[derive(Clone, Copy, Debug, PartialEq, Eq)]
pub struct Extension<'a> {
    /// The extension OID.
    pub extn_id: ObjectIdentifier<'a>,
    /// Whether the extension is marked critical.
    pub critical: bool,
    /// The DER-encoded extension value.
    pub extn_value: &'a [u8],
}

impl<'a> View for Extension<'a> {
    /// The OID bytes, whether critical, and the value bytes.
    type V = (Seq<u8>, bool, Seq<u8>);

    open spec fn view(&self) -> (Seq<u8>, bool, Seq<u8>) {
        (self.extn_id.0@, self.critical, self.extn_value@)
    }
}

/// The primitive element tagged `expected` that must fill `bytes` (read
/// alone under DER), its value interpreted by `content`.
pub open spec fn spec_whole_prim<V>(bytes: Seq<u8>, expected: Tag, content: spec_fn(Seq<u8>) -> Result<V>) -> Result<V> {
    spec_filling(bytes, spec_prim_at(bytes, 0, spec_default_config(EncodingRule::Der), expected, content))
}

/// The value bytes of the first extension of `list` whose OID has the arcs
/// `oid` (empty when there is none).
pub open spec fn spec_ext_value(list: Seq<Extension>, oid: Seq<u64>) -> Seq<u8> {
    match spec_first_ext(list, oid) {
        Some(i) => list[i].extn_value@,
        None => Seq::empty(),
    }
}

/// `res` is the (optional) value, by its view, that `spec` gives for the
/// first extension of a kind (`None` when there is none).
pub open spec fn ext_result<T: View>(res: Result<Option<T>>, present: bool, spec: Result<T::V>) -> bool {
    if !present {
        res is Ok && res->Ok_0 is None
    } else {
        match spec {
            Ok(v) => res is Ok && res->Ok_0 is Some && res->Ok_0->Some_0@ == v,
            Err(e) => res == Err::<Option<T>, Error>(e),
        }
    }
}

/// The content of an `Extension` SEQUENCE: the OID, then an element that
/// is either the `critical` BOOLEAN (followed by another) or the value; each
/// is re-read alone under DER from its whole encoding. Nothing may follow.
pub open spec fn spec_extension_body(c: Seq<u8>, config: Config) -> Result<(Seq<u8>, bool, Seq<u8>)> {
    match spec_prim_at(c, 0, config, spec_universal(6), |b: Seq<u8>| spec_oid_content(b)) {
        Err(e) => Err(e),
        Ok((oid, p1)) => if p1 >= c.len() {
            Err(Error::TrailingData)
        } else {
            match spec_any_at(c, p1, config) {
                Err(e) => Err(e),
                Ok((a, p2)) => if a.0.class == Class::Universal && a.0.number == 1 {
                    match spec_whole_prim(a.3, spec_universal(1), |b: Seq<u8>| spec_boolean_content(b, EncodingRule::Der)) {
                        Err(e) => Err(e),
                        Ok(crit) => match spec_any_at(c, p2, config) {
                            Err(e) => Err(e),
                            Ok((va, p3)) => match spec_whole_prim(va.3, spec_universal(4), |b: Seq<u8>| Ok::<Seq<u8>, Error>(b)) {
                                Err(e) => Err(e),
                                Ok(v) => if p3 < c.len() {
                                    Err(Error::TrailingData)
                                } else {
                                    Ok((oid, crit, v))
                                },
                            },
                        },
                    }
                } else {
                    match spec_whole_prim(a.3, spec_universal(4), |b: Seq<u8>| Ok::<Seq<u8>, Error>(b)) {
                        Err(e) => Err(e),
                        Ok(v) => if p2 < c.len() {
                            Err(Error::TrailingData)
                        } else {
                            Ok((oid, false, v))
                        },
                    }
                },
            }
        },
    }
}

/// The `Extension` at `pos` of `s`, met at nesting `depth`.
#[verifier::opaque]
pub open spec fn spec_extension_at(s: Seq<u8>, pos: int, config: Config, depth: int) -> Result<((Seq<u8>, bool, Seq<u8>), int)> {
    spec_nested_at(s, pos, config, depth, spec_universal_constructed(16), |c: Seq<u8>, d: int| spec_extension_body(c, config))
}

/// Reading one extension of an `Extensions` body, from the top level: an
/// unrecognized critical one is refused.
pub open spec fn spec_extension_item(config: Config) -> spec_fn(Seq<u8>, int) -> Result<((Seq<u8>, bool, Seq<u8>), int)> {
    |s: Seq<u8>, p: int|
        match spec_extension_at(s, p, config, 0) {
            Err(e) => Err(e),
            Ok((v, n)) => if v.1 && !spec_known_extension(v.0) {
                Err(Error::UnknownCriticalExtension)
            } else {
                Ok((v, n))
            },
        }
}

/// The extensions of an `Extensions` body `c`.
pub open spec fn spec_extensions_content(c: Seq<u8>, config: Config) -> Result<Seq<(Seq<u8>, bool, Seq<u8>)>> {
    spec_items_from(c, 0, spec_extension_item(config))
}

impl<'a> Extension<'a> {
    /// Returns `true` if this extension's OID equals `expected`.
    pub fn is(&self, expected: &[u64]) -> (r: bool)
        ensures
            r == (spec_oid_arcs(self.extn_id.0@) == Some(expected@)),
    {
        oid_eq(&self.extn_id, expected)
    }

    /// Decode the extension value as `T` (DER, filling the value).
    pub fn decode_value<T: Decode<'a>>(&self) -> (res: Result<T>)
        ensures
            self.extn_value@.len() == 0 ==> res is Err,
            crate::asn1::decode::view_result(
                res,
                spec_filling(self.extn_value@, T::spec_decode(self.extn_value@, 0, spec_default_config(EncodingRule::Der), 0)),
            ),
    {
        crate::asn1::decode::<T>(self.extn_value)
    }
}

/// The extension OIDs this library recognizes (a critical one is processed
/// rather than rejected).
pub open spec fn spec_known_extension(b: Seq<u8>) -> bool {
    let a = spec_oid_arcs(b);
    ||| a == Some(ext::BASIC_CONSTRAINTS@)
    ||| a == Some(ext::KEY_USAGE@)
    ||| a == Some(ext::EXT_KEY_USAGE@)
    ||| a == Some(ext::SUBJECT_ALT_NAME@)
    ||| a == Some(ext::ISSUER_ALT_NAME@)
    ||| a == Some(ext::SUBJECT_KEY_IDENTIFIER@)
    ||| a == Some(ext::AUTHORITY_KEY_IDENTIFIER@)
    ||| a == Some(ext::CRL_DISTRIBUTION_POINTS@)
    ||| a == Some(ext::AUTHORITY_INFO_ACCESS@)
    ||| a == Some(ext::CERTIFICATE_POLICIES@)
    ||| a == Some(ext::POLICY_CONSTRAINTS@)
    ||| a == Some(ext::NAME_CONSTRAINTS@)
    ||| a == Some(ext::INHIBIT_ANY_POLICY@)
    ||| a == Some(ext::FRESHEST_CRL@)
    ||| a == Some(ext::CRL_NUMBER@)
    ||| a == Some(ext::DELTA_CRL_INDICATOR@)
    ||| a == Some(ext::ISSUING_DISTRIBUTION_POINT@)
}

/// Returns `true` if `oid` is a recognized extension (so a critical instance is
/// safe to process rather than reject).
pub fn is_known_extension(oid: &ObjectIdentifier<'_>) -> (r: bool)
    ensures
        r == spec_known_extension(oid.0@),
{
    let known: [&[u64]; 17] = [
        ext::BASIC_CONSTRAINTS.as_slice(),
        ext::KEY_USAGE.as_slice(),
        ext::EXT_KEY_USAGE.as_slice(),
        ext::SUBJECT_ALT_NAME.as_slice(),
        ext::ISSUER_ALT_NAME.as_slice(),
        ext::SUBJECT_KEY_IDENTIFIER.as_slice(),
        ext::AUTHORITY_KEY_IDENTIFIER.as_slice(),
        ext::CRL_DISTRIBUTION_POINTS.as_slice(),
        ext::AUTHORITY_INFO_ACCESS.as_slice(),
        ext::CERTIFICATE_POLICIES.as_slice(),
        ext::POLICY_CONSTRAINTS.as_slice(),
        ext::NAME_CONSTRAINTS.as_slice(),
        ext::INHIBIT_ANY_POLICY.as_slice(),
        ext::FRESHEST_CRL.as_slice(),
        ext::CRL_NUMBER.as_slice(),
        ext::DELTA_CRL_INDICATOR.as_slice(),
        ext::ISSUING_DISTRIBUTION_POINT.as_slice(),
    ];
    let r = oid_in(oid, known.as_slice());
    proof {
        let k = known@;
        assert(k[0]@ == ext::BASIC_CONSTRAINTS@);
        assert(k[1]@ == ext::KEY_USAGE@);
        assert(k[2]@ == ext::EXT_KEY_USAGE@);
        assert(k[3]@ == ext::SUBJECT_ALT_NAME@);
        assert(k[4]@ == ext::ISSUER_ALT_NAME@);
        assert(k[5]@ == ext::SUBJECT_KEY_IDENTIFIER@);
        assert(k[6]@ == ext::AUTHORITY_KEY_IDENTIFIER@);
        assert(k[7]@ == ext::CRL_DISTRIBUTION_POINTS@);
        assert(k[8]@ == ext::AUTHORITY_INFO_ACCESS@);
        assert(k[9]@ == ext::CERTIFICATE_POLICIES@);
        assert(k[10]@ == ext::POLICY_CONSTRAINTS@);
        assert(k[11]@ == ext::NAME_CONSTRAINTS@);
        assert(k[12]@ == ext::INHIBIT_ANY_POLICY@);
        assert(k[13]@ == ext::FRESHEST_CRL@);
        assert(k[14]@ == ext::CRL_NUMBER@);
        assert(k[15]@ == ext::DELTA_CRL_INDICATOR@);
        assert(k[16]@ == ext::ISSUING_DISTRIBUTION_POINT@);
    }
    r
}

/// The set of extensions carried by a `TBSCertificate`.
#[derive(Clone, Debug, PartialEq, Eq)]
pub struct Extensions<'a> {
    list: Vec<Extension<'a>>,
}

/// The index of the first extension of `list` whose OID has the arcs `e`.
pub open spec fn spec_first_ext(list: Seq<Extension>, e: Seq<u64>) -> Option<int> {
    if exists|i: int| 0 <= i < list.len() && spec_oid_arcs(list[i].extn_id.0@) == Some(e) {
        Some(choose|i: int| 0 <= i < list.len() && spec_oid_arcs(list[i].extn_id.0@) == Some(e) && forall|j: int|
            0 <= j < i ==> spec_oid_arcs(#[trigger] list[j].extn_id.0@) != Some(e))
    } else {
        None
    }
}

/// No extension of `list` is critical and unrecognized.
pub open spec fn spec_no_unknown_critical(list: Seq<Extension>) -> bool {
    forall|i: int| 0 <= i < list.len() && (#[trigger] list[i]).critical ==> spec_known_extension(list[i].extn_id.0@)
}

impl<'a> View for Extensions<'a> {
    /// The extensions, in order.
    type V = Seq<(Seq<u8>, bool, Seq<u8>)>;

    closed spec fn view(&self) -> Seq<(Seq<u8>, bool, Seq<u8>)> {
        self.list@.map_values(|e: Extension<'a>| e@)
    }
}

impl<'a> Extensions<'a> {
    /// The extensions, in order.
    pub closed spec fn spec_list(&self) -> Seq<Extension<'a>> {
        self.list@
    }

    /// An empty extension set.
    pub fn empty() -> (e: Self)
        ensures
            e.spec_list().len() == 0,
            e@ == Seq::<(Seq<u8>, bool, Seq<u8>)>::empty(),
    {
        let e = Extensions { list: Vec::new() };
        assert(e@ =~= Seq::<(Seq<u8>, bool, Seq<u8>)>::empty());
        e
    }

    /// Decode `Extensions` from the `SEQUENCE OF Extension` body (the content of
    /// the `extensions` context-[3] field). Critically-unknown extensions fail
    /// closed: no extension set that is returned holds one.
    #[verifier::loop_isolation(false)]
    pub fn from_content(content: &'a [u8], config: Config) -> (res: Result<Self>)
        ensures
            res matches Ok(e) ==> spec_no_unknown_critical(e.spec_list()),
            match spec_extensions_content(content@, config) {
                Ok(v) => res is Ok && res->Ok_0@ == v,
                Err(e) => res == Err::<Self, Error>(e),
            },
    {
        let mut r = Reader::new(content, config);
        let mut list: Vec<Extension<'a>> = Vec::new();
        let ghost s = content@;
        assert(spec_prepend(list@.map_values(|x: Extension<'a>| x@), spec_items_from(s, 0, spec_extension_item(config)))
            =~= spec_items_from(s, 0, spec_extension_item(config)));
        while !r.is_empty()
            invariant
                spec_no_unknown_critical(list@),
                r.spec_input() == s,
                r.spec_config() == config,
                r.spec_depth() == 0,
                spec_prepend(list@.map_values(|x: Extension<'a>| x@), spec_items_from(s, r.spec_pos(), spec_extension_item(config)))
                    == spec_items_from(s, 0, spec_extension_item(config)),
            decreases r.spec_input().len() - r.spec_pos(),
        {
            let ghost p = r.spec_pos();
            let ghost before = list@.map_values(|x: Extension<'a>| x@);
            let e = Extension::decode(&mut r)?;
            if e.critical && !is_known_extension(&e.extn_id) {
                return Err(Error::UnknownCriticalExtension);
            }
            proof { lemma_items_step::<(Seq<u8>, bool, Seq<u8>), Error>(s, p, spec_extension_item(config), before, e@, r.spec_pos()); }
            let ghost prev = list@;
            list.push(e);
            assert(list@.map_values(|x: Extension<'a>| x@) =~= before.push(e@));
            assert(spec_no_unknown_critical(list@)) by {
                assert forall|i: int| 0 <= i < list@.len() && (#[trigger] list@[i]).critical implies spec_known_extension(
                    list@[i].extn_id.0@,
                ) by {
                    if i < list@.len() - 1 {
                        assert(list@[i] == prev[i]);
                    }
                }
            }
        }
        let ghost fin = list@.map_values(|x: Extension<'a>| x@);
        assert(fin + Seq::<(Seq<u8>, bool, Seq<u8>)>::empty() =~= fin);
        Ok(Extensions { list })
    }

    /// Number of extensions.
    pub fn len(&self) -> (n: usize)
        ensures
            n == self.spec_list().len(),
    {
        self.list.len()
    }

    /// Whether the set is empty.
    pub fn is_empty(&self) -> (r: bool)
        ensures
            r == (self.spec_list().len() == 0),
    {
        self.list.len() == 0
    }

    /// The extensions, in order.
    pub fn iter(&self) -> (s: &[Extension<'a>])
        ensures
            s@ == self.spec_list(),
    {
        self.list.as_slice()
    }

    /// Decode the [`BasicConstraints`] extension, if present. The value is
    /// decoded under DER and must fill the extension.
    pub fn basic_constraints(&self) -> (res: Result<Option<BasicConstraints>>)
        ensures
            res == (match spec_first_ext(self.spec_list(), ext::BASIC_CONSTRAINTS@) {
                None => Ok(None),
                Some(i) => match spec_bc_der(self.spec_list()[i].extn_value@) {
                    Ok(v) => Ok(Some(v)),
                    Err(e) => Err(e),
                },
            }),
    {
        match self.find(&ext::BASIC_CONSTRAINTS) {
            None => Ok(None),
            Some(e) => {
                let v = e.decode_value::<BasicConstraints>()?;
                Ok(Some(v))
            },
        }
    }

    /// Decode the [`KeyUsage`] extension, if present. The value is decoded
    /// under DER and must fill the extension.
    pub fn key_usage(&self) -> (res: Result<Option<KeyUsage<'a>>>)
        ensures
            match spec_first_ext(self.spec_list(), ext::KEY_USAGE@) {
                None => res == Ok::<Option<KeyUsage<'a>>, Error>(None),
                Some(i) => match spec_ku_der(self.spec_list()[i].extn_value@) {
                    Ok(v) => res matches Ok(Some(k)) && k@ == v,
                    Err(e) => res == Err::<Option<KeyUsage<'a>>, Error>(e),
                },
            },
    {
        match self.find(&ext::KEY_USAGE) {
            None => Ok(None),
            Some(e) => {
                let v = e.decode_value::<KeyUsage<'a>>()?;
                Ok(Some(v))
            },
        }
    }

    /// Decode the [`ExtendedKeyUsage`] extension, if present. The value is decoded under DER and must fill the extension.
    pub fn extended_key_usage(&self) -> (res: Result<Option<ExtendedKeyUsage<'a>>>)
        ensures
            (res matches Ok(None)) <==> spec_first_ext(self.spec_list(), ext::EXT_KEY_USAGE@) is None,
            ext_result(
                res,
                spec_first_ext(self.spec_list(), ext::EXT_KEY_USAGE@) is Some,
                spec_eku_value(spec_ext_value(self.spec_list(), ext::EXT_KEY_USAGE@)),
            ),
    {
        proof { reveal(spec_eku_value); }
        match self.find(&ext::EXT_KEY_USAGE) {
            None => Ok(None),
            Some(e) => {
                let v = e.decode_value::<ExtendedKeyUsage<'a>>()?;
                Ok(Some(v))
            },
        }
    }

    /// Decode the subject alternative names, if present. The value is decoded under DER and must fill the extension.
    pub fn subject_alt_name(&self) -> (res: Result<Option<GeneralNames<'a>>>)
        ensures
            (res matches Ok(None)) <==> spec_first_ext(self.spec_list(), ext::SUBJECT_ALT_NAME@) is None,
            ext_result(
                res,
                spec_first_ext(self.spec_list(), ext::SUBJECT_ALT_NAME@) is Some,
                spec_general_names_value(spec_ext_value(self.spec_list(), ext::SUBJECT_ALT_NAME@)),
            ),
    {
        proof { reveal(spec_general_names_value); }
        match self.find(&ext::SUBJECT_ALT_NAME) {
            None => Ok(None),
            Some(e) => {
                let v = e.decode_value::<GeneralNames<'a>>()?;
                Ok(Some(v))
            },
        }
    }

    /// Decode the issuer alternative names, if present. The value is decoded under DER and must fill the extension.
    pub fn issuer_alt_name(&self) -> (res: Result<Option<GeneralNames<'a>>>)
        ensures
            (res matches Ok(None)) <==> spec_first_ext(self.spec_list(), ext::ISSUER_ALT_NAME@) is None,
            ext_result(
                res,
                spec_first_ext(self.spec_list(), ext::ISSUER_ALT_NAME@) is Some,
                spec_general_names_value(spec_ext_value(self.spec_list(), ext::ISSUER_ALT_NAME@)),
            ),
    {
        proof { reveal(spec_general_names_value); }
        match self.find(&ext::ISSUER_ALT_NAME) {
            None => Ok(None),
            Some(e) => {
                let v = e.decode_value::<GeneralNames<'a>>()?;
                Ok(Some(v))
            },
        }
    }

    /// Decode the [`SubjectKeyIdentifier`], if present. The value is decoded under DER and must fill the extension.
    pub fn subject_key_identifier(&self) -> (res: Result<Option<SubjectKeyIdentifier<'a>>>)
        ensures
            (res matches Ok(None)) <==> spec_first_ext(self.spec_list(), ext::SUBJECT_KEY_IDENTIFIER@) is None,
            ext_result(
                res,
                spec_first_ext(self.spec_list(), ext::SUBJECT_KEY_IDENTIFIER@) is Some,
                spec_ski_value(spec_ext_value(self.spec_list(), ext::SUBJECT_KEY_IDENTIFIER@)),
            ),
    {
        proof { reveal(spec_ski_value); }
        match self.find(&ext::SUBJECT_KEY_IDENTIFIER) {
            None => Ok(None),
            Some(e) => {
                let v = e.decode_value::<SubjectKeyIdentifier<'a>>()?;
                Ok(Some(v))
            },
        }
    }

    /// Decode the [`AuthorityKeyIdentifier`], if present. The value is decoded under DER and must fill the extension.
    pub fn authority_key_identifier(&self) -> (res: Result<Option<AuthorityKeyIdentifier<'a>>>)
        ensures
            (res matches Ok(None)) <==> spec_first_ext(self.spec_list(), ext::AUTHORITY_KEY_IDENTIFIER@) is None,
            ext_result(
                res,
                spec_first_ext(self.spec_list(), ext::AUTHORITY_KEY_IDENTIFIER@) is Some,
                spec_aki_value(spec_ext_value(self.spec_list(), ext::AUTHORITY_KEY_IDENTIFIER@)),
            ),
    {
        proof { reveal(spec_aki_value); }
        match self.find(&ext::AUTHORITY_KEY_IDENTIFIER) {
            None => Ok(None),
            Some(e) => {
                let v = e.decode_value::<AuthorityKeyIdentifier<'a>>()?;
                Ok(Some(v))
            },
        }
    }

    /// Decode the [`CrlDistributionPoints`], if present. The value is decoded under DER and must fill the extension.
    pub fn crl_distribution_points(&self) -> (res: Result<Option<CrlDistributionPoints<'a>>>)
        ensures
            (res matches Ok(None)) <==> spec_first_ext(self.spec_list(), ext::CRL_DISTRIBUTION_POINTS@) is None,
            ext_result(
                res,
                spec_first_ext(self.spec_list(), ext::CRL_DISTRIBUTION_POINTS@) is Some,
                spec_crldp_value(spec_ext_value(self.spec_list(), ext::CRL_DISTRIBUTION_POINTS@)),
            ),
    {
        proof { reveal(spec_crldp_value); }
        match self.find(&ext::CRL_DISTRIBUTION_POINTS) {
            None => Ok(None),
            Some(e) => {
                let v = e.decode_value::<CrlDistributionPoints<'a>>()?;
                Ok(Some(v))
            },
        }
    }

    /// Decode the [`AuthorityInfoAccess`], if present. The value is decoded under DER and must fill the extension.
    pub fn authority_info_access(&self) -> (res: Result<Option<AuthorityInfoAccess<'a>>>)
        ensures
            (res matches Ok(None)) <==> spec_first_ext(self.spec_list(), ext::AUTHORITY_INFO_ACCESS@) is None,
            ext_result(
                res,
                spec_first_ext(self.spec_list(), ext::AUTHORITY_INFO_ACCESS@) is Some,
                spec_aia_value(spec_ext_value(self.spec_list(), ext::AUTHORITY_INFO_ACCESS@)),
            ),
    {
        proof { reveal(spec_aia_value); }
        match self.find(&ext::AUTHORITY_INFO_ACCESS) {
            None => Ok(None),
            Some(e) => {
                let v = e.decode_value::<AuthorityInfoAccess<'a>>()?;
                Ok(Some(v))
            },
        }
    }

    /// Decode the [`CertificatePolicies`], if present. The value is decoded under DER and must fill the extension.
    pub fn certificate_policies(&self) -> (res: Result<Option<CertificatePolicies<'a>>>)
        ensures
            (res matches Ok(None)) <==> spec_first_ext(self.spec_list(), ext::CERTIFICATE_POLICIES@) is None,
            ext_result(
                res,
                spec_first_ext(self.spec_list(), ext::CERTIFICATE_POLICIES@) is Some,
                spec_policies_value(spec_ext_value(self.spec_list(), ext::CERTIFICATE_POLICIES@)),
            ),
    {
        proof { reveal(spec_policies_value); }
        match self.find(&ext::CERTIFICATE_POLICIES) {
            None => Ok(None),
            Some(e) => {
                let v = e.decode_value::<CertificatePolicies<'a>>()?;
                Ok(Some(v))
            },
        }
    }

    /// Decode the [`NameConstraints`], if present. The value is decoded under DER and must fill the extension.
    pub fn name_constraints(&self) -> (res: Result<Option<NameConstraints<'a>>>)
        ensures
            (res matches Ok(None)) <==> spec_first_ext(self.spec_list(), ext::NAME_CONSTRAINTS@) is None,
            ext_result(
                res,
                spec_first_ext(self.spec_list(), ext::NAME_CONSTRAINTS@) is Some,
                spec_nc_value(spec_ext_value(self.spec_list(), ext::NAME_CONSTRAINTS@)),
            ),
    {
        proof { reveal(spec_nc_value); }
        match self.find(&ext::NAME_CONSTRAINTS) {
            None => Ok(None),
            Some(e) => {
                let v = e.decode_value::<NameConstraints<'a>>()?;
                Ok(Some(v))
            },
        }
    }

    /// Decode the [`PolicyConstraints`], if present. The value is decoded under DER and must fill the extension.
    pub fn policy_constraints(&self) -> (res: Result<Option<PolicyConstraints>>)
        ensures
            (res matches Ok(None)) <==> spec_first_ext(self.spec_list(), ext::POLICY_CONSTRAINTS@) is None,
            ext_result(
                res,
                spec_first_ext(self.spec_list(), ext::POLICY_CONSTRAINTS@) is Some,
                spec_pc_value(spec_ext_value(self.spec_list(), ext::POLICY_CONSTRAINTS@)),
            ),
    {
        proof { reveal(spec_pc_value); }
        match self.find(&ext::POLICY_CONSTRAINTS) {
            None => Ok(None),
            Some(e) => {
                let v = e.decode_value::<PolicyConstraints>()?;
                Ok(Some(v))
            },
        }
    }

    /// Decode the [`InhibitAnyPolicy`], if present. The value is decoded under DER and must fill the extension.
    pub fn inhibit_any_policy(&self) -> (res: Result<Option<InhibitAnyPolicy>>)
        ensures
            (res matches Ok(None)) <==> spec_first_ext(self.spec_list(), ext::INHIBIT_ANY_POLICY@) is None,
            ext_result(
                res,
                spec_first_ext(self.spec_list(), ext::INHIBIT_ANY_POLICY@) is Some,
                spec_inhibit_value(spec_ext_value(self.spec_list(), ext::INHIBIT_ANY_POLICY@)),
            ),
    {
        proof { reveal(spec_inhibit_value); }
        match self.find(&ext::INHIBIT_ANY_POLICY) {
            None => Ok(None),
            Some(e) => {
                let v = e.decode_value::<InhibitAnyPolicy>()?;
                Ok(Some(v))
            },
        }
    }

    /// Find the first extension with the given OID.
    pub fn find(&self, oid: &[u64]) -> (r: Option<&Extension<'a>>)
        ensures
            match spec_first_ext(self.spec_list(), oid@) {
                Some(i) => r is Some && *r->Some_0 == self.spec_list()[i],
                None => r is None,
            },
    {
        let mut i: usize = 0;
        while i < self.list.len()
            invariant
                i <= self.list@.len(),
                forall|j: int| 0 <= j < i ==> spec_oid_arcs(#[trigger] self.list@[j].extn_id.0@) != Some(oid@),
            decreases self.list@.len() - i,
        {
            if self.list[i].is(oid) {
                let ghost k = i as int;
                assert(spec_first_ext(self.list@, oid@) == Some(k)) by {
                    let c = spec_first_ext(self.list@, oid@)->Some_0;
                    assert(0 <= c < self.list@.len());
                    if c < k {
                    } else if c > k {
                    }
                }
                return Some(&self.list[i]);
            }
            i += 1;
        }
        None
    }
}

impl<'a> Decode<'a> for Extension<'a> {
    open spec fn spec_decode(s: Seq<u8>, pos: int, config: crate::asn1::reader::Config, depth: int) -> crate::asn1::error::Result<(<Self as View>::V, int)> {
        spec_extension_at(s, pos, config, depth)
    }

    fn decode(r: &mut Reader<'a>) -> (res: Result<Self>)
        ensures
            decoded(*old(r), *final(r), res, spec_extension_at(old(r).spec_input(), old(r).spec_pos(), old(r).spec_config(), old(r).spec_depth())),
    {
        proof {
            reveal(spec_extension_at);
            lemma_expect_tlv_progress(r.spec_input(), r.spec_pos(), r.spec_config(), spec_universal_constructed(16));
        }
        let mut inner = enter(r, Tag::universal_constructed(Tag::SEQUENCE))?;
        let extn_id = ObjectIdentifier::decode(&mut inner)?;
        // `critical` is DEFAULT FALSE and absent when false (DER).
        if inner.is_empty() {
            return Err(Error::TrailingData);
        }
        let any = Any::decode(&mut inner)?;
        let (critical, extn_value) = if any.tag.is_universal(Tag::BOOLEAN) {
            let b = any.decode_as::<Boolean>()?.0;
            let value_any = Any::decode(&mut inner)?;
            (b, value_any.decode_as::<OctetString>()?.0)
        } else {
            (false, any.decode_as::<OctetString>()?.0)
        };
        finish(&inner)?;
        Ok(Extension { extn_id, critical, extn_value })
    }
}

// --- BasicConstraints -----------------------------------------------------

/// `BasicConstraints` — `SEQUENCE { cA BOOLEAN DEFAULT FALSE,
/// pathLenConstraint INTEGER (0..MAX) OPTIONAL }`.
#[derive(Clone, Copy, Debug, PartialEq, Eq)]
pub struct BasicConstraints {
    /// Whether the subject is a CA.
    pub ca: bool,
    /// Maximum number of non-self-issued intermediate certs that may follow.
    pub path_len_constraint: Option<u64>,
}

/// The `BasicConstraints` fields in the SEQUENCE content `c`: an optional
/// leading BOOLEAN (cA), an optional INTEGER (pathLenConstraint, a `u64`),
/// and nothing after them.
pub open spec fn spec_bc_content(c: Seq<u8>, cfg: Config) -> Result<BasicConstraints> {
    let has_bool = c.len() > 0 && (match spec_decode_tag(c, 0) {
        Ok((t, _)) => t == spec_universal(1),
        Err(_) => false,
    });
    let r1: Result<(bool, int)> = if has_bool {
        match spec_expect_tlv(c, 0, cfg, spec_universal(1)) {
            Err(e) => Err(e),
            Ok((a1, b1, n1)) => match spec_boolean_content(c.subrange(a1, b1), cfg.rule) {
                Err(e) => Err(e),
                Ok(v) => Ok((v, n1)),
            },
        }
    } else {
        Ok((false, 0))
    };
    match r1 {
        Err(e) => Err(e),
        Ok((ca, p)) => {
            let r2: Result<(Option<u64>, int)> = if p < c.len() {
                match spec_expect_tlv(c, p, cfg, spec_universal(2)) {
                    Err(e) => Err(e),
                    Ok((a2, b2, n2)) => match spec_integer_content(c.subrange(a2, b2), cfg.rule) {
                        Err(e) => Err(e),
                        Ok(ib) => match spec_as_u64(ib) {
                            None => Err(Error::Custom("pathLenConstraint too large")),
                            Some(v) => Ok((Some(v), n2)),
                        },
                    },
                }
            } else {
                Ok((None, p))
            };
            match r2 {
                Err(e) => Err(e),
                Ok((pl, q)) => if q < c.len() {
                    Err(Error::TrailingData)
                } else {
                    Ok(BasicConstraints { ca, path_len_constraint: pl })
                },
            }
        },
    }
}

/// The `BasicConstraints` element at `pos` of `s`, read at nesting `depth`,
/// and the offset after it.
pub open spec fn spec_bc_at(s: Seq<u8>, pos: int, cfg: Config, depth: int) -> Result<(BasicConstraints, int)> {
    match spec_expect_tlv(s, pos, cfg, spec_universal_constructed(16)) {
        Err(e) => Err(e),
        Ok((a, b, n)) => if depth + 1 > cfg.max_recursion {
            Err(Error::RecursionLimitExceeded)
        } else {
            match spec_bc_content(s.subrange(a, b), cfg) {
                Err(e) => Err(e),
                Ok(v) => Ok((v, n)),
            }
        },
    }
}

/// The `BasicConstraints` an extension value `s` holds (DER, filling it).
pub open spec fn spec_bc_der(s: Seq<u8>) -> Result<BasicConstraints> {
    match spec_bc_at(s, 0, spec_default_config(EncodingRule::Der), 0) {
        Err(e) => Err(e),
        Ok((v, n)) => if n < s.len() {
            Err(Error::TrailingData)
        } else {
            Ok(v)
        },
    }
}

impl View for BasicConstraints {
    type V = BasicConstraints;

    open spec fn view(&self) -> BasicConstraints {
        *self
    }
}

impl<'a> Decode<'a> for BasicConstraints {
    open spec fn spec_decode(s: Seq<u8>, pos: int, config: crate::asn1::reader::Config, depth: int) -> crate::asn1::error::Result<(<Self as View>::V, int)> {
        spec_bc_at(s, pos, config, depth)
    }

    fn decode(r: &mut Reader<'a>) -> (res: Result<Self>)
        ensures
            match spec_bc_at(old(r).spec_input(), old(r).spec_pos(), old(r).spec_config(), old(r).spec_depth()) {
                Ok((v, n)) => res == Ok::<Self, Error>(v) && final(r).spec_pos() == n,
                Err(e) => res == Err::<Self, Error>(e),
            },
    {
        proof { lemma_expect_tlv_progress(r.spec_input(), r.spec_pos(), r.spec_config(), spec_universal_constructed(16)); }
        let ghost cfg = r.spec_config();
        let mut inner = enter(r, Tag::universal_constructed(Tag::SEQUENCE))?;
        let ghost c = inner.spec_input();
        let boolean_next = if inner.is_empty() {
            false
        } else {
            match inner.peek_tag() {
                Ok(t) => t == Tag::universal(Tag::BOOLEAN),
                Err(_) => false,
            }
        };
        let ca = if boolean_next {
            Boolean::decode(&mut inner)?.0
        } else {
            false
        };
        let ghost p = inner.spec_pos();
        let path_len_constraint = if !inner.is_empty() {
            match Integer::decode(&mut inner)?.as_u64() {
                Some(v) => Some(v),
                None => {
                    return Err(Error::Custom("pathLenConstraint too large"));
                },
            }
        } else {
            None
        };
        finish(&inner)?;
        Ok(BasicConstraints { ca, path_len_constraint })
    }
}


// --- KeyUsage --------------------------------------------------------------

/// `KeyUsage` — a `BIT STRING`.
#[derive(Clone, Copy, Debug, PartialEq, Eq)]
pub struct KeyUsage<'a> {
    bits: BitString<'a>,
}

/// Bit `bit` (0 = the most significant bit of the first octet) of `data` is set.
pub open spec fn spec_bit_set(data: Seq<u8>, bit: u8) -> bool {
    let byte = bit / 8;
    byte < data.len() && (data[byte as int] & (1u8 << ((7 - bit % 8) as u8))) != 0
}

impl<'a> KeyUsage<'a> {
    /// The key-usage bits.
    pub closed spec fn spec_bits(&self) -> BitString<'a> {
        self.bits
    }

    /// The raw `BIT STRING`.
    pub fn as_bit_string(&self) -> (b: BitString<'a>)
        ensures
            b == self.spec_bits(),
    {
        self.bits
    }

    /// Returns `true` if `bit` (0 = most significant) is set.
    pub fn is_set(&self, bit: u8) -> (r: bool)
        ensures
            r == spec_bit_set(self.spec_bits().data@, bit),
    {
        let byte = (bit / 8) as usize;
        let bit_in_byte = 7 - (bit % 8);
        if byte < self.bits.data.len() {
            (self.bits.data[byte] & (1u8 << bit_in_byte)) != 0
        } else {
            false
        }
    }
}

impl<'a> View for KeyUsage<'a> {
    type V = (u8, Seq<u8>);

    open spec fn view(&self) -> (u8, Seq<u8>) {
        self.spec_bits()@
    }
}

impl<'a> Decode<'a> for KeyUsage<'a> {
    open spec fn spec_decode(s: Seq<u8>, pos: int, config: crate::asn1::reader::Config, depth: int) -> crate::asn1::error::Result<(<Self as View>::V, int)> {
        crate::asn1::decode::spec_prim_at(s, pos, config, spec_universal(3), |b: Seq<u8>| spec_bitstring_content(b))
    }

    fn decode(r: &mut Reader<'a>) -> (res: Result<Self>)
        ensures
            crate::asn1::decode::primitive_read(*old(r), *final(r), res, spec_universal(3), |b: Seq<u8>| spec_bitstring_content(b)),
    {
        let bits = BitString::decode(r)?;
        Ok(KeyUsage { bits })
    }
}

/// The key-usage bits (unused-bit count and octets) an extension value `s`
/// holds (a DER BIT STRING filling it).
pub open spec fn spec_ku_der(s: Seq<u8>) -> Result<(u8, Seq<u8>)> {
    match spec_expect_tlv(s, 0, spec_default_config(EncodingRule::Der), spec_universal(3)) {
        Err(e) => Err(e),
        Ok((a, b, n)) => match spec_bitstring_content(s.subrange(a, b)) {
            Err(e) => Err(e),
            Ok(v) => if n < s.len() {
                Err(Error::TrailingData)
            } else {
                Ok(v)
            },
        },
    }
}


// --- ExtendedKeyUsage -----------------------------------------------------

/// `ExtendedKeyUsage` — `SEQUENCE OF KeyPurposeId`.
#[derive(Clone, Debug, PartialEq, Eq)]
pub struct ExtendedKeyUsage<'a> {
    /// The key-purpose OIDs.
    pub purposes: Vec<ObjectIdentifier<'a>>,
}

impl<'a> View for ExtendedKeyUsage<'a> {
    /// The purpose OIDs' bytes.
    type V = Seq<Seq<u8>>;

    open spec fn view(&self) -> Seq<Seq<u8>> {
        self.purposes@.map_values(|o: ObjectIdentifier<'a>| o.0@)
    }
}

/// Reading one OID of a list.
pub open spec fn spec_oid_item(config: Config) -> spec_fn(Seq<u8>, int) -> Result<(Seq<u8>, int)> {
    |s: Seq<u8>, p: int| spec_prim_at(s, p, config, spec_universal(6), |b: Seq<u8>| spec_oid_content(b))
}

/// The `ExtendedKeyUsage` at `pos` of `s`, met at nesting `depth`: a
/// SEQUENCE of OIDs.
pub open spec fn spec_eku_at(s: Seq<u8>, pos: int, config: Config, depth: int) -> Result<(Seq<Seq<u8>>, int)> {
    spec_nested_at(s, pos, config, depth, spec_universal_constructed(16), |c: Seq<u8>, d: int| spec_items_from(c, 0, spec_oid_item(config)))
}

impl<'a> ExtendedKeyUsage<'a> {
    /// Returns `true` if the given purpose OID is present.
    pub fn contains(&self, purpose: &[u64]) -> (r: bool)
        ensures
            r == exists|i: int| 0 <= i < self.purposes@.len() && spec_oid_arcs(#[trigger] self.purposes@[i].0@) == Some(purpose@),
    {
        let mut i: usize = 0;
        while i < self.purposes.len()
            invariant
                i <= self.purposes@.len(),
                forall|j: int| 0 <= j < i ==> spec_oid_arcs(#[trigger] self.purposes@[j].0@) != Some(purpose@),
            decreases self.purposes@.len() - i,
        {
            if oid_eq(&self.purposes[i], purpose) {
                return true;
            }
            i += 1;
        }
        false
    }

    /// Returns `true` if `id-kp-serverAuth` is present.
    pub fn allows_tls_server(&self) -> (r: bool)
        ensures
            r == exists|i: int| 0 <= i < self.purposes@.len() && spec_oid_arcs(#[trigger] self.purposes@[i].0@) == Some(eku::SERVER_AUTH@),
    {
        self.contains(&eku::SERVER_AUTH)
    }
}

impl<'a> Decode<'a> for ExtendedKeyUsage<'a> {
    open spec fn spec_decode(s: Seq<u8>, pos: int, config: crate::asn1::reader::Config, depth: int) -> crate::asn1::error::Result<(<Self as View>::V, int)> {
        spec_eku_at(s, pos, config, depth)
    }

    #[verifier::loop_isolation(false)]
    fn decode(r: &mut Reader<'a>) -> (res: Result<Self>)
        ensures
            decoded(*old(r), *final(r), res, spec_eku_at(old(r).spec_input(), old(r).spec_pos(), old(r).spec_config(), old(r).spec_depth())),
    {
        proof { lemma_expect_tlv_progress(r.spec_input(), r.spec_pos(), r.spec_config(), spec_universal_constructed(16)); }
        let mut inner = enter(r, Tag::universal_constructed(Tag::SEQUENCE))?;
        let ghost c = inner.spec_input();
        let ghost config = inner.spec_config();
        let mut purposes: Vec<ObjectIdentifier<'a>> = Vec::new();
        assert(spec_prepend(purposes@.map_values(|o: ObjectIdentifier<'a>| o.0@), spec_items_from(c, 0, spec_oid_item(config)))
            =~= spec_items_from(c, 0, spec_oid_item(config)));
        while !inner.is_empty()
            invariant
                inner.spec_input() == c,
                inner.spec_config() == config,
                spec_prepend(purposes@.map_values(|o: ObjectIdentifier<'a>| o.0@), spec_items_from(c, inner.spec_pos(), spec_oid_item(config)))
                    == spec_items_from(c, 0, spec_oid_item(config)),
            decreases inner.spec_input().len() - inner.spec_pos(),
        {
            let ghost p = inner.spec_pos();
            let ghost before = purposes@.map_values(|o: ObjectIdentifier<'a>| o.0@);
            let o = ObjectIdentifier::decode(&mut inner)?;
            proof { lemma_items_step::<Seq<u8>, Error>(c, p, spec_oid_item(config), before, o.0@, inner.spec_pos()); }
            purposes.push(o);
            assert(purposes@.map_values(|o: ObjectIdentifier<'a>| o.0@) =~= before.push(o.0@));
        }
        let ghost fin = purposes@.map_values(|o: ObjectIdentifier<'a>| o.0@);
        assert(fin + Seq::<Seq<u8>>::empty() =~= fin);
        Ok(ExtendedKeyUsage { purposes })
    }
}

// --- GeneralName / GeneralNames -------------------------------------------

/// A `GeneralName` (RFC 5280 §4.2.1.6). Only the commonly exercised members are
/// decoded into structured form; exotic members are retained as raw bytes.
#[derive(Clone, Debug, PartialEq, Eq)]
pub enum GeneralName<'a> {
    /// `[0] EXPLICIT otherName` (type OID + value).
    OtherName {
        /// The other-name type OID.
        type_id: ObjectIdentifier<'a>,
        /// The (undecoded) value.
        value: Any<'a>,
    },
    /// `[1] rfc822Name` (email address).
    Rfc822Name(&'a [u8]),
    /// `[2] dNSName`.
    DnsName(&'a [u8]),
    /// `[4] EXPLICIT directoryName`.
    DirectoryName(Name<'a>),
    /// `[6] uniformResourceIdentifier`.
    Uri(&'a [u8]),
    /// `[7] iPAddress` (4 or 16 raw octets).
    IpAddress(&'a [u8]),
    /// `[8] registeredID`.
    RegisteredId(ObjectIdentifier<'a>),
    /// Any other GeneralName form, preserved verbatim.
    Other {
        /// The context tag number.
        tag_number: u32,
        /// The raw value bytes.
        bytes: &'a [u8],
    },
}

impl<'a> GeneralName<'a> {
    /// The DNS-name bytes, if this is a `dNSName`.
    pub fn dns(&self) -> (r: Option<&'a [u8]>)
        ensures
            match self {
                GeneralName::DnsName(b) => r is Some && r->Some_0@ == b@,
                _ => r is None,
            },
    {
        match self {
            GeneralName::DnsName(b) => Some(b),
            _ => None,
        }
    }

    /// The URI bytes, if this is a `uniformResourceIdentifier`.
    pub fn uri(&self) -> (r: Option<&'a [u8]>)
        ensures
            match self {
                GeneralName::Uri(b) => r is Some && r->Some_0@ == b@,
                _ => r is None,
            },
    {
        match self {
            GeneralName::Uri(b) => Some(b),
            _ => None,
        }
    }
}

/// A `GeneralName` as values.
pub ghost enum GeneralNameView {
    /// `otherName`: type OID bytes and the value element.
    OtherName(Seq<u8>, (Tag, Length, Seq<u8>, Seq<u8>)),
    /// `rfc822Name`.
    Rfc822Name(Seq<u8>),
    /// `dNSName`.
    DnsName(Seq<u8>),
    /// `directoryName`.
    DirectoryName((Seq<Seq<(Seq<u8>, (bool, u32, Seq<u8>))>>, Seq<u8>)),
    /// `uniformResourceIdentifier`.
    Uri(Seq<u8>),
    /// `iPAddress`.
    IpAddress(Seq<u8>),
    /// `registeredID` OID bytes.
    RegisteredId(Seq<u8>),
    /// Any other form: tag number and value bytes.
    Other(u32, Seq<u8>),
}

impl<'a> View for GeneralName<'a> {
    type V = GeneralNameView;

    open spec fn view(&self) -> GeneralNameView {
        match self {
            GeneralName::OtherName { type_id, value } => GeneralNameView::OtherName(type_id.0@, value@),
            GeneralName::Rfc822Name(b) => GeneralNameView::Rfc822Name(b@),
            GeneralName::DnsName(b) => GeneralNameView::DnsName(b@),
            GeneralName::DirectoryName(n) => GeneralNameView::DirectoryName(n@),
            GeneralName::Uri(b) => GeneralNameView::Uri(b@),
            GeneralName::IpAddress(b) => GeneralNameView::IpAddress(b@),
            GeneralName::RegisteredId(o) => GeneralNameView::RegisteredId(o.0@),
            GeneralName::Other { tag_number, bytes } => GeneralNameView::Other(*tag_number, bytes@),
        }
    }
}

/// The content of an `otherName` SEQUENCE: the type OID, one element, and
/// nothing after them.
pub open spec fn spec_other_name_body(c: Seq<u8>, config: Config) -> Result<(Seq<u8>, (Tag, Length, Seq<u8>, Seq<u8>))> {
    match spec_prim_at(c, 0, config, spec_universal(6), |b: Seq<u8>| spec_oid_content(b)) {
        Err(e) => Err(e),
        Ok((oid, p)) => match spec_any_at(c, p, config) {
            Err(e) => Err(e),
            Ok((v, q)) => if q < c.len() {
                Err(Error::TrailingData)
            } else {
                Ok((oid, v))
            },
        },
    }
}

/// The `GeneralName` at `pos` of `s`: its form by the element's tag (the
/// `[0]`, `[4]` and `[8]` forms read their value from the top level), and
/// the offset after it.
#[verifier::opaque]
pub open spec fn spec_general_name_at(s: Seq<u8>, pos: int, config: Config) -> Result<(GeneralNameView, int)> {
    match spec_any_at(s, pos, config) {
        Err(e) => Err(e),
        Ok((a, n)) => {
            let t = a.0;
            let v = a.2;
            if t == spec_context(true, 0) {
                match spec_nested_at(v, 0, config, 0, spec_universal_constructed(16), |c: Seq<u8>, d: int| spec_other_name_body(c, config)) {
                    Err(e) => Err(e),
                    Ok(((oid, val), _)) => Ok((GeneralNameView::OtherName(oid, val), n)),
                }
            } else if t == spec_context(false, 1) {
                Ok((GeneralNameView::Rfc822Name(v), n))
            } else if t == spec_context(false, 2) {
                Ok((GeneralNameView::DnsName(v), n))
            } else if t == spec_context(true, 4) {
                match spec_name_at(v, 0, config) {
                    Err(e) => Err(e),
                    Ok((nm, _)) => Ok((GeneralNameView::DirectoryName(nm), n)),
                }
            } else if t == spec_context(false, 6) {
                Ok((GeneralNameView::Uri(v), n))
            } else if t == spec_context(false, 7) {
                Ok((GeneralNameView::IpAddress(v), n))
            } else if t == spec_context(false, 8) {
                match spec_prim_at(v, 0, config, spec_universal(6), |b: Seq<u8>| spec_oid_content(b)) {
                    Err(e) => Err(e),
                    Ok((oid, _)) => Ok((GeneralNameView::RegisteredId(oid), n)),
                }
            } else {
                Ok((GeneralNameView::Other(t.number, v), n))
            }
        },
    }
}

/// Reading one `GeneralName` of a list.
pub open spec fn spec_general_name_item(config: Config) -> spec_fn(Seq<u8>, int) -> Result<(GeneralNameView, int)> {
    |s: Seq<u8>, p: int| spec_general_name_at(s, p, config)
}

/// The `GeneralNames` at `pos` of `s`, met at nesting `depth`: a SEQUENCE of
/// general names.
pub open spec fn spec_general_names_at(s: Seq<u8>, pos: int, config: Config, depth: int) -> Result<(Seq<GeneralNameView>, int)> {
    spec_nested_at(
        s,
        pos,
        config,
        depth,
        spec_universal_constructed(16),
        |c: Seq<u8>, d: int| spec_items_from(c, 0, spec_general_name_item(config)),
    )
}

/// The general name with tag `t` carries the value bytes `v` directly (for
/// the string and address forms), as `g`.
pub open spec fn spec_general_name_form(t: Tag, v: Seq<u8>, g: GeneralName) -> bool {
    &&& t == spec_context(false, 1) ==> (g matches GeneralName::Rfc822Name(b) && b@ == v)
    &&& t == spec_context(false, 2) ==> (g matches GeneralName::DnsName(b) && b@ == v)
    &&& t == spec_context(false, 6) ==> (g matches GeneralName::Uri(b) && b@ == v)
    &&& t == spec_context(false, 7) ==> (g matches GeneralName::IpAddress(b) && b@ == v)
    &&& t == spec_context(true, 0) ==> g is OtherName
    &&& t == spec_context(true, 4) ==> g is DirectoryName
    &&& t == spec_context(false, 8) ==> g is RegisteredId
    &&& !(t == spec_context(false, 1) || t == spec_context(false, 2) || t == spec_context(false, 6) || t
        == spec_context(false, 7) || t == spec_context(true, 0) || t == spec_context(true, 4) || t == spec_context(
        false,
        8,
    )) ==> (g matches GeneralName::Other { tag_number, bytes } && tag_number == t.number && bytes@ == v)
}

impl<'a> Decode<'a> for GeneralName<'a> {
    open spec fn spec_decode(s: Seq<u8>, pos: int, config: crate::asn1::reader::Config, depth: int) -> crate::asn1::error::Result<(<Self as View>::V, int)> {
        spec_general_name_at(s, pos, config)
    }

    fn decode(r: &mut Reader<'a>) -> (res: Result<Self>)
        ensures
            match spec_any_at(old(r).spec_input(), old(r).spec_pos(), old(r).spec_config()) {
                Ok((a, n)) => final(r).spec_pos() == n && (res matches Ok(g) ==> spec_general_name_form(a.0, a.2, g)),
                Err(e) => res == Err::<Self, Error>(e),
            },
            decoded(*old(r), *final(r), res, spec_general_name_at(old(r).spec_input(), old(r).spec_pos(), old(r).spec_config())),
    {
        proof {
            reveal(spec_general_name_at);
            crate::asn1::reader::lemma_read_tlv_bounds(r.spec_input(), r.spec_pos(), r.spec_config());
        }
        let any = Any::decode(r)?;
        let t = any.tag;
        let config = *r.config();
        if t == Tag::context(true, 0) {
            let mut sub = Reader::new(any.value, config);
            proof { lemma_expect_tlv_progress(sub.spec_input(), sub.spec_pos(), sub.spec_config(), spec_universal_constructed(16)); }
            let mut s = enter(&mut sub, Tag::universal_constructed(Tag::SEQUENCE))?;
            let type_id = ObjectIdentifier::decode(&mut s)?;
            let value = Any::decode(&mut s)?;
            finish(&s)?;
            Ok(GeneralName::OtherName { type_id, value })
        } else if t == Tag::context(false, 1) {
            Ok(GeneralName::Rfc822Name(any.value))
        } else if t == Tag::context(false, 2) {
            Ok(GeneralName::DnsName(any.value))
        } else if t == Tag::context(true, 4) {
            let mut sub = Reader::new(any.value, config);
            let name = Name::decode(&mut sub)?;
            Ok(GeneralName::DirectoryName(name))
        } else if t == Tag::context(false, 6) {
            Ok(GeneralName::Uri(any.value))
        } else if t == Tag::context(false, 7) {
            Ok(GeneralName::IpAddress(any.value))
        } else if t == Tag::context(false, 8) {
            let mut sub = Reader::new(any.value, config);
            Ok(GeneralName::RegisteredId(ObjectIdentifier::decode(&mut sub)?))
        } else {
            Ok(GeneralName::Other { tag_number: t.number, bytes: any.value })
        }
    }
}

/// `GeneralNames` — `SEQUENCE OF GeneralName`.
#[derive(Clone, Debug, PartialEq, Eq)]
pub struct GeneralNames<'a> {
    /// The names.
    pub names: Vec<GeneralName<'a>>,
}

impl<'a> View for GeneralNames<'a> {
    /// The names, in order.
    type V = Seq<GeneralNameView>;

    open spec fn view(&self) -> Seq<GeneralNameView> {
        self.names@.map_values(|g: GeneralName<'a>| g@)
    }
}

impl<'a> GeneralNames<'a> {
    /// The names, in order.
    pub fn iter(&self) -> (s: &[GeneralName<'a>])
        ensures
            s@ == self.names@,
    {
        self.names.as_slice()
    }
}

impl<'a> Decode<'a> for GeneralNames<'a> {
    open spec fn spec_decode(s: Seq<u8>, pos: int, config: crate::asn1::reader::Config, depth: int) -> crate::asn1::error::Result<(<Self as View>::V, int)> {
        spec_general_names_at(s, pos, config, depth)
    }

    #[verifier::loop_isolation(false)]
    fn decode(r: &mut Reader<'a>) -> (res: Result<Self>)
        ensures
            decoded(*old(r), *final(r), res, spec_general_names_at(old(r).spec_input(), old(r).spec_pos(), old(r).spec_config(), old(r).spec_depth())),
    {
        proof { lemma_expect_tlv_progress(r.spec_input(), r.spec_pos(), r.spec_config(), spec_universal_constructed(16)); }
        let mut inner = enter(r, Tag::universal_constructed(Tag::SEQUENCE))?;
        let ghost c = inner.spec_input();
        let ghost config = inner.spec_config();
        let mut names: Vec<GeneralName<'a>> = Vec::new();
        assert(spec_prepend(names@.map_values(|g: GeneralName<'a>| g@), spec_items_from(c, 0, spec_general_name_item(config)))
            =~= spec_items_from(c, 0, spec_general_name_item(config)));
        while !inner.is_empty()
            invariant
                inner.spec_input() == c,
                inner.spec_config() == config,
                spec_prepend(names@.map_values(|g: GeneralName<'a>| g@), spec_items_from(c, inner.spec_pos(), spec_general_name_item(config)))
                    == spec_items_from(c, 0, spec_general_name_item(config)),
            decreases inner.spec_input().len() - inner.spec_pos(),
        {
            let ghost p = inner.spec_pos();
            let ghost before = names@.map_values(|g: GeneralName<'a>| g@);
            proof { crate::asn1::reader::lemma_read_tlv_bounds(c, p, config); }
            let g = GeneralName::decode(&mut inner)?;
            proof { lemma_items_step::<GeneralNameView, Error>(c, p, spec_general_name_item(config), before, g@, inner.spec_pos()); }
            names.push(g);
            assert(names@.map_values(|g: GeneralName<'a>| g@) =~= before.push(g@));
        }
        let ghost fin = names@.map_values(|g: GeneralName<'a>| g@);
        assert(fin + Seq::<GeneralNameView>::empty() =~= fin);
        Ok(GeneralNames { names })
    }
}

// --- SubjectKeyIdentifier / AuthorityKeyIdentifier -------------------------

/// `SubjectKeyIdentifier` — `OCTET STRING`.
#[derive(Clone, Copy, Debug, PartialEq, Eq)]
pub struct SubjectKeyIdentifier<'a>(pub &'a [u8]);

impl<'a> SubjectKeyIdentifier<'a> {
    /// The key identifier bytes.
    pub fn as_bytes(&self) -> (b: &'a [u8])
        ensures
            b@ == self.0@,
    {
        self.0
    }
}

impl<'a> Decode<'a> for SubjectKeyIdentifier<'a> {
    open spec fn spec_decode(s: Seq<u8>, pos: int, config: crate::asn1::reader::Config, depth: int) -> crate::asn1::error::Result<(<Self as View>::V, int)> {
        crate::asn1::decode::spec_prim_at(s, pos, config, spec_universal(4), |b: Seq<u8>| Ok::<Seq<u8>, Error>(b))
    }

    fn decode(r: &mut Reader<'a>) -> (res: Result<Self>)
        ensures
            crate::asn1::decode::primitive_read(*old(r), *final(r), res, spec_universal(4), |b: Seq<u8>| Ok::<Seq<u8>, Error>(b)),
    {
        Ok(SubjectKeyIdentifier(OctetString::decode(r)?.0))
    }
}

impl<'a> View for SubjectKeyIdentifier<'a> {
    type V = Seq<u8>;

    open spec fn view(&self) -> Seq<u8> {
        self.0@
    }
}

/// `AuthorityKeyIdentifier` — `SEQUENCE { keyIdentifier [0] IMPLICIT OCTET
/// STRING OPTIONAL, authorityCertIssuer [1] IMPLICIT GeneralNames OPTIONAL,
/// authorityCertSerialNumber [2] IMPLICIT INTEGER OPTIONAL }`.
#[derive(Clone, Copy, Debug, PartialEq, Eq)]
pub struct AuthorityKeyIdentifier<'a> {
    /// The key identifier (matches a `SubjectKeyIdentifier`), if present.
    pub key_identifier: Option<&'a [u8]>,
    /// The authority cert serial number, if present.
    pub authority_cert_serial: Option<Integer<'a>>,
}

impl<'a> View for AuthorityKeyIdentifier<'a> {
    /// The key identifier and the serial bytes, if present.
    type V = (Option<Seq<u8>>, Option<Seq<u8>>);

    open spec fn view(&self) -> (Option<Seq<u8>>, Option<Seq<u8>>) {
        (match self.key_identifier {
            Some(k) => Some(k@),
            None => None,
        }, match self.authority_cert_serial {
            Some(i) => Some(i.0@),
            None => None,
        })
    }
}

/// The fields of an `AuthorityKeyIdentifier` content `c` from `p`, given
/// those met so far: a `[0]` element gives the key identifier, a `[2]` one
/// the serial INTEGER (read from its value); the last of each counts.
pub open spec fn spec_aki_from(c: Seq<u8>, p: int, config: Config, kid: Option<Seq<u8>>, serial: Option<Seq<u8>>) -> Result<
    (Option<Seq<u8>>, Option<Seq<u8>>),
>
    decreases c.len() - p,
{
    if p < 0 || p >= c.len() {
        Ok((kid, serial))
    } else {
        match spec_any_at(c, p, config) {
            Err(e) => Err(e),
            Ok((a, n)) => if p < n <= c.len() {
                if a.0 == spec_context(false, 0) {
                    spec_aki_from(c, n, config, Some(a.2), serial)
                } else if a.0 == spec_context(false, 2) {
                    match spec_integer_content(a.2, config.rule) {
                        Err(e) => Err(e),
                        Ok(sn) => spec_aki_from(c, n, config, kid, Some(sn)),
                    }
                } else {
                    spec_aki_from(c, n, config, kid, serial)
                }
            } else {
                Ok((kid, serial))
            },
        }
    }
}

/// The `AuthorityKeyIdentifier` at `pos` of `s`, met at nesting `depth`.
pub open spec fn spec_aki_at(s: Seq<u8>, pos: int, config: Config, depth: int) -> Result<((Option<Seq<u8>>, Option<Seq<u8>>), int)> {
    spec_nested_at(s, pos, config, depth, spec_universal_constructed(16), |c: Seq<u8>, d: int| spec_aki_from(c, 0, config, None, None))
}

impl<'a> Decode<'a> for AuthorityKeyIdentifier<'a> {
    open spec fn spec_decode(s: Seq<u8>, pos: int, config: crate::asn1::reader::Config, depth: int) -> crate::asn1::error::Result<(<Self as View>::V, int)> {
        spec_aki_at(s, pos, config, depth)
    }

    #[verifier::loop_isolation(false)]
    fn decode(r: &mut Reader<'a>) -> (res: Result<Self>)
        ensures
            decoded(*old(r), *final(r), res, spec_aki_at(old(r).spec_input(), old(r).spec_pos(), old(r).spec_config(), old(r).spec_depth())),
    {
        proof { lemma_expect_tlv_progress(r.spec_input(), r.spec_pos(), r.spec_config(), spec_universal_constructed(16)); }
        let mut inner = enter(r, Tag::universal_constructed(Tag::SEQUENCE))?;
        let config = *inner.config();
        let ghost c = inner.spec_input();
        let mut key_identifier: Option<&'a [u8]> = None;
        let mut authority_cert_serial: Option<Integer<'a>> = None;
        let ghost mut gk: Option<Seq<u8>> = None;
        let ghost mut gs: Option<Seq<u8>> = None;
        while !inner.is_empty()
            invariant
                inner.spec_input() == c,
                inner.spec_config() == config,
                gk == (match key_identifier {
                    Some(k) => Some(k@),
                    None => None::<Seq<u8>>,
                }),
                gs == (match authority_cert_serial {
                    Some(i) => Some(i.0@),
                    None => None::<Seq<u8>>,
                }),
                spec_aki_from(c, inner.spec_pos(), config, gk, gs) == spec_aki_from(c, 0, config, None, None),
            decreases inner.spec_input().len() - inner.spec_pos(),
        {
            proof { crate::asn1::reader::lemma_read_tlv_bounds(inner.spec_input(), inner.spec_pos(), config); }
            let any = Any::decode(&mut inner)?;
            if any.tag == Tag::context(false, 0) {
                key_identifier = Some(any.value);
                proof { gk = Some(any.value@); }
            } else if any.tag == Tag::context(false, 2) {
                // The [2] IMPLICIT content is the INTEGER's value itself.
                let mut sub = Reader::new(any.value, config);
                assert(sub.spec_rest() =~= any.value@);
                let sn = Integer::decode_content(&mut sub)?;
                authority_cert_serial = Some(sn);
                proof { gs = Some(sn.0@); }
            }
            // authorityCertIssuer [1] is decoded but not retained here.
        }
        Ok(AuthorityKeyIdentifier { key_identifier, authority_cert_serial })
    }
}

// --- CRLDistributionPoints ------------------------------------------------

/// `DistributionPoint` (subset: full-name distribution points).
#[derive(Clone, Debug, PartialEq, Eq)]
pub struct DistributionPoint<'a> {
    /// The `fullName` (if present).
    pub full_name: Option<GeneralNames<'a>>,
    /// The CRL issuer (if present).
    pub crl_issuer: Option<GeneralNames<'a>>,
}

/// The URIs among `names`, in order.
pub open spec fn spec_uris(names: Seq<GeneralName>) -> Seq<Seq<u8>>
    decreases names.len(),
{
    if names.len() == 0 {
        Seq::empty()
    } else {
        let rest = spec_uris(names.drop_last());
        match names.last() {
            GeneralName::Uri(b) => rest.push(b@),
            _ => rest,
        }
    }
}

/// Collect the URIs of `names`.
fn collect_uris<'a>(names: &[GeneralName<'a>], out: &mut Vec<&'a [u8]>)
    ensures
        final(out)@.len() == old(out)@.len() + spec_uris(names@).len(),
        forall|i: int| 0 <= i < old(out)@.len() ==> final(out)@[i] == old(out)@[i],
        forall|i: int| 0 <= i < spec_uris(names@).len() ==> (#[trigger] final(out)@[old(out)@.len() + i])@ == spec_uris(names@)[i],
{
    let ghost o = out@;
    let mut i: usize = 0;
    while i < names.len()
        invariant
            i <= names@.len(),
            out@.len() == o.len() + spec_uris(names@.subrange(0, i as int)).len(),
            forall|k: int| 0 <= k < o.len() ==> out@[k] == o[k],
            forall|k: int| 0 <= k < spec_uris(names@.subrange(0, i as int)).len() ==> (#[trigger] out@[o.len() + k])@
                == spec_uris(names@.subrange(0, i as int))[k],
        decreases names@.len() - i,
    {
        assert(names@.subrange(0, i + 1).drop_last() =~= names@.subrange(0, i as int));
        match names[i].uri() {
            Some(u) => {
                out.push(u);
            },
            None => {},
        }
        i += 1;
    }
    assert(names@.subrange(0, names@.len() as int) =~= names@);
}

impl<'a> View for DistributionPoint<'a> {
    /// The full name and the CRL issuer, if present.
    type V = (Option<Seq<GeneralNameView>>, Option<Seq<GeneralNameView>>);

    open spec fn view(&self) -> (Option<Seq<GeneralNameView>>, Option<Seq<GeneralNameView>>) {
        (match self.full_name {
            Some(g) => Some(g@),
            None => None,
        }, match self.crl_issuer {
            Some(g) => Some(g@),
            None => None,
        })
    }
}

/// The fields of a `DistributionPoint` content `c` from `p`, given those
/// met so far: a `[0]` whose first element is a `[0]` full name gives the
/// full name, a `[2]` the CRL issuer (each read from the top level); the
/// last of each counts.
pub open spec fn spec_dp_from(
    c: Seq<u8>,
    p: int,
    config: Config,
    full: Option<Seq<GeneralNameView>>,
    issuer: Option<Seq<GeneralNameView>>,
) -> Result<(Option<Seq<GeneralNameView>>, Option<Seq<GeneralNameView>>)>
    decreases c.len() - p,
{
    if p < 0 || p >= c.len() {
        Ok((full, issuer))
    } else {
        match spec_any_at(c, p, config) {
            Err(e) => Err(e),
            Ok((f, n)) => if p < n <= c.len() {
                if f.0 == spec_context(true, 0) {
                    match spec_any_at(f.2, 0, config) {
                        Err(e) => Err(e),
                        Ok((fa, _)) => if fa.0 == spec_context(true, 0) || fa.0 == spec_context(false, 0) {
                            match spec_general_names_at(fa.2, 0, config, 0) {
                                Err(e) => Err(e),
                                Ok((g, _)) => spec_dp_from(c, n, config, Some(g), issuer),
                            }
                        } else {
                            spec_dp_from(c, n, config, full, issuer)
                        },
                    }
                } else if f.0 == spec_context(true, 2) {
                    match spec_general_names_at(f.2, 0, config, 0) {
                        Err(e) => Err(e),
                        Ok((g, _)) => spec_dp_from(c, n, config, full, Some(g)),
                    }
                } else {
                    spec_dp_from(c, n, config, full, issuer)
                }
            } else {
                Ok((full, issuer))
            },
        }
    }
}

/// Reading one distribution point of a list: an element whose value starts
/// with the `DistributionPoint` SEQUENCE (read from the top level).
pub open spec fn spec_dp_item(config: Config) -> spec_fn(Seq<u8>, int) -> Result<
    ((Option<Seq<GeneralNameView>>, Option<Seq<GeneralNameView>>), int),
> {
    |s: Seq<u8>, p: int|
        match spec_any_at(s, p, config) {
            Err(e) => Err(e),
            Ok((da, n)) => match spec_nested_at(
                da.2,
                0,
                config,
                0,
                spec_universal_constructed(16),
                |c: Seq<u8>, d: int| spec_dp_from(c, 0, config, None, None),
            ) {
                Err(e) => Err(e),
                Ok((v, _)) => Ok((v, n)),
            },
        }
}

/// The `CRLDistributionPoints` at `pos` of `s`, met at nesting `depth`.
pub open spec fn spec_crldp_at(s: Seq<u8>, pos: int, config: Config, depth: int) -> Result<
    (Seq<(Option<Seq<GeneralNameView>>, Option<Seq<GeneralNameView>>)>, int),
> {
    spec_nested_at(s, pos, config, depth, spec_universal_constructed(16), |c: Seq<u8>, d: int| spec_items_from(c, 0, spec_dp_item(config)))
}

impl<'a> DistributionPoint<'a> {
    /// The distribution-point URIs (from `fullName`), if any, in order.
    pub fn uris(&self) -> (v: Vec<&'a [u8]>)
        ensures
            v@.len() == (match self.full_name {
                Some(g) => spec_uris(g.names@).len(),
                None => 0,
            }),
            forall|i: int| 0 <= i < v@.len() ==> (#[trigger] v@[i])@ == spec_uris(self.full_name->Some_0.names@)[i],
    {
        let mut out: Vec<&'a [u8]> = Vec::new();
        match &self.full_name {
            Some(g) => {
                collect_uris(g.names.as_slice(), &mut out);
                assert forall|i: int| 0 <= i < out@.len() implies (#[trigger] out@[i])@ == spec_uris(g.names@)[i] by {
                    assert(out@[0 + i] == out@[i]);
                }
            },
            None => {},
        }
        out
    }
}

/// `CRLDistributionPoints` — `SEQUENCE SIZE (1..MAX) OF DistributionPoint`.
#[derive(Clone, Debug, PartialEq, Eq)]
pub struct CrlDistributionPoints<'a> {
    /// The distribution points.
    pub points: Vec<DistributionPoint<'a>>,
}

impl<'a> View for CrlDistributionPoints<'a> {
    /// The distribution points.
    type V = Seq<(Option<Seq<GeneralNameView>>, Option<Seq<GeneralNameView>>)>;

    open spec fn view(&self) -> Seq<(Option<Seq<GeneralNameView>>, Option<Seq<GeneralNameView>>)> {
        self.points@.map_values(|d: DistributionPoint<'a>| d@)
    }
}

/// Read one `DistributionPoint` body from `dp` (fields until the end).
#[verifier::loop_isolation(false)]
fn decode_distribution_point<'a>(dp: &mut Reader<'a>) -> (res: Result<DistributionPoint<'a>>)
    ensures
        final(dp).same_source(*old(dp)),
        res is Ok ==> final(dp).spec_pos() >= final(dp).spec_input().len(),
        match spec_dp_from(old(dp).spec_input(), old(dp).spec_pos(), old(dp).spec_config(), None, None) {
            Ok(v) => res is Ok && res->Ok_0@ == v,
            Err(e) => res == Err::<DistributionPoint<'a>, Error>(e),
        },
{
    let config = *dp.config();
    let ghost c = dp.spec_input();
    let mut full_name: Option<GeneralNames<'a>> = None;
    let mut crl_issuer: Option<GeneralNames<'a>> = None;
    while !dp.is_empty()
        invariant
            dp.same_source(*old(dp)),
            dp.spec_input() == c,
            dp.spec_config() == config,
            spec_dp_from(c, dp.spec_pos(), config, (DistributionPoint { full_name, crl_issuer })@.0, (DistributionPoint { full_name, crl_issuer })@.1)
                == spec_dp_from(c, old(dp).spec_pos(), config, None, None),
        decreases dp.spec_input().len() - dp.spec_pos(),
    {
        proof { crate::asn1::reader::lemma_read_tlv_bounds(dp.spec_input(), dp.spec_pos(), config); }
        let field = Any::decode(dp)?;
        if field.tag == Tag::context(true, 0) {
            // [0] EXPLICIT DistributionPointName -> fullName [0]
            let mut fn_sub = Reader::new(field.value, config);
            let fn_any = Any::decode(&mut fn_sub)?;
            if fn_any.tag == Tag::context(true, 0) || fn_any.tag == Tag::context(false, 0) {
                let mut g = Reader::new(fn_any.value, config);
                full_name = Some(GeneralNames::decode(&mut g)?);
            }
        } else if field.tag == Tag::context(true, 2) {
            let mut g = Reader::new(field.value, config);
            crl_issuer = Some(GeneralNames::decode(&mut g)?);
        }
    }
    Ok(DistributionPoint { full_name, crl_issuer })
}

impl<'a> Decode<'a> for CrlDistributionPoints<'a> {
    open spec fn spec_decode(s: Seq<u8>, pos: int, config: crate::asn1::reader::Config, depth: int) -> crate::asn1::error::Result<(<Self as View>::V, int)> {
        spec_crldp_at(s, pos, config, depth)
    }

    #[verifier::loop_isolation(false)]
    fn decode(r: &mut Reader<'a>) -> (res: Result<Self>)
        ensures
            decoded(*old(r), *final(r), res, spec_crldp_at(old(r).spec_input(), old(r).spec_pos(), old(r).spec_config(), old(r).spec_depth())),
    {
        proof { lemma_expect_tlv_progress(r.spec_input(), r.spec_pos(), r.spec_config(), spec_universal_constructed(16)); }
        let config = *r.config();
        let mut inner = enter(r, Tag::universal_constructed(Tag::SEQUENCE))?;
        let ghost c = inner.spec_input();
        let mut points: Vec<DistributionPoint<'a>> = Vec::new();
        assert(spec_prepend(points@.map_values(|d: DistributionPoint<'a>| d@), spec_items_from(c, 0, spec_dp_item(config)))
            =~= spec_items_from(c, 0, spec_dp_item(config)));
        while !inner.is_empty()
            invariant
                inner.spec_input() == c,
                inner.spec_config() == config,
                spec_prepend(points@.map_values(|d: DistributionPoint<'a>| d@), spec_items_from(c, inner.spec_pos(), spec_dp_item(config)))
                    == spec_items_from(c, 0, spec_dp_item(config)),
            decreases inner.spec_input().len() - inner.spec_pos(),
        {
            let ghost p = inner.spec_pos();
            let ghost before = points@.map_values(|d: DistributionPoint<'a>| d@);
            proof { crate::asn1::reader::lemma_read_tlv_bounds(c, p, config); }
            let dp_any = Any::decode(&mut inner)?;
            let mut sub = Reader::new(dp_any.value, config);
            proof { lemma_expect_tlv_progress(sub.spec_input(), sub.spec_pos(), sub.spec_config(), spec_universal_constructed(16)); }
            let mut dp = enter(&mut sub, Tag::universal_constructed(Tag::SEQUENCE))?;
            let point = decode_distribution_point(&mut dp)?;
            finish(&dp)?;
            proof {
                lemma_items_step::<(Option<Seq<GeneralNameView>>, Option<Seq<GeneralNameView>>), Error>(
                    c,
                    p,
                    spec_dp_item(config),
                    before,
                    point@,
                    inner.spec_pos(),
                );
            }
            points.push(point);
            assert(points@.map_values(|d: DistributionPoint<'a>| d@) =~= before.push(point@));
        }
        let ghost fin = points@.map_values(|d: DistributionPoint<'a>| d@);
        assert(fin + Seq::<(Option<Seq<GeneralNameView>>, Option<Seq<GeneralNameView>>)>::empty() =~= fin);
        Ok(CrlDistributionPoints { points })
    }
}

// --- AuthorityInfoAccess --------------------------------------------------

/// `AccessDescription` — `SEQUENCE { accessMethod OID, accessLocation GeneralName }`.
#[derive(Clone, Debug, PartialEq, Eq)]
pub struct AccessDescription<'a> {
    /// The access method OID (e.g. OCSP or CA Issuers).
    pub access_method: ObjectIdentifier<'a>,
    /// The access location.
    pub access_location: GeneralName<'a>,
}

/// `AuthorityInfoAccess` — `SEQUENCE OF AccessDescription`.
#[derive(Clone, Debug, PartialEq, Eq)]
pub struct AuthorityInfoAccess<'a> {
    /// The descriptions.
    pub descriptions: Vec<AccessDescription<'a>>,
}

/// The URI locations of the descriptions whose method has the arcs `m`.
pub open spec fn spec_method_uris(ds: Seq<AccessDescription>, m: Seq<u64>) -> Seq<Seq<u8>>
    decreases ds.len(),
{
    if ds.len() == 0 {
        Seq::empty()
    } else {
        let rest = spec_method_uris(ds.drop_last(), m);
        let d = ds.last();
        if spec_oid_arcs(d.access_method.0@) == Some(m) {
            match d.access_location {
                GeneralName::Uri(b) => rest.push(b@),
                _ => rest,
            }
        } else {
            rest
        }
    }
}

/// The URIs of the descriptions in `ds` whose access method is `m`.
fn method_uris<'a>(ds: &Vec<AccessDescription<'a>>, m: &[u64]) -> (v: Vec<&'a [u8]>)
    ensures
        v@.len() == spec_method_uris(ds@, m@).len(),
        forall|i: int| 0 <= i < v@.len() ==> (#[trigger] v@[i])@ == spec_method_uris(ds@, m@)[i],
{
    let mut out: Vec<&'a [u8]> = Vec::new();
    let mut i: usize = 0;
    while i < ds.len()
        invariant
            i <= ds@.len(),
            out@.len() == spec_method_uris(ds@.subrange(0, i as int), m@).len(),
            forall|k: int| 0 <= k < out@.len() ==> (#[trigger] out@[k])@ == spec_method_uris(ds@.subrange(0, i as int), m@)[k],
        decreases ds@.len() - i,
    {
        assert(ds@.subrange(0, i + 1).drop_last() =~= ds@.subrange(0, i as int));
        if oid_eq(&ds[i].access_method, m) {
            match ds[i].access_location.uri() {
                Some(u) => {
                    out.push(u);
                },
                None => {},
            }
        }
        i += 1;
    }
    assert(ds@.subrange(0, ds@.len() as int) =~= ds@);
    out
}

impl<'a> View for AccessDescription<'a> {
    /// The method OID bytes and the location.
    type V = (Seq<u8>, GeneralNameView);

    open spec fn view(&self) -> (Seq<u8>, GeneralNameView) {
        (self.access_method.0@, self.access_location@)
    }
}

impl<'a> View for AuthorityInfoAccess<'a> {
    /// The descriptions.
    type V = Seq<(Seq<u8>, GeneralNameView)>;

    open spec fn view(&self) -> Seq<(Seq<u8>, GeneralNameView)> {
        self.descriptions@.map_values(|d: AccessDescription<'a>| d@)
    }
}

/// The content of an `AccessDescription` SEQUENCE: the method OID, the
/// location, and nothing after them.
pub open spec fn spec_access_desc_body(c: Seq<u8>, config: Config) -> Result<(Seq<u8>, GeneralNameView)> {
    match spec_prim_at(c, 0, config, spec_universal(6), |b: Seq<u8>| spec_oid_content(b)) {
        Err(e) => Err(e),
        Ok((m, p)) => match spec_general_name_at(c, p, config) {
            Err(e) => Err(e),
            Ok((g, q)) => if q < c.len() {
                Err(Error::TrailingData)
            } else {
                Ok((m, g))
            },
        },
    }
}

/// Reading one `AccessDescription` met at nesting `depth`.
pub open spec fn spec_access_desc_item(config: Config, depth: int) -> spec_fn(Seq<u8>, int) -> Result<((Seq<u8>, GeneralNameView), int)> {
    |s: Seq<u8>, p: int| spec_nested_at(s, p, config, depth, spec_universal_constructed(16), |c: Seq<u8>, d: int| spec_access_desc_body(c, config))
}

/// The `AuthorityInfoAccess` at `pos` of `s`, met at nesting `depth`.
pub open spec fn spec_aia_at(s: Seq<u8>, pos: int, config: Config, depth: int) -> Result<(Seq<(Seq<u8>, GeneralNameView)>, int)> {
    spec_nested_at(
        s,
        pos,
        config,
        depth,
        spec_universal_constructed(16),
        |c: Seq<u8>, d: int| spec_items_from(c, 0, spec_access_desc_item(config, d)),
    )
}

impl<'a> AuthorityInfoAccess<'a> {
    /// URIs whose access method is `id-ad-ocsp`, in order.
    pub fn ocsp_uris(&self) -> (v: Vec<&'a [u8]>)
        ensures
            v@.len() == spec_method_uris(self.descriptions@, pkix::AD_OCSP@).len(),
            forall|i: int| 0 <= i < v@.len() ==> (#[trigger] v@[i])@ == spec_method_uris(self.descriptions@, pkix::AD_OCSP@)[i],
    {
        method_uris(&self.descriptions, &pkix::AD_OCSP)
    }

    /// URIs whose access method is `id-ad-caIssuers`, in order.
    pub fn ca_issuers_uris(&self) -> (v: Vec<&'a [u8]>)
        ensures
            v@.len() == spec_method_uris(self.descriptions@, pkix::AD_CA_ISSUERS@).len(),
            forall|i: int| 0 <= i < v@.len() ==> (#[trigger] v@[i])@ == spec_method_uris(self.descriptions@, pkix::AD_CA_ISSUERS@)[i],
    {
        method_uris(&self.descriptions, &pkix::AD_CA_ISSUERS)
    }
}

impl<'a> Decode<'a> for AuthorityInfoAccess<'a> {
    open spec fn spec_decode(s: Seq<u8>, pos: int, config: crate::asn1::reader::Config, depth: int) -> crate::asn1::error::Result<(<Self as View>::V, int)> {
        spec_aia_at(s, pos, config, depth)
    }

    #[verifier::loop_isolation(false)]
    fn decode(r: &mut Reader<'a>) -> (res: Result<Self>)
        ensures
            decoded(*old(r), *final(r), res, spec_aia_at(old(r).spec_input(), old(r).spec_pos(), old(r).spec_config(), old(r).spec_depth())),
    {
        proof { lemma_expect_tlv_progress(r.spec_input(), r.spec_pos(), r.spec_config(), spec_universal_constructed(16)); }
        let mut inner = enter(r, Tag::universal_constructed(Tag::SEQUENCE))?;
        let ghost c = inner.spec_input();
        let ghost config = inner.spec_config();
        let ghost depth = inner.spec_depth();
        let mut descriptions: Vec<AccessDescription<'a>> = Vec::new();
        assert(spec_prepend(descriptions@.map_values(|d: AccessDescription<'a>| d@), spec_items_from(c, 0, spec_access_desc_item(config, depth)))
            =~= spec_items_from(c, 0, spec_access_desc_item(config, depth)));
        while !inner.is_empty()
            invariant
                inner.spec_input() == c,
                inner.spec_config() == config,
                inner.spec_depth() == depth,
                spec_prepend(
                    descriptions@.map_values(|d: AccessDescription<'a>| d@),
                    spec_items_from(c, inner.spec_pos(), spec_access_desc_item(config, depth)),
                ) == spec_items_from(c, 0, spec_access_desc_item(config, depth)),
            decreases inner.spec_input().len() - inner.spec_pos(),
        {
            let ghost p = inner.spec_pos();
            let ghost before = descriptions@.map_values(|d: AccessDescription<'a>| d@);
            proof { lemma_expect_tlv_progress(inner.spec_input(), inner.spec_pos(), inner.spec_config(), spec_universal_constructed(16)); }
            let mut d = enter(&mut inner, Tag::universal_constructed(Tag::SEQUENCE))?;
            let access_method = ObjectIdentifier::decode(&mut d)?;
            let access_location = GeneralName::decode(&mut d)?;
            finish(&d)?;
            let ad = AccessDescription { access_method, access_location };
            proof { lemma_items_step::<(Seq<u8>, GeneralNameView), Error>(c, p, spec_access_desc_item(config, depth), before, ad@, inner.spec_pos()); }
            descriptions.push(ad);
            assert(descriptions@.map_values(|d: AccessDescription<'a>| d@) =~= before.push(ad@));
        }
        let ghost fin = descriptions@.map_values(|d: AccessDescription<'a>| d@);
        assert(fin + Seq::<(Seq<u8>, GeneralNameView)>::empty() =~= fin);
        Ok(AuthorityInfoAccess { descriptions })
    }
}

// --- CertificatePolicies --------------------------------------------------

/// `PolicyQualifierInfo` — `SEQUENCE { policyQualifierId OID, qualifier ANY }`.
#[derive(Clone, Copy, Debug, PartialEq, Eq)]
pub struct PolicyQualifierInfo<'a> {
    /// The qualifier OID.
    pub qualifier_id: ObjectIdentifier<'a>,
    /// The (undecoded) qualifier value.
    pub qualifier: Any<'a>,
}

/// `PolicyInformation` — `SEQUENCE { policyIdentifier OID, policyQualifiers
/// SEQUENCE OF PolicyQualifierInfo OPTIONAL }`.
#[derive(Clone, Debug, PartialEq, Eq)]
pub struct PolicyInformation<'a> {
    /// The policy OID.
    pub policy_id: ObjectIdentifier<'a>,
    /// Any policy qualifiers.
    pub qualifiers: Vec<PolicyQualifierInfo<'a>>,
}

/// `CertificatePolicies` — `SEQUENCE OF PolicyInformation`.
#[derive(Clone, Debug, PartialEq, Eq)]
pub struct CertificatePolicies<'a> {
    /// The policies.
    pub policies: Vec<PolicyInformation<'a>>,
}

impl<'a> View for PolicyQualifierInfo<'a> {
    /// The qualifier OID bytes and the qualifier element.
    type V = (Seq<u8>, (Tag, Length, Seq<u8>, Seq<u8>));

    open spec fn view(&self) -> (Seq<u8>, (Tag, Length, Seq<u8>, Seq<u8>)) {
        (self.qualifier_id.0@, self.qualifier@)
    }
}

impl<'a> View for PolicyInformation<'a> {
    /// The policy OID bytes and the qualifiers.
    type V = (Seq<u8>, Seq<(Seq<u8>, (Tag, Length, Seq<u8>, Seq<u8>))>);

    open spec fn view(&self) -> (Seq<u8>, Seq<(Seq<u8>, (Tag, Length, Seq<u8>, Seq<u8>))>) {
        (self.policy_id.0@, self.qualifiers@.map_values(|q: PolicyQualifierInfo<'a>| q@))
    }
}

impl<'a> View for CertificatePolicies<'a> {
    /// The policies.
    type V = Seq<(Seq<u8>, Seq<(Seq<u8>, (Tag, Length, Seq<u8>, Seq<u8>))>)>;

    open spec fn view(&self) -> Seq<(Seq<u8>, Seq<(Seq<u8>, (Tag, Length, Seq<u8>, Seq<u8>))>)> {
        self.policies@.map_values(|p: PolicyInformation<'a>| p@)
    }
}

/// Reading one `PolicyQualifierInfo` met at nesting `depth`: the qualifier
/// OID, one element, and nothing after them.
pub open spec fn spec_qualifier_item(config: Config, depth: int) -> spec_fn(Seq<u8>, int) -> Result<
    ((Seq<u8>, (Tag, Length, Seq<u8>, Seq<u8>)), int),
> {
    |s: Seq<u8>, p: int| spec_nested_at(s, p, config, depth, spec_universal_constructed(16), |c: Seq<u8>, d: int| spec_other_name_body(c, config))
}

/// The fields of a `PolicyInformation` content `c` read at nesting
/// `depth`: the policy OID, then optionally the SEQUENCE of qualifiers; and
/// the offset after them.
pub open spec fn spec_policy_info_fields(c: Seq<u8>, config: Config, depth: int) -> Result<
    ((Seq<u8>, Seq<(Seq<u8>, (Tag, Length, Seq<u8>, Seq<u8>))>), int),
> {
    match spec_prim_at(c, 0, config, spec_universal(6), |b: Seq<u8>| spec_oid_content(b)) {
        Err(e) => Err(e),
        Ok((pid, q)) => if q >= c.len() {
            Ok(((pid, Seq::empty()), q))
        } else {
            match spec_nested_at(
                c,
                q,
                config,
                depth,
                spec_universal_constructed(16),
                |qc: Seq<u8>, d: int| spec_items_from(qc, 0, spec_qualifier_item(config, d)),
            ) {
                Err(e) => Err(e),
                Ok((quals, q2)) => Ok(((pid, quals), q2)),
            }
        },
    }
}

/// The content of a `PolicyInformation` SEQUENCE read at nesting `depth`:
/// its fields, and nothing after them.
pub open spec fn spec_policy_info_body(c: Seq<u8>, config: Config, depth: int) -> Result<
    (Seq<u8>, Seq<(Seq<u8>, (Tag, Length, Seq<u8>, Seq<u8>))>),
> {
    spec_filling(c, spec_policy_info_fields(c, config, depth))
}

/// Reading one `PolicyInformation` met at nesting `depth`.
pub open spec fn spec_policy_item(config: Config, depth: int) -> spec_fn(Seq<u8>, int) -> Result<
    ((Seq<u8>, Seq<(Seq<u8>, (Tag, Length, Seq<u8>, Seq<u8>))>), int),
> {
    |s: Seq<u8>, p: int| spec_nested_at(s, p, config, depth, spec_universal_constructed(16), |c: Seq<u8>, d: int| spec_policy_info_body(c, config, d))
}

/// The `CertificatePolicies` at `pos` of `s`, met at nesting `depth`.
pub open spec fn spec_policies_at(s: Seq<u8>, pos: int, config: Config, depth: int) -> Result<
    (Seq<(Seq<u8>, Seq<(Seq<u8>, (Tag, Length, Seq<u8>, Seq<u8>))>)>, int),
> {
    spec_nested_at(s, pos, config, depth, spec_universal_constructed(16), |c: Seq<u8>, d: int| spec_items_from(c, 0, spec_policy_item(config, d)))
}

impl<'a> CertificatePolicies<'a> {
    /// Returns `true` if `anyPolicy` is asserted.
    pub fn has_any_policy(&self) -> (r: bool)
        ensures
            r == exists|i: int| 0 <= i < self.policies@.len() && spec_oid_arcs(#[trigger] self.policies@[i].policy_id.0@) == Some(pkix::ANY_POLICY@),
    {
        let mut i: usize = 0;
        while i < self.policies.len()
            invariant
                i <= self.policies@.len(),
                forall|j: int| 0 <= j < i ==> spec_oid_arcs(#[trigger] self.policies@[j].policy_id.0@) != Some(pkix::ANY_POLICY@),
            decreases self.policies@.len() - i,
        {
            if oid_eq(&self.policies[i].policy_id, &pkix::ANY_POLICY) {
                return true;
            }
            i += 1;
        }
        false
    }
}

/// Read the qualifiers of the SEQUENCE value `q`.
#[verifier::loop_isolation(false)]
fn decode_qualifiers<'a>(q: &mut Reader<'a>) -> (res: Result<Vec<PolicyQualifierInfo<'a>>>)
    requires
        old(q).spec_pos() == 0,
    ensures
        list_result(res, spec_items_from(old(q).spec_input(), 0, spec_qualifier_item(old(q).spec_config(), old(q).spec_depth()))),
{
    let ghost c = q.spec_input();
    let ghost config = q.spec_config();
    let ghost depth = q.spec_depth();
    let mut qualifiers: Vec<PolicyQualifierInfo<'a>> = Vec::new();
    assert(spec_prepend(qualifiers@.map_values(|x: PolicyQualifierInfo<'a>| x@), spec_items_from(c, 0, spec_qualifier_item(config, depth)))
        =~= spec_items_from(c, 0, spec_qualifier_item(config, depth)));
    while !q.is_empty()
        invariant
            q.spec_input() == c,
            q.spec_config() == config,
            q.spec_depth() == depth,
            spec_prepend(qualifiers@.map_values(|x: PolicyQualifierInfo<'a>| x@), spec_items_from(c, q.spec_pos(), spec_qualifier_item(config, depth)))
                == spec_items_from(c, 0, spec_qualifier_item(config, depth)),
        decreases q.spec_input().len() - q.spec_pos(),
    {
        let ghost p = q.spec_pos();
        let ghost before = qualifiers@.map_values(|x: PolicyQualifierInfo<'a>| x@);
        proof { lemma_expect_tlv_progress(q.spec_input(), q.spec_pos(), q.spec_config(), spec_universal_constructed(16)); }
        let mut qi = enter(q, Tag::universal_constructed(Tag::SEQUENCE))?;
        let qualifier_id = ObjectIdentifier::decode(&mut qi)?;
        let qualifier = Any::decode(&mut qi)?;
        finish(&qi)?;
        let x = PolicyQualifierInfo { qualifier_id, qualifier };
        proof {
            lemma_items_step::<(Seq<u8>, (Tag, Length, Seq<u8>, Seq<u8>)), Error>(c, p, spec_qualifier_item(config, depth), before, x@, q.spec_pos());
        }
        qualifiers.push(x);
        assert(qualifiers@.map_values(|x: PolicyQualifierInfo<'a>| x@) =~= before.push(x@));
    }
    let ghost fin = qualifiers@.map_values(|x: PolicyQualifierInfo<'a>| x@);
    assert(fin + Seq::<(Seq<u8>, (Tag, Length, Seq<u8>, Seq<u8>))>::empty() =~= fin);
    Ok(qualifiers)
}

/// Read one `PolicyInformation` body from `p`.
fn decode_policy_information<'a>(p: &mut Reader<'a>) -> (res: Result<PolicyInformation<'a>>)
    requires
        old(p).spec_pos() == 0,
    ensures
        final(p).same_source(*old(p)),
        match spec_policy_info_fields(old(p).spec_input(), old(p).spec_config(), old(p).spec_depth()) {
            Ok((v, q)) => res is Ok && res->Ok_0@ == v && final(p).spec_pos() == q,
            Err(e) => res == Err::<PolicyInformation<'a>, Error>(e),
        },
{
    let policy_id = ObjectIdentifier::decode(p)?;
    let mut qualifiers: Vec<PolicyQualifierInfo<'a>> = Vec::new();
    assert(qualifiers@.map_values(|x: PolicyQualifierInfo<'a>| x@) =~= Seq::<(Seq<u8>, (Tag, Length, Seq<u8>, Seq<u8>))>::empty());
    if !p.is_empty() {
        proof { lemma_expect_tlv_progress(p.spec_input(), p.spec_pos(), p.spec_config(), spec_universal_constructed(16)); }
        let mut q = enter(p, Tag::universal_constructed(Tag::SEQUENCE))?;
        qualifiers = decode_qualifiers(&mut q)?;
    }
    Ok(PolicyInformation { policy_id, qualifiers })
}

impl<'a> Decode<'a> for CertificatePolicies<'a> {
    open spec fn spec_decode(s: Seq<u8>, pos: int, config: crate::asn1::reader::Config, depth: int) -> crate::asn1::error::Result<(<Self as View>::V, int)> {
        spec_policies_at(s, pos, config, depth)
    }

    #[verifier::loop_isolation(false)]
    fn decode(r: &mut Reader<'a>) -> (res: Result<Self>)
        ensures
            decoded(*old(r), *final(r), res, spec_policies_at(old(r).spec_input(), old(r).spec_pos(), old(r).spec_config(), old(r).spec_depth())),
    {
        proof { lemma_expect_tlv_progress(r.spec_input(), r.spec_pos(), r.spec_config(), spec_universal_constructed(16)); }
        let mut inner = enter(r, Tag::universal_constructed(Tag::SEQUENCE))?;
        let ghost c = inner.spec_input();
        let ghost config = inner.spec_config();
        let ghost depth = inner.spec_depth();
        let mut policies: Vec<PolicyInformation<'a>> = Vec::new();
        assert(spec_prepend(policies@.map_values(|x: PolicyInformation<'a>| x@), spec_items_from(c, 0, spec_policy_item(config, depth)))
            =~= spec_items_from(c, 0, spec_policy_item(config, depth)));
        while !inner.is_empty()
            invariant
                inner.spec_input() == c,
                inner.spec_config() == config,
                inner.spec_depth() == depth,
                spec_prepend(policies@.map_values(|x: PolicyInformation<'a>| x@), spec_items_from(c, inner.spec_pos(), spec_policy_item(config, depth)))
                    == spec_items_from(c, 0, spec_policy_item(config, depth)),
            decreases inner.spec_input().len() - inner.spec_pos(),
        {
            let ghost pp = inner.spec_pos();
            let ghost before = policies@.map_values(|x: PolicyInformation<'a>| x@);
            proof { lemma_expect_tlv_progress(inner.spec_input(), inner.spec_pos(), inner.spec_config(), spec_universal_constructed(16)); }
            let mut p = enter(&mut inner, Tag::universal_constructed(Tag::SEQUENCE))?;
            let info = decode_policy_information(&mut p)?;
            finish(&p)?;
            proof {
                lemma_items_step::<(Seq<u8>, Seq<(Seq<u8>, (Tag, Length, Seq<u8>, Seq<u8>))>), Error>(
                    c,
                    pp,
                    spec_policy_item(config, depth),
                    before,
                    info@,
                    inner.spec_pos(),
                );
            }
            policies.push(info);
            assert(policies@.map_values(|x: PolicyInformation<'a>| x@) =~= before.push(info@));
        }
        let ghost fin = policies@.map_values(|x: PolicyInformation<'a>| x@);
        assert(fin + Seq::<(Seq<u8>, Seq<(Seq<u8>, (Tag, Length, Seq<u8>, Seq<u8>))>)>::empty() =~= fin);
        Ok(CertificatePolicies { policies })
    }
}

// --- NameConstraints ------------------------------------------------------

/// `GeneralSubtree` — `SEQUENCE { base GeneralName, minimum [0] DEFAULT 0,
/// maximum [1] OPTIONAL }`.
#[derive(Clone, Debug, PartialEq, Eq)]
pub struct GeneralSubtree<'a> {
    /// The base name.
    pub base: GeneralName<'a>,
    /// The minimum base distance (default 0).
    pub minimum: u64,
    /// The maximum base distance, if present.
    pub maximum: Option<u64>,
}

/// `NameConstraints` — `SEQUENCE { permittedSubtrees [0] OPTIONAL,
/// excludedSubtrees [1] OPTIONAL }`.
#[derive(Clone, Debug, PartialEq, Eq)]
pub struct NameConstraints<'a> {
    /// Permitted subtrees.
    pub permitted: Vec<GeneralSubtree<'a>>,
    /// Excluded subtrees.
    pub excluded: Vec<GeneralSubtree<'a>>,
}

/// A `GeneralSubtree` as values: base, minimum, maximum.
pub type SubtreeView = (GeneralNameView, u64, Option<u64>);

impl<'a> View for GeneralSubtree<'a> {
    type V = SubtreeView;

    open spec fn view(&self) -> SubtreeView {
        (self.base@, self.minimum, self.maximum)
    }
}

impl<'a> View for NameConstraints<'a> {
    /// The permitted and excluded subtrees.
    type V = (Seq<SubtreeView>, Seq<SubtreeView>);

    open spec fn view(&self) -> (Seq<SubtreeView>, Seq<SubtreeView>) {
        (self.permitted@.map_values(|x: GeneralSubtree<'a>| x@), self.excluded@.map_values(|x: GeneralSubtree<'a>| x@))
    }
}

/// The non-negative INTEGER at the start of `v` as a `u64` (`msg` names the
/// error when it does not fit).
pub open spec fn spec_u64_field(v: Seq<u8>, config: Config, msg: &'static str) -> Result<u64> {
    match spec_prim_at(v, 0, config, spec_universal(2), |b: Seq<u8>| spec_integer_content(b, config.rule)) {
        Err(e) => Err(e),
        Ok((ib, _)) => match spec_as_u64(ib) {
            Some(x) => Ok(x),
            None => Err(Error::Custom(msg)),
        },
    }
}

/// The bounds of a `GeneralSubtree` content `c` from `p`, given those met so
/// far: a `[0]` element gives the minimum, a `[1]` one the maximum; the last
/// of each counts.
pub open spec fn spec_subtree_from(c: Seq<u8>, p: int, config: Config, min: u64, max: Option<u64>) -> Result<(u64, Option<u64>)>
    decreases c.len() - p,
{
    if p < 0 || p >= c.len() {
        Ok((min, max))
    } else {
        match spec_any_at(c, p, config) {
            Err(e) => Err(e),
            Ok((f, n)) => if p < n <= c.len() {
                if f.0 == spec_context(false, 0) {
                    match spec_u64_field(f.2, config, "minimum too large") {
                        Err(e) => Err(e),
                        Ok(v) => spec_subtree_from(c, n, config, v, max),
                    }
                } else if f.0 == spec_context(false, 1) {
                    match spec_u64_field(f.2, config, "maximum too large") {
                        Err(e) => Err(e),
                        Ok(v) => spec_subtree_from(c, n, config, min, Some(v)),
                    }
                } else {
                    spec_subtree_from(c, n, config, min, max)
                }
            } else {
                Ok((min, max))
            },
        }
    }
}

/// The content of a `GeneralSubtree` SEQUENCE: the base name, then its
/// bounds.
pub open spec fn spec_subtree_body(c: Seq<u8>, config: Config) -> Result<SubtreeView> {
    match spec_general_name_at(c, 0, config) {
        Err(e) => Err(e),
        Ok((base, p)) => match spec_subtree_from(c, p, config, 0, None) {
            Err(e) => Err(e),
            Ok((min, max)) => Ok((base, min, max)),
        },
    }
}

/// Reading one subtree of a list: an element whose value starts with the
/// `GeneralSubtree` SEQUENCE (read from the top level).
pub open spec fn spec_subtree_item(config: Config) -> spec_fn(Seq<u8>, int) -> Result<(SubtreeView, int)> {
    |s: Seq<u8>, p: int|
        match spec_any_at(s, p, config) {
            Err(e) => Err(e),
            Ok((sa, n)) => match spec_nested_at(sa.2, 0, config, 0, spec_universal_constructed(16), |c: Seq<u8>, d: int| spec_subtree_body(c, config)) {
                Err(e) => Err(e),
                Ok((v, _)) => Ok((v, n)),
            },
        }
}

/// The fields of a `NameConstraints` content `c` from `p`, given those met
/// so far: a `[0]` element's value lists the permitted subtrees, a `[1]`
/// one's the excluded; the last of each counts.
pub open spec fn spec_nc_from(c: Seq<u8>, p: int, config: Config, perm: Seq<SubtreeView>, excl: Seq<SubtreeView>) -> Result<
    (Seq<SubtreeView>, Seq<SubtreeView>),
>
    decreases c.len() - p,
{
    if p < 0 || p >= c.len() {
        Ok((perm, excl))
    } else {
        match spec_any_at(c, p, config) {
            Err(e) => Err(e),
            Ok((f, n)) => if p < n <= c.len() {
                if f.0 == spec_context(true, 0) {
                    match spec_items_from(f.2, 0, spec_subtree_item(config)) {
                        Err(e) => Err(e),
                        Ok(v) => spec_nc_from(c, n, config, v, excl),
                    }
                } else if f.0 == spec_context(true, 1) {
                    match spec_items_from(f.2, 0, spec_subtree_item(config)) {
                        Err(e) => Err(e),
                        Ok(v) => spec_nc_from(c, n, config, perm, v),
                    }
                } else {
                    spec_nc_from(c, n, config, perm, excl)
                }
            } else {
                Ok((perm, excl))
            },
        }
    }
}

/// The `NameConstraints` at `pos` of `s`, met at nesting `depth`.
pub open spec fn spec_nc_at(s: Seq<u8>, pos: int, config: Config, depth: int) -> Result<((Seq<SubtreeView>, Seq<SubtreeView>), int)> {
    spec_nested_at(
        s,
        pos,
        config,
        depth,
        spec_universal_constructed(16),
        |c: Seq<u8>, d: int| spec_nc_from(c, 0, config, Seq::empty(), Seq::empty()),
    )
}

impl<'a> Decode<'a> for NameConstraints<'a> {
    open spec fn spec_decode(s: Seq<u8>, pos: int, config: crate::asn1::reader::Config, depth: int) -> crate::asn1::error::Result<(<Self as View>::V, int)> {
        spec_nc_at(s, pos, config, depth)
    }

    #[verifier::loop_isolation(false)]
    fn decode(r: &mut Reader<'a>) -> (res: Result<Self>)
        ensures
            decoded(*old(r), *final(r), res, spec_nc_at(old(r).spec_input(), old(r).spec_pos(), old(r).spec_config(), old(r).spec_depth())),
    {
        proof { lemma_expect_tlv_progress(r.spec_input(), r.spec_pos(), r.spec_config(), spec_universal_constructed(16)); }
        let mut inner = enter(r, Tag::universal_constructed(Tag::SEQUENCE))?;
        let config = *inner.config();
        let ghost c = inner.spec_input();
        let mut permitted: Vec<GeneralSubtree<'a>> = Vec::new();
        let mut excluded: Vec<GeneralSubtree<'a>> = Vec::new();
        assert(permitted@.map_values(|x: GeneralSubtree<'a>| x@) =~= Seq::<SubtreeView>::empty());
        assert(excluded@.map_values(|x: GeneralSubtree<'a>| x@) =~= Seq::<SubtreeView>::empty());
        while !inner.is_empty()
            invariant
                inner.spec_input() == c,
                inner.spec_config() == config,
                spec_nc_from(
                    c,
                    inner.spec_pos(),
                    config,
                    permitted@.map_values(|x: GeneralSubtree<'a>| x@),
                    excluded@.map_values(|x: GeneralSubtree<'a>| x@),
                ) == spec_nc_from(c, 0, config, Seq::empty(), Seq::empty()),
            decreases inner.spec_input().len() - inner.spec_pos(),
        {
            proof { crate::asn1::reader::lemma_read_tlv_bounds(inner.spec_input(), inner.spec_pos(), config); }
            let field = Any::decode(&mut inner)?;
            if field.tag == Tag::context(true, 0) {
                permitted = decode_subtrees(field.value, config)?;
            } else if field.tag == Tag::context(true, 1) {
                excluded = decode_subtrees(field.value, config)?;
            }
        }
        Ok(NameConstraints { permitted, excluded })
    }
}

/// An optional INTEGER field holding a non-negative `u64`; `msg` names
/// the error for a value out of range.
fn decode_u64_field(value: &[u8], config: Config, msg: &'static str) -> (res: Result<u64>)
    ensures
        res == spec_u64_field(value@, config, msg),
{
    let mut mr = Reader::new(value, config);
    match Integer::decode(&mut mr)?.as_u64() {
        Some(v) => Ok(v),
        None => Err(Error::Custom(msg)),
    }
}

/// Read one `GeneralSubtree` body from `st`.
#[verifier::loop_isolation(false)]
fn decode_subtree_body<'a>(st: &mut Reader<'a>, config: Config) -> (res: Result<GeneralSubtree<'a>>)
    requires
        old(st).spec_pos() == 0,
        old(st).spec_config() == config,
    ensures
        final(st).same_source(*old(st)),
        res is Ok ==> final(st).spec_pos() >= final(st).spec_input().len(),
        match spec_subtree_body(old(st).spec_input(), config) {
            Ok(v) => res is Ok && res->Ok_0@ == v,
            Err(e) => res == Err::<GeneralSubtree<'a>, Error>(e),
        },
{
    let ghost c = st.spec_input();
    proof { crate::asn1::reader::lemma_read_tlv_bounds(c, 0, config); }
    let base = GeneralName::decode(st)?;
    let mut minimum: u64 = 0;
    let mut maximum: Option<u64> = None;
    let ghost p0 = st.spec_pos();
    while !st.is_empty()
        invariant
            st.same_source(*old(st)),
            st.spec_input() == c,
            spec_subtree_from(c, st.spec_pos(), config, minimum, maximum) == spec_subtree_from(c, p0, config, 0, None),
        decreases st.spec_input().len() - st.spec_pos(),
    {
        proof { crate::asn1::reader::lemma_read_tlv_bounds(st.spec_input(), st.spec_pos(), config); }
        let f = Any::decode(st)?;
        if f.tag == Tag::context(false, 0) {
            minimum = decode_u64_field(f.value, config, "minimum too large")?;
        } else if f.tag == Tag::context(false, 1) {
            maximum = Some(decode_u64_field(f.value, config, "maximum too large")?);
        }
    }
    Ok(GeneralSubtree { base, minimum, maximum })
}

fn decode_subtrees<'a>(content: &'a [u8], config: Config) -> (res: Result<Vec<GeneralSubtree<'a>>>)
    ensures
        list_result(res, spec_items_from(content@, 0, spec_subtree_item(config))),
{
    let mut r = Reader::new(content, config);
    let ghost s = content@;
    let mut out: Vec<GeneralSubtree<'a>> = Vec::new();
    assert(spec_prepend(out@.map_values(|x: GeneralSubtree<'a>| x@), spec_items_from(s, 0, spec_subtree_item(config)))
        =~= spec_items_from(s, 0, spec_subtree_item(config)));
    while !r.is_empty()
        invariant
            r.spec_input() == s,
            s == content@,
            r.spec_config() == config,
            spec_prepend(out@.map_values(|x: GeneralSubtree<'a>| x@), spec_items_from(s, r.spec_pos(), spec_subtree_item(config)))
                == spec_items_from(s, 0, spec_subtree_item(config)),
        decreases r.spec_input().len() - r.spec_pos(),
    {
        let ghost p = r.spec_pos();
        let ghost before = out@.map_values(|x: GeneralSubtree<'a>| x@);
        proof { crate::asn1::reader::lemma_read_tlv_bounds(s, p, config); }
        let st_any = Any::decode(&mut r)?;
        let mut sub = Reader::new(st_any.value, config);
        proof { lemma_expect_tlv_progress(sub.spec_input(), sub.spec_pos(), sub.spec_config(), spec_universal_constructed(16)); }
        let mut st = enter(&mut sub, Tag::universal_constructed(Tag::SEQUENCE))?;
        let subtree = decode_subtree_body(&mut st, config)?;
        finish(&st)?;
        proof { lemma_items_step::<SubtreeView, Error>(s, p, spec_subtree_item(config), before, subtree@, r.spec_pos()); }
        out.push(subtree);
        assert(out@.map_values(|x: GeneralSubtree<'a>| x@) =~= before.push(subtree@));
    }
    let ghost fin = out@.map_values(|x: GeneralSubtree<'a>| x@);
    assert(fin + Seq::<SubtreeView>::empty() =~= fin);
    Ok(out)
}

// --- PolicyConstraints / InhibitAnyPolicy ----------------------------------

/// `PolicyConstraints` — `SEQUENCE { requireExplicitPolicy [0] OPTIONAL,
/// inhibitPolicyMapping [1] OPTIONAL }`.
#[derive(Clone, Copy, Debug, PartialEq, Eq)]
pub struct PolicyConstraints {
    /// `requireExplicitPolicy` skip-certs, if present.
    pub require_explicit_policy: Option<u64>,
    /// `inhibitPolicyMapping` skip-certs, if present.
    pub inhibit_policy_mapping: Option<u64>,
}

impl View for PolicyConstraints {
    /// The two skip counts, if present.
    type V = (Option<u64>, Option<u64>);

    open spec fn view(&self) -> (Option<u64>, Option<u64>) {
        (self.require_explicit_policy, self.inhibit_policy_mapping)
    }
}

/// The fields of a `PolicyConstraints` content `c` from `p`, given those met
/// so far: every element's value must hold a `u64` INTEGER; a `[0]` one
/// gives `requireExplicitPolicy`, a `[1]` one `inhibitPolicyMapping`; the
/// last of each counts.
pub open spec fn spec_pc_from(c: Seq<u8>, p: int, config: Config, req: Option<u64>, inh: Option<u64>) -> Result<(Option<u64>, Option<u64>)>
    decreases c.len() - p,
{
    if p < 0 || p >= c.len() {
        Ok((req, inh))
    } else {
        match spec_any_at(c, p, config) {
            Err(e) => Err(e),
            Ok((f, n)) => if p < n <= c.len() {
                match spec_u64_field(f.2, config, "policy constraint too large") {
                    Err(e) => Err(e),
                    Ok(v) => if f.0 == spec_context(false, 0) {
                        spec_pc_from(c, n, config, Some(v), inh)
                    } else if f.0 == spec_context(false, 1) {
                        spec_pc_from(c, n, config, req, Some(v))
                    } else {
                        spec_pc_from(c, n, config, req, inh)
                    },
                }
            } else {
                Ok((req, inh))
            },
        }
    }
}

/// The `PolicyConstraints` at `pos` of `s`, met at nesting `depth`.
pub open spec fn spec_pc_at(s: Seq<u8>, pos: int, config: Config, depth: int) -> Result<((Option<u64>, Option<u64>), int)> {
    spec_nested_at(s, pos, config, depth, spec_universal_constructed(16), |c: Seq<u8>, d: int| spec_pc_from(c, 0, config, None, None))
}

impl<'a> Decode<'a> for PolicyConstraints {
    open spec fn spec_decode(s: Seq<u8>, pos: int, config: crate::asn1::reader::Config, depth: int) -> crate::asn1::error::Result<(<Self as View>::V, int)> {
        spec_pc_at(s, pos, config, depth)
    }

    #[verifier::loop_isolation(false)]
    fn decode(r: &mut Reader<'a>) -> (res: Result<Self>)
        ensures
            decoded(*old(r), *final(r), res, spec_pc_at(old(r).spec_input(), old(r).spec_pos(), old(r).spec_config(), old(r).spec_depth())),
    {
        proof { lemma_expect_tlv_progress(r.spec_input(), r.spec_pos(), r.spec_config(), spec_universal_constructed(16)); }
        let mut inner = enter(r, Tag::universal_constructed(Tag::SEQUENCE))?;
        let config = *inner.config();
        let ghost c = inner.spec_input();
        let mut require_explicit_policy: Option<u64> = None;
        let mut inhibit_policy_mapping: Option<u64> = None;
        while !inner.is_empty()
            invariant
                inner.spec_input() == c,
                inner.spec_config() == config,
                spec_pc_from(c, inner.spec_pos(), config, require_explicit_policy, inhibit_policy_mapping) == spec_pc_from(c, 0, config, None, None),
            decreases inner.spec_input().len() - inner.spec_pos(),
        {
            proof { crate::asn1::reader::lemma_read_tlv_bounds(inner.spec_input(), inner.spec_pos(), config); }
            let f = Any::decode(&mut inner)?;
            let v = decode_u64_field(f.value, config, "policy constraint too large")?;
            if f.tag == Tag::context(false, 0) {
                require_explicit_policy = Some(v);
            } else if f.tag == Tag::context(false, 1) {
                inhibit_policy_mapping = Some(v);
            }
        }
        Ok(PolicyConstraints { require_explicit_policy, inhibit_policy_mapping })
    }
}

/// `InhibitAnyPolicy` — `INTEGER (0..MAX)`.
#[derive(Clone, Copy, Debug, PartialEq, Eq)]
pub struct InhibitAnyPolicy {
    /// The skip-certs value.
    pub skip_certs: u64,
}

impl View for InhibitAnyPolicy {
    /// The skip count.
    type V = u64;

    open spec fn view(&self) -> u64 {
        self.skip_certs
    }
}

/// The `InhibitAnyPolicy` INTEGER at `pos` of `s` as a `u64`, and the offset
/// after it.
pub open spec fn spec_inhibit_at(s: Seq<u8>, pos: int, config: Config) -> Result<(u64, int)> {
    match spec_prim_at(s, pos, config, spec_universal(2), |b: Seq<u8>| spec_integer_content(b, config.rule)) {
        Err(e) => Err(e),
        Ok((ib, n)) => match spec_as_u64(ib) {
            Some(v) => Ok((v, n)),
            None => Err(Error::Custom("inhibitAnyPolicy too large")),
        },
    }
}

impl<'a> Decode<'a> for InhibitAnyPolicy {
    open spec fn spec_decode(s: Seq<u8>, pos: int, config: crate::asn1::reader::Config, depth: int) -> crate::asn1::error::Result<(<Self as View>::V, int)> {
        spec_inhibit_at(s, pos, config)
    }

    fn decode(r: &mut Reader<'a>) -> (res: Result<Self>)
        ensures
            decoded(*old(r), *final(r), res, spec_inhibit_at(old(r).spec_input(), old(r).spec_pos(), old(r).spec_config())),
            match crate::asn1::decode::spec_expect_tlv(old(r).spec_input(), old(r).spec_pos(), old(r).spec_config(), spec_universal(2)) {
                Err(e) => res == Err::<Self, Error>(e),
                Ok((a, b, n)) => final(r).spec_pos() == n && match crate::asn1::types::spec_integer_content(
                    old(r).spec_input().subrange(a, b),
                    old(r).spec_config().rule,
                ) {
                    Err(e) => res == Err::<Self, Error>(e),
                    Ok(c) => match crate::asn1::types::spec_as_u64(c) {
                        Some(v) => res == Ok::<Self, Error>(InhibitAnyPolicy { skip_certs: v }),
                        None => res == Err::<Self, Error>(Error::Custom("inhibitAnyPolicy too large")),
                    },
                },
            },
    {
        proof { lemma_expect_tlv_progress(r.spec_input(), r.spec_pos(), r.spec_config(), spec_universal(2)); }
        let i = Integer::decode(r)?;
        match i.as_u64() {
            Some(v) => Ok(InhibitAnyPolicy { skip_certs: v }),
            None => Err(Error::Custom("inhibitAnyPolicy too large")),
        }
    }
}

/// The `ExtendedKeyUsage` an extension value `b` holds (DER, filling it).
#[verifier::opaque]
pub open spec fn spec_eku_value(b: Seq<u8>) -> Result<Seq<Seq<u8>>> {
    spec_filling(b, spec_eku_at(b, 0, spec_default_config(EncodingRule::Der), 0))
}


/// The `GeneralNames` an extension value `b` holds (DER, filling it).
#[verifier::opaque]
pub open spec fn spec_general_names_value(b: Seq<u8>) -> Result<Seq<GeneralNameView>> {
    spec_filling(b, spec_general_names_at(b, 0, spec_default_config(EncodingRule::Der), 0))
}


/// The `SubjectKeyIdentifier` an extension value `b` holds (DER, filling it).
#[verifier::opaque]
pub open spec fn spec_ski_value(b: Seq<u8>) -> Result<Seq<u8>> {
    spec_filling(b, spec_prim_at(b, 0, spec_default_config(EncodingRule::Der), spec_universal(4), |x: Seq<u8>| Ok::<Seq<u8>, Error>(x)))
}


/// The `AuthorityKeyIdentifier` an extension value `b` holds (DER, filling it).
#[verifier::opaque]
pub open spec fn spec_aki_value(b: Seq<u8>) -> Result<(Option<Seq<u8>>, Option<Seq<u8>>)> {
    spec_filling(b, spec_aki_at(b, 0, spec_default_config(EncodingRule::Der), 0))
}


/// The `CrlDistributionPoints` an extension value `b` holds (DER, filling it).
#[verifier::opaque]
pub open spec fn spec_crldp_value(b: Seq<u8>) -> Result<Seq<(Option<Seq<GeneralNameView>>, Option<Seq<GeneralNameView>>)>> {
    spec_filling(b, spec_crldp_at(b, 0, spec_default_config(EncodingRule::Der), 0))
}


/// The `AuthorityInfoAccess` an extension value `b` holds (DER, filling it).
#[verifier::opaque]
pub open spec fn spec_aia_value(b: Seq<u8>) -> Result<Seq<(Seq<u8>, GeneralNameView)>> {
    spec_filling(b, spec_aia_at(b, 0, spec_default_config(EncodingRule::Der), 0))
}


/// The `CertificatePolicies` an extension value `b` holds (DER, filling it).
#[verifier::opaque]
pub open spec fn spec_policies_value(b: Seq<u8>) -> Result<Seq<(Seq<u8>, Seq<(Seq<u8>, (Tag, Length, Seq<u8>, Seq<u8>))>)>> {
    spec_filling(b, spec_policies_at(b, 0, spec_default_config(EncodingRule::Der), 0))
}


/// The `NameConstraints` an extension value `b` holds (DER, filling it).
#[verifier::opaque]
pub open spec fn spec_nc_value(b: Seq<u8>) -> Result<(Seq<SubtreeView>, Seq<SubtreeView>)> {
    spec_filling(b, spec_nc_at(b, 0, spec_default_config(EncodingRule::Der), 0))
}


/// The `PolicyConstraints` an extension value `b` holds (DER, filling it).
#[verifier::opaque]
pub open spec fn spec_pc_value(b: Seq<u8>) -> Result<(Option<u64>, Option<u64>)> {
    spec_filling(b, spec_pc_at(b, 0, spec_default_config(EncodingRule::Der), 0))
}


/// The `InhibitAnyPolicy` an extension value `b` holds (DER, filling it).
#[verifier::opaque]
pub open spec fn spec_inhibit_value(b: Seq<u8>) -> Result<u64> {
    spec_filling(b, spec_inhibit_at(b, 0, spec_default_config(EncodingRule::Der)))
}


} // verus!
