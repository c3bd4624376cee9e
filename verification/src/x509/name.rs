//! X.501 `Name` / `RDNSequence` parsing and RFC 5280 §7.1 normalization.

use crate::asn1::any::{spec_any_at, Any};
use crate::asn1::decode::{decoded, lemma_items_step, spec_items_from, spec_nested_at, spec_prepend, spec_prim_at, Decode};
use crate::asn1::error::{Error, Result};
use crate::asn1::length::Length;
use crate::asn1::reader::{Config, Reader};
use crate::asn1::tag::{spec_universal, spec_universal_constructed, Class, Tag};
use crate::asn1::types::{spec_oid_arcs, spec_oid_content, ObjectIdentifier};
use crate::asn1::util::bytes_eq;
use crate::x509::oid::oid_eq;
use vstd::prelude::*;
use vstd::string::StringSliceAdditionalSpecFns;

verus! {

broadcast use crate::asn1::reader::Reader::lemma_nonneg;

/// A single directory string value (the `value` of an `AttributeTypeAndValue`).
///
/// Only the ASCII-compatible string types get a meaningful `as_str()`; the
/// wide-character types (`BmpString`, `UniversalString`) are exposed as raw
/// bytes and compared byte-for-byte.
#[derive(Clone, Copy, Debug, PartialEq, Eq)]
pub enum AttributeValue<'a> {
    /// `UTF8String`.
    Utf8(&'a [u8]),
    /// `PrintableString`.
    Printable(&'a [u8]),
    /// `IA5String`.
    Ia5(&'a [u8]),
    /// `NumericString`.
    Numeric(&'a [u8]),
    /// `VisibleString`.
    Visible(&'a [u8]),
    /// `TeletexString` / `T61String`.
    Teletex(&'a [u8]),
    /// `BMPString` (UCS-2) — raw 2-octet units.
    Bmp(&'a [u8]),
    /// `UniversalString` (UCS-4) — raw 4-octet units.
    Universal(&'a [u8]),
    /// Any other (unexpected) string tag — raw bytes preserved verbatim.
    Other {
        /// The tag number of the value.
        tag_number: u32,
        /// The raw value bytes.
        bytes: &'a [u8],
    },
}

/// The raw bytes a value carries.
pub open spec fn spec_av_bytes(v: AttributeValue) -> Seq<u8> {
    match v {
        AttributeValue::Utf8(b) => b@,
        AttributeValue::Printable(b) => b@,
        AttributeValue::Ia5(b) => b@,
        AttributeValue::Numeric(b) => b@,
        AttributeValue::Visible(b) => b@,
        AttributeValue::Teletex(b) => b@,
        AttributeValue::Bmp(b) => b@,
        AttributeValue::Universal(b) => b@,
        AttributeValue::Other { bytes, .. } => bytes@,
    }
}

/// The tag number a value was read under.
pub open spec fn spec_av_number(v: AttributeValue) -> u32 {
    match v {
        AttributeValue::Utf8(_) => 12,
        AttributeValue::Printable(_) => 19,
        AttributeValue::Ia5(_) => 22,
        AttributeValue::Numeric(_) => 18,
        AttributeValue::Visible(_) => 26,
        AttributeValue::Teletex(_) => 20,
        AttributeValue::Bmp(_) => 30,
        AttributeValue::Universal(_) => 28,
        AttributeValue::Other { tag_number, .. } => tag_number,
    }
}

/// The universal string tag numbers that get a variant of their own.
pub open spec fn spec_known_string_number(n: u32) -> bool {
    n == 12 || n == 19 || n == 22 || n == 18 || n == 26 || n == 20 || n == 30 || n == 28
}

/// Values whose comparison folds case and space (the ASCII-compatible types).
pub open spec fn spec_av_folds(v: AttributeValue) -> bool {
    v is Utf8 || v is Printable || v is Ia5 || v is Numeric || v is Visible || v is Teletex
}

impl<'a> View for AttributeValue<'a> {
    /// Whether it is kept as `Other`, the tag number, and the raw bytes.
    type V = (bool, u32, Seq<u8>);

    open spec fn view(&self) -> (bool, u32, Seq<u8>) {
        (*self is Other, spec_av_number(*self), spec_av_bytes(*self))
    }
}

/// The value read from an element with tag `t` and value bytes `b`.
pub open spec fn spec_av_of(t: Tag, b: Seq<u8>) -> (bool, u32, Seq<u8>) {
    (!(t.class == Class::Universal && spec_known_string_number(t.number)), t.number, b)
}

impl<'a> AttributeValue<'a> {
    /// Build an `AttributeValue` from a decoded `Any`: a known universal
    /// string type gets its variant, anything else is kept as `Other`.
    pub fn from_any(any: &Any<'a>) -> (res: Result<Self>)
        ensures
            res is Ok,
            spec_av_bytes(res->Ok_0) == any.value@,
            spec_av_number(res->Ok_0) == any.tag.number,
            (res->Ok_0 is Other) == !(any.tag.class == Class::Universal && spec_known_string_number(any.tag.number)),
    {
        let t = any.tag;
        let b = any.value;
        if t.class != Class::Universal {
            return Ok(AttributeValue::Other { tag_number: t.number, bytes: b });
        }
        Ok(
            if t.number == Tag::UTF8_STRING {
                AttributeValue::Utf8(b)
            } else if t.number == Tag::PRINTABLE_STRING {
                AttributeValue::Printable(b)
            } else if t.number == Tag::IA5_STRING {
                AttributeValue::Ia5(b)
            } else if t.number == Tag::NUMERIC_STRING {
                AttributeValue::Numeric(b)
            } else if t.number == Tag::VISIBLE_STRING {
                AttributeValue::Visible(b)
            } else if t.number == Tag::TELETEX_STRING {
                AttributeValue::Teletex(b)
            } else if t.number == Tag::BMP_STRING {
                AttributeValue::Bmp(b)
            } else if t.number == Tag::UNIVERSAL_STRING {
                AttributeValue::Universal(b)
            } else {
                AttributeValue::Other { tag_number: t.number, bytes: b }
            },
        )
    }

    /// The raw bytes of the value (before any normalization).
    pub fn as_bytes(&self) -> (b: &'a [u8])
        ensures
            b@ == spec_av_bytes(*self),
    {
        match self {
            AttributeValue::Utf8(b) => b,
            AttributeValue::Printable(b) => b,
            AttributeValue::Ia5(b) => b,
            AttributeValue::Numeric(b) => b,
            AttributeValue::Visible(b) => b,
            AttributeValue::Teletex(b) => b,
            AttributeValue::Bmp(b) => b,
            AttributeValue::Universal(b) => b,
            AttributeValue::Other { bytes, .. } => bytes,
        }
    }

    /// Best-effort UTF-8 view. Returns `None` for wide-character or invalid
    /// encodings; those callers should fall back to [`as_bytes`].
    pub fn as_str(&self) -> (r: Option<&'a str>)
        ensures
            r is Some <==> !(*self is Bmp || *self is Universal) && vstd::utf8::valid_utf8(spec_av_bytes(*self)),
            r matches Some(s) ==> s.spec_bytes() == spec_av_bytes(*self),
    {
        match self {
            AttributeValue::Bmp(_) | AttributeValue::Universal(_) => None,
            _ => crate::asn1::types::str_from_utf8(self.as_bytes()),
        }
    }
}

/// An `AttributeTypeAndValue` — `{ type OID, value ANY }`.
#[derive(Clone, Copy, Debug, PartialEq, Eq)]
pub struct AttributeTypeAndValue<'a> {
    /// The attribute type OID (e.g. `id-at-commonName`).
    pub type_id: ObjectIdentifier<'a>,
    /// The (string) value.
    pub value: AttributeValue<'a>,
}

impl<'a> View for AttributeTypeAndValue<'a> {
    /// The type OID bytes and the value.
    type V = (Seq<u8>, (bool, u32, Seq<u8>));

    open spec fn view(&self) -> (Seq<u8>, (bool, u32, Seq<u8>)) {
        (self.type_id.0@, self.value@)
    }
}

/// The content of an `AttributeTypeAndValue` SEQUENCE: the type OID, one
/// element as the value, and nothing after it.
pub open spec fn spec_atv_body(c: Seq<u8>, config: Config) -> Result<(Seq<u8>, (bool, u32, Seq<u8>))> {
    match spec_prim_at(c, 0, config, spec_universal(6), |b: Seq<u8>| spec_oid_content(b)) {
        Err(e) => Err(e),
        Ok((oid, p)) => match spec_any_at(c, p, config) {
            Err(e) => Err(e),
            Ok((a, q)) => if q < c.len() {
                Err(Error::TrailingData)
            } else {
                Ok((oid, spec_av_of(a.0, a.2)))
            },
        },
    }
}

/// The `AttributeTypeAndValue` at `pos` of `s`, met at nesting `depth`.
#[verifier::opaque]
pub open spec fn spec_atv_at(s: Seq<u8>, pos: int, config: Config, depth: int) -> Result<((Seq<u8>, (bool, u32, Seq<u8>)), int)> {
    spec_nested_at(s, pos, config, depth, spec_universal_constructed(16), |c: Seq<u8>, d: int| spec_atv_body(c, config))
}

/// Reading one AVA of an RDN's value, from the top level.
pub open spec fn spec_atv_item(config: Config) -> spec_fn(Seq<u8>, int) -> Result<((Seq<u8>, (bool, u32, Seq<u8>)), int)> {
    |s: Seq<u8>, p: int| spec_atv_at(s, p, config, 0)
}

/// Reading one RDN of a name's value: a universal SET whose value holds the
/// AVAs; the AVAs and the offset after the SET.
pub open spec fn spec_rdn_item(config: Config) -> spec_fn(Seq<u8>, int) -> Result<(Seq<(Seq<u8>, (bool, u32, Seq<u8>))>, int)> {
    |s: Seq<u8>, p: int|
        match spec_any_at(s, p, config) {
            Err(e) => Err(e),
            Ok((a, n)) => if !(a.0.class == Class::Universal && a.0.number == 17) {
                Err(Error::UnexpectedTag { expected: spec_universal_constructed(17), actual: a.0 })
            } else {
                match spec_items_from(a.2, 0, spec_atv_item(config)) {
                    Err(e) => Err(e),
                    Ok(v) => Ok((v, n)),
                }
            },
        }
}

/// The `Name` at `pos` of `s`: a universal SEQUENCE whose value holds the
/// RDNs; the RDNs and the whole encoding, and the offset after it.
pub open spec fn spec_name_at(s: Seq<u8>, pos: int, config: Config) -> Result<(
    (Seq<Seq<(Seq<u8>, (bool, u32, Seq<u8>))>>, Seq<u8>),
    int,
)> {
    match spec_any_at(s, pos, config) {
        Err(e) => Err(e),
        Ok((a, n)) => if !spec_name_tag_ok(a.0) {
            Err(Error::UnexpectedTag { expected: spec_universal_constructed(16), actual: a.0 })
        } else {
            match spec_items_from(a.2, 0, spec_rdn_item(config)) {
                Err(e) => Err(e),
                Ok(rdns) => Ok(((rdns, a.3), n)),
            }
        },
    }
}

impl<'a> AttributeTypeAndValue<'a> {
    /// The attribute type OID.
    pub fn type_oid(&self) -> (b: &'a [u8])
        ensures
            b@ == self.type_id.0@,
    {
        self.type_id.as_bytes()
    }
}

impl<'a> Decode<'a> for AttributeTypeAndValue<'a> {
    open spec fn spec_decode(s: Seq<u8>, pos: int, config: crate::asn1::reader::Config, depth: int) -> crate::asn1::error::Result<(<Self as View>::V, int)> {
        spec_atv_at(s, pos, config, depth)
    }

    fn decode(r: &mut Reader<'a>) -> (res: Result<Self>)
        ensures
            decoded(*old(r), *final(r), res, spec_atv_at(old(r).spec_input(), old(r).spec_pos(), old(r).spec_config(), old(r).spec_depth())),
    {
        proof {
            reveal(spec_atv_at);
            crate::asn1::decode::lemma_expect_tlv_progress(r.spec_input(), r.spec_pos(), r.spec_config(), spec_universal_constructed(16));
        }
        let mut inner = crate::asn1::decode::enter(r, Tag::universal_constructed(Tag::SEQUENCE))?;
        let type_id = ObjectIdentifier::decode(&mut inner)?;
        let val_any = Any::decode(&mut inner)?;
        let value = AttributeValue::from_any(&val_any)?;
        crate::asn1::decode::finish(&inner)?;
        Ok(AttributeTypeAndValue { type_id, value })
    }
}

/// A `RelativeDistinguishedName` — a `SET OF AttributeTypeAndValue` (usually
/// a single AVA, but multiple are legal).
#[derive(Clone, Debug, PartialEq, Eq)]
pub struct RelativeDistinguishedName<'a> {
    /// The attribute/value assertions in this RDN.
    pub attributes: Vec<AttributeTypeAndValue<'a>>,
}

/// The first index of `avas` whose attribute type has the arcs `expected`.
pub open spec fn spec_first_of_type(avas: Seq<AttributeTypeAndValue>, expected: Seq<u64>) -> Option<int> {
    if exists|i: int| 0 <= i < avas.len() && spec_oid_arcs(avas[i].type_id.0@) == Some(expected) {
        Some(
            choose|i: int|
                0 <= i < avas.len() && spec_oid_arcs(avas[i].type_id.0@) == Some(expected) && forall|j: int|
                    0 <= j < i ==> spec_oid_arcs(#[trigger] avas[j].type_id.0@) != Some(expected),
        )
    } else {
        None
    }
}

/// Find the first of `avas` whose type is `expected` (by arcs).
fn find_in<'r, 'a>(avas: &'r Vec<AttributeTypeAndValue<'a>>, expected: &[u64]) -> (r: Option<&'r AttributeValue<'a>>)
    ensures
        match spec_first_of_type(avas@, expected@) {
            Some(i) => r is Some && *r->Some_0 == avas@[i].value,
            None => r is None,
        },
{
    let mut i: usize = 0;
    while i < avas.len()
        invariant
            i <= avas@.len(),
            forall|j: int| 0 <= j < i ==> spec_oid_arcs(#[trigger] avas@[j].type_id.0@) != Some(expected@),
        decreases avas@.len() - i,
    {
        if oid_eq(&avas[i].type_id, expected) {
            let ghost k = i as int;
            assert(spec_first_of_type(avas@, expected@) == Some(k)) by {
                let c = spec_first_of_type(avas@, expected@)->Some_0;
                assert(0 <= c < avas@.len());
                if c < k {
                } else if c > k {
                }
            }
            return Some(&avas[i].value);
        }
        i += 1;
    }
    None
}

impl<'a> View for RelativeDistinguishedName<'a> {
    /// The AVAs.
    type V = Seq<(Seq<u8>, (bool, u32, Seq<u8>))>;

    open spec fn view(&self) -> Seq<(Seq<u8>, (bool, u32, Seq<u8>))> {
        self.attributes@.map_values(|a: AttributeTypeAndValue<'a>| a@)
    }
}

impl<'a> RelativeDistinguishedName<'a> {
    /// Find the first attribute whose type OID equals `expected`.
    pub fn find(&self, expected: &[u64]) -> (r: Option<&AttributeValue<'a>>)
        ensures
            match spec_first_of_type(self.attributes@, expected@) {
                Some(i) => r is Some && *r->Some_0 == self.attributes@[i].value,
                None => r is None,
            },
    {
        find_in(&self.attributes, expected)
    }
}

/// An X.501 `Name` (the `RDNSequence`).
///
/// The full DER of the `Name` is retained so that chain-building can perform
/// exact issuer/subject matching; [`Name::matches`] additionally offers the
/// RFC 5280 §7.1 normalized comparison.
#[derive(Clone, Debug, PartialEq, Eq)]
pub struct Name<'a> {
    rdns: Vec<RelativeDistinguishedName<'a>>,
    der: &'a [u8],
}

/// The first value of type `expected` in the earliest RDN (from index `i`)
/// that has one.
pub open spec fn spec_find_in_rdns<'a>(rdns: Seq<RelativeDistinguishedName<'a>>, expected: Seq<u64>, i: int) -> Option<AttributeValue<'a>>
    decreases rdns.len() - i,
{
    if i < 0 || i >= rdns.len() {
        None
    } else {
        match spec_first_of_type(rdns[i].attributes@, expected) {
            Some(k) => Some(rdns[i].attributes@[k].value),
            None => spec_find_in_rdns(rdns, expected, i + 1),
        }
    }
}

/// ASCII upper-casing of one byte.
pub open spec fn spec_upper(c: u8) -> u8 {
    if 0x61 <= c <= 0x7a {
        (c - 32) as u8
    } else {
        c
    }
}

/// RFC 5280 §7.1 folding of `b` from `i`: spaces are dropped at the start
/// and end and runs of them become one space (`in_ws`: a run is pending;
/// `leading`: nothing has been emitted yet); letters are upper-cased.
pub open spec fn spec_fold_from(b: Seq<u8>, i: int, in_ws: bool, leading: bool) -> Seq<u8>
    decreases b.len() - i,
{
    if i < 0 || i >= b.len() {
        Seq::empty()
    } else if b[i] == 0x20 {
        spec_fold_from(b, i + 1, true, leading)
    } else {
        (if in_ws && !leading { seq![0x20u8] } else { Seq::empty() }) + seq![spec_upper(b[i])] + spec_fold_from(
            b,
            i + 1,
            false,
            false,
        )
    }
}

/// Folding text without spaces from `i` on upper-cases each letter and keeps
/// every other byte.
proof fn lemma_fold_without_spaces(b: Seq<u8>, i: int, leading: bool)
    requires
        0 <= i <= b.len(),
        forall|k: int| i <= k < b.len() ==> #[trigger] b[k] != 0x20,
    ensures
        spec_fold_from(b, i, false, leading).len() == b.len() - i,
        forall|k: int| 0 <= k < b.len() - i ==> #[trigger] spec_fold_from(b, i, false, leading)[k] == if 0x61 <= b[i + k]
            <= 0x7a {
            (b[i + k] - 32) as u8
        } else {
            b[i + k]
        },
    decreases b.len() - i,
{
    if i < b.len() {
        lemma_fold_without_spaces(b, i + 1, false);
        let rest = spec_fold_from(b, i + 1, false, false);
        assert(spec_fold_from(b, i, false, leading) =~= seq![spec_upper(b[i])] + rest);
        assert forall|k: int| 0 <= k < b.len() - i implies #[trigger] spec_fold_from(b, i, false, leading)[k]
            == if 0x61 <= b[i + k] <= 0x7a {
            (b[i + k] - 32) as u8
        } else {
            b[i + k]
        } by {
            if k > 0 {
                assert(spec_fold_from(b, i, false, leading)[k] == rest[k - 1]);
                assert(b[i + 1 + (k - 1)] == b[i + k]);
            }
        }
    }
}

/// Law (case-insensitive comparison of words): a value without spaces
/// folds to itself with each ASCII lower-case letter made upper-case, so two
/// such values fold alike exactly when they agree byte for byte up to the
/// case of letters.
pub proof fn lemma_fold_upper_cases(b: Seq<u8>)
    requires
        forall|k: int| 0 <= k < b.len() ==> #[trigger] b[k] != 0x20,
    ensures
        spec_fold_from(b, 0, false, true).len() == b.len(),
        forall|k: int| 0 <= k < b.len() ==> #[trigger] spec_fold_from(b, 0, false, true)[k] == if 0x61 <= b[k] <= 0x7a {
            (b[k] - 32) as u8
        } else {
            b[k]
        },
{
    lemma_fold_without_spaces(b, 0, true);
    assert forall|k: int| 0 <= k < b.len() implies #[trigger] spec_fold_from(b, 0, false, true)[k] == if 0x61 <= b[k]
        <= 0x7a {
        (b[k] - 32) as u8
    } else {
        b[k]
    } by {
        assert(b[0 + k] == b[k]);
    }
}

/// Law (spaces at either end do not count): a leading or a trailing space
/// leaves the folded form unchanged.
pub proof fn lemma_fold_trims(b: Seq<u8>)
    ensures
        spec_fold_from(seq![0x20u8] + b, 0, false, true) == spec_fold_from(b, 0, false, true),
        spec_fold_from(b + seq![0x20u8], 0, false, true) == spec_fold_from(b, 0, false, true),
{
    let s = seq![0x20u8] + b;
    lemma_fold_shift(b, s, 0, 1, true, true);
    lemma_fold_pending_at_start(b, 0);
    lemma_fold_trailing(b, 0, false, true);
}

/// A space after the last byte is never emitted.
proof fn lemma_fold_trailing(b: Seq<u8>, i: int, in_ws: bool, leading: bool)
    requires
        0 <= i <= b.len(),
    ensures
        spec_fold_from(b + seq![0x20u8], i, in_ws, leading) == spec_fold_from(b, i, in_ws, leading),
    decreases b.len() - i,
{
    let s = b + seq![0x20u8];
    if i < b.len() {
        assert(s[i] == b[i]);
        lemma_fold_trailing(b, i + 1, true, leading);
        lemma_fold_trailing(b, i + 1, false, false);
    } else {
        assert(s[i] == 0x20);
        assert(spec_fold_from(s, i + 1, true, leading) == Seq::<u8>::empty());
    }
}

/// Reading `s` from `i + 1` is reading `b` from `i` when `s` is `b` behind
/// one byte.
proof fn lemma_fold_shift(b: Seq<u8>, s: Seq<u8>, i: int, d: int, in_ws: bool, leading: bool)
    requires
        d == 1,
        s.len() == b.len() + 1,
        forall|k: int| 0 <= k < b.len() ==> s[k + 1] == #[trigger] b[k],
        0 <= i,
    ensures
        spec_fold_from(s, i + 1, in_ws, leading) == spec_fold_from(b, i, in_ws, leading),
    decreases b.len() - i,
{
    if i < b.len() {
        assert(s[i + 1] == b[i]);
        lemma_fold_shift(b, s, i + 1, d, true, leading);
        lemma_fold_shift(b, s, i + 1, d, false, false);
    }
}

/// Before anything is emitted, a pending space makes no difference.
proof fn lemma_fold_pending_at_start(b: Seq<u8>, i: int)
    requires
        0 <= i,
    ensures
        spec_fold_from(b, i, true, true) == spec_fold_from(b, i, false, true),
    decreases b.len() - i,
{
    if i < b.len() {
        lemma_fold_pending_at_start(b, i + 1);
        assert(Seq::<u8>::empty() + seq![spec_upper(b[i])] =~= seq![spec_upper(b[i])]);
    }
}

/// The normalized form a value is compared by: folded for the ASCII
/// string types, raw for the others.
pub open spec fn spec_normalize(v: AttributeValue) -> Seq<u8> {
    if spec_av_folds(v) {
        spec_fold_from(spec_av_bytes(v), 0, false, true)
    } else {
        spec_av_bytes(v)
    }
}

/// The first index of `avas` whose type bytes equal `t`.
pub open spec fn spec_first_same_type(avas: Seq<AttributeTypeAndValue>, t: Seq<u8>) -> Option<int> {
    if exists|j: int| 0 <= j < avas.len() && avas[j].type_id.0@ == t {
        Some(choose|j: int| 0 <= j < avas.len() && avas[j].type_id.0@ == t && forall|k: int| 0 <= k < j ==> #[trigger] avas[k].type_id.0@ != t)
    } else {
        None
    }
}

/// Two RDNs match: the same number of AVAs, and each AVA of `x` finds the
/// first AVA of `y` with the same type, whose normalized value is equal.
pub open spec fn spec_rdn_match(x: Seq<AttributeTypeAndValue>, y: Seq<AttributeTypeAndValue>) -> bool {
    &&& x.len() == y.len()
    &&& forall|k: int| 0 <= k < x.len() ==> match spec_first_same_type(y, #[trigger] x[k].type_id.0@) {
        Some(j) => spec_normalize(x[k].value) == spec_normalize(y[j].value),
        None => false,
    }
}

/// Two RDN sequences match position by position.
pub open spec fn spec_names_match(a: Seq<RelativeDistinguishedName>, b: Seq<RelativeDistinguishedName>) -> bool {
    &&& a.len() == b.len()
    &&& forall|i: int| 0 <= i < a.len() ==> spec_rdn_match(#[trigger] a[i].attributes@, b[i].attributes@)
}

/// Law (every RDN position counts): two names with the same number of
/// RDNs do not match when, at some position, each holds a single attribute
/// and the two normalized values differ, whatever the other positions hold.
pub proof fn lemma_names_differ_at(a: Seq<RelativeDistinguishedName>, b: Seq<RelativeDistinguishedName>, i: int)
    requires
        a.len() == b.len(),
        0 <= i < a.len(),
        a[i].attributes@.len() == 1,
        b[i].attributes@.len() == 1,
        spec_normalize(a[i].attributes@[0].value) != spec_normalize(b[i].attributes@[0].value),
    ensures
        !spec_names_match(a, b),
{
    let x = a[i].attributes@;
    let y = b[i].attributes@;
    let t = x[0].type_id.0@;
    if y[0].type_id.0@ == t {
        assert(0 <= 0 < y.len() && y[0].type_id.0@ == t && forall|k: int| 0 <= k < 0 ==> #[trigger] y[k].type_id.0@ != t);
        let j = spec_first_same_type(y, t)->Some_0;
        assert(0 <= j < y.len());
        assert(j == 0);
    } else {
        assert(spec_first_same_type(y, t) is None);
    }
    assert(!spec_rdn_match(x, y));
}

impl<'a> View for Name<'a> {
    /// The RDNs and the whole encoding.
    type V = (Seq<Seq<(Seq<u8>, (bool, u32, Seq<u8>))>>, Seq<u8>);

    closed spec fn view(&self) -> (Seq<Seq<(Seq<u8>, (bool, u32, Seq<u8>))>>, Seq<u8>) {
        (self.rdns@.map_values(|r: RelativeDistinguishedName<'a>| r@), self.der@)
    }
}

impl<'a> Name<'a> {
    /// The RDNs of this name.
    pub closed spec fn spec_rdns(&self) -> Seq<RelativeDistinguishedName<'a>> {
        self.rdns@
    }

    /// The retained DER of this name.
    pub closed spec fn spec_der(&self) -> Seq<u8> {
        self.der@
    }

    /// A copy of this name: the same RDNs, attribute by attribute, and the
    /// same retained encoding.
    pub(crate) fn duplicate(&self) -> (r: Name<'a>)
        ensures
            r@ == self@,
            r.spec_der() == self.spec_der(),
    {
        let mut rdns: Vec<RelativeDistinguishedName<'a>> = Vec::new();
        let mut i: usize = 0;
        while i < self.rdns.len()
            invariant
                i <= self.rdns@.len(),
                rdns@.len() == i,
                forall|k: int| 0 <= k < i ==> (#[trigger] rdns@[k])@ == self.rdns@[k]@,
            decreases self.rdns@.len() - i,
        {
            let src = &self.rdns[i].attributes;
            let mut attributes: Vec<AttributeTypeAndValue<'a>> = Vec::new();
            let mut j: usize = 0;
            while j < src.len()
                invariant
                    j <= src@.len(),
                    attributes@ == src@.subrange(0, j as int),
                decreases src@.len() - j,
            {
                attributes.push(src[j]);
                j += 1;
            }
            assert(attributes@ == src@);
            rdns.push(RelativeDistinguishedName { attributes });
            i += 1;
        }
        let r = Name { rdns, der: self.der };
        assert(r@.0 =~= self@.0);
        r
    }

    /// The encoding held in the view is the retained DER.
    pub proof fn lemma_view_der(&self)
        ensures
            self@.1 == self.spec_der(),
    {
    }

    /// The retained DER encoding of this `Name` (exact-match source).
    pub fn as_der(&self) -> (b: &'a [u8])
        ensures
            b@ == self.spec_der(),
    {
        self.der
    }

    /// The sequence of relative distinguished names, in order.
    pub fn rdns(&self) -> (r: &[RelativeDistinguishedName<'a>])
        ensures
            r@ == self.spec_rdns(),
    {
        self.rdns.as_slice()
    }

    /// Returns `true` if the two names are byte-for-byte identical in DER.
    pub fn der_eq(&self, other: &Name<'a>) -> (r: bool)
        ensures
            r == (self.spec_der() == other.spec_der()),
    {
        bytes_eq(self.der, other.der)
    }

    /// Find the first attribute of the given type anywhere in the DN.
    pub fn find(&self, expected: &[u64]) -> (r: Option<&AttributeValue<'a>>)
        ensures
            match spec_find_in_rdns(self.spec_rdns(), expected@, 0) {
                Some(v) => r is Some && *r->Some_0 == v,
                None => r is None,
            },
    {
        let mut i: usize = 0;
        while i < self.rdns.len()
            invariant
                i <= self.rdns@.len(),
                spec_find_in_rdns(self.rdns@, expected@, i as int) == spec_find_in_rdns(self.rdns@, expected@, 0),
            decreases self.rdns@.len() - i,
        {
            match self.rdns[i].find(expected) {
                Some(v) => {
                    return Some(v);
                },
                None => {},
            }
            i += 1;
        }
        None
    }

    /// Returns `true` if `self` and `other` match under RFC 5280 §7.1 rules.
    ///
    /// RDNs are compared positionally; within each RDN the AVAs are compared as
    /// a set, matching by attribute type and then by the normalized value.
    pub fn matches(&self, other: &Name<'a>) -> (r: bool)
        ensures
            r == spec_names_match(self.spec_rdns(), other.spec_rdns()),
    {
        if self.rdns.len() != other.rdns.len() {
            return false;
        }
        let mut i: usize = 0;
        while i < self.rdns.len()
            invariant
                i <= self.rdns@.len(),
                self.rdns@.len() == other.rdns@.len(),
                forall|k: int| 0 <= k < i ==> spec_rdn_match(#[trigger] self.rdns@[k].attributes@, other.rdns@[k].attributes@),
            decreases self.rdns@.len() - i,
        {
            if !rdn_matches(&self.rdns[i].attributes, &other.rdns[i].attributes) {
                assert(!spec_rdn_match(self.rdns@[i as int].attributes@, other.rdns@[i as int].attributes@));
                return false;
            }
            i += 1;
        }
        true
    }
}

/// The first AVA of `avas` with the type bytes `t`.
fn first_same_type<'r, 'a>(avas: &'r Vec<AttributeTypeAndValue<'a>>, t: &[u8]) -> (r: Option<usize>)
    ensures
        r is None <==> spec_first_same_type(avas@, t@) is None,
        r matches Some(j) ==> j < avas@.len() && spec_first_same_type(avas@, t@) == Some(j as int),
{
    let mut j: usize = 0;
    while j < avas.len()
        invariant
            j <= avas@.len(),
            forall|k: int| 0 <= k < j ==> #[trigger] avas@[k].type_id.0@ != t@,
        decreases avas@.len() - j,
    {
        if bytes_eq(avas[j].type_id.as_bytes(), t) {
            let ghost jj = j as int;
            assert(spec_first_same_type(avas@, t@) == Some(jj)) by {
                let c = spec_first_same_type(avas@, t@)->Some_0;
                assert(0 <= c < avas@.len());
                if c < jj {
                } else if c > jj {
                }
            }
            return Some(j);
        }
        j += 1;
    }
    None
}

/// Whether two RDNs match (see [`spec_rdn_match`]).
fn rdn_matches(a: &Vec<AttributeTypeAndValue<'_>>, b: &Vec<AttributeTypeAndValue<'_>>) -> (r: bool)
    ensures
        r == spec_rdn_match(a@, b@),
{
    if a.len() != b.len() {
        return false;
    }
    let mut k: usize = 0;
    while k < a.len()
        invariant
            k <= a@.len(),
            a@.len() == b@.len(),
            forall|m: int| 0 <= m < k ==> match spec_first_same_type(b@, #[trigger] a@[m].type_id.0@) {
                Some(j) => spec_normalize(a@[m].value) == spec_normalize(b@[j].value),
                None => false,
            },
        decreases a@.len() - k,
    {
        let ava = &a[k];
        let ghost kk = k as int;
        match first_same_type(b, ava.type_id.as_bytes()) {
            None => {
                assert(spec_first_same_type(b@, a@[kk].type_id.0@) is None);
                assert(!spec_rdn_match(a@, b@));
                return false;
            },
            Some(j) => {
                let x = normalize_value(ava.value);
                let y = normalize_value(b[j].value);
                if !bytes_eq(x.as_slice(), y.as_slice()) {
                    assert(spec_first_same_type(b@, a@[kk].type_id.0@) == Some(j as int));
                    assert(spec_normalize(a@[kk].value) != spec_normalize(b@[j as int].value));
                    assert(!spec_rdn_match(a@, b@));
                    return false;
                }
            },
        }
        k += 1;
    }
    true
}

/// The name element at the reader, as `Name::decode` sees it: it must be a
/// universal SEQUENCE (either form).
pub open spec fn spec_name_tag_ok(t: Tag) -> bool {
    t.class == Class::Universal && t.number == 16
}

impl<'a> Decode<'a> for Name<'a> {
    open spec fn spec_decode(s: Seq<u8>, pos: int, config: crate::asn1::reader::Config, depth: int) -> crate::asn1::error::Result<(<Self as View>::V, int)> {
        spec_name_at(s, pos, config)
    }

    #[verifier::loop_isolation(false)]
    fn decode(r: &mut Reader<'a>) -> (res: Result<Self>)
        ensures
            decoded(*old(r), *final(r), res, spec_name_at(old(r).spec_input(), old(r).spec_pos(), old(r).spec_config())),
            res matches Ok(name) ==> spec_any_at(old(r).spec_input(), old(r).spec_pos(), old(r).spec_config()) matches Ok((a, _))
                && name.spec_der() == a.3,
    {
        proof { crate::asn1::reader::lemma_read_tlv_bounds(r.spec_input(), r.spec_pos(), r.spec_config()); }
        let any = Any::decode(r)?;
        let der = any.full;
        if !any.tag.is_universal(Tag::SEQUENCE) {
            return Err(Error::UnexpectedTag { expected: Tag::universal_constructed(Tag::SEQUENCE), actual: any.tag });
        }
        let config = *r.config();
        let mut sub = Reader::new(any.value, config);
        let ghost s = any.value@;
        let mut rdns: Vec<RelativeDistinguishedName<'a>> = Vec::new();
        assert(spec_prepend(rdns@.map_values(|x: RelativeDistinguishedName<'a>| x@), spec_items_from(s, 0, spec_rdn_item(config)))
            =~= spec_items_from(s, 0, spec_rdn_item(config)));
        while !sub.is_empty()
            invariant
                sub.spec_config() == config,
                sub.spec_input() == s,
                spec_prepend(rdns@.map_values(|x: RelativeDistinguishedName<'a>| x@), spec_items_from(s, sub.spec_pos(), spec_rdn_item(config)))
                    == spec_items_from(s, 0, spec_rdn_item(config)),
            decreases sub.spec_input().len() - sub.spec_pos(),
        {
            let ghost p = sub.spec_pos();
            let ghost before = rdns@.map_values(|x: RelativeDistinguishedName<'a>| x@);
            proof { crate::asn1::reader::lemma_read_tlv_bounds(sub.spec_input(), sub.spec_pos(), sub.spec_config()); }
            let rdn_any = Any::decode(&mut sub)?;
            if !rdn_any.tag.is_universal(Tag::SET) {
                return Err(Error::UnexpectedTag { expected: Tag::universal_constructed(Tag::SET), actual: rdn_any.tag });
            }
            let attributes = decode_avas(rdn_any.value, config)?;
            let rdn = RelativeDistinguishedName { attributes };
            proof { lemma_items_step::<Seq<(Seq<u8>, (bool, u32, Seq<u8>))>, Error>(s, p, spec_rdn_item(config), before, rdn@, sub.spec_pos()); }
            rdns.push(rdn);
            assert(rdns@.map_values(|x: RelativeDistinguishedName<'a>| x@) =~= before.push(rdn@));
        }
        let ghost fin = rdns@.map_values(|x: RelativeDistinguishedName<'a>| x@);
        assert(fin + Seq::<Seq<(Seq<u8>, (bool, u32, Seq<u8>))>>::empty() =~= fin);
        let name = Name { rdns, der };
        assert(name@ == (fin, der@));
        Ok(name)
    }
}

/// Read the AVAs of an RDN's value `content`, from the top level.
fn decode_avas<'a>(content: &'a [u8], config: Config) -> (res: Result<Vec<AttributeTypeAndValue<'a>>>)
    ensures
        crate::asn1::decode::list_result(res, spec_items_from(content@, 0, spec_atv_item(config))),
{
    let mut r = Reader::new(content, config);
    let ghost s = content@;
    let mut out: Vec<AttributeTypeAndValue<'a>> = Vec::new();
    assert(spec_prepend(out@.map_values(|x: AttributeTypeAndValue<'a>| x@), spec_items_from(s, 0, spec_atv_item(config)))
        =~= spec_items_from(s, 0, spec_atv_item(config)));
    while !r.is_empty()
        invariant
            r.spec_config() == config,
            r.spec_input() == s,
            r.spec_depth() == 0,
            s == content@,
            spec_prepend(out@.map_values(|x: AttributeTypeAndValue<'a>| x@), spec_items_from(s, r.spec_pos(), spec_atv_item(config)))
                == spec_items_from(s, 0, spec_atv_item(config)),
        decreases r.spec_input().len() - r.spec_pos(),
    {
        let ghost p = r.spec_pos();
        let ghost before = out@.map_values(|x: AttributeTypeAndValue<'a>| x@);
        let a = AttributeTypeAndValue::decode(&mut r)?;
        proof { lemma_items_step::<(Seq<u8>, (bool, u32, Seq<u8>)), Error>(s, p, spec_atv_item(config), before, a@, r.spec_pos()); }
        out.push(a);
        assert(out@.map_values(|x: AttributeTypeAndValue<'a>| x@) =~= before.push(a@));
    }
    let ghost fin = out@.map_values(|x: AttributeTypeAndValue<'a>| x@);
    assert(fin + Seq::<(Seq<u8>, (bool, u32, Seq<u8>))>::empty() =~= fin);
    Ok(out)
}

/// Normalize a directory-string value per RFC 5280 §7.1:
///
/// - strip leading/trailing space (`0x20`),
/// - collapse runs of internal space to a single space,
/// - fold ASCII letters to upper case.
///
/// Wide-character strings (`BmpString`/`UniversalString`) are compared raw.
fn normalize_value(v: AttributeValue<'_>) -> (out: Vec<u8>)
    ensures
        out@ == spec_normalize(v),
{
    let bytes = v.as_bytes();
    let fold = match v {
        AttributeValue::Utf8(_) | AttributeValue::Printable(_) | AttributeValue::Ia5(_) | AttributeValue::Numeric(_)
        | AttributeValue::Visible(_) | AttributeValue::Teletex(_) => true,
        _ => false,
    };
    if !fold {
        return vstd::slice::slice_to_vec(bytes);
    }
    let mut out: Vec<u8> = Vec::new();
    let mut in_ws = false;
    let mut leading = true;
    let mut i: usize = 0;
    while i < bytes.len()
        invariant
            i <= bytes@.len(),
            bytes@ == spec_av_bytes(v),
            out@ + spec_fold_from(bytes@, i as int, in_ws, leading) == spec_fold_from(bytes@, 0, false, true),
        decreases bytes@.len() - i,
    {
        let c = bytes[i];
        let ghost before = out@;
        if c == 0x20 {
            in_ws = true;
        } else {
            let ghost pre: Seq<u8> = if in_ws && !leading { seq![0x20u8] } else { Seq::empty() };
            if in_ws {
                if !leading {
                    out.push(0x20);
                }
                in_ws = false;
            }
            leading = false;
            let up = if c >= 0x61 && c <= 0x7a { c - 32 } else { c };
            out.push(up);
            assert(out@ =~= before + pre + seq![spec_upper(c)]);
            assert(out@ + spec_fold_from(bytes@, i + 1, false, false) =~= before + (pre + seq![spec_upper(c)]
                + spec_fold_from(bytes@, i + 1, false, false)));
        }
        i += 1;
    }
    assert(out@ + Seq::<u8>::empty() =~= out@);
    out
}

} // verus!
