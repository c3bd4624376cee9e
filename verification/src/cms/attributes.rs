//! CMS attribute decode: `Attribute` and the `SET OF Attribute` used for the
//! signed/unsigned attribute sets of a `SignerInfo`.
//!
//! ```asn1
//! Attribute ::= SEQUENCE {
//!     type        OBJECT IDENTIFIER,
//!     values      SET OF AttributeValue }
//! ```
//!
//! When a `SET OF Attribute` appears as a *signed* or *unsigned* attribute set
//! it is wrapped in an `[0]`/`[1]` IMPLICIT tag (see `signer_info`); this
//! module only handles the `SET OF` payload itself.

use crate::asn1::any::{spec_any_at, Any};
use crate::asn1::decode::{
    decoded, enter, lemma_expect_tlv_progress, lemma_items_step, list_result, spec_items_from, spec_nested_at, spec_prepend,
    spec_prim_at, Decode,
};
use crate::asn1::error::{Error as CoreError, Result as CoreResult};
use crate::asn1::length::Length;
use crate::asn1::reader::{lemma_read_tlv_bounds, spec_default_config, Config, EncodingRule, Reader};
use crate::asn1::tag::{spec_universal, spec_universal_constructed, Tag};
use crate::asn1::types::{spec_oid_content, ObjectIdentifier};
use crate::cms::error::{Error, Result};
use vstd::prelude::*;

verus! {

broadcast use crate::asn1::reader::Reader::lemma_nonneg;

/// A single CMS attribute.
#[derive(Clone, Copy, PartialEq, Eq, Debug)]
pub struct Attribute<'a> {
    /// The attribute type OID.
    pub type_id: ObjectIdentifier<'a>,
    /// The attribute values (a `SET OF`, typically one element).
    pub values: &'a [u8],
}

impl<'a> View for Attribute<'a> {
    /// The type OID bytes and the raw bytes of the values.
    type V = (Seq<u8>, Seq<u8>);

    open spec fn view(&self) -> (Seq<u8>, Seq<u8>) {
        (self.type_id.0@, self.values@)
    }
}

/// The content of an `Attribute` SEQUENCE: the type OID, then every
/// remaining byte as the values.
pub open spec fn spec_attribute_body(c: Seq<u8>, config: Config) -> CoreResult<(Seq<u8>, Seq<u8>)> {
    match spec_prim_at(c, 0, config, spec_universal(6), |b: Seq<u8>| spec_oid_content(b)) {
        Err(e) => Err(e),
        Ok((oid, p)) => Ok((oid, c.subrange(p, c.len() as int))),
    }
}

/// The `Attribute` at `pos` of `s`, met at nesting `depth`.
#[verifier::opaque]
pub open spec fn spec_attribute_at(s: Seq<u8>, pos: int, config: Config, depth: int) -> CoreResult<((Seq<u8>, Seq<u8>), int)> {
    spec_nested_at(s, pos, config, depth, spec_universal_constructed(16), |c: Seq<u8>, d: int| spec_attribute_body(c, config))
}

/// Reading one `Attribute` of a top-level BER list.
pub open spec fn spec_attribute_item() -> spec_fn(Seq<u8>, int) -> CoreResult<((Seq<u8>, Seq<u8>), int)> {
    |s: Seq<u8>, p: int| spec_attribute_at(s, p, spec_default_config(EncodingRule::Ber), 0)
}

/// The attributes of a `SET OF Attribute` payload, read under BER, or the
/// first error (as a CMS error).
pub open spec fn spec_attribute_set(c: Seq<u8>) -> Result<Seq<(Seq<u8>, Seq<u8>)>> {
    match spec_items_from(c, 0, spec_attribute_item()) {
        Ok(v) => Ok(v),
        Err(e) => Err(Error::Asn1(e)),
    }
}

/// The elements of `s` from `pos`, read as `Any` under BER, up to the end or
/// to the first one that does not decode.
#[verifier::opaque]
pub open spec fn spec_tlvs_from(s: Seq<u8>, pos: int) -> Seq<(Tag, Length, Seq<u8>, Seq<u8>)>
    decreases s.len() - pos,
{
    if pos < 0 || pos >= s.len() {
        Seq::empty()
    } else {
        proof { lemma_read_tlv_bounds(s, pos, spec_default_config(EncodingRule::Ber)); }
        match spec_any_at(s, pos, spec_default_config(EncodingRule::Ber)) {
            Err(_) => Seq::empty(),
            Ok((v, n)) => seq![v] + spec_tlvs_from(s, n),
        }
    }
}

/// One step of [`spec_tlvs_from`].
pub proof fn lemma_tlvs_step(s: Seq<u8>, pos: int)
    requires
        0 <= pos,
    ensures
        spec_tlvs_from(s, pos) == (if pos >= s.len() {
            Seq::empty()
        } else {
            match spec_any_at(s, pos, spec_default_config(EncodingRule::Ber)) {
                Err(_) => Seq::empty(),
                Ok((v, n)) => seq![v] + spec_tlvs_from(s, n),
            }
        }),
{
    reveal(spec_tlvs_from);
}

impl<'a> Attribute<'a> {
    /// The raw TLVs of each value in the `SET OF`, read under BER until the
    /// end or the first value that does not decode.
    pub fn value_tlvs(&self) -> (v: Vec<Any<'a>>)
        ensures
            v@.map_values(|a: Any<'a>| a@) == spec_tlvs_from(self.values@, 0),
    {
        let mut r = Reader::new(self.values, Config::ber());
        let ghost s = self.values@;
        let mut out: Vec<Any<'a>> = Vec::new();
        assert(out@.map_values(|a: Any<'a>| a@) + spec_tlvs_from(s, 0) =~= spec_tlvs_from(s, 0));
        loop
            invariant
                s == self.values@,
                r.spec_input() == s,
                r.spec_config() == spec_default_config(EncodingRule::Ber),
                0 <= r.spec_pos() <= s.len(),
                out@.map_values(|a: Any<'a>| a@) + spec_tlvs_from(s, r.spec_pos()) == spec_tlvs_from(s, 0),
            decreases s.len() - r.spec_pos(),
        {
            let ghost p = r.spec_pos();
            proof { lemma_tlvs_step(s, p); }
            if r.is_empty() {
                assert(out@.map_values(|a: Any<'a>| a@) + spec_tlvs_from(s, r.spec_pos()) =~= out@.map_values(|a: Any<'a>| a@));
                return out;
            }
            let ghost before = out@.map_values(|a: Any<'a>| a@);
            proof { lemma_read_tlv_bounds(s, p, spec_default_config(EncodingRule::Ber)); }
            match Any::decode(&mut r) {
                Ok(a) => {
                    out.push(a);
                    assert(out@.map_values(|a: Any<'a>| a@) =~= before.push(a@));
                    assert(before + spec_tlvs_from(s, p) =~= before.push(a@) + spec_tlvs_from(s, r.spec_pos()));
                },
                Err(_) => {
                    assert(before + spec_tlvs_from(s, p) =~= before);
                    return out;
                },
            }
        }
    }

    /// Return the first value as an `Any`, if present and decodable.
    pub fn first_value(&self) -> (r: Option<Any<'a>>)
        ensures
            match spec_any_at(self.values@, 0, spec_default_config(EncodingRule::Ber)) {
                Ok((v, _)) => r is Some && r->Some_0@ == v,
                Err(_) => r is None,
            },
    {
        let mut r = Reader::new(self.values, Config::ber());
        if r.is_empty() {
            return None;
        }
        match Any::decode(&mut r) {
            Ok(a) => Some(a),
            Err(_) => None,
        }
    }
}

impl<'a> Decode<'a> for Attribute<'a> {
    open spec fn spec_decode(s: Seq<u8>, pos: int, config: crate::asn1::reader::Config, depth: int) -> crate::asn1::error::Result<(<Self as View>::V, int)> {
        spec_attribute_at(s, pos, config, depth)
    }

    fn decode(r: &mut Reader<'a>) -> (res: CoreResult<Self>)
        ensures
            decoded(*old(r), *final(r), res, spec_attribute_at(old(r).spec_input(), old(r).spec_pos(), old(r).spec_config(), old(r).spec_depth())),
    {
        proof {
            reveal(spec_attribute_at);
            lemma_expect_tlv_progress(r.spec_input(), r.spec_pos(), r.spec_config(), spec_universal_constructed(16));
        }
        let mut inner = enter(r, Tag::universal_constructed(Tag::SEQUENCE))?;
        let type_id = ObjectIdentifier::decode(&mut inner)?;
        let n = inner.remaining();
        let values = inner.read_bytes(n)?;
        Ok(Attribute { type_id, values })
    }
}

/// Decode a `SET OF Attribute` payload (the content of the implicit `[0]`/`[1]`
/// tag) into [`Attribute`]s, under BER.
#[verifier::loop_isolation(false)]
pub fn decode_attribute_set<'a>(content: &'a [u8]) -> (res: Result<Vec<Attribute<'a>>>)
    ensures
        list_result(res, spec_attribute_set(content@)),
{
    let mut r = Reader::new(content, Config::ber());
    let mut attrs: Vec<Attribute<'a>> = Vec::new();
    let ghost s = content@;
    assert(attrs@.map_values(|a: Attribute<'a>| a@) =~= Seq::<(Seq<u8>, Seq<u8>)>::empty());
    assert(spec_prepend(Seq::<(Seq<u8>, Seq<u8>)>::empty(), spec_items_from(s, 0, spec_attribute_item())) =~= spec_items_from(s, 0, spec_attribute_item()));
    while !r.is_empty()
        invariant
            r.spec_input() == s,
            s == content@,
            r.spec_config() == spec_default_config(EncodingRule::Ber),
            r.spec_depth() == 0,
            spec_prepend(attrs@.map_values(|a: Attribute<'a>| a@), spec_items_from(s, r.spec_pos(), spec_attribute_item()))
                == spec_items_from(s, 0, spec_attribute_item()),
        decreases r.spec_input().len() - r.spec_pos(),
    {
        let ghost p = r.spec_pos();
        let ghost before = attrs@.map_values(|a: Attribute<'a>| a@);
        match Attribute::decode(&mut r) {
            Ok(a) => {
                proof { lemma_items_step::<(Seq<u8>, Seq<u8>), CoreError>(s, p, spec_attribute_item(), before, a@, r.spec_pos()); }
                attrs.push(a);
                assert(attrs@.map_values(|a: Attribute<'a>| a@) =~= before.push(a@));
            },
            Err(e) => {
                return Err(Error::Asn1(e));
            },
        }
    }
    assert(spec_items_from(s, r.spec_pos(), spec_attribute_item()) == Ok::<Seq<(Seq<u8>, Seq<u8>)>, CoreError>(Seq::empty()));
    assert(attrs@.map_values(|a: Attribute<'a>| a@) + Seq::<(Seq<u8>, Seq<u8>)>::empty() =~= attrs@.map_values(|a: Attribute<'a>| a@));
    Ok(attrs)
}

} // verus!
