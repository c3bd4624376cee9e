//! `Any`: a lazily/deferred-decoded ASN.1 value.

use crate::asn1::decode::{read_sequence, spec_expect_tlv, spec_filling, view_result, Decode};
use crate::asn1::error::{Error, Result};
use crate::asn1::length::Length;
use crate::asn1::reader::{lemma_read_tlv_bounds, spec_default_config, spec_read_tlv, Config, EncodingRule, Reader};
use crate::asn1::tag::{spec_universal_constructed, Tag};
use vstd::prelude::*;

verus! {

broadcast use crate::asn1::reader::Reader::lemma_nonneg;

/// A decoded TLV whose tagged value has not yet been interpreted into a
/// concrete type. Useful for passing through unknown or `CHOICE`-like content.
#[derive(Clone, Copy, PartialEq, Eq, Debug)]
pub struct Any<'a> {
    /// The tag.
    pub tag: Tag,
    /// The length.
    pub length: Length,
    /// The raw value bytes (for an indefinite length, the inner content).
    pub value: &'a [u8],
    /// The complete TLV encoding (tag + length + value), for re-decoding.
    pub full: &'a [u8],
}

impl<'a> View for Any<'a> {
    type V = (Tag, Length, Seq<u8>, Seq<u8>);

    open spec fn view(&self) -> (Tag, Length, Seq<u8>, Seq<u8>) {
        (self.tag, self.length, self.value@, self.full@)
    }
}

/// The element at `pos` of `s` as an `Any`: tag, length, value bytes and the
/// complete encoding, with the offset after it.
pub open spec fn spec_any_at(s: Seq<u8>, pos: int, config: Config) -> Result<((Tag, Length, Seq<u8>, Seq<u8>), int)> {
    match spec_read_tlv(s, pos, config) {
        Err(e) => Err(e),
        Ok((t, l, a, b, n)) => Ok(((t, l, s.subrange(a, b), s.subrange(pos, n)), n)),
    }
}

impl<'a> Any<'a> {
    /// The tag.
    pub fn tag(&self) -> (t: Tag)
        ensures
            t == self.tag,
    {
        self.tag
    }

    /// The length.
    pub fn length(&self) -> (l: Length)
        ensures
            l == self.length,
    {
        self.length
    }

    /// Decode the contained value as `T`, re-parsing the full TLV under DER;
    /// the value must fill it.
    pub fn decode_as<T: Decode<'a>>(&self) -> (res: Result<T>)
        ensures
            view_result(res, spec_filling(self.full@, T::spec_decode(self.full@, 0, spec_default_config(EncodingRule::Der), 0))),
    {
        let mut r = Reader::new(self.full, Config::der());
        let v = T::decode(&mut r)?;
        if !r.is_empty() {
            return Err(Error::TrailingData);
        }
        Ok(v)
    }

    /// Interpret this value as a `SEQUENCE` for structured decoding (under DER).
    pub fn sequence<F, R>(&self, f: F) -> (res: Result<R>)
        where
            F: FnOnce(&mut Reader<'a>) -> Result<R>,
        requires
            forall|x: &mut Reader<'a>| call_requires(f, (x,)),
        ensures
            match spec_expect_tlv(self.full@, 0, spec_default_config(EncodingRule::Der), spec_universal_constructed(16)) {
                Ok((a, b, _)) => exists|x: &mut Reader<'a>, out: Result<R>| {
                    &&& x.spec_input() == self.full@.subrange(a, b)
                    &&& x.spec_pos() == 0
                    &&& x.spec_config() == spec_default_config(EncodingRule::Der)
                    &&& x.spec_depth() == 1
                    &&& #[trigger] call_ensures(f, (x,), out)
                    &&& match out {
                        Err(e) => res == Err::<R, Error>(e),
                        Ok(v) => if final(x).spec_pos() == final(x).spec_input().len() {
                            res == Ok::<R, Error>(v)
                        } else {
                            res == Err::<R, Error>(Error::TrailingData)
                        },
                    }
                },
                Err(e) => res == Err::<R, Error>(e),
            },
    {
        let mut r = Reader::new(self.full, Config::der());
        read_sequence(&mut r, f)
    }
}

impl<'a> Decode<'a> for Any<'a> {
    open spec fn spec_decode(s: Seq<u8>, pos: int, config: crate::asn1::reader::Config, depth: int) -> crate::asn1::error::Result<(<Self as View>::V, int)> {
        spec_any_at(s, pos, config)
    }

    fn decode(r: &mut Reader<'a>) -> (res: Result<Self>)
        ensures
            match spec_any_at(old(r).spec_input(), old(r).spec_pos(), old(r).spec_config()) {
                Ok((v, n)) => res is Ok && res->Ok_0@ == v && final(r).spec_pos() == n,
                Err(e) => res == Err::<Self, Error>(e),
            },
    {
        proof { lemma_read_tlv_bounds(r.spec_input(), r.spec_pos(), r.spec_config()); }
        let start = r.position();
        let (tag, length, value) = r.read_tlv()?;
        let end = r.position();
        let full = r.slice(start, end);
        Ok(Any { tag, length, value, full })
    }
}

} // verus!
