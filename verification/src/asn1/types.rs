//! Universal ASN.1 type decoders and encoders.
//!
//! Decoders borrow from the input wherever possible (e.g. `OctetString` holds a
//! `&[u8]`), keeping parsing allocation-free. Each type's view is the value
//! it carries, and each decoder states which view a given element yields.

use crate::asn1::decode::{content_read, lemma_expect_tlv_progress, primitive_read, read_primitive, view_result, Decode, Encode};
use crate::asn1::error::{Error, Result};
use crate::asn1::length::{spec_encode_length, spec_pow256, Length};
use crate::asn1::reader::{EncodingRule, Reader};
use crate::asn1::tag::{spec_encode_tag, spec_universal, Tag};
use crate::asn1::writer::{spec_encode_primitive, WriteBackend, Writer};
use vstd::prelude::*;
use vstd::string::StringSliceAdditionalSpecFns;

verus! {

broadcast use crate::asn1::reader::Reader::lemma_nonneg;

// --- BOOLEAN -----------------------------------------------------------------

/// ASN.1 `BOOLEAN`.
#[derive(Clone, Copy, PartialEq, Eq, Debug)]
pub struct Boolean(pub bool);

impl View for Boolean {
    type V = bool;

    open spec fn view(&self) -> bool {
        self.0
    }
}

/// The boolean a BOOLEAN's value bytes carry under `rule`: one byte, zero for
/// false; DER admits only `0xFF` for true, BER and CER any non-zero byte.
pub open spec fn spec_boolean_content(b: Seq<u8>, rule: EncodingRule) -> Result<bool> {
    if b.len() != 1 {
        Err(Error::MalformedBoolean)
    } else if b[0] == 0 {
        Ok(false)
    } else if rule == EncodingRule::Der && b[0] != 0xff {
        Err(Error::MalformedBoolean)
    } else {
        Ok(true)
    }
}

impl Boolean {
    /// The underlying boolean value.
    pub fn value(&self) -> (r: bool)
        ensures
            r == self.0,
    {
        self.0
    }

    /// Decode from already-consumed-tag content bytes.
    pub fn decode_content(r: &mut Reader<'_>) -> (res: Result<Self>)
        ensures
            content_read(*old(r), *final(r), res, |b: Seq<u8>| spec_boolean_content(b, old(r).spec_config().rule)),
    {
        let bytes = r.read_remaining()?;
        Boolean::from_bytes(bytes, r.config().rule)
    }

    fn from_bytes(bytes: &[u8], rule: EncodingRule) -> (res: Result<Self>)
        ensures
            view_result(res, spec_boolean_content(bytes@, rule)),
    {
        if bytes.len() != 1 {
            return Err(Error::MalformedBoolean);
        }
        let b = bytes[0];
        if b == 0x00 {
            Ok(Boolean(false))
        } else if rule == EncodingRule::Der {
            if b == 0xFF {
                Ok(Boolean(true))
            } else {
                Err(Error::MalformedBoolean)
            }
        } else {
            Ok(Boolean(true))
        }
    }
}

impl<'a> Decode<'a> for Boolean {
    open spec fn spec_decode(s: Seq<u8>, pos: int, config: crate::asn1::reader::Config, depth: int) -> crate::asn1::error::Result<(<Self as View>::V, int)> {
        crate::asn1::decode::spec_prim_at(s, pos, config, spec_universal(1), |b: Seq<u8>| spec_boolean_content(b, config.rule))
    }

    fn decode(r: &mut Reader<'a>) -> (res: Result<Self>)
        ensures
            primitive_read(*old(r), *final(r), res, spec_universal(1), |b: Seq<u8>| spec_boolean_content(b, old(r).spec_config().rule)),
    {
        proof { lemma_expect_tlv_progress(r.spec_input(), r.spec_pos(), r.spec_config(), spec_universal(1)); }
        let bytes = read_primitive(r, Tag::universal(Tag::BOOLEAN))?;
        Boolean::from_bytes(bytes, r.config().rule)
    }
}

impl Encode for Boolean {
    open spec fn obeys_encoding_spec() -> bool {
        true
    }

    open spec fn spec_encoding(&self) -> Result<Seq<u8>> {
        Ok(spec_encode_primitive(spec_universal(1), seq![if self.0 { 0xffu8 } else { 0u8 }]))
    }

    fn encode<W: WriteBackend>(&self, w: &mut Writer<W>) -> (res: Result<()>)
        ensures
            res is Ok,
            W::appends_all() ==> final(w).spec_written() == old(w).spec_written() + spec_encode_primitive(
                spec_universal(1),
                seq![if self.0 { 0xffu8 } else { 0u8 }],
            ),
    {
        let content: [u8; 1] = [if self.0 { 0xFF } else { 0x00 }];
        assert(content@ =~= seq![if self.0 { 0xffu8 } else { 0u8 }]);
        w.write_primitive(Tag::universal(Tag::BOOLEAN), content.as_slice())
    }
}

// --- INTEGER -----------------------------------------------------------------

/// The unsigned big-endian value of `s`.
pub open spec fn spec_be_uint(s: Seq<u8>) -> nat
    decreases s.len(),
{
    if s.len() == 0 {
        0
    } else {
        spec_be_uint(s.drop_last()) * 256 + s.last() as nat
    }
}

/// The two's-complement big-endian value of `s`.
pub open spec fn spec_int_value(s: Seq<u8>) -> int {
    if s.len() > 0 && s[0] >= 0x80 {
        spec_be_uint(s) - spec_pow256(s.len() as int)
    } else {
        spec_be_uint(s) as int
    }
}

/// `s` is a DER-minimal INTEGER encoding: no redundant leading sign byte.
pub open spec fn spec_int_minimal(s: Seq<u8>) -> bool {
    !(s.len() >= 2 && ((s[0] == 0 && s[1] < 0x80) || (s[0] == 0xff && s[1] >= 0x80)))
}

/// The value bytes an INTEGER's content yields under `rule`: at least one
/// byte, and (outside BER) minimally encoded.
pub open spec fn spec_integer_content(b: Seq<u8>, rule: EncodingRule) -> Result<Seq<u8>> {
    if b.len() == 0 {
        Err(Error::Custom("INTEGER must have at least one byte"))
    } else if rule != EncodingRule::Ber && !spec_int_minimal(b) {
        Err(Error::IntegerNotMinimal)
    } else {
        Ok(b)
    }
}

/// A big-endian value is below `256^len`.
pub proof fn lemma_be_uint_bound(s: Seq<u8>)
    ensures
        spec_be_uint(s) < spec_pow256(s.len() as int),
    decreases s.len(),
{
    if s.len() > 0 {
        lemma_be_uint_bound(s.drop_last());
        assert(spec_pow256(s.len() as int) == 256 * spec_pow256(s.len() - 1));
    }
}

/// Splitting off the leading byte of a big-endian value.
pub proof fn lemma_be_uint_first(s: Seq<u8>)
    requires
        s.len() >= 1,
    ensures
        spec_be_uint(s) == s[0] * spec_pow256(s.len() - 1) + spec_be_uint(s.drop_first()),
    decreases s.len(),
{
    if s.len() == 1 {
        assert(spec_be_uint(s.drop_last()) == 0);
        assert(spec_be_uint(s.drop_first()) == 0);
        assert(spec_pow256(0) == 1);
        assert(s.last() == s[0]);
    } else {
        lemma_be_uint_first(s.drop_last());
        assert(s.drop_last().drop_first() =~= s.drop_first().drop_last());
        assert(s.drop_last()[0] == s[0]);
        assert(s.drop_first().last() == s.last());
        assert(spec_be_uint(s.drop_first()) == spec_be_uint(s.drop_first().drop_last()) * 256 + s.last() as nat);
        assert(spec_pow256(s.len() - 1) == 256 * spec_pow256(s.len() - 2));
        let p = spec_pow256(s.len() - 2);
        let a = s[0] as int;
        let r = spec_be_uint(s.drop_first().drop_last()) as int;
        assert(spec_be_uint(s.drop_last()) == a * p + r);
        assert(spec_be_uint(s) == spec_be_uint(s.drop_last()) * 256 + s.last() as nat);
        assert((a * p + r) * 256 + s.last() == a * (256 * p) + (r * 256 + s.last())) by (nonlinear_arith);
    }
}

/// A big-endian value whose leading byte has its top bit set is at least
/// half of `256^len`, and below it otherwise.
pub proof fn lemma_be_uint_sign(s: Seq<u8>)
    requires
        s.len() >= 1,
    ensures
        (s[0] >= 0x80) == (spec_be_uint(s) >= 128 * spec_pow256(s.len() - 1)),
{
    lemma_be_uint_first(s);
    lemma_be_uint_bound(s.drop_first());
    let p = spec_pow256(s.len() - 1);
    let r = spec_be_uint(s.drop_first()) as int;
    let a = s[0] as int;
    if a >= 0x80 {
        assert(a * p >= 128 * p) by (nonlinear_arith)
            requires a >= 128, p >= 0;
    } else {
        assert(a * p + r < 128 * p) by (nonlinear_arith)
            requires a <= 127, r < p, r >= 0;
    }
}

/// Accumulate the big-endian value of the bytes of `s` after the first,
/// starting from `v0` (the value of the first byte).
fn be_accumulate(s: &[u8], v0: u64) -> (v: u64)
    requires
        1 <= s@.len() <= 8,
        v0 == s@[0],
    ensures
        v == spec_be_uint(s@),
{
    let mut v = v0;
    let mut i: usize = 1;
    assert(s@.subrange(0, 1).drop_last() =~= Seq::<u8>::empty());
    assert(s@.subrange(0, 1).last() == s@[0]);
    assert(spec_be_uint(Seq::<u8>::empty()) == 0);
    while i < s.len()
        invariant
            1 <= i <= s@.len() <= 8,
            v == spec_be_uint(s@.subrange(0, i as int)),
        decreases s@.len() - i,
    {
        proof {
            lemma_be_uint_bound(s@.subrange(0, i as int));
            assert(spec_pow256(i as int) <= spec_pow256(7)) by {
                lemma_pow256_mono(i as int, 7);
            }
            assert(spec_pow256(7) == 0x100_0000_0000_0000) by {
                reveal_with_fuel(spec_pow256, 8);
            }
            assert(s@.subrange(0, i + 1).drop_last() =~= s@.subrange(0, i as int));
        }
        v = v * 256 + s[i] as u64;
        i += 1;
    }
    assert(s@.subrange(0, s@.len() as int) =~= s@);
    v
}

/// Powers of 256 grow with the exponent.
pub proof fn lemma_pow256_mono(i: int, j: int)
    requires
        0 <= i <= j,
    ensures
        spec_pow256(i) <= spec_pow256(j),
        spec_pow256(i) >= 1,
    decreases j,
{
    if j > i {
        lemma_pow256_mono(i, j - 1);
    } else if i > 0 {
        lemma_pow256_mono(i - 1, i - 1);
    }
}

/// `256^len` as a machine integer, for `len <= 8`.
fn pow256_u128(len: usize) -> (p: u128)
    requires
        len <= 8,
    ensures
        p == spec_pow256(len as int),
{
    let mut p: u128 = 1;
    let mut i: usize = 0;
    while i < len
        invariant
            i <= len <= 8,
            p == spec_pow256(i as int),
        decreases len - i,
    {
        proof {
            lemma_pow256_mono(i as int, 7);
            assert(spec_pow256(7) == 0x100_0000_0000_0000) by {
                reveal_with_fuel(spec_pow256, 8);
            }
        }
        p = p * 256;
        i += 1;
    }
    p
}

/// ASN.1 `INTEGER`, stored as its raw big-endian byte encoding.
#[derive(Clone, Copy, PartialEq, Eq, Debug)]
pub struct Integer<'a>(pub &'a [u8]);

impl<'a> View for Integer<'a> {
    type V = Seq<u8>;

    open spec fn view(&self) -> Seq<u8> {
        self.0@
    }
}

/// The value `as_i64` reports for the bytes `s`: the two's-complement value
/// of one to eight minimally encoded bytes.
pub open spec fn spec_as_i64(s: Seq<u8>) -> Option<i64> {
    if 1 <= s.len() <= 8 && spec_int_minimal(s) {
        Some(spec_int_value(s) as i64)
    } else {
        None
    }
}

/// The value `as_u64` reports for the bytes `s`: the encoded value, when it
/// is non-negative and fits a `u64`.
pub open spec fn spec_as_u64(s: Seq<u8>) -> Option<u64> {
    if s.len() >= 1 && s[0] < 0x80 && spec_be_uint(s) <= u64::MAX {
        Some(spec_be_uint(s) as u64)
    } else {
        None
    }
}

/// Leading zero bytes do not change a big-endian value.
proof fn lemma_be_uint_skip_zeros(s: Seq<u8>, k: int)
    requires
        0 <= k <= s.len(),
        forall|j: int| 0 <= j < k ==> s[j] == 0,
    ensures
        spec_be_uint(s) == spec_be_uint(s.subrange(k, s.len() as int)),
    decreases k,
{
    if k > 0 {
        lemma_be_uint_first(s);
        assert(s.drop_first().subrange(k - 1, s.drop_first().len() as int) =~= s.subrange(k, s.len() as int));
        lemma_be_uint_skip_zeros(s.drop_first(), k - 1);
    } else {
        assert(s.subrange(0, s.len() as int) =~= s);
    }
}

/// A big-endian value with a non-zero leading byte and more than eight bytes
/// does not fit a `u64`.
proof fn lemma_be_uint_wide(t: Seq<u8>)
    requires
        t.len() > 8,
        t[0] != 0,
    ensures
        spec_be_uint(t) > u64::MAX,
{
    lemma_be_uint_first(t);
    lemma_pow256_mono(8, t.len() - 1);
    assert(spec_pow256(8) == 0x1_0000_0000_0000_0000) by {
        reveal_with_fuel(spec_pow256, 9);
    }
    let p = spec_pow256(t.len() - 1);
    assert(t[0] * p >= p) by (nonlinear_arith)
        requires t[0] >= 1, p >= 0;
}

/// Two's-complement decoding of one to eight bytes: the value fits an `i64`.
pub proof fn lemma_int_value_range(s: Seq<u8>)
    requires
        1 <= s.len() <= 8,
    ensures
        i64::MIN <= spec_int_value(s) <= i64::MAX,
{
    lemma_be_uint_bound(s);
    lemma_be_uint_sign(s);
    lemma_pow256_mono(s.len() as int, 8);
    lemma_pow256_mono(s.len() - 1, 7);
    assert(spec_pow256(8) == 0x1_0000_0000_0000_0000) by {
        reveal_with_fuel(spec_pow256, 9);
    }
    assert(spec_pow256(7) == 0x100_0000_0000_0000) by {
        reveal_with_fuel(spec_pow256, 8);
    }
    assert(spec_pow256(s.len() as int) == 256 * spec_pow256(s.len() - 1));
}

impl<'a> Integer<'a> {
    /// The raw encoding bytes.
    pub fn as_bytes(&self) -> (b: &'a [u8])
        ensures
            b@ == self.0@,
    {
        self.0
    }

    /// Interpret as `i64`, if it fits and is minimally encoded (DER).
    pub fn as_i64(&self) -> (r: Option<i64>)
        ensures
            r == spec_as_i64(self.0@),
            r matches Some(v) ==> v == spec_int_value(self.0@),
    {
        let s = self.0;
        if s.len() > 8 || s.len() == 0 {
            return None;
        }
        if s.len() >= 2 && ((s[0] == 0x00 && s[1] < 0x80) || (s[0] == 0xFF && s[1] >= 0x80)) {
            return None;
        }
        let v = be_accumulate(s, s[0] as u64);
        let p = pow256_u128(s.len());
        proof {
            lemma_int_value_range(s@);
            lemma_be_uint_bound(s@);
            lemma_pow256_mono(s@.len() as int, 8);
            assert(spec_pow256(8) == 0x1_0000_0000_0000_0000) by {
                reveal_with_fuel(spec_pow256, 9);
            }
        }
        let r: i128 = if s[0] >= 0x80 {
            v as i128 - p as i128
        } else {
            v as i128
        };
        Some(r as i64)
    }

    /// Interpret as `u64`, if it is non-negative and fits.
    pub fn as_u64(&self) -> (r: Option<u64>)
        ensures
            r == spec_as_u64(self.0@),
    {
        let s = self.0;
        if s.len() == 0 || s[0] >= 0x80 {
            return None;
        }
        // Leading zero octets (a sign octet, or BER padding) add nothing.
        let mut k: usize = 0;
        while k < s.len() && s[k] == 0
            invariant
                k <= s@.len(),
                forall|j: int| 0 <= j < k ==> s@[j] == 0,
            decreases s@.len() - k,
        {
            k += 1;
        }
        let t = &s[k..s.len()];
        proof {
            lemma_be_uint_skip_zeros(s@, k as int);
        }
        if t.len() == 0 {
            assert(spec_be_uint(t@) == 0);
            return Some(0);
        }
        if t.len() > 8 {
            proof {
                lemma_be_uint_wide(t@);
            }
            return None;
        }
        proof {
            lemma_be_uint_bound(t@);
            lemma_pow256_mono(t@.len() as int, 8);
            assert(spec_pow256(8) == 0x1_0000_0000_0000_0000) by {
                reveal_with_fuel(spec_pow256, 9);
            }
        }
        Some(be_accumulate(t, t[0] as u64))
    }

    /// Decode from already-consumed-tag content bytes.
    pub fn decode_content(r: &mut Reader<'a>) -> (res: Result<Self>)
        ensures
            content_read(*old(r), *final(r), res, |b: Seq<u8>| spec_integer_content(b, old(r).spec_config().rule)),
    {
        let bytes = r.read_remaining()?;
        Integer::from_bytes(bytes, r.config().rule)
    }

    fn from_bytes(bytes: &'a [u8], rule: EncodingRule) -> (res: Result<Self>)
        ensures
            view_result(res, spec_integer_content(bytes@, rule)),
    {
        if bytes.len() == 0 {
            return Err(Error::Custom("INTEGER must have at least one byte"));
        }
        if rule != EncodingRule::Ber {
            if bytes.len() >= 2 {
                let b0 = bytes[0];
                let b1 = bytes[1];
                assert((b1 & 0x80 == 0) == (b1 < 0x80)) by (bit_vector);
                if (b0 == 0x00 && (b1 & 0x80) == 0) || (b0 == 0xFF && (b1 & 0x80) != 0) {
                    return Err(Error::IntegerNotMinimal);
                }
            }
        }
        Ok(Integer(bytes))
    }
}

impl<'a> Decode<'a> for Integer<'a> {
    open spec fn spec_decode(s: Seq<u8>, pos: int, config: crate::asn1::reader::Config, depth: int) -> crate::asn1::error::Result<(<Self as View>::V, int)> {
        crate::asn1::decode::spec_prim_at(s, pos, config, spec_universal(2), |b: Seq<u8>| spec_integer_content(b, config.rule))
    }

    fn decode(r: &mut Reader<'a>) -> (res: Result<Self>)
        ensures
            primitive_read(*old(r), *final(r), res, spec_universal(2), |b: Seq<u8>| spec_integer_content(b, old(r).spec_config().rule)),
    {
        proof { lemma_expect_tlv_progress(r.spec_input(), r.spec_pos(), r.spec_config(), spec_universal(2)); }
        let bytes = read_primitive(r, Tag::universal(Tag::INTEGER))?;
        Integer::from_bytes(bytes, r.config().rule)
    }
}

/// The bytes of a primitive element tagged `tag` whose content is `content`,
/// or the error when the content has no length encoding here.
pub open spec fn spec_primitive_encoding(tag: Tag, content: Seq<u8>) -> Result<Seq<u8>> {
    if content.len() < 0x100_0000_0000 {
        Ok(spec_encode_primitive(tag, content))
    } else {
        Err(Error::ElementTooLarge)
    }
}

/// The result of writing a primitive element tagged `tag` whose content is
/// `content`: refused only when the content has no length encoding here.
pub open spec fn primitive_written<W: WriteBackend>(old: Writer<W>, new: Writer<W>, res: Result<()>, tag: Tag, content: Seq<u8>) -> bool {
    &&& (res is Ok <==> content.len() < 0x100_0000_0000)
    &&& (res is Err ==> res == Err::<(), Error>(Error::ElementTooLarge))
    &&& (W::appends_all() && res is Ok ==> new.spec_written() == old.spec_written() + spec_encode_primitive(tag, content))
}

impl Encode for Integer<'_> {
    open spec fn obeys_encoding_spec() -> bool {
        true
    }

    open spec fn spec_encoding(&self) -> Result<Seq<u8>> {
        spec_primitive_encoding(spec_universal(2), self.0@)
    }

    fn encode<W: WriteBackend>(&self, w: &mut Writer<W>) -> (res: Result<()>)
        ensures
            primitive_written(*old(w), *final(w), res, spec_universal(2), self.0@),
    {
        w.write_primitive(Tag::universal(Tag::INTEGER), self.0)
    }
}

// --- ENUMERATED --------------------------------------------------------------

/// ASN.1 `ENUMERATED`, stored as its raw big-endian byte encoding.
#[derive(Clone, Copy, PartialEq, Eq, Debug)]
pub struct Enumerated<'a>(pub &'a [u8]);

impl<'a> View for Enumerated<'a> {
    type V = Seq<u8>;

    open spec fn view(&self) -> Seq<u8> {
        self.0@
    }
}

impl<'a> Enumerated<'a> {
    /// The raw encoding bytes.
    pub fn as_bytes(&self) -> (b: &'a [u8])
        ensures
            b@ == self.0@,
    {
        self.0
    }

    /// Interpret as `i64`, as [`Integer::as_i64`] does.
    pub fn as_i64(&self) -> (r: Option<i64>)
        ensures
            r == spec_as_i64(self.0@),
    {
        Integer(self.0).as_i64()
    }

    /// Decode from already-consumed-tag content bytes.
    pub fn decode_content(r: &mut Reader<'a>) -> (res: Result<Self>)
        ensures
            content_read(*old(r), *final(r), res, |b: Seq<u8>| Ok::<Seq<u8>, Error>(b)),
    {
        Ok(Enumerated(r.read_remaining()?))
    }
}

impl<'a> Decode<'a> for Enumerated<'a> {
    open spec fn spec_decode(s: Seq<u8>, pos: int, config: crate::asn1::reader::Config, depth: int) -> crate::asn1::error::Result<(<Self as View>::V, int)> {
        crate::asn1::decode::spec_prim_at(s, pos, config, spec_universal(10), |b: Seq<u8>| Ok::<Seq<u8>, Error>(b))
    }

    fn decode(r: &mut Reader<'a>) -> (res: Result<Self>)
        ensures
            primitive_read(*old(r), *final(r), res, spec_universal(10), |b: Seq<u8>| Ok::<Seq<u8>, Error>(b)),
    {
        proof { lemma_expect_tlv_progress(r.spec_input(), r.spec_pos(), r.spec_config(), spec_universal(10)); }
        let bytes = read_primitive(r, Tag::universal(Tag::ENUMERATED))?;
        Ok(Enumerated(bytes))
    }
}

impl Encode for Enumerated<'_> {
    open spec fn obeys_encoding_spec() -> bool {
        true
    }

    open spec fn spec_encoding(&self) -> Result<Seq<u8>> {
        spec_primitive_encoding(spec_universal(10), self.0@)
    }

    fn encode<W: WriteBackend>(&self, w: &mut Writer<W>) -> (res: Result<()>)
        ensures
            primitive_written(*old(w), *final(w), res, spec_universal(10), self.0@),
    {
        w.write_primitive(Tag::universal(Tag::ENUMERATED), self.0)
    }
}

// --- BIT STRING --------------------------------------------------------------

/// `2^n` for a bit count.
pub open spec fn spec_pow2(n: nat) -> nat
    decreases n,
{
    if n == 0 {
        1
    } else {
        2 * spec_pow2((n - 1) as nat)
    }
}

/// The unused-bits count and data octets a BIT STRING's content yields: a
/// leading count of at most seven, whose bits in the last octet are zero.
pub open spec fn spec_bitstring_content(b: Seq<u8>) -> Result<(u8, Seq<u8>)> {
    if b.len() == 0 {
        Err(Error::BadBitString)
    } else if b[0] > 7 {
        Err(Error::BadBitString)
    } else {
        let data = b.subrange(1, b.len() as int);
        if data.len() == 0 && b[0] != 0 {
            Err(Error::BadBitString)
        } else if data.len() > 0 && b[0] != 0 && data.last() as nat % spec_pow2(b[0] as nat) != 0 {
            Err(Error::BadBitString)
        } else {
            Ok((b[0], data))
        }
    }
}

/// ASN.1 `BIT STRING`: unused-bits count plus the (borrowed) data octets.
#[derive(Clone, Copy, PartialEq, Eq, Debug)]
pub struct BitString<'a> {
    /// Number of unused bits in the final octet (0..=7).
    pub unused_bits: u8,
    /// The data octets.
    pub data: &'a [u8],
}

impl<'a> View for BitString<'a> {
    type V = (u8, Seq<u8>);

    open spec fn view(&self) -> (u8, Seq<u8>) {
        (self.unused_bits, self.data@)
    }
}

impl<'a> BitString<'a> {
    /// The usable bits across all octets.
    pub fn bit_len(&self) -> (n: usize)
        requires
            self.unused_bits <= self.data@.len() * 8 <= usize::MAX,
        ensures
            n == self.data@.len() * 8 - self.unused_bits,
    {
        self.data.len() * 8 - self.unused_bits as usize
    }

    /// Decode from already-consumed-tag content bytes.
    pub fn decode_content(r: &mut Reader<'a>) -> (res: Result<Self>)
        ensures
            content_read(*old(r), *final(r), res, |b: Seq<u8>| spec_bitstring_content(b)),
    {
        let bytes = r.read_remaining()?;
        BitString::from_bytes(bytes)
    }

    fn from_bytes(bytes: &'a [u8]) -> (res: Result<Self>)
        ensures
            view_result(res, spec_bitstring_content(bytes@)),
    {
        if bytes.len() == 0 {
            return Err(Error::BadBitString);
        }
        let unused_bits = bytes[0];
        if unused_bits > 7 {
            return Err(Error::BadBitString);
        }
        let data = &bytes[1..bytes.len()];
        if data.len() == 0 && unused_bits != 0 {
            // No data octet can hold the unused bits.
            return Err(Error::BadBitString);
        }
        if data.len() != 0 && unused_bits != 0 {
            let last = data[data.len() - 1];
            let mut p: u16 = 1;
            let mut k: u8 = 0;
            while k < unused_bits
                invariant
                    k <= unused_bits <= 7,
                    p == spec_pow2(k as nat),
                    1 <= p <= 128,
                decreases unused_bits - k,
            {
                proof {
                    assert(spec_pow2((k + 1) as nat) == 2 * spec_pow2(k as nat));
                    lemma_pow2_small();
                    assert(spec_pow2(k as nat) <= 64);
                    assert(1 <= spec_pow2((k + 1) as nat) <= 128);
                }
                p = p * 2;
                k += 1;
            }
            if (last as u16) % p != 0 {
                return Err(Error::BadBitString);
            }
        }
        Ok(BitString { unused_bits, data })
    }
}

/// The powers of two up to `2^7`.
proof fn lemma_pow2_small()
    ensures
        forall|k: nat| k <= 7 ==> 1 <= #[trigger] spec_pow2(k) <= 128 && (k < 7 ==> spec_pow2(k) <= 64),
{
    reveal_with_fuel(spec_pow2, 8);
    assert(spec_pow2(0) == 1);
    assert(spec_pow2(1) == 2);
    assert(spec_pow2(2) == 4);
    assert(spec_pow2(3) == 8);
    assert(spec_pow2(4) == 16);
    assert(spec_pow2(5) == 32);
    assert(spec_pow2(6) == 64);
    assert(spec_pow2(7) == 128);
}

impl<'a> Decode<'a> for BitString<'a> {
    open spec fn spec_decode(s: Seq<u8>, pos: int, config: crate::asn1::reader::Config, depth: int) -> crate::asn1::error::Result<(<Self as View>::V, int)> {
        crate::asn1::decode::spec_prim_at(s, pos, config, spec_universal(3), |b: Seq<u8>| spec_bitstring_content(b))
    }

    fn decode(r: &mut Reader<'a>) -> (res: Result<Self>)
        ensures
            primitive_read(*old(r), *final(r), res, spec_universal(3), |b: Seq<u8>| spec_bitstring_content(b)),
    {
        proof { lemma_expect_tlv_progress(r.spec_input(), r.spec_pos(), r.spec_config(), spec_universal(3)); }
        let bytes = read_primitive(r, Tag::universal(Tag::BIT_STRING))?;
        BitString::from_bytes(bytes)
    }
}

impl Encode for BitString<'_> {
    open spec fn obeys_encoding_spec() -> bool {
        true
    }

    open spec fn spec_encoding(&self) -> Result<Seq<u8>> {
        if self.data@.len() + 1 < 0x100_0000_0000 && self.data@.len() < usize::MAX {
            Ok(spec_encode_primitive(spec_universal(3), seq![self.unused_bits] + self.data@))
        } else {
            Err(Error::ElementTooLarge)
        }
    }

    fn encode<W: WriteBackend>(&self, w: &mut Writer<W>) -> (res: Result<()>)
        ensures
            res is Ok <==> self.data@.len() + 1 < 0x100_0000_0000 && self.data@.len() < usize::MAX,
            res is Err ==> res == Err::<(), Error>(Error::ElementTooLarge),
            W::appends_all() && res is Ok ==> final(w).spec_written() == old(w).spec_written() + spec_encode_primitive(
                spec_universal(3),
                seq![self.unused_bits] + self.data@,
            ),
    {
        if self.data.len() as u64 >= 0xff_ffff_ffffu64 || self.data.len() == usize::MAX {
            return Err(Error::ElementTooLarge);
        }
        let ghost w0 = w.spec_written();
        w.write_tag(Tag::universal(Tag::BIT_STRING))?;
        let ghost w1 = w.spec_written();
        w.write_length(Length::Definite(1 + self.data.len()))?;
        let ghost w2 = w.spec_written();
        w.write_u8(self.unused_bits)?;
        let ghost w3 = w.spec_written();
        w.write_bytes(self.data)?;
        proof {
            let content = seq![self.unused_bits] + self.data@;
            assert(content.len() == 1 + self.data@.len());
            if W::appends_all() {
                assert(w.spec_written() =~= w0 + spec_encode_tag(spec_universal(3)) + spec_encode_length(Length::Definite((1 + self.data@.len()) as usize))
                    + content);
            }
        }
        Ok(())
    }
}

// --- OCTET STRING ------------------------------------------------------------

/// ASN.1 `OCTET STRING`, borrowing its bytes from the input.
#[derive(Clone, Copy, PartialEq, Eq, Debug)]
pub struct OctetString<'a>(pub &'a [u8]);

impl<'a> View for OctetString<'a> {
    type V = Seq<u8>;

    open spec fn view(&self) -> Seq<u8> {
        self.0@
    }
}

impl<'a> OctetString<'a> {
    /// The contained bytes.
    pub fn as_bytes(&self) -> (b: &'a [u8])
        ensures
            b@ == self.0@,
    {
        self.0
    }

    /// Decode from already-consumed-tag content bytes.
    pub fn decode_content(r: &mut Reader<'a>) -> (res: Result<Self>)
        ensures
            content_read(*old(r), *final(r), res, |b: Seq<u8>| Ok::<Seq<u8>, Error>(b)),
    {
        Ok(OctetString(r.read_remaining()?))
    }
}

impl<'a> Decode<'a> for OctetString<'a> {
    open spec fn spec_decode(s: Seq<u8>, pos: int, config: crate::asn1::reader::Config, depth: int) -> crate::asn1::error::Result<(<Self as View>::V, int)> {
        crate::asn1::decode::spec_prim_at(s, pos, config, spec_universal(4), |b: Seq<u8>| Ok::<Seq<u8>, Error>(b))
    }

    fn decode(r: &mut Reader<'a>) -> (res: Result<Self>)
        ensures
            primitive_read(*old(r), *final(r), res, spec_universal(4), |b: Seq<u8>| Ok::<Seq<u8>, Error>(b)),
    {
        proof { lemma_expect_tlv_progress(r.spec_input(), r.spec_pos(), r.spec_config(), spec_universal(4)); }
        let bytes = read_primitive(r, Tag::universal(Tag::OCTET_STRING))?;
        Ok(OctetString(bytes))
    }
}

impl Encode for OctetString<'_> {
    open spec fn obeys_encoding_spec() -> bool {
        true
    }

    open spec fn spec_encoding(&self) -> Result<Seq<u8>> {
        spec_primitive_encoding(spec_universal(4), self.0@)
    }

    fn encode<W: WriteBackend>(&self, w: &mut Writer<W>) -> (res: Result<()>)
        ensures
            primitive_written(*old(w), *final(w), res, spec_universal(4), self.0@),
    {
        w.write_primitive(Tag::universal(Tag::OCTET_STRING), self.0)
    }
}

// --- NULL --------------------------------------------------------------------

/// ASN.1 `NULL`.
#[derive(Clone, Copy, PartialEq, Eq, Debug)]
pub struct Null;

impl View for Null {
    type V = ();

    open spec fn view(&self) -> () {
        ()
    }
}

impl Default for Null {
    fn default() -> (r: Self)
        ensures
            r == Null,
    {
        Null
    }
}

/// A NULL's content must be empty.
pub open spec fn spec_null_content(b: Seq<u8>) -> Result<()> {
    if b.len() == 0 {
        Ok(())
    } else {
        Err(Error::Custom("NULL must have zero length"))
    }
}

impl Null {
    /// Decode from already-consumed-tag content bytes.
    pub fn decode_content(r: &mut Reader<'_>) -> (res: Result<Self>)
        ensures
            content_read(*old(r), *final(r), res, |b: Seq<u8>| spec_null_content(b)),
    {
        if r.read_remaining()?.len() != 0 {
            return Err(Error::Custom("NULL must have zero length"));
        }
        Ok(Null)
    }
}

impl<'a> Decode<'a> for Null {
    open spec fn spec_decode(s: Seq<u8>, pos: int, config: crate::asn1::reader::Config, depth: int) -> crate::asn1::error::Result<(<Self as View>::V, int)> {
        crate::asn1::decode::spec_prim_at(s, pos, config, spec_universal(5), |b: Seq<u8>| spec_null_content(b))
    }

    fn decode(r: &mut Reader<'a>) -> (res: Result<Self>)
        ensures
            primitive_read(*old(r), *final(r), res, spec_universal(5), |b: Seq<u8>| spec_null_content(b)),
    {
        proof { lemma_expect_tlv_progress(r.spec_input(), r.spec_pos(), r.spec_config(), spec_universal(5)); }
        let bytes = read_primitive(r, Tag::universal(Tag::NULL))?;
        if bytes.len() != 0 {
            return Err(Error::Custom("NULL must have zero length"));
        }
        Ok(Null)
    }
}

impl Encode for Null {
    open spec fn obeys_encoding_spec() -> bool {
        true
    }

    open spec fn spec_encoding(&self) -> Result<Seq<u8>> {
        Ok(spec_encode_primitive(spec_universal(5), Seq::<u8>::empty()))
    }

    fn encode<W: WriteBackend>(&self, w: &mut Writer<W>) -> (res: Result<()>)
        ensures
            res is Ok,
            W::appends_all() ==> final(w).spec_written() == old(w).spec_written() + spec_encode_primitive(spec_universal(5), Seq::<u8>::empty()),
    {
        let empty: [u8; 0] = [];
        assert(empty@ =~= Seq::<u8>::empty());
        w.write_primitive(Tag::universal(Tag::NULL), empty.as_slice())
    }
}

// --- OBJECT IDENTIFIER -------------------------------------------------------

/// One base-128 step: the accumulated subidentifier `acc` extended by the
/// low seven bits of `b` (kept to 64 bits).
pub open spec fn spec_subid_step(acc: u64, b: u8) -> u64 {
    (acc * 128 + b % 128) as u64
}

fn subid_step(acc: u64, b: u8) -> (r: u64)
    ensures
        r == spec_subid_step(acc, b),
{
    assert(((acc << 7u64) | ((b & 0x7f) as u64)) == ((acc * 128 + b % 128) as u64)) by (bit_vector);
    (acc << 7) | (b & 0x7f) as u64
}

/// The complete subidentifiers of `s` from `pos`, the current one having
/// accumulated `acc` so far; an unterminated final subidentifier is dropped.
pub open spec fn spec_subids(s: Seq<u8>, pos: int, acc: u64) -> Seq<u64>
    decreases s.len() - pos,
{
    if pos < 0 || pos >= s.len() {
        Seq::empty()
    } else {
        let v = spec_subid_step(acc, s[pos]);
        if s[pos] < 0x80 {
            seq![v] + spec_subids(s, pos + 1, 0)
        } else {
            spec_subids(s, pos + 1, v)
        }
    }
}

/// The first complete subidentifier of `s` from `pos` (with `acc` carried
/// in) and the offset after it.
pub open spec fn spec_first_subid(s: Seq<u8>, pos: int, acc: u64) -> Option<(u64, int)>
    decreases s.len() - pos,
{
    if pos < 0 || pos >= s.len() {
        None
    } else {
        let v = spec_subid_step(acc, s[pos]);
        if s[pos] < 0x80 {
            Some((v, pos + 1))
        } else {
            spec_first_subid(s, pos + 1, v)
        }
    }
}

/// The subidentifiers are the first one followed by those after it.
pub proof fn lemma_subids_first(s: Seq<u8>, pos: int, acc: u64)
    requires
        0 <= pos,
    ensures
        spec_subids(s, pos, acc) == (match spec_first_subid(s, pos, acc) {
            Some((v, p)) => seq![v] + spec_subids(s, p, 0),
            None => Seq::<u64>::empty(),
        }),
        spec_first_subid(s, pos, acc) matches Some((v, p)) ==> pos < p <= s.len(),
    decreases s.len() - pos,
{
    if pos < s.len() && s[pos] >= 0x80 {
        lemma_subids_first(s, pos + 1, spec_subid_step(acc, s[pos]));
    }
}

/// The arcs of an OID's encoding: the first subidentifier split into the
/// first two arcs per X.660, then the remaining subidentifiers.
pub open spec fn spec_oid_arcs(s: Seq<u8>) -> Option<Seq<u64>> {
    match spec_first_subid(s, 0, 0) {
        None => None,
        Some((c, p)) => {
            let a0: u64 = if c < 40 { 0 } else if c < 80 { 1 } else { 2 };
            Some(seq![a0, (c - a0 * 40) as u64] + spec_subids(s, p, 0))
        },
    }
}

/// The content an OBJECT IDENTIFIER element accepts: non-empty, not starting
/// with an empty (`0x80`) subidentifier byte.
pub open spec fn spec_oid_content(b: Seq<u8>) -> Result<Seq<u8>> {
    if b.len() == 0 || b[0] == 0x80 {
        Err(Error::BadObjectIdentifier)
    } else {
        Ok(b)
    }
}

/// ASN.1 `OBJECT IDENTIFIER`, stored as its raw subidentifier byte encoding.
#[derive(Clone, Copy, PartialEq, Eq, Debug)]
pub struct ObjectIdentifier<'a>(pub &'a [u8]);

impl<'a> View for ObjectIdentifier<'a> {
    type V = Seq<u8>;

    open spec fn view(&self) -> Seq<u8> {
        self.0@
    }
}

impl<'a> ObjectIdentifier<'a> {
    /// Iterate the on-wire base-128 subidentifiers.
    pub fn arcs(&self) -> (it: OidIter<'a>)
        ensures
            it.spec_bytes() == self.0@,
            it.spec_pos() == 0,
    {
        OidIter { bytes: self.0, pos: 0 }
    }

    /// The raw object-identifier subidentifier bytes (the value content).
    pub fn as_bytes(&self) -> (b: &'a [u8])
        ensures
            b@ == self.0@,
    {
        self.0
    }

    /// Returns `true` if this OID's components equal `expected`, splitting the
    /// combined first subidentifier into arcs 0 and 1 per X.660.
    pub fn matches(&self, expected: &[u64]) -> (r: bool)
        ensures
            r == (spec_oid_arcs(self.0@) == Some(expected@)),
    {
        let bytes = self.0;
        let ghost s = bytes@;
        let mut pos: usize = 0;
        let mut combined: u64 = 0;
        let mut got = false;
        while pos < bytes.len()
            invariant_except_break
                !got,
                pos <= s.len(),
                s == bytes@,
                spec_first_subid(s, pos as int, combined) == spec_first_subid(s, 0, 0),
            ensures
                pos <= s.len(),
                got ==> spec_first_subid(s, 0, 0) == Some((combined, pos as int)),
                !got ==> spec_first_subid(s, 0, 0) is None,
            decreases s.len() - pos,
        {
            let b = bytes[pos];
            pos += 1;
            combined = subid_step(combined, b);
            assert((b & 0x80 == 0) == (b < 0x80)) by (bit_vector);
            if b & 0x80 == 0 {
                got = true;
                break;
            }
        }
        if !got {
            return false;
        }
        let a0: u64 = if combined < 40 {
            0
        } else if combined < 80 {
            1
        } else {
            2
        };
        let a1 = combined - a0 * 40;
        proof { lemma_subids_first(s, 0, 0); }
        let ghost arcs = seq![a0, a1] + spec_subids(s, pos as int, 0);
        assert(spec_oid_arcs(s) == Some(arcs));
        if expected.len() < 2 || expected[0] != a0 || expected[1] != a1 {
            assert(expected@.len() < 2 || expected@[0] != arcs[0] || expected@[1] != arcs[1]);
            return false;
        }
        let mut idx: usize = 2;
        let mut value: u64 = 0;
        assert(expected@.subrange(0, 2) =~= seq![a0, a1]);
        while pos < bytes.len()
            invariant
                pos <= s.len(),
                s == bytes@,
                2 <= idx <= expected@.len(),
                s == self.0@,
                spec_oid_arcs(s) == Some(arcs),
                expected@.subrange(0, idx as int) + spec_subids(s, pos as int, value) == arcs,
            decreases s.len() - pos,
        {
            let b = bytes[pos];
            let ghost rest = spec_subids(s, pos + 1, 0);
            pos += 1;
            value = subid_step(value, b);
            assert((b & 0x80 == 0) == (b < 0x80)) by (bit_vector);
            if b & 0x80 == 0 {
                let ghost pre = expected@.subrange(0, idx as int);
                assert(arcs =~= pre + seq![value] + rest);
                if idx >= expected.len() || expected[idx] != value {
                    proof {
                        if idx >= expected@.len() {
                            assert(arcs.len() > expected@.len());
                        } else {
                            assert(arcs[idx as int] == value);
                            assert(expected@[idx as int] != value);
                        }
                        assert(arcs != expected@);
                    }
                    return false;
                }
                assert(expected@.subrange(0, idx + 1) =~= pre + seq![value]);
                idx += 1;
                value = 0;
            }
        }
        assert(spec_subids(s, pos as int, value) =~= Seq::<u64>::empty());
        assert(expected@.subrange(0, idx as int) =~= arcs);
        proof {
            if idx < expected@.len() {
                assert(arcs.len() < expected@.len());
            } else {
                assert(expected@.subrange(0, idx as int) =~= expected@);
            }
        }
        idx == expected.len()
    }

    /// Decode from already-consumed-tag content bytes.
    pub fn decode_content(r: &mut Reader<'a>) -> (res: Result<Self>)
        ensures
            content_read(*old(r), *final(r), res, |b: Seq<u8>| spec_oid_content(b)),
    {
        let bytes = r.read_remaining()?;
        if bytes.len() == 0 {
            return Err(Error::BadObjectIdentifier);
        }
        if bytes[0] == 0x80 {
            return Err(Error::BadObjectIdentifier);
        }
        Ok(ObjectIdentifier(bytes))
    }
}

/// Iterator over an OID's base-128 subidentifiers.
pub struct OidIter<'a> {
    bytes: &'a [u8],
    pos: usize,
}

impl<'a> OidIter<'a> {
    /// The bytes being walked.
    pub closed spec fn spec_bytes(&self) -> Seq<u8> {
        self.bytes@
    }

    /// The offset of the next unread byte.
    pub closed spec fn spec_pos(&self) -> int {
        self.pos as int
    }

    #[verifier::type_invariant]
    closed spec fn inv(self) -> bool {
        self.pos <= self.bytes@.len()
    }

    /// A copy of this iterator at the same position.
    pub fn clone(&self) -> (r: Self)
        ensures
            r.spec_bytes() == self.spec_bytes(),
            r.spec_pos() == self.spec_pos(),
    {
        proof { use_type_invariant(self); }
        OidIter { bytes: self.bytes, pos: self.pos }
    }

    /// The next complete subidentifier; `None` once the bytes run out,
    /// including in the middle of an unterminated subidentifier.
    pub fn next(&mut self) -> (r: Option<u64>)
        ensures
            final(self).spec_bytes() == old(self).spec_bytes(),
            match spec_first_subid(old(self).spec_bytes(), old(self).spec_pos(), 0) {
                Some((v, p)) => r == Some(v) && final(self).spec_pos() == p,
                None => r is None && final(self).spec_pos() == old(self).spec_bytes().len(),
            },
    {
        proof { use_type_invariant(&*self); }
        let ghost s = self.bytes@;
        if self.pos >= self.bytes.len() {
            return None;
        }
        let mut value: u64 = 0;
        loop
            invariant
                self.pos < s.len(),
                s == self.bytes@,
                s == old(self).bytes@,
                spec_first_subid(s, self.pos as int, value) == spec_first_subid(s, old(self).pos as int, 0),
            decreases s.len() - self.pos,
        {
            let b = self.bytes[self.pos];
            self.pos = self.pos + 1;
            value = subid_step(value, b);
            assert((b & 0x80 == 0) == (b < 0x80)) by (bit_vector);
            if b & 0x80 == 0 {
                return Some(value);
            }
            if self.pos >= self.bytes.len() {
                return None;
            }
        }
    }

    /// All the remaining complete subidentifiers, in order.
    #[verifier::loop_isolation(false)]
    pub fn collect(self) -> (v: Vec<u64>)
        ensures
            v@ == spec_subids(self.spec_bytes(), self.spec_pos(), 0),
    {
        proof { use_type_invariant(&self); }
        let ghost s = self.bytes@;
        let ghost start = self.pos as int;
        let mut it = self;
        let mut out: Vec<u64> = Vec::new();
        loop
            invariant
                it.spec_bytes() == s,
                0 <= it.spec_pos() <= s.len(),
                out@ + spec_subids(s, it.spec_pos(), 0) == spec_subids(s, start, 0),
            decreases s.len() - it.spec_pos(),
        {
            proof { lemma_subids_first(s, it.spec_pos(), 0); }
            let ghost before = it.spec_pos();
            match it.next() {
                Some(v) => {
                    assert(out@.push(v) + spec_subids(s, it.spec_pos(), 0) =~= out@ + spec_subids(s, before, 0));
                    out.push(v);
                },
                None => {
                    assert(spec_first_subid(s, before, 0) is None);
                    assert(spec_subids(s, before, 0) =~= Seq::<u64>::empty());
                    assert(out@ =~= out@ + spec_subids(s, before, 0));
                    assert(out@ == spec_subids(s, start, 0));
                    return out;
                },
            }
        }
    }
}

impl<'a> Decode<'a> for ObjectIdentifier<'a> {
    open spec fn spec_decode(s: Seq<u8>, pos: int, config: crate::asn1::reader::Config, depth: int) -> crate::asn1::error::Result<(<Self as View>::V, int)> {
        crate::asn1::decode::spec_prim_at(s, pos, config, spec_universal(6), |b: Seq<u8>| spec_oid_content(b))
    }

    fn decode(r: &mut Reader<'a>) -> (res: Result<Self>)
        ensures
            primitive_read(*old(r), *final(r), res, spec_universal(6), |b: Seq<u8>| spec_oid_content(b)),
    {
        proof { lemma_expect_tlv_progress(r.spec_input(), r.spec_pos(), r.spec_config(), spec_universal(6)); }
        let bytes = read_primitive(r, Tag::universal(Tag::OBJECT_IDENTIFIER))?;
        if bytes.len() == 0 {
            return Err(Error::BadObjectIdentifier);
        }
        if bytes[0] == 0x80 {
            return Err(Error::BadObjectIdentifier);
        }
        Ok(ObjectIdentifier(bytes))
    }
}

impl Encode for ObjectIdentifier<'_> {
    open spec fn obeys_encoding_spec() -> bool {
        true
    }

    open spec fn spec_encoding(&self) -> Result<Seq<u8>> {
        spec_primitive_encoding(spec_universal(6), self.0@)
    }

    fn encode<W: WriteBackend>(&self, w: &mut Writer<W>) -> (res: Result<()>)
        ensures
            primitive_written(*old(w), *final(w), res, spec_universal(6), self.0@),
    {
        w.write_primitive(Tag::universal(Tag::OBJECT_IDENTIFIER), self.0)
    }
}

/// The content a RELATIVE-OID element accepts: non-empty.
pub open spec fn spec_relative_oid_content(b: Seq<u8>) -> Result<Seq<u8>> {
    if b.len() == 0 {
        Err(Error::BadObjectIdentifier)
    } else {
        Ok(b)
    }
}

/// ASN.1 `RELATIVE-OID`.
#[derive(Clone, Copy, PartialEq, Eq, Debug)]
pub struct RelativeOid<'a>(pub &'a [u8]);

impl<'a> View for RelativeOid<'a> {
    type V = Seq<u8>;

    open spec fn view(&self) -> Seq<u8> {
        self.0@
    }
}

impl<'a> RelativeOid<'a> {
    /// Decode from already-consumed-tag content bytes.
    pub fn decode_content(r: &mut Reader<'a>) -> (res: Result<Self>)
        ensures
            content_read(*old(r), *final(r), res, |b: Seq<u8>| spec_relative_oid_content(b)),
    {
        let bytes = r.read_remaining()?;
        if bytes.len() == 0 {
            return Err(Error::BadObjectIdentifier);
        }
        Ok(RelativeOid(bytes))
    }
}

impl<'a> Decode<'a> for RelativeOid<'a> {
    open spec fn spec_decode(s: Seq<u8>, pos: int, config: crate::asn1::reader::Config, depth: int) -> crate::asn1::error::Result<(<Self as View>::V, int)> {
        crate::asn1::decode::spec_prim_at(s, pos, config, spec_universal(13), |b: Seq<u8>| spec_relative_oid_content(b))
    }

    fn decode(r: &mut Reader<'a>) -> (res: Result<Self>)
        ensures
            primitive_read(*old(r), *final(r), res, spec_universal(13), |b: Seq<u8>| spec_relative_oid_content(b)),
    {
        proof { lemma_expect_tlv_progress(r.spec_input(), r.spec_pos(), r.spec_config(), spec_universal(13)); }
        let bytes = read_primitive(r, Tag::universal(Tag::RELATIVE_OID))?;
        if bytes.len() == 0 {
            return Err(Error::BadObjectIdentifier);
        }
        Ok(RelativeOid(bytes))
    }
}

impl Encode for RelativeOid<'_> {
    open spec fn obeys_encoding_spec() -> bool {
        true
    }

    open spec fn spec_encoding(&self) -> Result<Seq<u8>> {
        spec_primitive_encoding(spec_universal(13), self.0@)
    }

    fn encode<W: WriteBackend>(&self, w: &mut Writer<W>) -> (res: Result<()>)
        ensures
            primitive_written(*old(w), *final(w), res, spec_universal(13), self.0@),
    {
        w.write_primitive(Tag::universal(Tag::RELATIVE_OID), self.0)
    }
}

// --- Time types --------------------------------------------------------------

/// A parsed date-time value (no timezone conversion performed).
#[derive(Clone, Copy, PartialEq, Eq, Debug)]
pub struct DateTime {
    /// Full year (e.g. 2026).
    pub year: u16,
    /// Month 1..=12.
    pub month: u8,
    /// Day 1..=31.
    pub day: u8,
    /// Hour 0..=23.
    pub hour: u8,
    /// Minute 0..=59.
    pub minute: u8,
    /// Second 0..=59 (60 reserved for leap seconds, not accepted).
    pub second: u8,
    /// Number of fractional-second digits (0 = none).
    pub frac_digits: u8,
    /// Timezone: `None` for UTC ('Z'), or an offset in minutes (east positive).
    pub tz_offset_minutes: Option<i32>,
}

/// `c` is an ASCII decimal digit.
pub open spec fn spec_is_digit(c: u8) -> bool {
    0x30 <= c <= 0x39
}

/// The decimal value of the `n` digits of `b` at `i`, if they are all digits.
pub open spec fn spec_digits(b: Seq<u8>, i: int, n: nat) -> Option<nat>
    decreases n,
{
    if n == 0 {
        Some(0)
    } else {
        match spec_digits(b, i, (n - 1) as nat) {
            None => None,
            Some(v) => {
                let k = i + n - 1;
                if 0 <= k < b.len() && spec_is_digit(b[k]) {
                    Some(v * 10 + (b[k] - 0x30) as nat)
                } else {
                    None
                }
            },
        }
    }
}

/// The number of consecutive digits of `b` starting at `i`.
pub open spec fn spec_digit_run(b: Seq<u8>, i: int) -> nat
    decreases b.len() - i,
{
    if 0 <= i < b.len() && spec_is_digit(b[i]) {
        1 + spec_digit_run(b, i + 1)
    } else {
        0
    }
}

/// The value of `n` digits is below `10^n`.
proof fn lemma_digits_bound(b: Seq<u8>, i: int, n: nat)
    ensures
        spec_digits(b, i, n) matches Some(v) ==> v < spec_pow10(n),
    decreases n,
{
    if n > 0 {
        lemma_digits_bound(b, i, (n - 1) as nat);
    }
}

/// `10^n`.
pub open spec fn spec_pow10(n: nat) -> nat
    decreases n,
{
    if n == 0 {
        1
    } else {
        10 * spec_pow10((n - 1) as nat)
    }
}

/// The fields of a time value after its year (which starts at 0 and is
/// `year_len` digits long): month, day, hour, minute, second; fraction; zone.
pub open spec fn spec_time_fields(b: Seq<u8>, year: nat, year_len: int) -> Result<DateTime> {
    let mo = spec_digits(b, year_len, 2);
    let d = spec_digits(b, year_len + 2, 2);
    let h = spec_digits(b, year_len + 4, 2);
    let mi = spec_digits(b, year_len + 6, 2);
    let se = spec_digits(b, year_len + 8, 2);
    if mo is None || d is None || h is None || mi is None || se is None {
        Err(Error::BadTime)
    } else {
        let month = mo->Some_0;
        let day = d->Some_0;
        let hour = h->Some_0;
        let minute = mi->Some_0;
        let second = se->Some_0;
        if month == 0 || month > 12 || day == 0 || day > 31 || hour > 23 || minute > 59 || second > 59 {
            Err(Error::BadTime)
        } else {
            let i = year_len + 10;
            let has_frac = i < b.len() && b[i] == 0x2e;
            let k = spec_digit_run(b, i + 1);
            if has_frac && (k == 0 || k > 255) {
                Err(Error::BadTime)
            } else {
                let frac: nat = if has_frac { k } else { 0 };
                let j = if has_frac { i + 1 + k } else { i };
                match spec_zone(b, j) {
                    Err(e) => Err(e),
                    Ok(tz) => Ok(DateTime {
                        year: year as u16,
                        month: month as u8,
                        day: day as u8,
                        hour: hour as u8,
                        minute: minute as u8,
                        second: second as u8,
                        frac_digits: frac as u8,
                        tz_offset_minutes: tz,
                    }),
                }
            }
        }
    }
}

/// The zone designator at `j`, which ends the value: `Z`, or a sign and
/// four digits `hhmm`.
pub open spec fn spec_zone(b: Seq<u8>, j: int) -> Result<Option<i32>> {
    if j >= b.len() {
        Err(Error::BadTime)
    } else if b[j] == 0x5a {
        if j + 1 == b.len() {
            Ok(None)
        } else {
            Err(Error::BadTime)
        }
    } else if b[j] == 0x2b || b[j] == 0x2d {
        let oh = spec_digits(b, j + 1, 2);
        let om = spec_digits(b, j + 3, 2);
        if oh is None || om is None || j + 5 != b.len() {
            Err(Error::BadTime)
        } else {
            let mag = oh->Some_0 * 60 + om->Some_0;
            Ok(Some((if b[j] == 0x2b { mag as int } else { -mag }) as i32))
        }
    } else {
        Err(Error::BadTime)
    }
}

/// The date-time a UTCTime (`is_utc`, two-digit year: 50..99 means 19xx)
/// or GeneralizedTime (four-digit year) value denotes.
pub open spec fn spec_parse_time(b: Seq<u8>, is_utc: bool) -> Result<DateTime> {
    if !vstd::utf8::valid_utf8(b) {
        Err(Error::BadTime)
    } else if is_utc {
        match spec_digits(b, 0, 2) {
            None => Err(Error::BadTime),
            Some(yy) => spec_time_fields(b, if yy >= 50 { 1900 + yy } else { 2000 + yy }, 2),
        }
    } else {
        match spec_digits(b, 0, 4) {
            None => Err(Error::BadTime),
            Some(y) => spec_time_fields(b, y, 4),
        }
    }
}

/// ASN.1 `UTCTime`, stored as its raw bytes.
#[derive(Clone, Copy, PartialEq, Eq, Debug)]
pub struct UtcTime<'a>(pub &'a [u8]);

impl<'a> View for UtcTime<'a> {
    type V = Seq<u8>;

    open spec fn view(&self) -> Seq<u8> {
        self.0@
    }
}

impl<'a> UtcTime<'a> {
    /// Parse the time value.
    pub fn parse(&self) -> (res: Result<DateTime>)
        ensures
            res == spec_parse_time(self.0@, true),
    {
        parse_time(self.0, true)
    }

    /// Decode from already-consumed-tag content bytes.
    pub fn decode_content(r: &mut Reader<'a>) -> (res: Result<Self>)
        ensures
            content_read(*old(r), *final(r), res, |b: Seq<u8>| Ok::<Seq<u8>, Error>(b)),
    {
        Ok(UtcTime(r.read_remaining()?))
    }
}

impl<'a> Decode<'a> for UtcTime<'a> {
    open spec fn spec_decode(s: Seq<u8>, pos: int, config: crate::asn1::reader::Config, depth: int) -> crate::asn1::error::Result<(<Self as View>::V, int)> {
        crate::asn1::decode::spec_prim_at(s, pos, config, spec_universal(23), |b: Seq<u8>| Ok::<Seq<u8>, Error>(b))
    }

    fn decode(r: &mut Reader<'a>) -> (res: Result<Self>)
        ensures
            primitive_read(*old(r), *final(r), res, spec_universal(23), |b: Seq<u8>| Ok::<Seq<u8>, Error>(b)),
    {
        proof { lemma_expect_tlv_progress(r.spec_input(), r.spec_pos(), r.spec_config(), spec_universal(23)); }
        let bytes = read_primitive(r, Tag::universal(Tag::UTC_TIME))?;
        Ok(UtcTime(bytes))
    }
}

impl Encode for UtcTime<'_> {
    open spec fn obeys_encoding_spec() -> bool {
        true
    }

    open spec fn spec_encoding(&self) -> Result<Seq<u8>> {
        spec_primitive_encoding(spec_universal(23), self.0@)
    }

    fn encode<W: WriteBackend>(&self, w: &mut Writer<W>) -> (res: Result<()>)
        ensures
            primitive_written(*old(w), *final(w), res, spec_universal(23), self.0@),
    {
        w.write_primitive(Tag::universal(Tag::UTC_TIME), self.0)
    }
}

/// ASN.1 `GeneralizedTime`, stored as its raw bytes.
#[derive(Clone, Copy, PartialEq, Eq, Debug)]
pub struct GeneralizedTime<'a>(pub &'a [u8]);

impl<'a> View for GeneralizedTime<'a> {
    type V = Seq<u8>;

    open spec fn view(&self) -> Seq<u8> {
        self.0@
    }
}

impl<'a> GeneralizedTime<'a> {
    /// Parse the time value.
    pub fn parse(&self) -> (res: Result<DateTime>)
        ensures
            res == spec_parse_time(self.0@, false),
    {
        parse_time(self.0, false)
    }

    /// Decode from already-consumed-tag content bytes.
    pub fn decode_content(r: &mut Reader<'a>) -> (res: Result<Self>)
        ensures
            content_read(*old(r), *final(r), res, |b: Seq<u8>| Ok::<Seq<u8>, Error>(b)),
    {
        Ok(GeneralizedTime(r.read_remaining()?))
    }
}

impl<'a> Decode<'a> for GeneralizedTime<'a> {
    open spec fn spec_decode(s: Seq<u8>, pos: int, config: crate::asn1::reader::Config, depth: int) -> crate::asn1::error::Result<(<Self as View>::V, int)> {
        crate::asn1::decode::spec_prim_at(s, pos, config, spec_universal(24), |b: Seq<u8>| Ok::<Seq<u8>, Error>(b))
    }

    fn decode(r: &mut Reader<'a>) -> (res: Result<Self>)
        ensures
            primitive_read(*old(r), *final(r), res, spec_universal(24), |b: Seq<u8>| Ok::<Seq<u8>, Error>(b)),
    {
        proof { lemma_expect_tlv_progress(r.spec_input(), r.spec_pos(), r.spec_config(), spec_universal(24)); }
        let bytes = read_primitive(r, Tag::universal(Tag::GENERALIZED_TIME))?;
        Ok(GeneralizedTime(bytes))
    }
}

impl Encode for GeneralizedTime<'_> {
    open spec fn obeys_encoding_spec() -> bool {
        true
    }

    open spec fn spec_encoding(&self) -> Result<Seq<u8>> {
        spec_primitive_encoding(spec_universal(24), self.0@)
    }

    fn encode<W: WriteBackend>(&self, w: &mut Writer<W>) -> (res: Result<()>)
        ensures
            primitive_written(*old(w), *final(w), res, spec_universal(24), self.0@),
    {
        w.write_primitive(Tag::universal(Tag::GENERALIZED_TIME), self.0)
    }
}

fn peek(b: &[u8], i: usize) -> (r: Option<u8>)
    ensures
        r == (if i < b@.len() { Some(b@[i as int]) } else { None::<u8> }),
{
    if i < b.len() {
        Some(b[i])
    } else {
        None
    }
}

fn take_digits(b: &[u8], i: &mut usize, n: usize) -> (res: Result<u32>)
    requires
        n <= 4,
    ensures
        match spec_digits(b@, *old(i) as int, n as nat) {
            Some(v) => res == Ok::<u32, Error>(v as u32) && *final(i) == *old(i) + n,
            None => res == Err::<u32, Error>(Error::BadTime),
        },
{
    let mut v: u32 = 0;
    let mut k: usize = 0;
    let ghost i0 = *i as int;
    while k < n
        invariant
            k <= n <= 4,
            i0 == *old(i),
            *i == i0 + k,
            spec_digits(b@, i0, k as nat) == Some(v as nat),
            v < spec_pow10(k as nat),
        decreases n - k,
    {
        proof {
            assert(spec_pow10(4) == 10000) by {
                reveal_with_fuel(spec_pow10, 5);
            }
            lemma_pow10_mono(k as nat, 3);
        }
        let cur = *i;
        let blen = b.len();
        match peek(b, cur) {
            Some(c) => {
                if c >= 0x30 && c <= 0x39 {
                    assert(cur < blen);
                    v = v * 10 + (c - 0x30) as u32;
                    *i = cur + 1;
                } else {
                    assert(spec_digits(b@, i0, (k + 1) as nat) is None);
                    proof { lemma_digits_none_after(b@, i0, (k + 1) as nat, n as nat); }
                    return Err(Error::BadTime);
                }
            },
            None => {
                assert(spec_digits(b@, i0, (k + 1) as nat) is None);
                proof { lemma_digits_none_after(b@, i0, (k + 1) as nat, n as nat); }
                return Err(Error::BadTime);
            },
        }
        k += 1;
    }
    Ok(v)
}

/// Powers of ten grow with the exponent.
proof fn lemma_pow10_mono(i: nat, j: nat)
    requires
        i <= j,
    ensures
        spec_pow10(i) <= spec_pow10(j),
    decreases j,
{
    if j > i {
        lemma_pow10_mono(i, (j - 1) as nat);
    }
}

/// Once a digit is missing, no longer run of digits exists.
proof fn lemma_digits_none_after(b: Seq<u8>, i: int, k: nat, n: nat)
    requires
        k <= n,
        spec_digits(b, i, k) is None,
    ensures
        spec_digits(b, i, n) is None,
    decreases n - k,
{
    if k < n {
        lemma_digits_none_after(b, i, k + 1, n);
    }
}

#[verifier::external_body]
/// `core::str::from_utf8`: the bytes read as a string slice exactly when
/// they are well-formed UTF-8 (`None` otherwise); the slice has the same bytes.
pub(crate) fn str_from_utf8<'a>(b: &'a [u8]) -> (r: Option<&'a str>)
    ensures
        r is Some <==> vstd::utf8::valid_utf8(b@),
        r matches Some(s) ==> s.spec_bytes() == b@,
{
    match core::str::from_utf8(b) {
        Ok(s) => Some(s),
        Err(_) => None,
    }
}

fn parse_time(bytes: &[u8], is_utc: bool) -> (res: Result<DateTime>)
    ensures
        res == spec_parse_time(bytes@, is_utc),
{
    if str_from_utf8(bytes).is_none() {
        return Err(Error::BadTime);
    }
    let b = bytes;
    let mut i: usize = 0;
    proof {
        lemma_digits_bound(b@, 0, 2);
        lemma_digits_bound(b@, 0, 4);
        reveal_with_fuel(spec_pow10, 5);
        assert(spec_pow10(2) == 100);
        assert(spec_pow10(4) == 10000);
    }
    let year: u16 = if is_utc {
        let yy = take_digits(b, &mut i, 2)? as u16;
        if yy >= 50 {
            1900 + yy
        } else {
            2000 + yy
        }
    } else {
        take_digits(b, &mut i, 4)? as u16
    };
    parse_time_fields(b, year, i)
}

/// Parse the fields after a `yl`-digit year, as `spec_time_fields` reads them.
fn parse_time_fields(b: &[u8], year: u16, yl: usize) -> (res: Result<DateTime>)
    requires
        yl <= 4,
    ensures
        res == spec_time_fields(b@, year as nat, yl as int),
{
    let mut i = yl;
    proof {
        reveal_with_fuel(spec_pow10, 3);
        assert(spec_pow10(2) == 100);
        lemma_digits_bound(b@, yl as int, 2);
        lemma_digits_bound(b@, yl + 2, 2);
        lemma_digits_bound(b@, yl + 4, 2);
        lemma_digits_bound(b@, yl + 6, 2);
        lemma_digits_bound(b@, yl + 8, 2);
    }
    let month = take_digits(b, &mut i, 2)? as u8;
    let day = take_digits(b, &mut i, 2)? as u8;
    let hour = take_digits(b, &mut i, 2)? as u8;
    let minute = take_digits(b, &mut i, 2)? as u8;
    let second = take_digits(b, &mut i, 2)? as u8;
    if month == 0 || month > 12 || day == 0 || day > 31 || hour > 23 || minute > 59 || second > 59 {
        return Err(Error::BadTime);
    }
    let (frac_digits, j) = parse_fraction(b, i)?;
    let tz = parse_zone(b, j)?;
    Ok(DateTime { year, month, day, hour, minute, second, frac_digits, tz_offset_minutes: tz })
}

/// The optional fraction at `i`: its digit count and the offset after it.
#[verifier::loop_isolation(false)]
fn parse_fraction(b: &[u8], i: usize) -> (res: Result<(u8, usize)>)
    requires
        i <= b@.len() + 10,
    ensures
        ({
            let has_frac = i < b@.len() && b@[i as int] == 0x2e;
            let k = spec_digit_run(b@, i + 1);
            if has_frac && (k == 0 || k > 255) {
                res == Err::<(u8, usize), Error>(Error::BadTime)
            } else {
                res is Ok && res->Ok_0.0 == (if has_frac { k } else { 0 }) && res->Ok_0.1 == (if has_frac { i + 1 + k } else { i as int })
            }
        }),
{
    let blen = b.len();
    if peek(b, i) != Some(0x2eu8) {
        return Ok((0, i));
    }
    assert(i < blen);
    let start = i + 1;
    let mut j = start;
    let mut frac_digits: u8 = 0;
    loop
        invariant
            start <= j <= b@.len(),
            start == i + 1,
            j == start + frac_digits,
            spec_digit_run(b@, start as int) == frac_digits + spec_digit_run(b@, j as int),
        decreases b@.len() - j,
    {
        match peek(b, j) {
            Some(c) => {
                if c < 0x30 || c > 0x39 {
                    break;
                }
            },
            None => {
                break;
            },
        }
        assert(j < blen);
        assert(spec_digit_run(b@, j as int) >= 1);
        if frac_digits == 255 {
            return Err(Error::BadTime);
        }
        frac_digits += 1;
        j += 1;
    }
    if frac_digits == 0 {
        return Err(Error::BadTime);
    }
    Ok((frac_digits, j))
}

/// The zone designator at `j`, as `spec_zone` reads it.
fn parse_zone(b: &[u8], j: usize) -> (res: Result<Option<i32>>)
    ensures
        res == spec_zone(b@, j as int),
{
    let blen = b.len();
    match peek(b, j) {
        None => Err(Error::BadTime),
        Some(c) => {
            if c == 0x5a {
                if j + 1 == blen {
                    Ok(None)
                } else {
                    Err(Error::BadTime)
                }
            } else if c == 0x2b || c == 0x2d {
                assert(j < blen);
                let mut i = j + 1;
                proof {
                    reveal_with_fuel(spec_pow10, 3);
                    assert(spec_pow10(2) == 100);
                    lemma_digits_bound(b@, i as int, 2);
                    lemma_digits_bound(b@, i + 2, 2);
                }
                let oh = take_digits(b, &mut i, 2)? as i32;
                let om = take_digits(b, &mut i, 2)? as i32;
                if i != b.len() {
                    return Err(Error::BadTime);
                }
                let mag = oh * 60 + om;
                Ok(Some(if c == 0x2b { mag } else { -mag }))
            } else {
                Err(Error::BadTime)
            }
        },
    }
}

// --- String types ------------------------------------------------------------

/// A PrintableString character: letters, digits, space and `'()+,-./:=?`.
pub open spec fn spec_printable_char(c: u8) -> bool {
    (0x41 <= c <= 0x5a) || (0x61 <= c <= 0x7a) || (0x30 <= c <= 0x39) || c == 0x20 || c == 0x27 || c == 0x28
        || c == 0x29 || c == 0x2b || c == 0x2c || c == 0x2d || c == 0x2e || c == 0x2f || c == 0x3a || c == 0x3d
        || c == 0x3f
}

/// A NumericString character: a digit or space.
pub open spec fn spec_numeric_char(c: u8) -> bool {
    (0x30 <= c <= 0x39) || c == 0x20
}

/// A VisibleString character: printable ASCII other than space.
pub open spec fn spec_visible_char(c: u8) -> bool {
    0x21 <= c <= 0x7e
}

/// UTF8String content must be well-formed UTF-8.
pub open spec fn spec_utf8_content(b: Seq<u8>) -> Result<Seq<u8>> {
    if vstd::utf8::valid_utf8(b) {
        Ok(b)
    } else {
        Err(Error::BadUtf8)
    }
}

/// PrintableString content must use its character set.
pub open spec fn spec_printable_content(b: Seq<u8>) -> Result<Seq<u8>> {
    if forall|i: int| 0 <= i < b.len() ==> spec_printable_char(#[trigger] b[i]) {
        Ok(b)
    } else {
        Err(Error::BadStringType)
    }
}

/// IA5String content must be 7-bit ASCII.
pub open spec fn spec_ia5_content(b: Seq<u8>) -> Result<Seq<u8>> {
    if forall|i: int| 0 <= i < b.len() ==> #[trigger] b[i] < 0x80 {
        Ok(b)
    } else {
        Err(Error::BadStringType)
    }
}

/// NumericString content must be digits and spaces.
pub open spec fn spec_numeric_content(b: Seq<u8>) -> Result<Seq<u8>> {
    if forall|i: int| 0 <= i < b.len() ==> spec_numeric_char(#[trigger] b[i]) {
        Ok(b)
    } else {
        Err(Error::BadStringType)
    }
}

/// VisibleString content must be visible ASCII.
pub open spec fn spec_visible_content(b: Seq<u8>) -> Result<Seq<u8>> {
    if forall|i: int| 0 <= i < b.len() ==> spec_visible_char(#[trigger] b[i]) {
        Ok(b)
    } else {
        Err(Error::BadStringType)
    }
}

/// Content accepted as it is.
pub open spec fn spec_any_content(b: Seq<u8>) -> Result<Seq<u8>> {
    Ok(b)
}

fn validate_utf8(b: &[u8]) -> (res: Result<()>)
    ensures
        res is Ok <==> spec_utf8_content(b@) is Ok,
        res is Err ==> res == Err::<(), Error>(Error::BadUtf8),
{
    match str_from_utf8(b) {
        Some(_) => Ok(()),
        None => Err(Error::BadUtf8),
    }
}

fn validate_printable(b: &[u8]) -> (res: Result<()>)
    ensures
        res is Ok <==> spec_printable_content(b@) is Ok,
        res is Err ==> res == Err::<(), Error>(Error::BadStringType),
{
    let mut i: usize = 0;
    while i < b.len()
        invariant
            i <= b@.len(),
            forall|j: int| 0 <= j < i ==> spec_printable_char(#[trigger] b@[j]),
        decreases b@.len() - i,
    {
        let c = b[i];
        let ok = (c >= 0x41 && c <= 0x5a) || (c >= 0x61 && c <= 0x7a) || (c >= 0x30 && c <= 0x39) || c == 0x20 || c == 0x27
            || c == 0x28 || c == 0x29 || c == 0x2b || c == 0x2c || c == 0x2d || c == 0x2e || c == 0x2f || c == 0x3a
            || c == 0x3d || c == 0x3f;
        if !ok {
            return Err(Error::BadStringType);
        }
        i += 1;
    }
    Ok(())
}

fn validate_ia5(b: &[u8]) -> (res: Result<()>)
    ensures
        res is Ok <==> spec_ia5_content(b@) is Ok,
        res is Err ==> res == Err::<(), Error>(Error::BadStringType),
{
    let mut i: usize = 0;
    while i < b.len()
        invariant
            i <= b@.len(),
            forall|j: int| 0 <= j < i ==> #[trigger] b@[j] < 0x80,
        decreases b@.len() - i,
    {
        if b[i] >= 0x80 {
            return Err(Error::BadStringType);
        }
        i += 1;
    }
    Ok(())
}

fn validate_numeric(b: &[u8]) -> (res: Result<()>)
    ensures
        res is Ok <==> spec_numeric_content(b@) is Ok,
        res is Err ==> res == Err::<(), Error>(Error::BadStringType),
{
    let mut i: usize = 0;
    while i < b.len()
        invariant
            i <= b@.len(),
            forall|j: int| 0 <= j < i ==> spec_numeric_char(#[trigger] b@[j]),
        decreases b@.len() - i,
    {
        let c = b[i];
        if !((c >= 0x30 && c <= 0x39) || c == 0x20) {
            return Err(Error::BadStringType);
        }
        i += 1;
    }
    Ok(())
}

fn validate_visible(b: &[u8]) -> (res: Result<()>)
    ensures
        res is Ok <==> spec_visible_content(b@) is Ok,
        res is Err ==> res == Err::<(), Error>(Error::BadStringType),
{
    let mut i: usize = 0;
    while i < b.len()
        invariant
            i <= b@.len(),
            forall|j: int| 0 <= j < i ==> spec_visible_char(#[trigger] b@[j]),
        decreases b@.len() - i,
    {
        let c = b[i];
        if !(c >= 0x21 && c <= 0x7e) {
            return Err(Error::BadStringType);
        }
        i += 1;
    }
    Ok(())
}

/// ASN.1 `UTF8String`.
#[derive(Clone, Copy, PartialEq, Eq, Debug)]
pub struct Utf8String<'a>(pub &'a [u8]);

impl<'a> View for Utf8String<'a> {
    type V = Seq<u8>;

    open spec fn view(&self) -> Seq<u8> {
        self.0@
    }
}

impl<'a> Utf8String<'a> {
    /// The raw string bytes.
    pub fn as_bytes(&self) -> (b: &'a [u8])
        ensures
            b@ == self.0@,
    {
        self.0
    }

    /// Decode from already-consumed-tag content bytes.
    pub fn decode_content(r: &mut Reader<'a>) -> (res: Result<Self>)
        ensures
            content_read(*old(r), *final(r), res, |b: Seq<u8>| spec_utf8_content(b)),
    {
        let b = r.read_remaining()?;
        validate_utf8(b)?;
        Ok(Utf8String(b))
    }
}

impl<'a> Decode<'a> for Utf8String<'a> {
    open spec fn spec_decode(s: Seq<u8>, pos: int, config: crate::asn1::reader::Config, depth: int) -> crate::asn1::error::Result<(<Self as View>::V, int)> {
        crate::asn1::decode::spec_prim_at(s, pos, config, spec_universal(12), |b: Seq<u8>| spec_utf8_content(b))
    }

    fn decode(r: &mut Reader<'a>) -> (res: Result<Self>)
        ensures
            primitive_read(*old(r), *final(r), res, spec_universal(12), |b: Seq<u8>| spec_utf8_content(b)),
    {
        proof { lemma_expect_tlv_progress(r.spec_input(), r.spec_pos(), r.spec_config(), spec_universal(12)); }
        let bytes = read_primitive(r, Tag::universal(Tag::UTF8_STRING))?;
        validate_utf8(bytes)?;
        Ok(Utf8String(bytes))
    }
}

impl Encode for Utf8String<'_> {
    open spec fn obeys_encoding_spec() -> bool {
        true
    }

    open spec fn spec_encoding(&self) -> Result<Seq<u8>> {
        spec_primitive_encoding(spec_universal(12), self.0@)
    }

    fn encode<W: WriteBackend>(&self, w: &mut Writer<W>) -> (res: Result<()>)
        ensures
            primitive_written(*old(w), *final(w), res, spec_universal(12), self.0@),
    {
        w.write_primitive(Tag::universal(Tag::UTF8_STRING), self.0)
    }
}

impl<'a> Utf8String<'a> {
    /// Interpret as `str` (validated as UTF-8 on decode); the empty string
    /// when the bytes are not UTF-8.
    pub fn as_str(&self) -> (s: &'a str)
        ensures
            vstd::utf8::valid_utf8(self.0@) ==> s.spec_bytes() == self.0@,
            !vstd::utf8::valid_utf8(self.0@) ==> s@.len() == 0,
    {
        match str_from_utf8(self.0) {
            Some(s) => s,
            None => {
                proof { reveal_strlit(""); }
                ""
            },
        }
    }
}

/// ASN.1 `PrintableString`.
#[derive(Clone, Copy, PartialEq, Eq, Debug)]
pub struct PrintableString<'a>(pub &'a [u8]);

impl<'a> View for PrintableString<'a> {
    type V = Seq<u8>;

    open spec fn view(&self) -> Seq<u8> {
        self.0@
    }
}

impl<'a> PrintableString<'a> {
    /// The raw string bytes.
    pub fn as_bytes(&self) -> (b: &'a [u8])
        ensures
            b@ == self.0@,
    {
        self.0
    }

    /// Decode from already-consumed-tag content bytes.
    pub fn decode_content(r: &mut Reader<'a>) -> (res: Result<Self>)
        ensures
            content_read(*old(r), *final(r), res, |b: Seq<u8>| spec_printable_content(b)),
    {
        let b = r.read_remaining()?;
        validate_printable(b)?;
        Ok(PrintableString(b))
    }
}

impl<'a> Decode<'a> for PrintableString<'a> {
    open spec fn spec_decode(s: Seq<u8>, pos: int, config: crate::asn1::reader::Config, depth: int) -> crate::asn1::error::Result<(<Self as View>::V, int)> {
        crate::asn1::decode::spec_prim_at(s, pos, config, spec_universal(19), |b: Seq<u8>| spec_printable_content(b))
    }

    fn decode(r: &mut Reader<'a>) -> (res: Result<Self>)
        ensures
            primitive_read(*old(r), *final(r), res, spec_universal(19), |b: Seq<u8>| spec_printable_content(b)),
    {
        proof { lemma_expect_tlv_progress(r.spec_input(), r.spec_pos(), r.spec_config(), spec_universal(19)); }
        let bytes = read_primitive(r, Tag::universal(Tag::PRINTABLE_STRING))?;
        validate_printable(bytes)?;
        Ok(PrintableString(bytes))
    }
}

impl Encode for PrintableString<'_> {
    open spec fn obeys_encoding_spec() -> bool {
        true
    }

    open spec fn spec_encoding(&self) -> Result<Seq<u8>> {
        spec_primitive_encoding(spec_universal(19), self.0@)
    }

    fn encode<W: WriteBackend>(&self, w: &mut Writer<W>) -> (res: Result<()>)
        ensures
            primitive_written(*old(w), *final(w), res, spec_universal(19), self.0@),
    {
        w.write_primitive(Tag::universal(Tag::PRINTABLE_STRING), self.0)
    }
}

/// ASN.1 `IA5String`.
#[derive(Clone, Copy, PartialEq, Eq, Debug)]
pub struct Ia5String<'a>(pub &'a [u8]);

impl<'a> View for Ia5String<'a> {
    type V = Seq<u8>;

    open spec fn view(&self) -> Seq<u8> {
        self.0@
    }
}

impl<'a> Ia5String<'a> {
    /// The raw string bytes.
    pub fn as_bytes(&self) -> (b: &'a [u8])
        ensures
            b@ == self.0@,
    {
        self.0
    }

    /// Decode from already-consumed-tag content bytes.
    pub fn decode_content(r: &mut Reader<'a>) -> (res: Result<Self>)
        ensures
            content_read(*old(r), *final(r), res, |b: Seq<u8>| spec_ia5_content(b)),
    {
        let b = r.read_remaining()?;
        validate_ia5(b)?;
        Ok(Ia5String(b))
    }
}

impl<'a> Decode<'a> for Ia5String<'a> {
    open spec fn spec_decode(s: Seq<u8>, pos: int, config: crate::asn1::reader::Config, depth: int) -> crate::asn1::error::Result<(<Self as View>::V, int)> {
        crate::asn1::decode::spec_prim_at(s, pos, config, spec_universal(22), |b: Seq<u8>| spec_ia5_content(b))
    }

    fn decode(r: &mut Reader<'a>) -> (res: Result<Self>)
        ensures
            primitive_read(*old(r), *final(r), res, spec_universal(22), |b: Seq<u8>| spec_ia5_content(b)),
    {
        proof { lemma_expect_tlv_progress(r.spec_input(), r.spec_pos(), r.spec_config(), spec_universal(22)); }
        let bytes = read_primitive(r, Tag::universal(Tag::IA5_STRING))?;
        validate_ia5(bytes)?;
        Ok(Ia5String(bytes))
    }
}

impl Encode for Ia5String<'_> {
    open spec fn obeys_encoding_spec() -> bool {
        true
    }

    open spec fn spec_encoding(&self) -> Result<Seq<u8>> {
        spec_primitive_encoding(spec_universal(22), self.0@)
    }

    fn encode<W: WriteBackend>(&self, w: &mut Writer<W>) -> (res: Result<()>)
        ensures
            primitive_written(*old(w), *final(w), res, spec_universal(22), self.0@),
    {
        w.write_primitive(Tag::universal(Tag::IA5_STRING), self.0)
    }
}

/// ASN.1 `NumericString`.
#[derive(Clone, Copy, PartialEq, Eq, Debug)]
pub struct NumericString<'a>(pub &'a [u8]);

impl<'a> View for NumericString<'a> {
    type V = Seq<u8>;

    open spec fn view(&self) -> Seq<u8> {
        self.0@
    }
}

impl<'a> NumericString<'a> {
    /// The raw string bytes.
    pub fn as_bytes(&self) -> (b: &'a [u8])
        ensures
            b@ == self.0@,
    {
        self.0
    }

    /// Decode from already-consumed-tag content bytes.
    pub fn decode_content(r: &mut Reader<'a>) -> (res: Result<Self>)
        ensures
            content_read(*old(r), *final(r), res, |b: Seq<u8>| spec_numeric_content(b)),
    {
        let b = r.read_remaining()?;
        validate_numeric(b)?;
        Ok(NumericString(b))
    }
}

impl<'a> Decode<'a> for NumericString<'a> {
    open spec fn spec_decode(s: Seq<u8>, pos: int, config: crate::asn1::reader::Config, depth: int) -> crate::asn1::error::Result<(<Self as View>::V, int)> {
        crate::asn1::decode::spec_prim_at(s, pos, config, spec_universal(18), |b: Seq<u8>| spec_numeric_content(b))
    }

    fn decode(r: &mut Reader<'a>) -> (res: Result<Self>)
        ensures
            primitive_read(*old(r), *final(r), res, spec_universal(18), |b: Seq<u8>| spec_numeric_content(b)),
    {
        proof { lemma_expect_tlv_progress(r.spec_input(), r.spec_pos(), r.spec_config(), spec_universal(18)); }
        let bytes = read_primitive(r, Tag::universal(Tag::NUMERIC_STRING))?;
        validate_numeric(bytes)?;
        Ok(NumericString(bytes))
    }
}

impl Encode for NumericString<'_> {
    open spec fn obeys_encoding_spec() -> bool {
        true
    }

    open spec fn spec_encoding(&self) -> Result<Seq<u8>> {
        spec_primitive_encoding(spec_universal(18), self.0@)
    }

    fn encode<W: WriteBackend>(&self, w: &mut Writer<W>) -> (res: Result<()>)
        ensures
            primitive_written(*old(w), *final(w), res, spec_universal(18), self.0@),
    {
        w.write_primitive(Tag::universal(Tag::NUMERIC_STRING), self.0)
    }
}

/// ASN.1 `VisibleString` (ISO646).
#[derive(Clone, Copy, PartialEq, Eq, Debug)]
pub struct VisibleString<'a>(pub &'a [u8]);

impl<'a> View for VisibleString<'a> {
    type V = Seq<u8>;

    open spec fn view(&self) -> Seq<u8> {
        self.0@
    }
}

impl<'a> VisibleString<'a> {
    /// The raw string bytes.
    pub fn as_bytes(&self) -> (b: &'a [u8])
        ensures
            b@ == self.0@,
    {
        self.0
    }

    /// Decode from already-consumed-tag content bytes.
    pub fn decode_content(r: &mut Reader<'a>) -> (res: Result<Self>)
        ensures
            content_read(*old(r), *final(r), res, |b: Seq<u8>| spec_visible_content(b)),
    {
        let b = r.read_remaining()?;
        validate_visible(b)?;
        Ok(VisibleString(b))
    }
}

impl<'a> Decode<'a> for VisibleString<'a> {
    open spec fn spec_decode(s: Seq<u8>, pos: int, config: crate::asn1::reader::Config, depth: int) -> crate::asn1::error::Result<(<Self as View>::V, int)> {
        crate::asn1::decode::spec_prim_at(s, pos, config, spec_universal(26), |b: Seq<u8>| spec_visible_content(b))
    }

    fn decode(r: &mut Reader<'a>) -> (res: Result<Self>)
        ensures
            primitive_read(*old(r), *final(r), res, spec_universal(26), |b: Seq<u8>| spec_visible_content(b)),
    {
        proof { lemma_expect_tlv_progress(r.spec_input(), r.spec_pos(), r.spec_config(), spec_universal(26)); }
        let bytes = read_primitive(r, Tag::universal(Tag::VISIBLE_STRING))?;
        validate_visible(bytes)?;
        Ok(VisibleString(bytes))
    }
}

impl Encode for VisibleString<'_> {
    open spec fn obeys_encoding_spec() -> bool {
        true
    }

    open spec fn spec_encoding(&self) -> Result<Seq<u8>> {
        spec_primitive_encoding(spec_universal(26), self.0@)
    }

    fn encode<W: WriteBackend>(&self, w: &mut Writer<W>) -> (res: Result<()>)
        ensures
            primitive_written(*old(w), *final(w), res, spec_universal(26), self.0@),
    {
        w.write_primitive(Tag::universal(Tag::VISIBLE_STRING), self.0)
    }
}

/// ASN.1 `TeletexString` / `T61String`.
#[derive(Clone, Copy, PartialEq, Eq, Debug)]
pub struct TeletexString<'a>(pub &'a [u8]);

impl<'a> View for TeletexString<'a> {
    type V = Seq<u8>;

    open spec fn view(&self) -> Seq<u8> {
        self.0@
    }
}

impl<'a> TeletexString<'a> {
    /// The raw string bytes.
    pub fn as_bytes(&self) -> (b: &'a [u8])
        ensures
            b@ == self.0@,
    {
        self.0
    }

    /// Decode from already-consumed-tag content bytes.
    pub fn decode_content(r: &mut Reader<'a>) -> (res: Result<Self>)
        ensures
            content_read(*old(r), *final(r), res, |b: Seq<u8>| spec_any_content(b)),
    {
        let b = r.read_remaining()?;
        Ok(TeletexString(b))
    }
}

impl<'a> Decode<'a> for TeletexString<'a> {
    open spec fn spec_decode(s: Seq<u8>, pos: int, config: crate::asn1::reader::Config, depth: int) -> crate::asn1::error::Result<(<Self as View>::V, int)> {
        crate::asn1::decode::spec_prim_at(s, pos, config, spec_universal(20), |b: Seq<u8>| spec_any_content(b))
    }

    fn decode(r: &mut Reader<'a>) -> (res: Result<Self>)
        ensures
            primitive_read(*old(r), *final(r), res, spec_universal(20), |b: Seq<u8>| spec_any_content(b)),
    {
        proof { lemma_expect_tlv_progress(r.spec_input(), r.spec_pos(), r.spec_config(), spec_universal(20)); }
        let bytes = read_primitive(r, Tag::universal(Tag::TELETEX_STRING))?;
        Ok(TeletexString(bytes))
    }
}

impl Encode for TeletexString<'_> {
    open spec fn obeys_encoding_spec() -> bool {
        true
    }

    open spec fn spec_encoding(&self) -> Result<Seq<u8>> {
        spec_primitive_encoding(spec_universal(20), self.0@)
    }

    fn encode<W: WriteBackend>(&self, w: &mut Writer<W>) -> (res: Result<()>)
        ensures
            primitive_written(*old(w), *final(w), res, spec_universal(20), self.0@),
    {
        w.write_primitive(Tag::universal(Tag::TELETEX_STRING), self.0)
    }
}

/// ASN.1 `VideotexString`.
#[derive(Clone, Copy, PartialEq, Eq, Debug)]
pub struct VideotexString<'a>(pub &'a [u8]);

impl<'a> View for VideotexString<'a> {
    type V = Seq<u8>;

    open spec fn view(&self) -> Seq<u8> {
        self.0@
    }
}

impl<'a> VideotexString<'a> {
    /// The raw string bytes.
    pub fn as_bytes(&self) -> (b: &'a [u8])
        ensures
            b@ == self.0@,
    {
        self.0
    }

    /// Decode from already-consumed-tag content bytes.
    pub fn decode_content(r: &mut Reader<'a>) -> (res: Result<Self>)
        ensures
            content_read(*old(r), *final(r), res, |b: Seq<u8>| spec_any_content(b)),
    {
        let b = r.read_remaining()?;
        Ok(VideotexString(b))
    }
}

impl<'a> Decode<'a> for VideotexString<'a> {
    open spec fn spec_decode(s: Seq<u8>, pos: int, config: crate::asn1::reader::Config, depth: int) -> crate::asn1::error::Result<(<Self as View>::V, int)> {
        crate::asn1::decode::spec_prim_at(s, pos, config, spec_universal(21), |b: Seq<u8>| spec_any_content(b))
    }

    fn decode(r: &mut Reader<'a>) -> (res: Result<Self>)
        ensures
            primitive_read(*old(r), *final(r), res, spec_universal(21), |b: Seq<u8>| spec_any_content(b)),
    {
        proof { lemma_expect_tlv_progress(r.spec_input(), r.spec_pos(), r.spec_config(), spec_universal(21)); }
        let bytes = read_primitive(r, Tag::universal(Tag::VIDEOTEX_STRING))?;
        Ok(VideotexString(bytes))
    }
}

impl Encode for VideotexString<'_> {
    open spec fn obeys_encoding_spec() -> bool {
        true
    }

    open spec fn spec_encoding(&self) -> Result<Seq<u8>> {
        spec_primitive_encoding(spec_universal(21), self.0@)
    }

    fn encode<W: WriteBackend>(&self, w: &mut Writer<W>) -> (res: Result<()>)
        ensures
            primitive_written(*old(w), *final(w), res, spec_universal(21), self.0@),
    {
        w.write_primitive(Tag::universal(Tag::VIDEOTEX_STRING), self.0)
    }
}

/// ASN.1 `GraphicString`.
#[derive(Clone, Copy, PartialEq, Eq, Debug)]
pub struct GraphicString<'a>(pub &'a [u8]);

impl<'a> View for GraphicString<'a> {
    type V = Seq<u8>;

    open spec fn view(&self) -> Seq<u8> {
        self.0@
    }
}

impl<'a> GraphicString<'a> {
    /// The raw string bytes.
    pub fn as_bytes(&self) -> (b: &'a [u8])
        ensures
            b@ == self.0@,
    {
        self.0
    }

    /// Decode from already-consumed-tag content bytes.
    pub fn decode_content(r: &mut Reader<'a>) -> (res: Result<Self>)
        ensures
            content_read(*old(r), *final(r), res, |b: Seq<u8>| spec_any_content(b)),
    {
        let b = r.read_remaining()?;
        Ok(GraphicString(b))
    }
}

impl<'a> Decode<'a> for GraphicString<'a> {
    open spec fn spec_decode(s: Seq<u8>, pos: int, config: crate::asn1::reader::Config, depth: int) -> crate::asn1::error::Result<(<Self as View>::V, int)> {
        crate::asn1::decode::spec_prim_at(s, pos, config, spec_universal(25), |b: Seq<u8>| spec_any_content(b))
    }

    fn decode(r: &mut Reader<'a>) -> (res: Result<Self>)
        ensures
            primitive_read(*old(r), *final(r), res, spec_universal(25), |b: Seq<u8>| spec_any_content(b)),
    {
        proof { lemma_expect_tlv_progress(r.spec_input(), r.spec_pos(), r.spec_config(), spec_universal(25)); }
        let bytes = read_primitive(r, Tag::universal(Tag::GRAPHIC_STRING))?;
        Ok(GraphicString(bytes))
    }
}

impl Encode for GraphicString<'_> {
    open spec fn obeys_encoding_spec() -> bool {
        true
    }

    open spec fn spec_encoding(&self) -> Result<Seq<u8>> {
        spec_primitive_encoding(spec_universal(25), self.0@)
    }

    fn encode<W: WriteBackend>(&self, w: &mut Writer<W>) -> (res: Result<()>)
        ensures
            primitive_written(*old(w), *final(w), res, spec_universal(25), self.0@),
    {
        w.write_primitive(Tag::universal(Tag::GRAPHIC_STRING), self.0)
    }
}

/// ASN.1 `GeneralString`.
#[derive(Clone, Copy, PartialEq, Eq, Debug)]
pub struct GeneralString<'a>(pub &'a [u8]);

impl<'a> View for GeneralString<'a> {
    type V = Seq<u8>;

    open spec fn view(&self) -> Seq<u8> {
        self.0@
    }
}

impl<'a> GeneralString<'a> {
    /// The raw string bytes.
    pub fn as_bytes(&self) -> (b: &'a [u8])
        ensures
            b@ == self.0@,
    {
        self.0
    }

    /// Decode from already-consumed-tag content bytes.
    pub fn decode_content(r: &mut Reader<'a>) -> (res: Result<Self>)
        ensures
            content_read(*old(r), *final(r), res, |b: Seq<u8>| spec_any_content(b)),
    {
        let b = r.read_remaining()?;
        Ok(GeneralString(b))
    }
}

impl<'a> Decode<'a> for GeneralString<'a> {
    open spec fn spec_decode(s: Seq<u8>, pos: int, config: crate::asn1::reader::Config, depth: int) -> crate::asn1::error::Result<(<Self as View>::V, int)> {
        crate::asn1::decode::spec_prim_at(s, pos, config, spec_universal(27), |b: Seq<u8>| spec_any_content(b))
    }

    fn decode(r: &mut Reader<'a>) -> (res: Result<Self>)
        ensures
            primitive_read(*old(r), *final(r), res, spec_universal(27), |b: Seq<u8>| spec_any_content(b)),
    {
        proof { lemma_expect_tlv_progress(r.spec_input(), r.spec_pos(), r.spec_config(), spec_universal(27)); }
        let bytes = read_primitive(r, Tag::universal(Tag::GENERAL_STRING))?;
        Ok(GeneralString(bytes))
    }
}

impl Encode for GeneralString<'_> {
    open spec fn obeys_encoding_spec() -> bool {
        true
    }

    open spec fn spec_encoding(&self) -> Result<Seq<u8>> {
        spec_primitive_encoding(spec_universal(27), self.0@)
    }

    fn encode<W: WriteBackend>(&self, w: &mut Writer<W>) -> (res: Result<()>)
        ensures
            primitive_written(*old(w), *final(w), res, spec_universal(27), self.0@),
    {
        w.write_primitive(Tag::universal(Tag::GENERAL_STRING), self.0)
    }
}

/// ASN.1 `UniversalString` (UCS-4).
#[derive(Clone, Copy, PartialEq, Eq, Debug)]
pub struct UniversalString<'a>(pub &'a [u8]);

impl<'a> View for UniversalString<'a> {
    type V = Seq<u8>;

    open spec fn view(&self) -> Seq<u8> {
        self.0@
    }
}

impl<'a> UniversalString<'a> {
    /// The raw string bytes.
    pub fn as_bytes(&self) -> (b: &'a [u8])
        ensures
            b@ == self.0@,
    {
        self.0
    }

    /// Decode from already-consumed-tag content bytes.
    pub fn decode_content(r: &mut Reader<'a>) -> (res: Result<Self>)
        ensures
            content_read(*old(r), *final(r), res, |b: Seq<u8>| spec_any_content(b)),
    {
        let b = r.read_remaining()?;
        Ok(UniversalString(b))
    }
}

impl<'a> Decode<'a> for UniversalString<'a> {
    open spec fn spec_decode(s: Seq<u8>, pos: int, config: crate::asn1::reader::Config, depth: int) -> crate::asn1::error::Result<(<Self as View>::V, int)> {
        crate::asn1::decode::spec_prim_at(s, pos, config, spec_universal(28), |b: Seq<u8>| spec_any_content(b))
    }

    fn decode(r: &mut Reader<'a>) -> (res: Result<Self>)
        ensures
            primitive_read(*old(r), *final(r), res, spec_universal(28), |b: Seq<u8>| spec_any_content(b)),
    {
        proof { lemma_expect_tlv_progress(r.spec_input(), r.spec_pos(), r.spec_config(), spec_universal(28)); }
        let bytes = read_primitive(r, Tag::universal(Tag::UNIVERSAL_STRING))?;
        Ok(UniversalString(bytes))
    }
}

impl Encode for UniversalString<'_> {
    open spec fn obeys_encoding_spec() -> bool {
        true
    }

    open spec fn spec_encoding(&self) -> Result<Seq<u8>> {
        spec_primitive_encoding(spec_universal(28), self.0@)
    }

    fn encode<W: WriteBackend>(&self, w: &mut Writer<W>) -> (res: Result<()>)
        ensures
            primitive_written(*old(w), *final(w), res, spec_universal(28), self.0@),
    {
        w.write_primitive(Tag::universal(Tag::UNIVERSAL_STRING), self.0)
    }
}

/// ASN.1 `CHARACTER STRING`.
#[derive(Clone, Copy, PartialEq, Eq, Debug)]
pub struct CharacterString<'a>(pub &'a [u8]);

impl<'a> View for CharacterString<'a> {
    type V = Seq<u8>;

    open spec fn view(&self) -> Seq<u8> {
        self.0@
    }
}

impl<'a> CharacterString<'a> {
    /// The raw string bytes.
    pub fn as_bytes(&self) -> (b: &'a [u8])
        ensures
            b@ == self.0@,
    {
        self.0
    }

    /// Decode from already-consumed-tag content bytes.
    pub fn decode_content(r: &mut Reader<'a>) -> (res: Result<Self>)
        ensures
            content_read(*old(r), *final(r), res, |b: Seq<u8>| spec_any_content(b)),
    {
        let b = r.read_remaining()?;
        Ok(CharacterString(b))
    }
}

impl<'a> Decode<'a> for CharacterString<'a> {
    open spec fn spec_decode(s: Seq<u8>, pos: int, config: crate::asn1::reader::Config, depth: int) -> crate::asn1::error::Result<(<Self as View>::V, int)> {
        crate::asn1::decode::spec_prim_at(s, pos, config, spec_universal(29), |b: Seq<u8>| spec_any_content(b))
    }

    fn decode(r: &mut Reader<'a>) -> (res: Result<Self>)
        ensures
            primitive_read(*old(r), *final(r), res, spec_universal(29), |b: Seq<u8>| spec_any_content(b)),
    {
        proof { lemma_expect_tlv_progress(r.spec_input(), r.spec_pos(), r.spec_config(), spec_universal(29)); }
        let bytes = read_primitive(r, Tag::universal(Tag::CHARACTER_STRING))?;
        Ok(CharacterString(bytes))
    }
}

impl Encode for CharacterString<'_> {
    open spec fn obeys_encoding_spec() -> bool {
        true
    }

    open spec fn spec_encoding(&self) -> Result<Seq<u8>> {
        spec_primitive_encoding(spec_universal(29), self.0@)
    }

    fn encode<W: WriteBackend>(&self, w: &mut Writer<W>) -> (res: Result<()>)
        ensures
            primitive_written(*old(w), *final(w), res, spec_universal(29), self.0@),
    {
        w.write_primitive(Tag::universal(Tag::CHARACTER_STRING), self.0)
    }
}

/// ASN.1 `BMPString` (UCS-2).
#[derive(Clone, Copy, PartialEq, Eq, Debug)]
pub struct BmpString<'a>(pub &'a [u8]);

impl<'a> View for BmpString<'a> {
    type V = Seq<u8>;

    open spec fn view(&self) -> Seq<u8> {
        self.0@
    }
}

impl<'a> BmpString<'a> {
    /// The raw string bytes.
    pub fn as_bytes(&self) -> (b: &'a [u8])
        ensures
            b@ == self.0@,
    {
        self.0
    }

    /// Decode from already-consumed-tag content bytes.
    pub fn decode_content(r: &mut Reader<'a>) -> (res: Result<Self>)
        ensures
            content_read(*old(r), *final(r), res, |b: Seq<u8>| spec_any_content(b)),
    {
        let b = r.read_remaining()?;
        Ok(BmpString(b))
    }
}

impl<'a> Decode<'a> for BmpString<'a> {
    open spec fn spec_decode(s: Seq<u8>, pos: int, config: crate::asn1::reader::Config, depth: int) -> crate::asn1::error::Result<(<Self as View>::V, int)> {
        crate::asn1::decode::spec_prim_at(s, pos, config, spec_universal(30), |b: Seq<u8>| spec_any_content(b))
    }

    fn decode(r: &mut Reader<'a>) -> (res: Result<Self>)
        ensures
            primitive_read(*old(r), *final(r), res, spec_universal(30), |b: Seq<u8>| spec_any_content(b)),
    {
        proof { lemma_expect_tlv_progress(r.spec_input(), r.spec_pos(), r.spec_config(), spec_universal(30)); }
        let bytes = read_primitive(r, Tag::universal(Tag::BMP_STRING))?;
        Ok(BmpString(bytes))
    }
}

impl Encode for BmpString<'_> {
    open spec fn obeys_encoding_spec() -> bool {
        true
    }

    open spec fn spec_encoding(&self) -> Result<Seq<u8>> {
        spec_primitive_encoding(spec_universal(30), self.0@)
    }

    fn encode<W: WriteBackend>(&self, w: &mut Writer<W>) -> (res: Result<()>)
        ensures
            primitive_written(*old(w), *final(w), res, spec_universal(30), self.0@),
    {
        w.write_primitive(Tag::universal(Tag::BMP_STRING), self.0)
    }
}

/// ASN.1 `ObjectDescriptor`.
#[derive(Clone, Copy, PartialEq, Eq, Debug)]
pub struct ObjectDescriptor<'a>(pub &'a [u8]);

impl<'a> View for ObjectDescriptor<'a> {
    type V = Seq<u8>;

    open spec fn view(&self) -> Seq<u8> {
        self.0@
    }
}

impl<'a> ObjectDescriptor<'a> {
    /// The raw string bytes.
    pub fn as_bytes(&self) -> (b: &'a [u8])
        ensures
            b@ == self.0@,
    {
        self.0
    }

    /// Decode from already-consumed-tag content bytes.
    pub fn decode_content(r: &mut Reader<'a>) -> (res: Result<Self>)
        ensures
            content_read(*old(r), *final(r), res, |b: Seq<u8>| spec_any_content(b)),
    {
        let b = r.read_remaining()?;
        Ok(ObjectDescriptor(b))
    }
}

impl<'a> Decode<'a> for ObjectDescriptor<'a> {
    open spec fn spec_decode(s: Seq<u8>, pos: int, config: crate::asn1::reader::Config, depth: int) -> crate::asn1::error::Result<(<Self as View>::V, int)> {
        crate::asn1::decode::spec_prim_at(s, pos, config, spec_universal(7), |b: Seq<u8>| spec_any_content(b))
    }

    fn decode(r: &mut Reader<'a>) -> (res: Result<Self>)
        ensures
            primitive_read(*old(r), *final(r), res, spec_universal(7), |b: Seq<u8>| spec_any_content(b)),
    {
        proof { lemma_expect_tlv_progress(r.spec_input(), r.spec_pos(), r.spec_config(), spec_universal(7)); }
        let bytes = read_primitive(r, Tag::universal(Tag::OBJECT_DESCRIPTOR))?;
        Ok(ObjectDescriptor(bytes))
    }
}

impl Encode for ObjectDescriptor<'_> {
    open spec fn obeys_encoding_spec() -> bool {
        true
    }

    open spec fn spec_encoding(&self) -> Result<Seq<u8>> {
        spec_primitive_encoding(spec_universal(7), self.0@)
    }

    fn encode<W: WriteBackend>(&self, w: &mut Writer<W>) -> (res: Result<()>)
        ensures
            primitive_written(*old(w), *final(w), res, spec_universal(7), self.0@),
    {
        w.write_primitive(Tag::universal(Tag::OBJECT_DESCRIPTOR), self.0)
    }
}

} // verus!

verus! {

/// Digits read after a two-byte prefix are the digits read without it.
proof fn lemma_digits_shift(p: Seq<u8>, b: Seq<u8>, i: int, n: nat)
    requires
        p.len() == 2,
        0 <= i,
    ensures
        spec_digits(p + b, i + 2, n) == spec_digits(b, i, n),
    decreases n,
{
    if n > 0 {
        lemma_digits_shift(p, b, i, (n - 1) as nat);
        let k = i + n - 1;
        if 0 <= k < b.len() {
            assert((p + b)[k + 2] == b[k]);
        }
    }
}

/// A digit run read after a two-byte prefix is the run read without it.
proof fn lemma_digit_run_shift(p: Seq<u8>, b: Seq<u8>, i: int)
    requires
        p.len() == 2,
        0 <= i,
    ensures
        spec_digit_run(p + b, i + 2) == spec_digit_run(b, i),
    decreases b.len() - i,
{
    if i < b.len() {
        assert((p + b)[i + 2] == b[i]);
        lemma_digit_run_shift(p, b, i + 1);
    }
}

/// The zone read after a two-byte prefix is the zone read without it.
proof fn lemma_zone_shift(p: Seq<u8>, b: Seq<u8>, j: int)
    requires
        p.len() == 2,
        0 <= j,
    ensures
        spec_zone(p + b, j + 2) == spec_zone(b, j),
{
    lemma_digits_shift(p, b, j + 1, 2);
    lemma_digits_shift(p, b, j + 3, 2);
    if j < b.len() {
        assert((p + b)[j + 2] == b[j]);
    }
}

/// Bytes below 0x80 in front of `rest` keep its UTF-8 validity.
proof fn lemma_ascii_prefix_utf8(c: u8, rest: Seq<u8>)
    requires
        c < 0x80,
    ensures
        vstd::utf8::valid_utf8(seq![c] + rest) == vstd::utf8::valid_utf8(rest),
{
    let g = seq![c] + rest;
    assert(g[0] == c);
    assert(vstd::utf8::pop_first_scalar(g) =~= rest);
}

/// Bytes below 0x80 are valid UTF-8.
proof fn lemma_ascii_utf8(b: Seq<u8>)
    requires
        forall|k: int| 0 <= k < b.len() ==> #[trigger] b[k] < 0x80,
    ensures
        vstd::utf8::valid_utf8(b),
    decreases b.len(),
{
    if b.len() > 0 {
        let rest = b.drop_first();
        assert forall|k: int| 0 <= k < rest.len() implies #[trigger] rest[k] < 0x80 by {
            assert(rest[k] == b[k + 1]);
        }
        lemma_ascii_utf8(rest);
        lemma_ascii_prefix_utf8(b[0], rest);
        assert(seq![b[0]] + rest =~= b);
    }
}

/// The value of the two decimal digits at `k` and `k + 1`.
pub open spec fn two_digits(b: Seq<u8>, k: int) -> int {
    (b[k] - 0x30) * 10 + (b[k + 1] - 0x30)
}

/// Law (UTCTime fields): a value `YYMMDDhhmmssZ` of digits denotes year
/// 19YY when YY is 50 or more and 20YY otherwise, and the month, day, hour,
/// minute and second its digit pairs give, in UTC; it is refused when one of
/// them is out of range.
pub proof fn lemma_utc_time_fields(b: Seq<u8>)
    requires
        b.len() == 13,
        forall|k: int| 0 <= k < 12 ==> 0x30 <= #[trigger] b[k] <= 0x39,
        b[12] == 0x5a,
    ensures
        ({
            let yy = two_digits(b, 0);
            let in_range = 1 <= two_digits(b, 2) <= 12 && 1 <= two_digits(b, 4) <= 31 && two_digits(b, 6) <= 23
                && two_digits(b, 8) <= 59 && two_digits(b, 10) <= 59;
            &&& in_range ==> spec_parse_time(b, true) == Ok::<DateTime, Error>(
                DateTime {
                    year: (if yy >= 50 { 1900 + yy } else { 2000 + yy }) as u16,
                    month: two_digits(b, 2) as u8,
                    day: two_digits(b, 4) as u8,
                    hour: two_digits(b, 6) as u8,
                    minute: two_digits(b, 8) as u8,
                    second: two_digits(b, 10) as u8,
                    frac_digits: 0,
                    tz_offset_minutes: None,
                },
            )
            &&& !in_range ==> spec_parse_time(b, true) == Err::<DateTime, Error>(Error::BadTime)
        }),
{
    assert forall|k: int| 0 <= k < b.len() implies #[trigger] b[k] < 0x80 by {
        if k < 12 {
            assert(0x30 <= b[k] <= 0x39);
        }
    }
    lemma_ascii_utf8(b);
    assert forall|k: int| 0 <= k < 11 implies spec_digits(b, k, 2) == Some(two_digits(b, k) as nat) by {
        assert(0x30 <= b[k] <= 0x39 && 0x30 <= b[k + 1] <= 0x39);
        reveal_with_fuel(spec_digits, 3);
    }
    assert(spec_digits(b, 0, 2) == Some(two_digits(b, 0) as nat));
    assert(spec_digits(b, 2, 2) == Some(two_digits(b, 2) as nat));
    assert(spec_digits(b, 4, 2) == Some(two_digits(b, 4) as nat));
    assert(spec_digits(b, 6, 2) == Some(two_digits(b, 6) as nat));
    assert(spec_digits(b, 8, 2) == Some(two_digits(b, 8) as nat));
    assert(spec_digits(b, 10, 2) == Some(two_digits(b, 10) as nat));
}

/// The two century digits that a two-digit UTCTime year `yy` stands for.
pub open spec fn spec_century(yy: nat) -> Seq<u8> {
    if yy >= 50 {
        seq![0x31u8, 0x39u8]
    } else {
        seq![0x32u8, 0x30u8]
    }
}

/// The fields after a two-digit year read the same as those after a
/// four-digit year with two more bytes in front.
proof fn lemma_time_fields_shift(p: Seq<u8>, b: Seq<u8>, year: nat)
    requires
        p.len() == 2,
    ensures
        spec_time_fields(p + b, year, 4) == spec_time_fields(b, year, 2),
{
    let g = p + b;
    lemma_digits_shift(p, b, 2, 2);
    lemma_digits_shift(p, b, 4, 2);
    lemma_digits_shift(p, b, 6, 2);
    lemma_digits_shift(p, b, 8, 2);
    lemma_digits_shift(p, b, 10, 2);
    if 12 < b.len() {
        assert(g[14] == b[12]);
    }
    lemma_digit_run_shift(p, b, 13);
    let k = spec_digit_run(b, 13);
    lemma_zone_shift(p, b, 12);
    lemma_zone_shift(p, b, (13 + k) as int);
}

/// The century digits and a two-digit year read as the four-digit year.
proof fn lemma_century_year(b: Seq<u8>, yy: nat)
    requires
        spec_digits(b, 0, 2) == Some(yy),
    ensures
        spec_digits(spec_century(yy) + b, 0, 4) == Some(if yy >= 50 { 1900 + yy } else { 2000 + yy }),
{
    let g = spec_century(yy) + b;
    reveal_with_fuel(spec_digits, 5);
    assert(g[0] == spec_century(yy)[0] && g[1] == spec_century(yy)[1] && g[2] == b[0] && g[3] == b[1]);
}

/// Law (UTCTime is GeneralizedTime without the century): a UTCTime value
/// with its two-digit year `yy` (50..99 meaning 19yy, else 20yy) parses as
/// the GeneralizedTime value with the century digits in front.
pub proof fn lemma_generalized_matches_utc(b: Seq<u8>, yy: nat)
    requires
        spec_digits(b, 0, 2) == Some(yy),
    ensures
        spec_parse_time(spec_century(yy) + b, false) == spec_parse_time(b, true),
{
    let p = spec_century(yy);
    let g = p + b;
    // UTF-8 validity is unchanged by the two ASCII digits.
    lemma_ascii_prefix_utf8(p[1], b);
    assert(seq![p[1]] + b =~= g.drop_first());
    lemma_ascii_prefix_utf8(p[0], seq![p[1]] + b);
    assert(seq![p[0]] + (seq![p[1]] + b) =~= g);
    lemma_century_year(b, yy);
    lemma_time_fields_shift(p, b, if yy >= 50 { 1900 + yy } else { 2000 + yy });
}

} // verus!
