//! ASN.1 [`Tag`] and [`Class`] types.

use crate::asn1::error::{Error, Result};
use crate::asn1::reader::{parsed, Reader};
use crate::asn1::writer::{lemma_wrote_then, wrote, WriteBackend, Writer};
use vstd::prelude::*;

verus! {

broadcast use crate::asn1::reader::Reader::lemma_nonneg;

/// ASN.1 tag class.
#[derive(Clone, Copy, PartialEq, Eq, Debug, Hash, Structural)]
pub enum Class {
    /// The ASN.1 universal (built-in) tag space.
    Universal,
    /// Application-specific tags.
    Application,
    /// Context-specific tags (e.g. IMPLICIT/EXPLICIT fields).
    Context,
    /// Private-use tags.
    Private,
}

/// The class whose two-bit encoding is `bits` (only the values 0..=3 name a class).
pub open spec fn spec_class_from_bits(bits: int) -> Option<Class> {
    if bits == 0 {
        Some(Class::Universal)
    } else if bits == 1 {
        Some(Class::Application)
    } else if bits == 2 {
        Some(Class::Context)
    } else if bits == 3 {
        Some(Class::Private)
    } else {
        None
    }
}

/// The two-bit encoding of a class.
pub open spec fn spec_class_bits(c: Class) -> u8 {
    match c {
        Class::Universal => 0,
        Class::Application => 1,
        Class::Context => 2,
        Class::Private => 3,
    }
}

impl Class {
    /// Recover a `Class` from its two-bit encoding.
    pub fn from_bits(bits: u8) -> (r: Option<Class>)
        ensures
            r == spec_class_from_bits(bits as int),
    {
        match bits {
            0 => Some(Class::Universal),
            1 => Some(Class::Application),
            2 => Some(Class::Context),
            3 => Some(Class::Private),
            _ => None,
        }
    }

    /// The two-bit encoding of this class.
    pub fn to_bits(self) -> (r: u8)
        ensures
            r == spec_class_bits(self),
            r < 4,
            spec_class_from_bits(r as int) == Some(self),
    {
        match self {
            Class::Universal => 0,
            Class::Application => 1,
            Class::Context => 2,
            Class::Private => 3,
        }
    }
}

/// An ASN.1 tag: class + primitive/constructed flag + tag number.
#[derive(Clone, Copy, PartialEq, Eq, Debug, Hash, Structural)]
pub struct Tag {
    /// Tag class.
    pub class: Class,
    /// Whether the value is constructed (vs. primitive).
    pub constructed: bool,
    /// The tag number within its class.
    pub number: u32,
}

/// The universal tag `number` (primitive).
pub open spec fn spec_universal(number: u32) -> Tag {
    Tag { class: Class::Universal, constructed: false, number }
}

/// The universal tag `number` (constructed).
pub open spec fn spec_universal_constructed(number: u32) -> Tag {
    Tag { class: Class::Universal, constructed: true, number }
}

/// The context-specific tag `number`.
pub open spec fn spec_context(constructed: bool, number: u32) -> Tag {
    Tag { class: Class::Context, constructed, number }
}

/// Continue a high-tag-number decode at `pos`: `number` is the value of the
/// base-128 digits read so far and `shifted` tells whether a continuation
/// byte has been seen. Yields the tag number and the offset after it.
pub open spec fn spec_high_tag_number(s: Seq<u8>, pos: int, number: int, shifted: bool) -> Result<(u32, int)>
    decreases s.len() - pos,
{
    if pos < 0 || pos >= s.len() {
        Err(Error::Truncated)
    } else if number > 0x1ff_ffff {
        Err(Error::UnsupportedTagNumber(0xffff_ffff))
    } else {
        let b = s[pos];
        let n = number * 128 + (b % 128);
        if b < 128 {
            if n < 31 && shifted {
                Err(Error::InvalidTag)
            } else {
                Ok((n as u32, pos + 1))
            }
        } else {
            spec_high_tag_number(s, pos + 1, n, true)
        }
    }
}

/// The tag encoded at offset `pos` of `s`, and the offset just after it.
pub open spec fn spec_decode_tag(s: Seq<u8>, pos: int) -> Result<(Tag, int)> {
    if pos < 0 || pos >= s.len() {
        Err(Error::Truncated)
    } else {
        let first = s[pos];
        let class = spec_class_from_bits((first / 64) as int).unwrap();
        let constructed = (first / 32) % 2 == 1;
        let low = first % 32;
        if low < 31 {
            Ok((Tag { class, constructed, number: low as u32 }, pos + 1))
        } else {
            match spec_high_tag_number(s, pos + 1, 0, false) {
                Ok((n, p)) => Ok((Tag { class, constructed, number: n }, p)),
                Err(e) => Err(e),
            }
        }
    }
}

/// The identifier octets of `t` (single byte for numbers below 31,
/// base-128 continuation bytes otherwise).
pub open spec fn spec_encode_tag(t: Tag) -> Seq<u8> {
    let first = spec_class_bits(t.class) * 64 + (if t.constructed { 32int } else { 0int });
    if t.number < 31 {
        seq![(first + t.number) as u8]
    } else {
        seq![(first + 31) as u8] + spec_base128(t.number as nat)
    }
}

/// Base-128 big-endian digits of `n` (at least one digit); every digit but
/// the last carries the continuation bit 0x80.
pub open spec fn spec_base128(n: nat) -> Seq<u8>
    decreases n,
{
    if n < 128 {
        seq![n as u8]
    } else {
        spec_base128_prefix(n / 128) + seq![(n % 128) as u8]
    }
}

/// Base-128 digits of `n` with the continuation bit on every digit (empty for 0).
pub open spec fn spec_base128_prefix(n: nat) -> Seq<u8>
    decreases n,
{
    if n == 0 {
        Seq::empty()
    } else {
        spec_base128_prefix(n / 128) + seq![(0x80 + n % 128) as u8]
    }
}

impl Tag {
    /// Universal tag number of BOOLEAN.
    pub const BOOLEAN: u32 = 1;
    /// INTEGER.
    pub const INTEGER: u32 = 2;
    /// BIT STRING.
    pub const BIT_STRING: u32 = 3;
    /// OCTET STRING.
    pub const OCTET_STRING: u32 = 4;
    /// NULL.
    pub const NULL: u32 = 5;
    /// OBJECT IDENTIFIER.
    pub const OBJECT_IDENTIFIER: u32 = 6;
    /// OBJECT DESCRIPTOR.
    pub const OBJECT_DESCRIPTOR: u32 = 7;
    /// EXTERNAL.
    pub const EXTERNAL: u32 = 8;
    /// REAL.
    pub const REAL: u32 = 9;
    /// ENUMERATED.
    pub const ENUMERATED: u32 = 10;
    /// EMBEDDED PDV.
    pub const EMBEDDED_PDV: u32 = 11;
    /// UTF8String.
    pub const UTF8_STRING: u32 = 12;
    /// RELATIVE-OID.
    pub const RELATIVE_OID: u32 = 13;
    /// SEQUENCE / SEQUENCE OF.
    pub const SEQUENCE: u32 = 16;
    /// SET / SET OF.
    pub const SET: u32 = 17;
    /// NumericString.
    pub const NUMERIC_STRING: u32 = 18;
    /// PrintableString.
    pub const PRINTABLE_STRING: u32 = 19;
    /// TeletexString / T61String.
    pub const TELETEX_STRING: u32 = 20;
    /// VideotexString.
    pub const VIDEOTEX_STRING: u32 = 21;
    /// IA5String.
    pub const IA5_STRING: u32 = 22;
    /// UTCTime.
    pub const UTC_TIME: u32 = 23;
    /// GeneralizedTime.
    pub const GENERALIZED_TIME: u32 = 24;
    /// GraphicString.
    pub const GRAPHIC_STRING: u32 = 25;
    /// VisibleString / ISO646String.
    pub const VISIBLE_STRING: u32 = 26;
    /// GeneralString.
    pub const GENERAL_STRING: u32 = 27;
    /// UniversalString.
    pub const UNIVERSAL_STRING: u32 = 28;
    /// CHARACTER STRING.
    pub const CHARACTER_STRING: u32 = 29;
    /// BMPString.
    pub const BMP_STRING: u32 = 30;

    /// Construct a tag.
    pub fn new(class: Class, constructed: bool, number: u32) -> (t: Self)
        ensures
            t == (Tag { class, constructed, number }),
    {
        Tag { class, constructed, number }
    }

    /// Construct a universal tag.
    pub fn universal(number: u32) -> (t: Self)
        ensures
            t == spec_universal(number),
    {
        Tag::new(Class::Universal, false, number)
    }

    /// Construct a universal *constructed* tag (e.g. SEQUENCE / SET).
    pub fn universal_constructed(number: u32) -> (t: Self)
        ensures
            t == spec_universal_constructed(number),
    {
        Tag::new(Class::Universal, true, number)
    }

    /// Construct a context-specific tag.
    pub fn context(constructed: bool, number: u32) -> (t: Self)
        ensures
            t == spec_context(constructed, number),
    {
        Tag::new(Class::Context, constructed, number)
    }

    /// Returns `true` if this is the universal tag `number` (either form).
    pub fn is_universal(self, number: u32) -> (r: bool)
        ensures
            r == (self.class == Class::Universal && self.number == number),
    {
        self.class == Class::Universal && self.number == number
    }

    /// The single identifier byte of a tag whose number is below 31 (the
    /// high-tag-number form needs several bytes; use `encode`).
    pub fn to_byte(self) -> (b: u8)
        requires
            self.number < 31,
        ensures
            seq![b] == spec_encode_tag(self),
    {
        let c = self.class.to_bits();
        let k: u8 = if self.constructed { 0x20 } else { 0x00 };
        let n = self.number as u8;
        assert((c << 6u8) | k | (n & 0x1f) == c * 64 + k + n) by (bit_vector)
            requires c < 4, k == 0 || k == 0x20, n < 31;
        (c << 6) | k | (n & 0x1f)
    }

    /// Decode a tag from `r`.
    pub fn decode(r: &mut Reader<'_>) -> (res: Result<Self>)
        ensures
            parsed(*old(r), *final(r), res, spec_decode_tag(old(r).spec_input(), old(r).spec_pos())),
    {
        let ghost s = r.spec_input();
        let first = r.read_u8()?;
        let bits = first >> 6;
        assert(first >> 6 == first / 64) by (bit_vector);
        let class = match Class::from_bits(bits) {
            Some(c) => c,
            None => {
                return Err(Error::InvalidTag);
            },
        };
        let constructed = (first & 0x20) != 0;
        assert(((first & 0x20) != 0) == ((first / 32) % 2 == 1)) by (bit_vector);
        let low = first & 0x1f;
        assert(first & 0x1f == first % 32) by (bit_vector);
        let number = if low < 31 {
            low as u32
        } else {
            decode_high_tag_number(r)?
        };
        Ok(Tag { class, constructed, number })
    }
}

/// A decoded tag number ends after its start and inside the input.
pub proof fn lemma_high_tag_number_progress(s: Seq<u8>, pos: int, number: int, shifted: bool)
    ensures
        spec_high_tag_number(s, pos, number, shifted) matches Ok((_, p)) ==> pos < p <= s.len(),
    decreases s.len() - pos,
{
    if 0 <= pos < s.len() && number <= 0x1ff_ffff && s[pos] >= 128 {
        lemma_high_tag_number_progress(s, pos + 1, number * 128 + (s[pos] % 128), true);
    }
}

/// A decoded tag ends after its start and inside the input.
pub proof fn lemma_decode_tag_progress(s: Seq<u8>, pos: int)
    ensures
        spec_decode_tag(s, pos) matches Ok((_, p)) ==> pos < p <= s.len(),
{
    lemma_high_tag_number_progress(s, pos + 1, 0, false);
}

/// Every number is its low 7 bits preceded by the continuation digits of
/// the rest.
pub proof fn lemma_base128_split(n: nat)
    ensures
        spec_base128(n) == spec_base128_prefix(n / 128) + seq![(n % 128) as u8],
{
    if n < 128 {
        assert(spec_base128_prefix(0) =~= Seq::<u8>::empty());
        assert(spec_base128(n) =~= spec_base128_prefix(n / 128) + seq![(n % 128) as u8]);
    }
}

impl Tag {
    /// Encode the tag into `w`, using the multi-byte high-tag-number form for
    /// numbers of 31 and above.
    pub fn encode<B: WriteBackend>(&self, w: &mut Writer<B>) -> (res: Result<()>)
        ensures
            res is Ok,
            wrote(*old(w), *final(w), spec_encode_tag(*self)),
    {
        let c = self.class.to_bits();
        let k: u8 = if self.constructed { 0x20 } else { 0x00 };
        let first = (c << 6) | k;
        assert((c << 6u8) | k == c * 64 + k) by (bit_vector)
            requires c < 4, k == 0 || k == 0x20;
        if self.number < 31 {
            let n = self.number as u8;
            assert(((c << 6u8) | k) & 0x1f == 0) by (bit_vector)
                requires c < 4, k == 0 || k == 0x20;
            assert(first | (n & 0x1f) == first + n) by (bit_vector)
                requires first & 0x1f == 0, n < 31;
            w.write_u8(first | (n & 0x1f))
        } else {
            assert(((c << 6u8) | k) | 0x1f == c * 64 + k + 31) by (bit_vector)
                requires c < 4, k == 0 || k == 0x20;
            let ghost w0 = *w;
            w.write_u8(first | 0x1f)?;
            let ghost w1 = *w;
            let r = encode_high_tag_number(self.number, w);
            proof {
                lemma_wrote_then(w0, w1, *w, seq![(first | 0x1f) as u8], spec_base128(self.number as nat));
                assert(seq![(first | 0x1f) as u8] + spec_base128(self.number as nat) =~= spec_encode_tag(*self));
            }
            r
        }
    }
}

/// Write the base-128 digits of a high tag number.
fn encode_high_tag_number<B: WriteBackend>(number: u32, w: &mut Writer<B>) -> (res: Result<()>)
    ensures
        res is Ok,
        wrote(*old(w), *final(w), spec_base128(number as nat)),
{
    let mut buf = [0u8; 5];
    let mut i: usize = 5;
    let mut number = number;
    let ghost n0 = number as nat;
    proof { lemma_base128_split(n0); }
    assert(number & 0x7f == number % 128) by (bit_vector);
    assert(number >> 7u32 == number / 128) by (bit_vector);
    buf[i - 1] = (number & 0x7f) as u8;
    number >>= 7;
    assert(spec_pow128(4) == 0x1000_0000) by {
        reveal_with_fuel(spec_pow128, 5);
    }
    assert(buf@.subrange(4, 5) =~= seq![(n0 % 128) as u8]);
    while number > 0
        invariant
            1 <= i <= 5,
            spec_base128(n0) == spec_base128_prefix(number as nat) + buf@.subrange(i - 1, 5),
            (number as int) < spec_pow128(i - 1),
        decreases number,
    {
        proof {
            lemma_pow128_ge1(i - 1);
            if i == 1 {
                assert(false);
            }
            lemma_div128_below(number as nat, (i - 2) as nat);
        }
        assert((0x80 | (number & 0x7f)) as u8 == 0x80 + number % 128) by (bit_vector);
        assert(number >> 7u32 == number / 128) by (bit_vector);
        let ghost prev = buf@;
        i -= 1;
        buf[i - 1] = (0x80 | (number & 0x7f)) as u8;
        assert(buf@.subrange(i - 1, 5) =~= seq![(0x80 + number % 128) as u8] + prev.subrange(i as int, 5));
        assert(spec_base128_prefix(number as nat) =~= spec_base128_prefix((number / 128) as nat) + seq![(0x80 + number % 128) as u8]);
        number >>= 7;
    }
    assert(spec_base128_prefix(0) =~= Seq::<u8>::empty());
    assert(spec_base128(n0) =~= buf@.subrange(i - 1, 5));
    w.write_bytes(&buf[i - 1..5])
}

/// 128 to the power `k`.
pub open spec fn spec_pow128(k: int) -> int
    decreases k,
{
    if k <= 0 {
        1
    } else {
        128 * spec_pow128(k - 1)
    }
}

proof fn lemma_pow128_ge1(k: int)
    ensures
        spec_pow128(k) >= 1,
    decreases k,
{
    if k > 0 {
        lemma_pow128_ge1(k - 1);
    }
}

proof fn lemma_div128_below(v: nat, k: nat)
    requires
        v < spec_pow128(k + 1int),
    ensures
        v / 128 < spec_pow128(k as int),
{
    let p = spec_pow128(k as int);
    assert(spec_pow128(k + 1int) == 128 * p);
    assert(v / 128 < p) by (nonlinear_arith)
        requires v < 128 * p, p >= 1;
    lemma_pow128_ge1(k as int);
}

/// Decode the base-128 tag number that follows a `0x1f` identifier byte.
#[verifier::loop_isolation(false)]
fn decode_high_tag_number(r: &mut Reader<'_>) -> (res: Result<u32>)
    ensures
        parsed(*old(r), *final(r), res, spec_high_tag_number(old(r).spec_input(), old(r).spec_pos(), 0, false)),
{
    let ghost s = r.spec_input();
    let ghost target = spec_high_tag_number(s, r.spec_pos(), 0, false);
    let mut number: u32 = 0;
    let mut shifted = false;
    let _ = r.is_empty();
    loop
        invariant
            r.same_source(*old(r)),
            old(r).spec_pos() <= r.spec_pos(),
            spec_high_tag_number(s, r.spec_pos(), number as int, shifted) == target,
            s == old(r).spec_input(),
            r.spec_pos() <= s.len(),
        decreases s.len() - r.spec_pos(),
    {
        let b = r.read_u8()?;
        if number > 0x01ff_ffff {
            return Err(Error::UnsupportedTagNumber(u32::MAX));
        }
        let ghost old_number = number;
        assert((number << 7u32) | ((b & 0x7f) as u32) == number * 128 + b % 128) by (bit_vector)
            requires number <= 0x1ff_ffff;
        assert((b & 0x80 == 0) == (b < 128)) by (bit_vector);
        number = (number << 7) | (b & 0x7f) as u32;
        if b & 0x80 == 0 {
            if number < 31 && shifted {
                return Err(Error::InvalidTag);
            }
            return Ok(number);
        }
        shifted = true;
    }
}

} // verus!
