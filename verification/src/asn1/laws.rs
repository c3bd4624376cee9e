//! What the reader makes of what the writer writes.
//!
//! A primitive element written as tag, minimal definite length and content
//! reads back as the same tag, the same length and the same content, under
//! every encoding rule whose size guard admits it.

use crate::asn1::length::{spec_be_bytes, spec_be_word, spec_byte_count, spec_decode_length, spec_encode_length, Length};
use crate::asn1::reader::{lemma_scan_eoc_shift, spec_read_tlv, spec_scan_eoc, Config, EncodingRule};
use crate::asn1::tag::{
    spec_base128, spec_base128_prefix, spec_class_bits, spec_decode_tag, spec_encode_tag,
    spec_high_tag_number, Tag,
};
use crate::asn1::writer::spec_encode_primitive;
use crate::asn1::types::{
    lemma_be_uint_bound, lemma_be_uint_first, lemma_be_uint_sign, lemma_pow256_mono, spec_as_i64, spec_be_uint, spec_int_minimal,
    spec_int_value,
};
use crate::asn1::util::{spec_fits_bytes, spec_min_len_from};
use crate::asn1::length::spec_pow256;
use crate::asn1::decode::{spec_filling, spec_first_clear_from, spec_prim_at, spec_tag_len, Decode};
use crate::asn1::reader::spec_default_config;
use crate::asn1::tag::spec_universal;
use crate::asn1::types::{spec_integer_content, spec_primitive_encoding, Integer};
use vstd::prelude::*;

verus! {

/// Reading continuation digits: the digits of `m` with the continuation bit
/// set leave the reader holding `m`.
proof fn lemma_read_prefix_digits(m: nat, s: Seq<u8>, pos: int)
    requires
        m <= 0x1ff_ffff,
        0 <= pos,
        pos + spec_base128_prefix(m).len() <= s.len(),
        s.subrange(pos, pos + spec_base128_prefix(m).len()) == spec_base128_prefix(m),
    ensures
        spec_high_tag_number(s, pos, 0, false) == spec_high_tag_number(
            s,
            pos + spec_base128_prefix(m).len(),
            m as int,
            m > 0,
        ),
    decreases m,
{
    if m > 0 {
        let q = m / 128;
        let pq = spec_base128_prefix(q);
        let pm = spec_base128_prefix(m);
        assert(pm == pq + seq![(0x80 + m % 128) as u8]);
        assert(s.subrange(pos, pos + pq.len()) =~= pm.subrange(0, pq.len() as int));
        assert(pm.subrange(0, pq.len() as int) =~= pq);
        lemma_read_prefix_digits(q, s, pos);
        let at = pos + pq.len();
        assert(s[at] == pm[pq.len() as int]);
        assert(s[at] == (0x80 + m % 128) as u8);
        assert((q as int) * 128 + (s[at] % 128) == m);
    } else {
        assert(spec_base128_prefix(0) =~= Seq::<u8>::empty());
    }
}

/// Reading back a tag the writer wrote gives the same tag, and stops right
/// after it.
pub proof fn lemma_tag_roundtrip(t: Tag, rest: Seq<u8>)
    ensures
        spec_decode_tag(spec_encode_tag(t) + rest, 0) == Ok::<(Tag, int), crate::asn1::error::Error>(
            (t, spec_encode_tag(t).len() as int),
        ),
{
    let e = spec_encode_tag(t);
    let s = e + rest;
    let cb = spec_class_bits(t.class) as int;
    let k: int = if t.constructed {
        32
    } else {
        0
    };
    let first = cb * 64 + k;
    if t.number < 31 {
        let v = first + t.number;
        assert(s[0] == v as u8);
        assert(v / 64 == cb);
        assert((v / 32) % 2 == 1 <==> t.constructed);
        assert(v % 32 == t.number);
    } else {
        let n = t.number as nat;
        let m = n / 128;
        let pm = spec_base128_prefix(m);
        crate::asn1::tag::lemma_base128_split(n);
        assert(spec_base128(n) == pm + seq![(n % 128) as u8]);
        assert(e == seq![(first + 31) as u8] + (pm + seq![(n % 128) as u8]));
        let v = first + 31;
        assert(s[0] == v as u8);
        assert(v / 64 == cb);
        assert((v / 32) % 2 == 1 <==> t.constructed);
        assert(v % 32 == 31);
        assert(s.subrange(1, 1 + pm.len() as int) =~= pm);
        lemma_read_prefix_digits(m, s, 1);
        let at = 1 + pm.len() as int;
        assert(s[at] == (n % 128) as u8);
        assert(m * 128 + (n % 128) == n);
    }
}

/// The minimal big-endian bytes of a machine word read back as that word.
proof fn lemma_be_word_of_bytes(n: nat)
    requires
        n <= usize::MAX,
    ensures
        spec_be_word(spec_be_bytes(n)) == n,
        spec_be_bytes(n).len() == spec_byte_count(n),
    decreases n,
{
    if n > 0 {
        lemma_be_word_of_bytes(n / 256);
        let b = spec_be_bytes(n);
        assert(b.drop_last() =~= spec_be_bytes(n / 256));
        let x: usize = (n / 256) as usize;
        let y: usize = (n % 256) as usize;
        let z: usize = n as usize;
        assert(x * 256 + y == z);
        assert((x << 8usize) | y == z) by (bit_vector)
            requires
                y < 256,
                x * 256 + y == z,
        ;
    }
}

/// The minimal big-endian bytes of a positive number start with a non-zero
/// octet.
proof fn lemma_be_bytes_lead(n: nat)
    requires
        n > 0,
    ensures
        spec_be_bytes(n).len() >= 1,
        spec_be_bytes(n)[0] != 0,
    decreases n,
{
    if n / 256 > 0 {
        lemma_be_bytes_lead(n / 256);
    } else {
        assert(spec_be_bytes(n / 256) =~= Seq::<u8>::empty());
        assert(spec_be_bytes(n) =~= seq![(n % 256) as u8]);
    }
}

/// A number below 2^(8k) takes at most k bytes.
proof fn lemma_byte_count_bound(n: nat, k: nat)
    requires
        n < vstd::arithmetic::power::pow(256, k),
    ensures
        spec_byte_count(n) <= k,
    decreases k,
{
    if n > 0 {
        if k == 0 {
            vstd::arithmetic::power::lemma_pow0(256);
        } else {
            vstd::arithmetic::power::lemma_pow_adds(256, 1, (k - 1) as nat);
            vstd::arithmetic::power::lemma_pow1(256);
            vstd::arithmetic::power::lemma_pow_positive(256, (k - 1) as nat);
            let p = vstd::arithmetic::power::pow(256, (k - 1) as nat);
            assert(n / 256 < p) by (nonlinear_arith)
                requires
                    n < 256 * p,
                    p >= 1,
            ;
            lemma_byte_count_bound(n / 256, (k - 1) as nat);
        }
    }
}

/// Reading back a definite length the writer wrote gives the same length,
/// and stops right after it, wherever that many content bytes follow.
pub proof fn lemma_length_roundtrip(n: usize, rest: Seq<u8>, rule: EncodingRule)
    requires
        n < 0x100_0000_0000,
        n <= rest.len(),
    ensures
        spec_decode_length(spec_encode_length(Length::Definite(n)) + rest, 0, rule) == Ok::<
            (Length, int),
            crate::asn1::error::Error,
        >((Length::Definite(n), spec_encode_length(Length::Definite(n)).len() as int)),
{
    let e = spec_encode_length(Length::Definite(n));
    let s = e + rest;
    if n >= 0x80 {
        lemma_be_word_of_bytes(n as nat);
        broadcast use vstd::layout::layout_of_primitives;
        vstd::layout::unsigned_int_max_values();
        lemma_byte_count_bound(n as nat, vstd::layout::size_of::<usize>());
        let bc = spec_byte_count(n as nat);
        let bytes = spec_be_bytes(n as nat);
        assert(bc >= 1) by {
            assert(spec_byte_count(n as nat) == 1 + spec_byte_count(n as nat / 256));
        }
        assert(s[0] == (0x80 + bc) as u8);
        assert(s.subrange(1, 1 + bc as int) =~= bytes);
        lemma_be_bytes_lead(n as nat);
        assert(s[1] == bytes[0]);
    }
}

/// Law (round trip): a primitive element written as its tag, its minimal
/// definite length and its content reads back, under any encoding rule whose
/// element-size guard admits the content, as that tag, that length and that
/// content, ending just after the content.
pub proof fn lemma_primitive_roundtrip(tag: Tag, content: Seq<u8>, rest: Seq<u8>, config: Config)
    requires
        content.len() < 0x100_0000_0000,
        content.len() <= config.max_element_size,
    ensures
        ({
            let h = (spec_encode_tag(tag).len() + spec_encode_length(Length::Definite(content.len() as usize)).len()) as int;
            let s = spec_encode_primitive(tag, content) + rest;
            &&& spec_read_tlv(s, 0, config) == Ok::<
                (Tag, Length, int, int, int),
                crate::asn1::error::Error,
            >((tag, Length::Definite(content.len() as usize), h, h + content.len(), h + content.len()))
            &&& s.subrange(h, h + content.len()) == content
        }),
{
    let n = content.len() as usize;
    let te = spec_encode_tag(tag);
    let le = spec_encode_length(Length::Definite(n));
    let s = spec_encode_primitive(tag, content) + rest;
    let tail = le + (content + rest);
    assert(s =~= te + tail);
    lemma_tag_roundtrip(tag, tail);
    assert(s.subrange(te.len() as int, s.len() as int) =~= le + (content + rest));
    lemma_length_roundtrip(n, content + rest, config.rule);
    lemma_decode_length_shift(te, tail, config.rule);
    let p2 = (te.len() + le.len()) as int;
    assert(spec_decode_tag(s, 0) == Ok::<(Tag, int), crate::asn1::error::Error>((tag, te.len() as int)));
    assert(spec_decode_length(s, te.len() as int, config.rule) == Ok::<(Length, int), crate::asn1::error::Error>(
        (Length::Definite(n), p2),
    ));
    assert(s.len() - p2 == content.len() + rest.len());
    assert(s.subrange((te.len() + le.len()) as int, (te.len() + le.len() + content.len()) as int) =~= content);
}

/// Decoding a length after a prefix is decoding it at the prefix's end.
proof fn lemma_decode_length_shift(prefix: Seq<u8>, tail: Seq<u8>, rule: EncodingRule)
    ensures
        spec_decode_length(prefix + tail, prefix.len() as int, rule) == match spec_decode_length(tail, 0, rule) {
            Ok((l, p)) => Ok((l, p + prefix.len())),
            Err(e) => Err(e),
        },
{
    let s = prefix + tail;
    let k = prefix.len() as int;
    if tail.len() > 0 {
        let first = tail[0];
        assert(s[k] == first);
        if first > 0x80 && first != 0xff {
            let num = first - 0x80;
            if k + 1 + num <= s.len() {
                assert(s.subrange(k + 1, k + 1 + num) =~= tail.subrange(1, 1 + num));
            }
        }
    }
}

} // verus!

verus! {

/// Law (re-encoding is byte-stable): reading back what the writer wrote for
/// a primitive element and writing what was read gives the same bytes.
pub proof fn lemma_reencode_stable(tag: Tag, content: Seq<u8>, config: Config)
    requires
        content.len() < 0x100_0000_0000,
        content.len() <= config.max_element_size,
    ensures
        ({
            let s = spec_encode_primitive(tag, content);
            spec_read_tlv(s, 0, config) matches Ok((t, _, a, b, n)) && n == s.len() && spec_encode_primitive(
                t,
                s.subrange(a, b),
            ) == s
        }),
{
    lemma_primitive_roundtrip(tag, content, Seq::empty(), config);
    let s = spec_encode_primitive(tag, content);
    assert(s + Seq::<u8>::empty() =~= s);
}

/// Law (fail-closed DER): an element read under DER always has a definite
/// length, and its value runs exactly that many bytes to the element's end;
/// a header announcing an indefinite length is refused as such.
pub proof fn lemma_der_definite(s: Seq<u8>, pos: int, config: Config)
    requires
        config.rule == EncodingRule::Der,
    ensures
        spec_read_tlv(s, pos, config) matches Ok((_, l, a, b, n)) ==> (l matches Length::Definite(k) && b == a + k && n == b),
        (spec_decode_tag(s, pos) matches Ok((_, p1)) && 0 <= p1 < s.len() && s[p1] == 0x80) ==> spec_read_tlv(s, pos, config)
            == Err::<(Tag, Length, int, int, int), crate::asn1::error::Error>(crate::asn1::error::Error::IndefiniteLength),
{
}

/// Law (DER refuses a non-minimal long-form length): under DER, a header
/// whose long-form length octets start with a zero octet, or spell a value
/// below 128, is refused as non-minimal.
pub proof fn lemma_der_nonminimal_length(s: Seq<u8>, pos: int, config: Config)
    requires
        config.rule == EncodingRule::Der,
    ensures
        (spec_decode_tag(s, pos) matches Ok((_, p1)) && 0 <= p1 < s.len() && 0x80 < s[p1] < 0xff && ({
            let num = s[p1] - 0x80;
            &&& num <= vstd::layout::size_of::<usize>()
            &&& p1 + 1 + num <= s.len()
            &&& (spec_be_word(s.subrange(p1 + 1, p1 + 1 + num)) < 0x80 || s[p1 + 1] == 0)
        })) ==> spec_read_tlv(s, pos, config) == Err::<(Tag, Length, int, int, int), crate::asn1::error::Error>(
            crate::asn1::error::Error::NonMinimalLength,
        ),
{
}

} // verus!

verus! {

/// Below the fewest bytes that represent `v`, no byte count represents it.
proof fn lemma_min_len_below(v: int, k: int, n: int)
    requires
        1 <= k,
        spec_min_len_from(v, k) == n,
    ensures
        forall|j: int| k <= j < n ==> !spec_fits_bytes(v, j),
    decreases 8 - k,
{
    if !(k >= 8 || spec_fits_bytes(v, k)) {
        lemma_min_len_below(v, k + 1, n);
    }
}

/// Law (minimal INTEGER round trip): the fewest two's-complement bytes of a
/// value, as the signed-integer encoder writes them, are a minimal encoding,
/// and `as_i64` reads them back as that value.
pub proof fn lemma_minimal_int_reads_back(s: Seq<u8>, v: i64)
    requires
        1 <= s.len() <= 8,
        spec_int_value(s) == v,
        s.len() == spec_min_len_from(v as int, 1),
    ensures
        spec_int_minimal(s),
        spec_as_i64(s) == Some(v),
{
    let n = s.len() as int;
    if !spec_int_minimal(s) {
        let r = s.drop_first();
        lemma_be_uint_first(s);
        lemma_be_uint_sign(r);
        lemma_be_uint_bound(r);
        lemma_min_len_below(v as int, 1, n);
        assert(!spec_fits_bytes(v as int, n - 1));
        let q = spec_pow256(n - 2);
        assert(spec_pow256(n - 1) == 256 * q);
        assert(spec_pow256(n) == 256 * spec_pow256(n - 1));
        assert(r[0] == s[1]);
        lemma_pow256_mono(n - 2, n - 2);
        if s[0] == 0 {
            assert(spec_be_uint(s) == spec_be_uint(r)) by (nonlinear_arith)
                requires
                    spec_be_uint(s) == s[0] * spec_pow256(n - 1) + spec_be_uint(r),
                    s[0] == 0,
            ;
            assert(spec_fits_bytes(v as int, n - 1));
        } else {
            let p = spec_pow256(n - 1);
            assert(spec_be_uint(s) == 255 * p + spec_be_uint(r)) by (nonlinear_arith)
                requires
                    spec_be_uint(s) == s[0] * p + spec_be_uint(r),
                    s[0] == 255,
            ;
            assert(spec_fits_bytes(v as int, n - 1));
        }
    }
}

} // verus!

verus! {

/// The base-128 tag number ends just after the first byte, from `pos`, whose
/// top bit is clear.
proof fn lemma_high_tag_number_end(s: Seq<u8>, pos: int, number: int, shifted: bool)
    ensures
        spec_high_tag_number(s, pos, number, shifted) matches Ok((_, p)) ==> spec_first_clear_from(s, pos) == Some(p - 1),
    decreases s.len() - pos,
{
    if 0 <= pos < s.len() && number <= 0x1ff_ffff && s[pos] >= 128 {
        lemma_high_tag_number_end(s, pos + 1, number * 128 + (s[pos] % 128), true);
    }
}

/// The identifier and length of an element, re-tagged: the new tag, and
/// the same length octets after it.
proof fn lemma_retag_header(encoded: Seq<u8>, new_tag: Tag, rule: EncodingRule)
    requires
        spec_decode_tag(encoded, 0) is Ok,
        spec_decode_length(encoded, spec_decode_tag(encoded, 0)->Ok_0.1, rule) is Ok,
    ensures
        ({
            let k = spec_decode_tag(encoded, 0)->Ok_0.1;
            let te = spec_encode_tag(new_tag);
            let r = te + encoded.subrange(k, encoded.len() as int);
            let (l, p2) = spec_decode_length(encoded, k, rule)->Ok_0;
            &&& 0 < k <= encoded.len()
            &&& spec_tag_len(encoded) == Some(k)
            &&& spec_decode_tag(r, 0) == Ok::<(Tag, int), crate::asn1::error::Error>((new_tag, te.len() as int))
            &&& spec_decode_length(r, te.len() as int, rule) == Ok::<(Length, int), crate::asn1::error::Error>(
                (l, p2 - k + te.len()),
            )
            &&& r.len() == encoded.len() - k + te.len()
        }),
{
    let p1 = spec_decode_tag(encoded, 0)->Ok_0.1;
    if encoded[0] % 32 == 31 {
        lemma_high_tag_number_end(encoded, 1, 0, false);
        crate::asn1::decode::lemma_first_clear_from(encoded, 1);
    }
    let k = p1;
    let rest = encoded.subrange(k, encoded.len() as int);
    let te = spec_encode_tag(new_tag);
    lemma_tag_roundtrip(new_tag, rest);
    assert(encoded =~= encoded.subrange(0, k) + rest);
    lemma_decode_length_shift(encoded.subrange(0, k), rest, rule);
    lemma_decode_length_shift(te, rest, rule);
}

/// Reading an element whose header gives a definite length `m`.
proof fn lemma_read_tlv_definite(s: Seq<u8>, config: Config, t: Tag, p1: int, m: usize, p2: int)
    requires
        spec_decode_tag(s, 0) == Ok::<(Tag, int), crate::asn1::error::Error>((t, p1)),
        spec_decode_length(s, p1, config.rule) == Ok::<(Length, int), crate::asn1::error::Error>((Length::Definite(m), p2)),
    ensures
        spec_read_tlv(s, 0, config) == (if m > config.max_element_size {
            Err(crate::asn1::error::Error::ElementTooLarge)
        } else if m > s.len() - p2 {
            Err(crate::asn1::error::Error::Truncated)
        } else {
            Ok::<(Tag, Length, int, int, int), crate::asn1::error::Error>((t, Length::Definite(m), p2, p2 + m, p2 + m))
        }),
{
}

/// Reading an element whose header gives an indefinite length.
proof fn lemma_read_tlv_indefinite(s: Seq<u8>, config: Config, t: Tag, p1: int, p2: int)
    requires
        spec_decode_tag(s, 0) == Ok::<(Tag, int), crate::asn1::error::Error>((t, p1)),
        spec_decode_length(s, p1, config.rule) == Ok::<(Length, int), crate::asn1::error::Error>((Length::Indefinite, p2)),
    ensures
        spec_read_tlv(s, 0, config) == match spec_scan_eoc(s, p2, 0, config.max_recursion as int) {
            Err(e) => Err(e),
            Ok(e) => if e - p2 > config.max_element_size {
                Err(crate::asn1::error::Error::ElementTooLarge)
            } else {
                Ok::<(Tag, Length, int, int, int), crate::asn1::error::Error>((t, Length::Indefinite, p2, e, e + 2))
            },
        },
{
}

/// Law (re-tagging keeps the element): an element, re-tagged with
/// `new_tag`, reads back as `new_tag` with the same length and the same
/// value, shifted by the change in the identifier's size; for an indefinite
/// length the end-of-contents octets are found at the same place, shifted.
#[verifier::spinoff_prover]
#[verifier::rlimit(40)]
pub proof fn lemma_retag_reads_back(encoded: Seq<u8>, new_tag: Tag, config: Config)
    requires
        spec_read_tlv(encoded, 0, config) is Ok,
    ensures
        spec_tag_len(encoded) matches Some(k) && ({
            let te = spec_encode_tag(new_tag);
            let r = te + encoded.subrange(k, encoded.len() as int);
            let d = te.len() - k;
            match spec_read_tlv(encoded, 0, config) {
                Ok((_, l, a, b, n)) => {
                    &&& spec_read_tlv(r, 0, config) == Ok::<(Tag, Length, int, int, int), crate::asn1::error::Error>(
                        (new_tag, l, a + d, b + d, n + d),
                    )
                    &&& r.subrange(a + d, b + d) == encoded.subrange(a, b)
                },
                Err(_) => true,
            }
        }),
{
    lemma_retag_header(encoded, new_tag, config.rule);
    let (t, k) = spec_decode_tag(encoded, 0)->Ok_0;
    let te = spec_encode_tag(new_tag);
    let r = te + encoded.subrange(k, encoded.len() as int);
    let d = te.len() - k;
    let (l, p2) = spec_decode_length(encoded, k, config.rule)->Ok_0;
    match l {
        Length::Definite(m) => {
            lemma_read_tlv_definite(encoded, config, t, k, m, p2);
            lemma_read_tlv_definite(r, config, new_tag, te.len() as int, m, p2 + d);
        },
        Length::Indefinite => {
            lemma_read_tlv_indefinite(encoded, config, t, k, p2);
            lemma_read_tlv_indefinite(r, config, new_tag, te.len() as int, p2 + d);
            assert forall|i: int| p2 <= i < encoded.len() implies r[i + d] == #[trigger] encoded[i] by {
                assert(r[i + d] == encoded.subrange(k, encoded.len() as int)[i - k]);
            }
            lemma_scan_eoc_shift(encoded, r, p2, d, 0, config.max_recursion as int);
        },
    }
    crate::asn1::reader::lemma_read_tlv_bounds(encoded, 0, config);
    let (_, _, a, b, _) = spec_read_tlv(encoded, 0, config)->Ok_0;
    assert forall|i: int| 0 <= i < b - a implies r.subrange(a + d, b + d)[i] == encoded.subrange(a, b)[i] by {
        assert(r[a + d + i] == encoded.subrange(k, encoded.len() as int)[a + i - k]);
    }
    assert(r.subrange(a + d, b + d) =~= encoded.subrange(a, b));
}

} // verus!

verus! {

/// Law (INTEGER round trip): the fewest two's-complement bytes `b` of a
/// value `v` encode (as `encode_to_vec` of an `Integer` holding them does)
/// to `e`; decoding `e` as an `Integer` under DER (as `decode` does) gives
/// `b` again, and `as_i64` gives `v`.
pub proof fn lemma_integer_roundtrip(b: Seq<u8>, v: i64)
    requires
        1 <= b.len() <= 8,
        spec_int_value(b) == v,
        b.len() == spec_min_len_from(v as int, 1),
    ensures
        ({
            let e = spec_encode_primitive(spec_universal(2), b);
            let der = spec_default_config(EncodingRule::Der);
            &&& spec_primitive_encoding(spec_universal(2), b) == Ok::<Seq<u8>, crate::asn1::error::Error>(e)
            &&& spec_filling(e, <Integer as Decode>::spec_decode(e, 0, der, 0))
                == Ok::<Seq<u8>, crate::asn1::error::Error>(b)
            &&& spec_as_i64(b) == Some(v)
        }),
{
    let t = spec_universal(2);
    let e = spec_encode_primitive(t, b);
    let der = spec_default_config(EncodingRule::Der);
    lemma_minimal_int_reads_back(b, v);
    assert(der.max_element_size >= 8);
    lemma_primitive_roundtrip(t, b, Seq::empty(), der);
    assert(e + Seq::<u8>::empty() =~= e);
}

} // verus!
