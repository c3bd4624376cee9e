//! Shared cryptographic-safety primitives.

use core::cmp::Ordering;
use crate::asn1::length::spec_pow256;
use crate::asn1::types::{lemma_be_uint_first, lemma_be_uint_sign, lemma_pow256_mono, spec_int_value, spec_be_uint};
use vstd::prelude::*;

verus! {

/// `a` sorts strictly before `b` in lexicographic byte order (a proper
/// prefix sorts first).
pub open spec fn spec_lex_lt(a: Seq<u8>, b: Seq<u8>) -> bool
    decreases a.len(),
{
    if a.len() == 0 {
        b.len() > 0
    } else if b.len() == 0 {
        false
    } else if a[0] != b[0] {
        a[0] < b[0]
    } else {
        spec_lex_lt(a.drop_first(), b.drop_first())
    }
}

/// Lexicographic order decided at the first difference (or by length when
/// one is a prefix of the other).
pub proof fn lemma_lex_lt_at(a: Seq<u8>, b: Seq<u8>, k: int)
    requires
        0 <= k <= a.len(),
        k <= b.len(),
        forall|j: int| 0 <= j < k ==> a[j] == b[j],
    ensures
        spec_lex_lt(a, b) == (if k < a.len() && k < b.len() && a[k] != b[k] {
            a[k] < b[k]
        } else {
            spec_lex_lt(a.subrange(k, a.len() as int), b.subrange(k, b.len() as int))
        }),
    decreases k,
{
    if k > 0 {
        assert(a[0] == b[0]);
        lemma_lex_lt_at(a.drop_first(), b.drop_first(), k - 1);
        assert(a.drop_first().subrange(k - 1, a.len() - 1) =~= a.subrange(k, a.len() as int));
        assert(b.drop_first().subrange(k - 1, b.len() - 1) =~= b.subrange(k, b.len() as int));
    } else {
        assert(a.subrange(0, a.len() as int) =~= a);
        assert(b.subrange(0, b.len() as int) =~= b);
    }
}

/// Returns `true` if `a` sorts strictly after `b` in lexicographic order.
pub fn lex_greater(a: &[u8], b: &[u8]) -> (r: bool)
    ensures
        r == spec_lex_lt(b@, a@),
{
    let mut i: usize = 0;
    while i < a.len() && i < b.len()
        invariant
            i <= a@.len(),
            i <= b@.len(),
            forall|j: int| 0 <= j < i ==> a@[j] == b@[j],
        decreases a@.len() - i,
    {
        if a[i] != b[i] {
            proof { lemma_lex_lt_at(b@, a@, i as int); }
            return a[i] > b[i];
        }
        i += 1;
    }
    proof {
        lemma_lex_lt_at(b@, a@, i as int);
        if i == b@.len() {
            assert(b@.subrange(i as int, b@.len() as int).len() == 0);
        } else {
            assert(a@.subrange(i as int, a@.len() as int).len() == 0);
        }
    }
    a.len() > b.len() && i == b.len()
}

/// Append the characters of `t` to `s`.
pub(crate) fn push_str(s: &mut String, t: &str)
    ensures
        final(s)@ == old(s)@ + t@,
{
    s.append(t);
}

/// Returns `true` if the two slices hold the same bytes.
pub fn bytes_eq(a: &[u8], b: &[u8]) -> (r: bool)
    ensures
        r == (a@ == b@),
{
    if a.len() != b.len() {
        return false;
    }
    let mut i: usize = 0;
    while i < a.len()
        invariant
            a@.len() == b@.len(),
            i <= a@.len(),
            forall|j: int| 0 <= j < i ==> a@[j] == b@[j],
        decreases a@.len() - i,
    {
        if a[i] != b[i] {
            return false;
        }
        i += 1;
    }
    assert(a@ =~= b@);
    true
}

/// Compare two byte slices in constant time.
///
/// Returns `true` if the slices are equal in length and content; the loop
/// does not exit early on a difference.
pub fn constant_time_eq(a: &[u8], b: &[u8]) -> (r: bool)
    ensures
        r == (a@ == b@),
{
    if a.len() != b.len() {
        return false;
    }
    let mut diff: u8 = 0;
    let mut i: usize = 0;
    while i < a.len()
        invariant
            a@.len() == b@.len(),
            i <= a@.len(),
            (diff == 0) <==> (forall|j: int| 0 <= j < i ==> a@[j] == b@[j]),
        decreases a@.len() - i,
    {
        let x = a[i];
        let y = b[i];
        proof {
            assert((diff | (x ^ y)) == 0 <==> (diff == 0 && (x ^ y) == 0)) by (bit_vector);
            assert((x ^ y) == 0 <==> x == y) by (bit_vector);
        }
        diff = diff | (x ^ y);
        i = i + 1;
    }
    proof {
        if diff == 0 {
            assert(a@ =~= b@);
        }
    }
    diff == 0
}

/// Scan both slices completely and report the first index at which they
/// differ (slices of equal length).
fn scan_first_difference(a: &[u8], b: &[u8]) -> (r: Option<usize>)
    requires
        a@.len() == b@.len(),
    ensures
        r is None <==> a@ == b@,
        r matches Some(k) ==> k < a@.len() && a@[k as int] != b@[k as int] && spec_lex_lt(a@, b@) == (a@[k as int] < b@[k as int]),
{
    let mut diff: u8 = 0;
    let mut first: Option<usize> = None;
    let mut i: usize = 0;
    while i < a.len()
        invariant
            a@.len() == b@.len(),
            i <= a@.len(),
            (diff == 0) <==> (forall|j: int| 0 <= j < i ==> a@[j] == b@[j]),
            match first {
                None => forall|j: int| 0 <= j < i ==> a@[j] == b@[j],
                Some(k) => k < i && a@[k as int] != b@[k as int] && forall|j: int| 0 <= j < k ==> a@[j] == b@[j],
            },
        decreases a@.len() - i,
    {
        let x = a[i];
        let y = b[i];
        let neq = x ^ y;
        proof {
            assert((diff | neq) == 0 <==> (diff == 0 && neq == 0)) by (bit_vector);
            assert(neq == 0 <==> x == y) by (bit_vector)
                requires neq == x ^ y;
        }
        if first.is_none() && neq != 0 {
            first = Some(i);
        }
        diff = diff | neq;
        i += 1;
    }
    if diff == 0 {
        assert(a@ =~= b@);
        None
    } else {
        match first {
            Some(k) => {
                proof { lemma_lex_lt_at(a@, b@, k as int); }
                Some(k)
            },
            None => {
                assert(a@ =~= b@);
                None
            },
        }
    }
}

/// The order `constant_time_compare` reports: shorter slices first, then
/// the first differing byte.
pub open spec fn ct_order_of(a: Seq<u8>, b: Seq<u8>) -> Ordering {
    if a.len() < b.len() {
        Ordering::Less
    } else if a.len() > b.len() {
        Ordering::Greater
    } else if a == b {
        Ordering::Equal
    } else if spec_lex_lt(a, b) {
        Ordering::Less
    } else {
        Ordering::Greater
    }
}

/// Compare two byte slices: by length first, then by the first differing
/// byte; `Equal` only when they are byte-for-byte equal. The scan visits
/// every byte.
pub fn constant_time_compare(a: &[u8], b: &[u8]) -> (r: Ordering)
    ensures
        r == ct_order_of(a@, b@),
{
    if a.len() != b.len() {
        return if a.len() < b.len() {
            Ordering::Less
        } else {
            Ordering::Greater
        };
    }
    match scan_first_difference(a, b) {
        None => Ordering::Equal,
        Some(k) => {
            if a[k] < b[k] {
                Ordering::Less
            } else {
                Ordering::Greater
            }
        },
    }
}

/// `v` is representable as a `k`-byte two's-complement integer.
pub open spec fn spec_fits_bytes(v: int, k: int) -> bool {
    -128 * spec_pow256(k - 1) <= v < 128 * spec_pow256(k - 1)
}

/// The fewest bytes, from `k` up to eight, that represent `v`.
pub open spec fn spec_min_len_from(v: int, k: int) -> int
    decreases 8 - k,
{
    if k >= 8 || spec_fits_bytes(v, k) {
        k
    } else {
        spec_min_len_from(v, k + 1)
    }
}

/// Encode `value` as a minimal big-endian two's-complement ASN.1 `INTEGER`
/// content into `out`, returning the number of bytes written (1..=8).
///
/// The result is the canonical (DER) minimal encoding used for `INTEGER` and
/// `ENUMERATED` values: the fewest bytes whose two's-complement value is
/// `value`. The bytes of `out` after them are left as they were.
pub fn encode_signed_integer(value: i64, out: &mut [u8; 9]) -> (n: usize)
    ensures
        n == spec_min_len_from(value as int, 1),
        1 <= n <= 8,
        spec_int_value(final(out)@.subrange(0, n as int)) == value,
        final(out)@.subrange(n as int, 9) == old(out)@.subrange(n as int, 9),
{
    let mut k: usize = 1;
    let mut half: i128 = 128;
    proof {
        assert(spec_pow256(0) == 1);
    }
    while k < 8 && !(-half <= value as i128 && (value as i128) < half)
        invariant
            1 <= k <= 8,
            half == 128 * spec_pow256(k - 1),
            128 <= half <= 0x8000_0000_0000_0000,
            spec_min_len_from(value as int, k as int) == spec_min_len_from(value as int, 1),
        decreases 8 - k,
    {
        proof {
            lemma_pow256_mono((k - 1) as int, 7);
            assert(spec_pow256(7) == 0x100_0000_0000_0000) by {
                reveal_with_fuel(spec_pow256, 8);
            }
            assert(spec_pow256(k as int) == 256 * spec_pow256(k - 1));
            lemma_pow256_mono(k as int, 7);
        }
        half = half * 256;
        k += 1;
    }
    let n = k;
    proof {
        lemma_pow256_mono((n - 1) as int, 7);
        lemma_pow256_mono(n as int, 8);
        assert(spec_pow256(7) == 0x100_0000_0000_0000) by {
            reveal_with_fuel(spec_pow256, 8);
        }
        assert(spec_pow256(8) == 0x1_0000_0000_0000_0000) by {
            reveal_with_fuel(spec_pow256, 9);
        }
        assert(spec_pow256(n as int) == 256 * spec_pow256(n - 1));
        if n == 8 {
            assert(spec_fits_bytes(value as int, 8));
        }
    }
    let full: i128 = half * 2;
    let big: i128 = if value >= 0 { value as i128 } else { value as i128 + full };
    let mut w: u128 = big as u128;
    let ghost target = w as int;
    let ghost prior = out@;
    let mut j: usize = n;
    assert(out@.subrange(n as int, n as int) =~= Seq::<u8>::empty());
    while j > 0
        invariant
            j <= n <= 8,
            out@.len() == 9,
            spec_be_uint(out@.subrange(j as int, n as int)) + w * spec_pow256(n - j) == target,
            w < spec_pow256(j as int),
            prior.len() == 9,
            out@.subrange(n as int, 9) == prior.subrange(n as int, 9),
        decreases j,
    {
        let ghost oldw = w;
        let ghost tail = out@.subrange(j as int, n as int);
        let byte = (w % 256) as u8;
        out[j - 1] = byte;
        w = w / 256;
        proof {
            let s2 = out@.subrange(j - 1, n as int);
            assert(s2.drop_first() =~= tail);
            lemma_be_uint_first(s2);
            assert(s2[0] == byte);
            let p = spec_pow256(n - j);
            assert(spec_pow256(n - j + 1) == 256 * p);
            assert(spec_pow256(j as int) == 256 * spec_pow256(j - 1));
            assert((oldw % 256) * p + (oldw / 256) * (256 * p) == oldw * p) by (nonlinear_arith);
            assert(oldw / 256 < spec_pow256(j - 1)) by (nonlinear_arith)
                requires oldw < 256 * spec_pow256(j - 1);
            assert(out@.subrange(n as int, 9) =~= prior.subrange(n as int, 9));
        }
        j -= 1;
    }
    proof {
        let s = out@.subrange(0, n as int);
        assert(spec_be_uint(s) == target);
        lemma_be_uint_sign(s);
    }
    n
}

} // verus!
