//! Character and text helpers: strings from characters and bytes, and the
//! decimal and hexadecimal renderings used in messages and reports.

use vstd::prelude::*;

verus! {

/// The characters of `s`, in order.
pub fn chars_of(s: &str) -> (r: Vec<char>)
    ensures
        r@ == s@,
{
    let mut out: Vec<char> = Vec::new();
    for c in it: s.chars()
        invariant
            out@ == it.seq().subrange(0, it.index() as int),
    {
        out.push(c);
    }
    out
}

} // verus!

verus! {

#[verifier::external_body]
/// `String::push`: appends the character `c` to `s`.
pub fn push_char(s: &mut String, c: char)
    ensures
        final(s)@ == old(s)@.push(c),
{
    s.push(c);
}

/// The text that `String::from_utf8_lossy` makes of the given bytes.
pub uninterp spec fn lossy_text(b: Seq<u8>) -> Seq<char>;

#[verifier::external_body]
/// `String::from_utf8_lossy`: the bytes read as UTF-8, each invalid sequence
/// replaced by U+FFFD. Valid UTF-8 is read as it stands; what an invalid
/// input becomes is left to the name [`lossy_text`].
pub fn utf8_lossy(b: &[u8]) -> (r: String)
    ensures
        r@ == lossy_text(b@),
        vstd::utf8::valid_utf8(b@) ==> r@ == vstd::utf8::decode_utf8(b@),
{
    String::from_utf8_lossy(b).into_owned()
}

/// The `Debug` rendering of a string (quoted and escaped), as `format!`
/// produces it.
pub uninterp spec fn debug_str(s: Seq<char>) -> Seq<char>;

#[verifier::external_body]
/// `format!("{:?}")` on a string: the `Debug` rendering, quoted and escaped.
pub fn debug_text(s: &str) -> (r: String)
    ensures
        r@ == debug_str(s@),
{
    format!("{:?}", s)
}

/// The `Debug` rendering of a character (quoted and escaped), as `format!`
/// produces it.
pub uninterp spec fn debug_char(c: char) -> Seq<char>;

#[verifier::external_body]
/// `format!("{:?}")` on a character: the `Debug` rendering, quoted and
/// escaped.
pub fn debug_char_text(c: char) -> (r: String)
    ensures
        r@ == debug_char(c),
{
    format!("{:?}", c)
}

/// A string holding the characters `cs[start..end]`.
pub fn string_of(cs: &Vec<char>, start: usize, end: usize) -> (r: String)
    requires
        start <= end <= cs@.len(),
    ensures
        r@ == cs@.subrange(start as int, end as int),
{
    let mut out = String::new();
    let mut k = start;
    while k < end
        invariant
            start <= k <= end <= cs@.len(),
            out@ == cs@.subrange(start as int, k as int),
        decreases end - k,
    {
        push_char(&mut out, cs[k]);
        proof {
            assert(cs@.subrange(start as int, k + 1) =~= cs@.subrange(start as int, k as int).push(cs@[k as int]));
        }
        k += 1;
    }
    out
}

/// `cs[start..]` begins with `prefix`.
pub fn starts_with_at(cs: &Vec<char>, start: usize, end: usize, prefix: &Vec<char>) -> (r: bool)
    requires
        start <= end <= cs@.len(),
    ensures
        r == (prefix@.len() <= end - start && cs@.subrange(start as int, start + prefix@.len()) == prefix@),
{
    if prefix.len() > end - start {
        return false;
    }
    let mut k: usize = 0;
    while k < prefix.len()
        invariant
            start <= end <= cs@.len(),
            prefix@.len() <= end - start,
            k <= prefix@.len(),
            forall|m: int| 0 <= m < k ==> cs@[start + m] == prefix@[m],
        decreases prefix@.len() - k,
    {
        if cs[start + k] != prefix[k] {
            proof {
                assert(cs@.subrange(start as int, start + prefix@.len())[k as int] != prefix@[k as int]);
            }
            return false;
        }
        k += 1;
    }
    proof {
        assert(cs@.subrange(start as int, start + prefix@.len()) =~= prefix@);
    }
    true
}

} // verus!

verus! {

/// The decimal digit `d < 10` as a character.
pub open spec fn digit_char(d: int) -> char {
    (0x30 + d) as char
}

/// The lowercase hexadecimal digit `d < 16` as a character.
pub open spec fn hex_digit(d: int) -> char {
    if d < 10 {
        (0x30 + d) as char
    } else {
        (0x61 + d - 10) as char
    }
}

/// The decimal representation of `n`, without leading zeros.
pub open spec fn decimal(n: nat) -> Seq<char>
    decreases n,
{
    if n < 10 {
        seq![digit_char(n as int)]
    } else {
        decimal(n / 10).push(digit_char((n % 10) as int))
    }
}

/// The decimal representation of a signed integer.
pub open spec fn signed_decimal(v: int) -> Seq<char> {
    if v < 0 {
        seq!['-'] + decimal((-v) as nat)
    } else {
        decimal(v as nat)
    }
}

/// `n` in decimal, padded with zeros on the left to at least `w` digits.
pub open spec fn padded(n: nat, w: nat) -> Seq<char> {
    let d = decimal(n);
    if d.len() >= w {
        d
    } else {
        Seq::new((w - d.len()) as nat, |i: int| '0') + d
    }
}

/// A byte as two lowercase hexadecimal digits.
pub open spec fn hex_byte(b: u8) -> Seq<char> {
    seq![hex_digit(b as int / 16), hex_digit(b as int % 16)]
}

/// Appends the decimal representation of `n`.
pub fn push_decimal(s: &mut String, n: u128)
    ensures
        final(s)@ == old(s)@ + decimal(n as nat),
    decreases n,
{
    if n >= 10 {
        push_decimal(s, n / 10);
    }
    let d = (n % 10) as u8;
    push_char(s, (0x30u8 + d) as char);
    proof {
        if n >= 10 {
            assert(old(s)@ + decimal(n as nat / 10) + seq![digit_char((n % 10) as int)] =~= old(s)@ + decimal(
                n as nat,
            ));
        } else {
            assert(old(s)@.push(digit_char(n as int)) =~= old(s)@ + decimal(n as nat));
        }
    }
}

/// Appends the decimal representation of a signed `v`.
pub fn push_signed_decimal(s: &mut String, v: i64)
    ensures
        final(s)@ == old(s)@ + signed_decimal(v as int),
{
    if v < 0 {
        push_char(s, '-');
        let m: u64 = (-(v as i128)) as u64;
        push_decimal(s, m as u128);
        proof {
            assert(old(s)@.push('-') + decimal(m as nat) =~= old(s)@ + (seq!['-'] + decimal(m as nat)));
        }
    } else {
        push_decimal(s, v as u128);
    }
}

proof fn lemma_decimal_len(n: nat)
    ensures
        1 <= decimal(n).len(),
        n < 10 ==> decimal(n).len() == 1,
        10 <= n < 100 ==> decimal(n).len() == 2,
        100 <= n < 1000 ==> decimal(n).len() == 3,
        1000 <= n ==> decimal(n).len() >= 4,
    decreases n,
{
    if n >= 10 {
        lemma_decimal_len(n / 10);
    }
}

/// Appends `n` in decimal, zero-padded to at least `w` digits.
pub fn push_padded(s: &mut String, n: u64, w: u64)
    requires
        w <= 4,
    ensures
        final(s)@ == old(s)@ + padded(n as nat, w as nat),
{
    proof {
        lemma_decimal_len(n as nat);
    }
    let len: u64 = if n < 10 {
        1
    } else if n < 100 {
        2
    } else if n < 1000 {
        3
    } else {
        4
    };
    let ghost start = s@;
    let mut k = len;
    while k < w
        invariant
            len <= k <= w || (k == len && len >= w),
            n >= 1000 || decimal(n as nat).len() == len,
            s@ == start + Seq::new((k - len) as nat, |i: int| '0'),
        decreases w - k,
    {
        push_char(s, '0');
        proof {
            assert(start + Seq::new((k - len) as nat, |i: int| '0').push('0') =~= start + Seq::new(
                (k + 1 - len) as nat,
                |i: int| '0',
            ));
        }
        k += 1;
    }
    let ghost zeros = s@;
    push_decimal(s, n as u128);
    proof {
        if decimal(n as nat).len() >= w {
            if n < 1000 {
                assert(Seq::new((k - len) as nat, |i: int| '0') =~= Seq::<char>::empty());
            } else {
                assert(Seq::new((k - len) as nat, |i: int| '0') =~= Seq::<char>::empty());
            }
            assert(start + Seq::<char>::empty() + decimal(n as nat) =~= start + decimal(n as nat));
        } else {
            assert(start + Seq::new((k - len) as nat, |i: int| '0') + decimal(n as nat) =~= start + (Seq::new(
                (w - decimal(n as nat).len()) as nat,
                |i: int| '0',
            ) + decimal(n as nat)));
        }
    }
}

/// The lowercase hexadecimal digit `d`.
fn hex_digit_char(d: u8) -> (c: char)
    requires
        d < 16,
    ensures
        c == hex_digit(d as int),
{
    if d < 10 {
        (0x30u8 + d) as char
    } else {
        (0x61u8 + d - 10) as char
    }
}

/// Appends a byte as two lowercase hexadecimal digits.
pub fn push_hex_byte(s: &mut String, b: u8)
    ensures
        final(s)@ == old(s)@ + hex_byte(b),
{
    push_char(s, hex_digit_char(b / 16));
    push_char(s, hex_digit_char(b % 16));
    proof {
        assert(old(s)@.push(hex_digit(b as int / 16)).push(hex_digit(b as int % 16)) =~= old(s)@ + hex_byte(b));
    }
}

} // verus!
