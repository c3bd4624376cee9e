//! PEM detection and decoding (RFC 7468 framing + standard base64).
//!
//! The framing is specified over the characters of the input read as UTF-8
//! (invalid sequences replaced), split into lines as `str::lines` splits
//! them: at `\n`, with a `\r` just before it dropped.

use crate::text::{chars_of, debug_char, debug_char_text, lossy_text, string_of, starts_with_at, utf8_lossy};
use crate::asn1::util::push_str;
use vstd::prelude::*;

verus! {

// ---------------------------------------------------------------------------
// Detection
// ---------------------------------------------------------------------------

/// The bytes of `-----BEGIN `.
pub open spec fn begin_marker() -> Seq<u8> {
    seq![0x2d, 0x2d, 0x2d, 0x2d, 0x2d, 0x42, 0x45, 0x47, 0x49, 0x4e, 0x20]
}

/// Returns `true` if `bytes` look like a PEM document (contains a
/// `-----BEGIN ` header line).
pub fn detect_pem(bytes: &[u8]) -> (r: bool)
    ensures
        r == exists|i: int|
            0 <= i && i + 11 <= bytes@.len() && #[trigger] bytes@.subrange(i, i + 11) == begin_marker(),
{
    let marker: [u8; 11] = [0x2d, 0x2d, 0x2d, 0x2d, 0x2d, 0x42, 0x45, 0x47, 0x49, 0x4e, 0x20];
    proof {
        assert(marker@ =~= begin_marker());
    }
    let n = bytes.len();
    if n < 11 {
        return false;
    }
    let mut i: usize = 0;
    while i <= n - 11
        invariant
            n == bytes@.len(),
            n >= 11,
            marker@ == begin_marker(),
            forall|j: int| 0 <= j < i && j + 11 <= n ==> #[trigger] bytes@.subrange(j, j + 11) != begin_marker(),
        decreases n - i,
    {
        let mut k: usize = 0;
        let mut same = true;
        while k < 11
            invariant
                i + 11 <= n == bytes@.len(),
                k <= 11,
                same == (forall|m: int| 0 <= m < k ==> bytes@[i + m] == marker@[m]),
            decreases 11 - k,
        {
            if bytes[i + k] != marker[k] {
                same = false;
            }
            k += 1;
        }
        if same {
            proof {
                assert(bytes@.subrange(i as int, i + 11) =~= begin_marker());
            }
            return true;
        }
        proof {
            let m = choose|m: int| 0 <= m < 11 && bytes@[i + m] != marker@[m];
            assert(bytes@.subrange(i as int, i + 11)[m] != begin_marker()[m]);
        }
        i += 1;
    }
    proof {
        assert forall|j: int| 0 <= j && j + 11 <= bytes@.len() implies #[trigger] bytes@.subrange(j, j + 11)
            != begin_marker() by {
            assert(j < i);
        }
    }
    false
}

} // verus!

verus! {

// ---------------------------------------------------------------------------
// Base64
// ---------------------------------------------------------------------------

/// The 6-bit value of a base64 character of the standard alphabet.
pub open spec fn b64_value(c: char) -> Option<u8> {
    let n = c as int;
    if 0x41 <= n <= 0x5a {
        Some((n - 0x41) as u8)
    } else if 0x61 <= n <= 0x7a {
        Some((n - 0x61 + 26) as u8)
    } else if 0x30 <= n <= 0x39 {
        Some((n - 0x30 + 52) as u8)
    } else if n == 0x2b {
        Some(62)
    } else if n == 0x2f {
        Some(63)
    } else {
        None
    }
}

/// The standard base64 alphabet, in the order of the values it stands for.
pub open spec fn b64_alphabet() -> Seq<char> {
    "ABCDEFGHIJKLMNOPQRSTUVWXYZabcdefghijklmnopqrstuvwxyz0123456789+/"@
}

/// Law (the alphabet is a bijection onto 0..63): the character at place `v`
/// of the alphabet stands for `v`, a character that stands for something is
/// in the alphabet at that place, and no two characters stand for the same
/// value.
pub proof fn lemma_b64_value_bijection(c1: char, c2: char)
    ensures
        b64_alphabet().len() == 64,
        forall|v: int| 0 <= v < 64 ==> b64_value(#[trigger] b64_alphabet()[v]) == Some(v as u8),
        b64_value(c1) matches Some(v) ==> v < 64 && b64_alphabet()[v as int] == c1,
        b64_value(c1) is Some && b64_value(c1) == b64_value(c2) ==> c1 == c2,
{
    reveal_strlit("ABCDEFGHIJKLMNOPQRSTUVWXYZabcdefghijklmnopqrstuvwxyz0123456789+/");
    let a = b64_alphabet();
    assert forall|v: int| 0 <= v < 64 implies b64_value(#[trigger] a[v]) == Some(v as u8) by {
        if v < 26 {
            assert(a[v] as int == 0x41 + v);
        } else if v < 52 {
            assert(a[v] as int == 0x61 + v - 26);
        } else if v < 62 {
            assert(a[v] as int == 0x30 + v - 52);
        }
    }
    if let Some(v) = b64_value(c1) {
        assert(a[v as int] == c1);
    }
}

/// Characters the decoder passes over: line breaks, blanks and `=`.
pub open spec fn b64_skipped(c: char) -> bool {
    c == '\n' || c == '\r' || c == ' ' || c == '\t' || c == '='
}

/// The 6-bit values of the significant characters of `s[i..]`, or `None`
/// where one is outside the alphabet.
pub open spec fn b64_values(s: Seq<char>, i: int) -> Option<Seq<u8>>
    decreases s.len() - i,
{
    if i < 0 || i >= s.len() {
        Some(Seq::empty())
    } else if b64_skipped(s[i]) {
        b64_values(s, i + 1)
    } else {
        match b64_value(s[i]) {
            None => None,
            Some(v) => match b64_values(s, i + 1) {
                None => None,
                Some(rest) => Some(seq![v] + rest),
            },
        }
    }
}

/// First byte of a group: the six bits of `a` and the top two of `b`.
pub open spec fn b64_first(a: u8, b: u8) -> u8 {
    ((a * 4 + b / 16) % 256) as u8
}

/// Second byte of a group: the low four bits of `b` and the top four of `c`.
pub open spec fn b64_second(b: u8, c: u8) -> u8 {
    (((b % 16) * 16 + c / 4) % 256) as u8
}

/// Third byte of a group: the low two bits of `c` and the six of `d`.
pub open spec fn b64_third(c: u8, d: u8) -> u8 {
    (((c % 4) * 64 + d) % 256) as u8
}

/// The bytes that 6-bit values stand for: each group of four gives three
/// bytes; a final group of three gives two, of two gives one, of one none.
pub open spec fn b64_bytes(v: Seq<u8>) -> Seq<u8>
    decreases v.len(),
{
    if v.len() >= 4 {
        seq![b64_first(v[0], v[1]), b64_second(v[1], v[2]), b64_third(v[2], v[3])] + b64_bytes(
            v.subrange(4, v.len() as int),
        )
    } else if v.len() == 3 {
        seq![b64_first(v[0], v[1]), b64_second(v[1], v[2])]
    } else if v.len() == 2 {
        seq![b64_first(v[0], v[1])]
    } else {
        Seq::empty()
    }
}

/// Law (a group of four values gives back the three bytes it encodes):
/// three bytes split into four 6-bit values, most significant bits first,
/// decode to those three bytes.
pub proof fn lemma_b64_group_roundtrip(x: u8, y: u8, z: u8)
    ensures
        b64_bytes(seq![x / 4, ((x % 4) * 16 + y / 16) as u8, ((y % 16) * 4 + z / 64) as u8, z % 64]) == seq![x, y, z],
{
    let v: Seq<u8> = seq![x / 4, ((x % 4) * 16 + y / 16) as u8, ((y % 16) * 4 + z / 64) as u8, z % 64];
    assert(v.subrange(4, 4) =~= Seq::<u8>::empty());
    assert(b64_bytes(Seq::<u8>::empty()) =~= Seq::<u8>::empty());
    assert(b64_first(v[0], v[1]) == x);
    assert(b64_second(v[1], v[2]) == y);
    assert(b64_third(v[2], v[3]) == z);
    assert(b64_bytes(v) =~= seq![x, y, z]);
}

/// The bytes a base64 text stands for, or `None` if it holds a character
/// outside the alphabet (blanks, line breaks and `=` are passed over).
pub open spec fn spec_b64_decode(s: Seq<char>) -> Option<Seq<u8>> {
    match b64_values(s, 0) {
        None => None,
        Some(v) => Some(b64_bytes(v)),
    }
}

/// The byte one more 6-bit value `x` completes, by the place of `x` in its
/// group of four (none for the first).
pub open spec fn b64_completed(v: Seq<u8>, x: u8) -> Seq<u8> {
    if v.len() % 4 == 0 {
        Seq::empty()
    } else if v.len() % 4 == 1 {
        seq![b64_first(v.last(), x)]
    } else if v.len() % 4 == 2 {
        seq![b64_second(v.last(), x)]
    } else {
        seq![b64_third(v.last(), x)]
    }
}

/// One more 6-bit value adds at most one byte, by its place in its group.
#[verifier::spinoff_prover]
#[verifier::rlimit(30)]
proof fn lemma_b64_bytes_push(v: Seq<u8>, x: u8)
    ensures
        b64_bytes(v.push(x)) == b64_bytes(v) + b64_completed(v, x),
    decreases v.len(),
{
    let vx = v.push(x);
    if v.len() >= 4 {
        let w = v.subrange(4, v.len() as int);
        assert(vx.subrange(4, vx.len() as int) =~= w.push(x));
        lemma_b64_bytes_push(w, x);
        assert(w.len() % 4 == v.len() % 4);
        if v.len() % 4 != 0 {
            assert(w.last() == v.last());
        }
        assert(b64_completed(w, x) == b64_completed(v, x));
        let g = seq![b64_first(v[0], v[1]), b64_second(v[1], v[2]), b64_third(v[2], v[3])];
        assert(b64_bytes(vx) == g + b64_bytes(w.push(x)));
        assert(g + (b64_bytes(w) + b64_completed(v, x)) =~= (g + b64_bytes(w)) + b64_completed(v, x));
    } else if v.len() == 3 {
        assert(vx.subrange(4, 4) =~= Seq::<u8>::empty());
        assert(b64_bytes(Seq::<u8>::empty()) =~= Seq::<u8>::empty());
        assert(b64_bytes(vx) =~= b64_bytes(v) + b64_completed(v, x));
    } else if v.len() == 2 {
        assert(b64_bytes(vx) =~= b64_bytes(v) + b64_completed(v, x));
    } else if v.len() == 1 {
        assert(b64_bytes(vx) =~= b64_bytes(v) + b64_completed(v, x));
    } else {
        assert(b64_bytes(vx) =~= b64_bytes(v) + b64_completed(v, x));
    }
}

/// The first character of `s[i..]` that is neither passed over nor in the
/// alphabet (a blank where there is none).
pub open spec fn b64_first_bad(s: Seq<char>, i: int) -> char
    decreases s.len() - i,
{
    if i < 0 || i >= s.len() {
        ' '
    } else if b64_skipped(s[i]) || b64_value(s[i]) is Some {
        b64_first_bad(s, i + 1)
    } else {
        s[i]
    }
}

/// The character a base64 error shows: the first byte of the UTF-8 encoding
/// of the first character outside the alphabet, read as a character.
pub open spec fn b64_shown(s: Seq<char>) -> char {
    spec_utf8_lead(b64_first_bad(s, 0) as int) as char
}

/// The diagnostic for a character outside the base64 alphabet.
pub open spec fn b64_message(c: char) -> Seq<char> {
    "invalid base64 character "@ + debug_char(c)
}

/// The diagnostic for a character outside the base64 alphabet, showing it
/// in its `Debug` form.
fn invalid_base64_message(c: char) -> (m: String)
    ensures
        m@ == b64_message(c),
{
    let mut m = String::from_str("invalid base64 character ");
    let d = debug_char_text(c);
    push_str(&mut m, d.as_str());
    m
}

/// The first byte of the UTF-8 encoding of the code point `n`.
pub open spec fn spec_utf8_lead(n: int) -> int {
    if n < 0x80 {
        n
    } else if n < 0x800 {
        0xc0 + n / 64
    } else if n < 0x10000 {
        0xe0 + n / 4096
    } else {
        0xf0 + n / 262144
    }
}

/// The first byte of the UTF-8 encoding of `c`, as a character.
fn lead_byte_char(c: char) -> (r: char)
    ensures
        r as int == spec_utf8_lead(c as int),
{
    let n = c as u32;
    assert(n <= 0x10ffff);
    let b: u8 = if n < 0x80 {
        n as u8
    } else if n < 0x800 {
        assert((0xc0 | (n >> 6)) == 0xc0 + n / 64 && 0xc0 + n / 64 < 256) by (bit_vector)
            requires
                n < 0x800,
        ;
        (0xc0 | (n >> 6)) as u8
    } else if n < 0x10000 {
        assert((0xe0 | (n >> 12)) == 0xe0 + n / 4096 && 0xe0 + n / 4096 < 256) by (bit_vector)
            requires
                n < 0x10000,
        ;
        (0xe0 | (n >> 12)) as u8
    } else {
        assert((0xf0 | (n >> 18)) == 0xf0 + n / 262144 && 0xf0 + n / 262144 < 256) by (bit_vector)
            requires
                n <= 0x10ffff,
        ;
        (0xf0 | (n >> 18)) as u8
    };
    b as char
}

/// The 6-bit value of a base64 character.
fn b64_val(c: char) -> (r: Option<u8>)
    ensures
        r == b64_value(c),
{
    let n = c as u32;
    if 0x41 <= n && n <= 0x5a {
        Some((n - 0x41) as u8)
    } else if 0x61 <= n && n <= 0x7a {
        Some((n - 0x61 + 26) as u8)
    } else if 0x30 <= n && n <= 0x39 {
        Some((n - 0x30 + 52) as u8)
    } else if n == 0x2b {
        Some(62)
    } else if n == 0x2f {
        Some(63)
    } else {
        None
    }
}

fn is_ws(c: char) -> (r: bool)
    ensures
        r == (c == '\n' || c == '\r' || c == ' ' || c == '\t'),
{
    c == '\n' || c == '\r' || c == ' ' || c == '\t'
}

/// Decode standard base64, tolerating whitespace and `=` padding.
fn b64_decode(input: &Vec<char>) -> (res: Result<Vec<u8>, String>)
    ensures
        match spec_b64_decode(input@) {
            Some(d) => res matches Ok(out) && out@ == d,
            None => res matches Err(m) && m@ == b64_message(b64_shown(input@)),
        },
{
    let mut out: Vec<u8> = Vec::new();
    let ghost mut vals: Seq<u8> = Seq::empty();
    let mut prev: u8 = 0;
    let mut phase: usize = 0;
    let mut i: usize = 0;
    while i < input.len()
        invariant
            i <= input@.len(),
            phase == vals.len() % 4,
            vals.len() > 0 ==> prev == vals.last(),
            forall|k: int| 0 <= k < vals.len() ==> vals[k] < 64,
            out@ == b64_bytes(vals),
            b64_first_bad(input@, 0) == b64_first_bad(input@, i as int),
            b64_values(input@, 0) == match b64_values(input@, i as int) {
                None => None,
                Some(rest) => Some(vals + rest),
            },
        decreases input@.len() - i,
    {
        let c = input[i];
        if is_ws(c) || c == '=' {
            i += 1;
        } else {
            let v = match b64_val(c) {
                Some(v) => v,
                None => return Err(invalid_base64_message(lead_byte_char(c))),
            };
            proof {
                lemma_b64_bytes_push(vals, v);
                match b64_values(input@, i + 1) {
                    None => {},
                    Some(rest) => {
                        assert(vals + (seq![v] + rest) =~= vals.push(v) + rest);
                    },
                }
            }
            proof {
                assert(b64_bytes(vals) + b64_completed(vals, v) =~= if phase == 0 {
                    b64_bytes(vals)
                } else {
                    b64_bytes(vals).push(b64_completed(vals, v)[0])
                });
            }
            if phase == 1 {
                out.push(((prev as u32 * 4 + v as u32 / 16) % 256) as u8);
            } else if phase == 2 {
                out.push((((prev as u32 % 16) * 16 + v as u32 / 4) % 256) as u8);
            } else if phase == 3 {
                out.push((((prev as u32 % 4) * 64 + v as u32) % 256) as u8);
            }
            proof {
                vals = vals.push(v);
            }
            prev = v;
            phase = (phase + 1) % 4;
            i += 1;
        }
    }
    proof {
        assert(vals + Seq::<u8>::empty() =~= vals);
    }
    Ok(out)
}

} // verus!

verus! {

// ---------------------------------------------------------------------------
// Lines and labels
// ---------------------------------------------------------------------------

/// The first `\n` at or after `p` (or the end).
pub open spec fn newline_from(cs: Seq<char>, p: int) -> int
    decreases cs.len() - p,
{
    if 0 <= p < cs.len() && cs[p] != '\n' {
        newline_from(cs, p + 1)
    } else {
        p
    }
}

/// The end of the line that starts at `p`: before its `\n`, and before a
/// `\r` that precedes that `\n`.
pub open spec fn line_end(cs: Seq<char>, p: int) -> int {
    let k = newline_from(cs, p);
    if p < k && k < cs.len() && cs[k - 1] == '\r' {
        k - 1
    } else {
        k
    }
}

/// Where the line after the one at `p` starts.
pub open spec fn next_line(cs: Seq<char>, p: int) -> int {
    let k = newline_from(cs, p);
    if k < cs.len() {
        k + 1
    } else {
        cs.len() as int
    }
}

/// The text of the line that starts at `p`.
pub open spec fn line_at(cs: Seq<char>, p: int) -> Seq<char> {
    cs.subrange(p, line_end(cs, p))
}

pub open spec fn starts_with(s: Seq<char>, prefix: Seq<char>) -> bool {
    prefix.len() <= s.len() && s.subrange(0, prefix.len() as int) == prefix
}

/// Unicode `White_Space`, the characters `str::trim` removes.
pub open spec fn is_white_space(c: char) -> bool {
    let n = c as int;
    (0x09 <= n <= 0x0d) || n == 0x20 || n == 0x85 || n == 0xa0 || n == 0x1680 || (0x2000 <= n
        <= 0x200a) || n == 0x2028 || n == 0x2029 || n == 0x202f || n == 0x205f || n == 0x3000
}

/// The first position at or after `i` that holds no white space.
pub open spec fn trim_start(s: Seq<char>, i: int) -> int
    decreases s.len() - i,
{
    if 0 <= i < s.len() && is_white_space(s[i]) {
        trim_start(s, i + 1)
    } else {
        i
    }
}

/// The end of `s[..j]` with its trailing white space removed.
pub open spec fn trim_end(s: Seq<char>, j: int) -> int
    decreases j,
{
    if 0 < j <= s.len() && is_white_space(s[j - 1]) {
        trim_end(s, j - 1)
    } else {
        j
    }
}

/// `s` without leading and trailing white space.
pub open spec fn trim(s: Seq<char>) -> Seq<char> {
    let a = trim_start(s, 0);
    let b = trim_end(s, s.len() as int);
    if a < b {
        s.subrange(a, b)
    } else {
        Seq::empty()
    }
}

/// The label of a `-----BEGIN <label>-----` line: what follows the marker,
/// without a closing `-----`, trimmed.
pub open spec fn pem_label(line: Seq<char>) -> Seq<char> {
    let rest = line.subrange(11, line.len() as int);
    let core = if rest.len() >= 5 && rest.subrange(rest.len() - 5, rest.len() as int) == "-----"@ {
        rest.subrange(0, rest.len() - 5)
    } else {
        rest
    };
    trim(core)
}

/// The first line at or after `p` that starts with `-----END ` (or the end).
pub open spec fn find_end(cs: Seq<char>, p: int) -> int
    decreases cs.len() - p,
{
    if p < 0 || p >= cs.len() {
        cs.len() as int
    } else if starts_with(line_at(cs, p), "-----END "@) {
        p
    } else {
        proof {
            lemma_next_line(cs, p);
        }
        find_end(cs, next_line(cs, p))
    }
}

/// The lines from `p` up to the line at `e`, joined without separators.
pub open spec fn body_from(cs: Seq<char>, p: int, e: int) -> Seq<char>
    decreases cs.len() - p,
{
    if p < 0 || p >= e || p >= cs.len() {
        Seq::empty()
    } else {
        proof {
            lemma_next_line(cs, p);
        }
        line_at(cs, p) + body_from(cs, next_line(cs, p), e)
    }
}

/// Why PEM decoding failed.
pub ghost enum PemFailure {
    /// A `-----BEGIN` line with no `-----END` line after it; holds the label.
    Unterminated(Seq<char>),
    /// A block body with a character outside the base64 alphabet; holds the
    /// character the message shows.
    BadBase64(char),
    /// No `-----BEGIN` line at all.
    NoBlocks,
}

/// The blocks (label, contents) of the text from the line at `p` on.
pub open spec fn pem_from(cs: Seq<char>, p: int) -> Result<Seq<(Seq<char>, Seq<u8>)>, PemFailure>
    decreases cs.len() - p,
{
    if p < 0 || p >= cs.len() {
        Ok(Seq::empty())
    } else {
        proof {
            lemma_next_line(cs, p);
        }
        let line = line_at(cs, p);
        if starts_with(line, "-----BEGIN "@) {
            let label = pem_label(line);
            let e = find_end(cs, next_line(cs, p));
            if e >= cs.len() {
                Err(PemFailure::Unterminated(label))
            } else {
                match spec_b64_decode(body_from(cs, next_line(cs, p), e)) {
                    None => Err(PemFailure::BadBase64(b64_shown(body_from(cs, next_line(cs, p), e)))),
                    Some(der) => {
                        proof {
                            lemma_find_end(cs, next_line(cs, p));
                            lemma_next_line(cs, e);
                        }
                        match pem_from(cs, next_line(cs, e)) {
                            Err(f) => Err(f),
                            Ok(rest) => Ok(seq![(label, der)] + rest),
                        }
                    },
                }
            }
        } else {
            pem_from(cs, next_line(cs, p))
        }
    }
}

/// The blocks of a PEM text; at least one is required.
pub open spec fn spec_decode_pem(cs: Seq<char>) -> Result<Seq<(Seq<char>, Seq<u8>)>, PemFailure> {
    match pem_from(cs, 0) {
        Err(f) => Err(f),
        Ok(bs) => if bs.len() == 0 {
            Err(PemFailure::NoBlocks)
        } else {
            Ok(bs)
        },
    }
}

/// The message of each failure.
pub open spec fn pem_failure_message(f: PemFailure) -> Seq<char> {
    match f {
        PemFailure::Unterminated(label) => "unterminated PEM block '"@ + label + "'"@,
        PemFailure::NoBlocks => "no PEM blocks found"@,
        PemFailure::BadBase64(c) => b64_message(c),
    }
}

pub proof fn lemma_newline_from(cs: Seq<char>, p: int)
    requires
        0 <= p <= cs.len(),
    ensures
        p <= newline_from(cs, p) <= cs.len(),
        newline_from(cs, p) < cs.len() ==> cs[newline_from(cs, p)] == '\n',
        forall|k: int| p <= k < newline_from(cs, p) ==> cs[k] != '\n',
    decreases cs.len() - p,
{
    if p < cs.len() && cs[p] != '\n' {
        lemma_newline_from(cs, p + 1);
    }
}

pub proof fn lemma_next_line(cs: Seq<char>, p: int)
    requires
        0 <= p < cs.len(),
    ensures
        p <= line_end(cs, p) <= next_line(cs, p) <= cs.len(),
        p < next_line(cs, p),
{
    lemma_newline_from(cs, p);
}

pub proof fn lemma_find_end(cs: Seq<char>, p: int)
    requires
        0 <= p <= cs.len(),
    ensures
        p <= find_end(cs, p) <= cs.len(),
    decreases cs.len() - p,
{
    if p < cs.len() && !starts_with(line_at(cs, p), "-----END "@) {
        lemma_next_line(cs, p);
        lemma_find_end(cs, next_line(cs, p));
    }
}

} // verus!

verus! {

/// A decoded PEM block: its `-----BEGIN <label>-----` label and DER contents.
#[derive(Debug, Clone, PartialEq, Eq)]
pub struct PemBlock {
    /// The label from the `-----BEGIN <label>-----` header.
    pub label: String,
    /// The decoded DER bytes.
    pub der: Vec<u8>,
}

impl View for PemBlock {
    type V = (Seq<char>, Seq<u8>);

    open spec fn view(&self) -> (Seq<char>, Seq<u8>) {
        (self.label@, self.der@)
    }
}

/// The models of a list of blocks.
pub open spec fn blocks_model(bs: Seq<PemBlock>) -> Seq<(Seq<char>, Seq<u8>)> {
    bs.map_values(|b: PemBlock| b@)
}

/// `p` in front of the blocks of a successful result.
pub open spec fn prepend_blocks(
    p: Seq<(Seq<char>, Seq<u8>)>,
    r: Result<Seq<(Seq<char>, Seq<u8>)>, PemFailure>,
) -> Result<Seq<(Seq<char>, Seq<u8>)>, PemFailure> {
    match r {
        Ok(s) => Ok(p + s),
        Err(f) => Err(f),
    }
}

/// The end of the line at `p` and the start of the next.
pub(crate) fn line_bounds(cs: &Vec<char>, p: usize) -> (r: (usize, usize))
    requires
        p < cs@.len(),
    ensures
        r.0 == line_end(cs@, p as int),
        r.1 == next_line(cs@, p as int),
{
    let n = cs.len();
    let mut k = p;
    while k < n && cs[k] != '\n'
        invariant
            p <= k <= n == cs@.len(),
            newline_from(cs@, p as int) == newline_from(cs@, k as int),
        decreases n - k,
    {
        k += 1;
    }
    let le = if p < k && k < n && cs[k - 1] == '\r' {
        k - 1
    } else {
        k
    };
    let next = if k < n {
        k + 1
    } else {
        n
    };
    (le, next)
}

pub(crate) fn is_white_space_char(c: char) -> (r: bool)
    ensures
        r == is_white_space(c),
{
    let n = c as u32;
    (0x09 <= n && n <= 0x0d) || n == 0x20 || n == 0x85 || n == 0xa0 || n == 0x1680 || (0x2000 <= n
        && n <= 0x200a) || n == 0x2028 || n == 0x2029 || n == 0x202f || n == 0x205f || n == 0x3000
}

/// The label of the `-----BEGIN ` line that spans `cs[p..le]`.
fn label_of(cs: &Vec<char>, p: usize, le: usize, dashes: &Vec<char>) -> (r: String)
    requires
        p + 11 <= le <= cs@.len(),
        dashes@ == "-----"@,
    ensures
        r@ == pem_label(cs@.subrange(p as int, le as int)),
{
    proof {
        reveal_strlit("-----");
        assert(dashes@.len() == 5);
    }
    let ghost line = cs@.subrange(p as int, le as int);
    let ghost rest = line.subrange(11, line.len() as int);
    let start = p + 11;
    let mut end = le;
    if le - start >= 5 && starts_with_at(cs, le - 5, le, dashes) {
        end = le - 5;
        proof {
            assert(rest.subrange(rest.len() - 5, rest.len() as int) =~= cs@.subrange(le - 5, le as int));
        }
    } else {
        proof {
            if rest.len() >= 5 {
                assert(rest.subrange(rest.len() - 5, rest.len() as int) =~= cs@.subrange(le - 5, le as int));
            }
        }
    }
    let ghost core = cs@.subrange(start as int, end as int);
    proof {
        assert(core =~= if rest.len() >= 5 && rest.subrange(rest.len() - 5, rest.len() as int) == "-----"@ {
            rest.subrange(0, rest.len() - 5)
        } else {
            rest
        });
    }
    let mut a = start;
    while a < end && is_white_space_char(cs[a])
        invariant
            start <= a <= end <= cs@.len(),
            core == cs@.subrange(start as int, end as int),
            trim_start(core, 0) == trim_start(core, a - start),
        decreases end - a,
    {
        a += 1;
    }
    let mut b = end;
    while b > start && is_white_space_char(cs[b - 1])
        invariant
            start <= b <= end <= cs@.len(),
            core == cs@.subrange(start as int, end as int),
            trim_end(core, core.len() as int) == trim_end(core, b - start),
        decreases b,
    {
        b -= 1;
    }
    if a < b {
        let r = string_of(cs, a, b);
        proof {
            assert(core.subrange(a - start, b - start) =~= cs@.subrange(a as int, b as int));
        }
        r
    } else {
        String::new()
    }
}

/// The block body that starts at the line `start`: where its `-----END ` line
/// is and the text of the lines before it, or `None` if none follows.
fn scan_block(cs: &Vec<char>, start: usize, end_marker: &Vec<char>) -> (r: Option<(usize, Vec<char>)>)
    requires
        start <= cs@.len(),
        end_marker@ == "-----END "@,
    ensures
        r is None <==> find_end(cs@, start as int) >= cs@.len(),
        r matches Some((e, body)) ==> e == find_end(cs@, start as int) && body@ == body_from(
            cs@,
            start as int,
            e as int,
        ),
{
    let n = cs.len();
    let mut q = start;
    let mut body: Vec<char> = Vec::new();
    proof {
        lemma_find_end(cs@, start as int);
    }
    while q < n
        invariant
            start <= q <= n == cs@.len(),
            end_marker@ == "-----END "@,
            find_end(cs@, start as int) == find_end(cs@, q as int),
            q <= find_end(cs@, q as int) <= n,
            body@ + body_from(cs@, q as int, find_end(cs@, q as int)) == body_from(
                cs@,
                start as int,
                find_end(cs@, start as int),
            ),
        decreases n - q,
    {
        let (le, next) = line_bounds(cs, q);
        proof {
            lemma_next_line(cs@, q as int);
            assert(line_at(cs@, q as int) == cs@.subrange(q as int, le as int));
        }
        if starts_with_at(cs, q, le, end_marker) {
            proof {
                assert(cs@.subrange(q as int, le as int).subrange(0, end_marker@.len() as int) =~= cs@.subrange(
                    q as int,
                    q + end_marker@.len(),
                ));
                assert(body_from(cs@, q as int, q as int) =~= Seq::<char>::empty());
                assert(body@ + Seq::<char>::empty() =~= body@);
            }
            return Some((q, body));
        }
        proof {
            if starts_with(line_at(cs@, q as int), "-----END "@) {
                assert(cs@.subrange(q as int, le as int).subrange(0, end_marker@.len() as int) =~= cs@.subrange(
                    q as int,
                    q + end_marker@.len(),
                ));
            }
            lemma_find_end(cs@, next as int);
        }
        let ghost before = body@;
        let mut k = q;
        while k < le
            invariant
                q <= k <= le <= n == cs@.len(),
                body@ == before + cs@.subrange(q as int, k as int),
            decreases le - k,
        {
            body.push(cs[k]);
            proof {
                assert(cs@.subrange(q as int, k + 1) =~= cs@.subrange(q as int, k as int).push(cs@[k as int]));
            }
            k += 1;
        }
        proof {
            let e = find_end(cs@, q as int);
            assert(body_from(cs@, q as int, e) == line_at(cs@, q as int) + body_from(cs@, next as int, e));
            assert(before + (line_at(cs@, q as int) + body_from(cs@, next as int, e)) =~= body@ + body_from(
                cs@,
                next as int,
                e,
            ));
        }
        q = next;
    }
    None
}

/// Decode all PEM blocks found in `bytes`.
pub fn decode_pem(bytes: &[u8]) -> (res: Result<Vec<PemBlock>, String>)
    ensures
        match spec_decode_pem(lossy_text(bytes@)) {
            Ok(bs) => res matches Ok(v) && blocks_model(v@) == bs,
            Err(f) => res matches Err(m) && m@ == pem_failure_message(f),
        },
{
    let text = utf8_lossy(bytes);
    let cs = chars_of(text.as_str());
    let begin_marker = chars_of("-----BEGIN ");
    let end_marker = chars_of("-----END ");
    let dashes = chars_of("-----");
    proof {
        reveal_strlit("-----BEGIN ");
        assert(begin_marker@.len() == 11);
    }
    let n = cs.len();
    let mut p: usize = 0;
    let mut blocks: Vec<PemBlock> = Vec::new();
    proof {
        assert(blocks_model(blocks@) =~= Seq::empty());
        match pem_from(cs@, 0) {
            Ok(s) => {
                assert(Seq::<(Seq<char>, Seq<u8>)>::empty() + s =~= s);
            },
            Err(_) => {},
        }
    }
    while p < n
        invariant
            n == cs@.len(),
            cs@ == lossy_text(bytes@),
            begin_marker@ == "-----BEGIN "@,
            begin_marker@.len() == 11,
            end_marker@ == "-----END "@,
            dashes@ == "-----"@,
            p <= n,
            pem_from(cs@, 0) == prepend_blocks(blocks_model(blocks@), pem_from(cs@, p as int)),
        decreases n - p,
    {
        let (le, next) = line_bounds(&cs, p);
        proof {
            lemma_next_line(cs@, p as int);
            assert(line_at(cs@, p as int) == cs@.subrange(p as int, le as int));
        }
        if starts_with_at(&cs, p, le, &begin_marker) {
            proof {
                assert(cs@.subrange(p as int, le as int).subrange(0, 11) =~= cs@.subrange(p as int, p + 11));
            }
            let label = label_of(&cs, p, le, &dashes);
            match scan_block(&cs, next, &end_marker) {
                None => {
                    let mut msg = String::from_str("unterminated PEM block '");
                    push_str(&mut msg, label.as_str());
                    push_str(&mut msg, "'");
                    return Err(msg);
                },
                Some((e, body)) => {
                    let der = match b64_decode(&body) {
                        Ok(d) => d,
                        Err(m) => return Err(m),
                    };
                    proof {
                        lemma_find_end(cs@, next as int);
                        lemma_next_line(cs@, e as int);
                    }
                    let (_le2, after) = line_bounds(&cs, e);
                    let ghost before = blocks@;
                    let block = PemBlock { label, der };
                    blocks.push(block);
                    proof {
                        assert(blocks_model(blocks@) =~= blocks_model(before).push(block@));
                        match pem_from(cs@, after as int) {
                            Ok(s) => {
                                assert(blocks_model(before) + (seq![block@] + s) =~= blocks_model(
                                    blocks@,
                                ) + s);
                            },
                            Err(_) => {},
                        }
                    }
                    p = after;
                },
            }
        } else {
            proof {
                if starts_with(line_at(cs@, p as int), "-----BEGIN "@) {
                    assert(cs@.subrange(p as int, le as int).subrange(0, 11) =~= cs@.subrange(
                        p as int,
                        p + 11,
                    ));
                }
            }
            p = next;
        }
    }
    proof {
        assert(blocks_model(blocks@) + Seq::<(Seq<char>, Seq<u8>)>::empty() =~= blocks_model(blocks@));
    }
    if blocks.len() == 0 {
        return Err(String::from_str("no PEM blocks found"));
    }
    Ok(blocks)
}

} // verus!
