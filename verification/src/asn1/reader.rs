//! Zero-copy ASN.1 reader with recursion-depth and element-size guards.

use crate::asn1::error::{Error, Result};
use crate::asn1::length::{spec_be_word, spec_decode_length, Length};
use crate::asn1::tag::{spec_decode_tag, Tag};
use vstd::prelude::*;

verus! {

/// The ASN.1 encoding rule that governs parsing strictness.
#[derive(Clone, Copy, PartialEq, Eq, Debug, Hash, Structural)]
pub enum EncodingRule {
    /// ITU-T X.690 DER: definite lengths only, minimal length encoding.
    Der,
    /// ITU-T X.690 BER: definite or indefinite lengths accepted.
    Ber,
    /// ITU-T X.690 CER: like BER plus canonical-order validation.
    Cer,
}

impl EncodingRule {
    /// Whether this rule permits indefinite-length encodings.
    pub fn allows_indefinite(self) -> (r: bool)
        ensures
            r == (self != EncodingRule::Der),
    {
        self != EncodingRule::Der
    }
}

/// Parser configuration: rule, recursion cap, and maximum element size.
#[derive(Clone, Copy, PartialEq, Eq, Debug, Structural)]
pub struct Config {
    /// Active encoding rule.
    pub rule: EncodingRule,
    /// Maximum nesting depth of constructed types (DoS guard).
    pub max_recursion: usize,
    /// Maximum size, in bytes, of any single element (DoS guard).
    pub max_element_size: usize,
}

/// The default guards: 32 levels of nesting, 64 MiB per element.
pub open spec fn spec_default_config(rule: EncodingRule) -> Config {
    Config { rule, max_recursion: 32, max_element_size: 0x400_0000 }
}

impl Config {
    /// Strict DER configuration with conservative guards.
    pub fn der() -> (c: Self)
        ensures
            c == spec_default_config(EncodingRule::Der),
    {
        Config { rule: EncodingRule::Der, max_recursion: 32, max_element_size: 64 * 1024 * 1024 }
    }

    /// Lenient BER configuration.
    pub fn ber() -> (c: Self)
        ensures
            c == spec_default_config(EncodingRule::Ber),
    {
        Config { rule: EncodingRule::Ber, max_recursion: 32, max_element_size: 64 * 1024 * 1024 }
    }

    /// Canonical CER configuration.
    pub fn cer() -> (c: Self)
        ensures
            c == spec_default_config(EncodingRule::Cer),
    {
        Config { rule: EncodingRule::Cer, max_recursion: 32, max_element_size: 64 * 1024 * 1024 }
    }
}

/// A zero-copy reader over a byte slice.
pub struct Reader<'a> {
    input: &'a [u8],
    pos: usize,
    config: Config,
    depth: usize,
}

/// `new` read from the same input, under the same configuration and at the
/// same depth as `old`, and did not move backwards.
pub open spec fn advanced(old: Reader, new: Reader) -> bool {
    new.same_source(old) && old.spec_pos() <= new.spec_pos()
}

/// A read from `old` that ended in `new` with `res` did what `spec` (the
/// value and the offset after it, or the error) prescribes.
pub open spec fn parsed<T>(old: Reader, new: Reader, res: Result<T>, spec: Result<(T, int)>) -> bool {
    &&& new.same_source(old)
    &&& old.spec_pos() <= new.spec_pos()
    &&& new.spec_pos() <= new.spec_input().len()
    &&& match spec {
        Ok((v, p)) => res == Ok::<T, Error>(v) && new.spec_pos() == p,
        Err(e) => res == Err::<T, Error>(e),
    }
}

/// The header of the element at `pos` as the end-of-contents scan sees it:
/// the offset just after the tag and length octets, and the definite length
/// (`None` for indefinite). Long-form lengths are accumulated in a machine word.
pub open spec fn spec_eoc_header(s: Seq<u8>, pos: int) -> Result<(int, Option<int>)> {
    let tag_end = if s[pos] % 32 == 31 {
        spec_high_tag_end(s, pos + 1)
    } else {
        Ok(pos + 1)
    };
    match tag_end {
        Err(e) => Err(e),
        Ok(len_pos) => if len_pos >= s.len() {
            Err(Error::Truncated)
        } else {
            let lb = s[len_pos];
            if lb < 0x80 {
                Ok((len_pos + 1, Some(lb as int)))
            } else if lb == 0x80 {
                Ok((len_pos + 1, None))
            } else if lb == 0xff {
                Err(Error::InvalidLength)
            } else {
                let num = lb - 0x80;
                if num > s.len() - (len_pos + 1) {
                    Err(Error::Truncated)
                } else {
                    let after = len_pos + 1 + num;
                    Ok((after, Some(spec_be_word(s.subrange(len_pos + 1, after)) as int)))
                }
            }
        },
    }
}

/// A header ends after its first byte and inside `s`.
pub proof fn lemma_eoc_header(s: Seq<u8>, pos: int)
    requires
        0 <= pos < s.len(),
    ensures
        spec_eoc_header(s, pos) matches Ok((a, n)) ==> pos < a <= s.len() && (n matches Some(k) ==> k >= 0),
{
    lemma_high_tag_end(s, pos + 1);
}

/// The offset of the end-of-contents octets that close the indefinite
/// element whose content starts at `pos`, skipping nested elements
/// (`depth` levels deep; deeper than `max_rec` is refused).
pub open spec fn spec_scan_eoc(s: Seq<u8>, pos: int, depth: int, max_rec: int) -> Result<int>
    decreases s.len() - pos,
{
    if depth > max_rec {
        Err(Error::RecursionLimitExceeded)
    } else if pos < 0 || pos >= s.len() {
        Err(Error::Truncated)
    } else if s[pos] == 0 && pos + 1 < s.len() && s[pos + 1] == 0 {
        Ok(pos)
    } else {
        proof { lemma_eoc_header(s, pos); }
        match spec_eoc_header(s, pos) {
            Err(e) => Err(e),
            Ok((after, Some(n))) => if n > s.len() - after {
                Err(Error::Truncated)
            } else {
                spec_scan_eoc(s, after + n, depth, max_rec)
            },
            Ok((after, None)) => match spec_scan_eoc(s, after, depth + 1, max_rec) {
                Err(e) => Err(e),
                Ok(e) => if after <= e && e + 2 <= s.len() {
                    spec_scan_eoc(s, e + 2, depth, max_rec)
                } else {
                    Err(Error::Truncated)
                },
            },
        }
    }
}

/// The offset just after the base-128 tag-number bytes starting at `t`.
pub open spec fn spec_high_tag_end(s: Seq<u8>, t: int) -> Result<int>
    decreases s.len() - t,
{
    if t < 0 || t >= s.len() {
        Err(Error::Truncated)
    } else if s[t] < 0x80 {
        Ok(t + 1)
    } else {
        spec_high_tag_end(s, t + 1)
    }
}

/// A successful high-tag scan ends strictly after its start, inside `s`.
pub proof fn lemma_high_tag_end(s: Seq<u8>, t: int)
    ensures
        spec_high_tag_end(s, t) matches Ok(e) ==> t < e <= s.len(),
    decreases s.len() - t,
{
    if 0 <= t < s.len() && s[t] >= 0x80 {
        lemma_high_tag_end(s, t + 1);
    }
}

/// A successful scan finds the end-of-contents octets at or after `pos`,
/// both of them inside `s`.
pub proof fn lemma_scan_eoc_bounds(s: Seq<u8>, pos: int, depth: int, max_rec: int)
    ensures
        spec_scan_eoc(s, pos, depth, max_rec) matches Ok(e) ==> pos <= e && e + 2 <= s.len(),
    decreases s.len() - pos,
{
    if depth <= max_rec && 0 <= pos < s.len() && !(s[pos] == 0 && pos + 1 < s.len() && s[pos + 1] == 0) {
        lemma_eoc_header(s, pos);
        match spec_eoc_header(s, pos) {
            Ok((after, Some(n))) => {
                if n <= s.len() - after {
                    lemma_scan_eoc_bounds(s, after + n, depth, max_rec);
                }
            },
            Ok((after, None)) => {
                lemma_scan_eoc_bounds(s, after, depth + 1, max_rec);
                if let Ok(e) = spec_scan_eoc(s, after, depth + 1, max_rec) {
                    if after <= e && e + 2 <= s.len() {
                        lemma_scan_eoc_bounds(s, e + 2, depth, max_rec);
                    }
                }
            },
            Err(_) => {},
        }
    }
}

/// `r` from `p + d` on holds what `s` holds from `p` on.
pub open spec fn same_from(s: Seq<u8>, r: Seq<u8>, p: int, d: int) -> bool {
    &&& 0 <= p
    &&& 0 <= p + d
    &&& r.len() == s.len() + d
    &&& forall|i: int| p <= i < s.len() ==> r[i + d] == #[trigger] s[i]
}

/// An offset result moved by `d`.
pub open spec fn shift_offset(res: Result<int>, d: int) -> Result<int> {
    match res {
        Ok(e) => Ok(e + d),
        Err(x) => Err(x),
    }
}

/// The base-128 tag-number scan reads only what lies from its start on.
pub proof fn lemma_high_tag_end_shift(s: Seq<u8>, r: Seq<u8>, t: int, d: int)
    requires
        same_from(s, r, t, d),
    ensures
        spec_high_tag_end(r, t + d) == shift_offset(spec_high_tag_end(s, t), d),
    decreases s.len() - t,
{
    if t < s.len() {
        assert(r[t + d] == s[t]);
        if s[t] >= 0x80 {
            lemma_high_tag_end_shift(s, r, t + 1, d);
        }
    }
}

/// The header as the end-of-contents scan sees it reads only what lies from
/// `pos` on.
pub proof fn lemma_eoc_header_shift(s: Seq<u8>, r: Seq<u8>, pos: int, d: int)
    requires
        same_from(s, r, pos, d),
        pos < s.len(),
    ensures
        spec_eoc_header(r, pos + d) == match spec_eoc_header(s, pos) {
            Ok((a, n)) => Ok::<(int, Option<int>), Error>((a + d, n)),
            Err(e) => Err(e),
        },
{
    assert(r[pos + d] == s[pos]);
    if s[pos] % 32 == 31 {
        lemma_high_tag_end_shift(s, r, pos + 1, d);
    }
    lemma_high_tag_end(s, pos + 1);
    let tag_end = if s[pos] % 32 == 31 {
        spec_high_tag_end(s, pos + 1)
    } else {
        Ok(pos + 1)
    };
    if let Ok(lp) = tag_end {
        if lp < s.len() {
            assert(r[lp + d] == s[lp]);
            let lb = s[lp];
            if lb > 0x80 && lb != 0xff {
                let num = lb - 0x80;
                if num <= s.len() - (lp + 1) {
                    assert(r.subrange(lp + 1 + d, lp + 1 + num + d) =~= s.subrange(lp + 1, lp + 1 + num));
                }
            }
        }
    }
}

/// The end-of-contents scan reads only what lies from its start on: moved
/// by `d`, it finds the same octets moved by `d`.
pub proof fn lemma_scan_eoc_shift(s: Seq<u8>, r: Seq<u8>, pos: int, d: int, depth: int, max_rec: int)
    requires
        same_from(s, r, pos, d),
    ensures
        spec_scan_eoc(r, pos + d, depth, max_rec) == shift_offset(spec_scan_eoc(s, pos, depth, max_rec), d),
    decreases s.len() - pos,
{
    if depth <= max_rec && pos < s.len() {
        assert(r[pos + d] == s[pos]);
        if pos + 1 < s.len() {
            assert(r[pos + 1 + d] == s[pos + 1]);
        }
        if !(s[pos] == 0 && pos + 1 < s.len() && s[pos + 1] == 0) {
            lemma_eoc_header(s, pos);
            lemma_eoc_header_shift(s, r, pos, d);
            match spec_eoc_header(s, pos) {
                Ok((after, Some(n))) => {
                    if n <= s.len() - after {
                        lemma_scan_eoc_shift(s, r, after + n, d, depth, max_rec);
                    }
                },
                Ok((after, None)) => {
                    lemma_scan_eoc_shift(s, r, after, d, depth + 1, max_rec);
                    if let Ok(e) = spec_scan_eoc(s, after, depth + 1, max_rec) {
                        if after <= e && e + 2 <= s.len() {
                            lemma_scan_eoc_shift(s, r, e + 2, d, depth, max_rec);
                        }
                    }
                },
                Err(_) => {},
            }
        }
    }
}

/// The complete element at `pos`: its tag, its length, the bounds
/// `[start, end)` of its value (for an indefinite length, the content before
/// the end-of-contents octets) and the offset just after it.
pub open spec fn spec_read_tlv(s: Seq<u8>, pos: int, config: Config) -> Result<(Tag, Length, int, int, int)> {
    match spec_decode_tag(s, pos) {
        Err(e) => Err(e),
        Ok((tag, p1)) => match spec_decode_length(s, p1, config.rule) {
            Err(e) => Err(e),
            Ok((length, p2)) => match length {
                Length::Definite(n) => if n > config.max_element_size {
                    Err(Error::ElementTooLarge)
                } else if n > s.len() - p2 {
                    Err(Error::Truncated)
                } else {
                    Ok((tag, length, p2, p2 + n, p2 + n))
                },
                Length::Indefinite => match spec_scan_eoc(s, p2, 0, config.max_recursion as int) {
                    Err(e) => Err(e),
                    Ok(e) => if e - p2 > config.max_element_size {
                        Err(Error::ElementTooLarge)
                    } else {
                        Ok((tag, length, p2, e, e + 2))
                    },
                },
            },
        },
    }
}

/// A complete element lies inside the input after `pos`, its value
/// between the header and the next element.
pub proof fn lemma_read_tlv_bounds(s: Seq<u8>, pos: int, config: Config)
    ensures
        spec_read_tlv(s, pos, config) matches Ok((_, _, a, b, n)) ==> pos < a <= b <= n <= s.len(),
{
    crate::asn1::tag::lemma_decode_tag_progress(s, pos);
    if let Ok((t, p1)) = spec_decode_tag(s, pos) {
        if let Ok((l, p2)) = spec_decode_length(s, p1, config.rule) {
            if l is Indefinite {
                lemma_scan_eoc_bounds(s, p2, 0, config.max_recursion as int);
            }
        }
    }
}

/// A TLV read from `old` that ended in `new` with `res` returned exactly the
/// element that `spec_read_tlv` describes (or its error).
pub open spec fn tlv_read<'a>(old: Reader<'a>, new: Reader<'a>, res: Result<(Tag, Length, &'a [u8])>) -> bool {
    &&& new.same_source(old)
    &&& old.spec_pos() <= new.spec_pos()
    &&& new.spec_pos() <= new.spec_input().len()
    &&& match spec_read_tlv(old.spec_input(), old.spec_pos(), old.spec_config()) {
        Ok((t, l, a, b, n)) => {
            &&& res is Ok
            &&& res->Ok_0.0 == t
            &&& res->Ok_0.1 == l
            &&& res->Ok_0.2@ == old.spec_input().subrange(a, b)
            &&& new.spec_pos() == n
        },
        Err(e) => res == Err::<(Tag, Length, &'a [u8]), Error>(e),
    }
}

impl<'a> Reader<'a> {
    /// The bytes being read.
    pub closed spec fn spec_input(&self) -> Seq<u8> {
        self.input@
    }

    /// The offset of the next unread byte.
    pub closed spec fn spec_pos(&self) -> int {
        self.pos as int
    }

    /// The parser configuration.
    pub closed spec fn spec_config(&self) -> Config {
        self.config
    }

    /// The nesting depth of this reader.
    pub closed spec fn spec_depth(&self) -> int {
        self.depth as int
    }

    /// Offsets and depths are never negative.
    pub broadcast proof fn lemma_nonneg(r: Reader<'a>)
        ensures
            #[trigger] r.spec_pos() >= 0,
            r.spec_depth() >= 0,
    {
    }

    /// `self` reads the same input with the same configuration and depth as `other`.
    pub open spec fn same_source(&self, other: Reader) -> bool {
        &&& self.spec_input() == other.spec_input()
        &&& self.spec_config() == other.spec_config()
        &&& self.spec_depth() == other.spec_depth()
    }

    /// The unread bytes.
    pub open spec fn spec_rest(&self) -> Seq<u8> {
        self.spec_input().subrange(self.spec_pos(), self.spec_input().len() as int)
    }

    #[verifier::type_invariant]
    closed spec fn inv(self) -> bool {
        self.pos <= self.input@.len()
    }

    /// Create a reader over `input` with the given `config`.
    pub fn new(input: &'a [u8], config: Config) -> (r: Self)
        ensures
            r.spec_input() == input@,
            r.spec_pos() == 0,
            r.spec_config() == config,
            r.spec_depth() == 0,
    {
        Reader { input, pos: 0, config, depth: 0 }
    }

    /// The active parser configuration.
    pub fn config(&self) -> (c: &Config)
        ensures
            *c == self.spec_config(),
    {
        &self.config
    }

    /// Number of unread bytes remaining.
    pub fn remaining(&self) -> (n: usize)
        ensures
            n == self.spec_input().len() - self.spec_pos(),
            0 <= self.spec_pos() <= self.spec_input().len(),
    {
        proof { use_type_invariant(self); }
        self.input.len() - self.pos
    }

    /// Borrow the `input[start..end]` span (used to capture a full TLV).
    pub fn slice(&self, start: usize, end: usize) -> (s: &'a [u8])
        requires
            start <= end <= self.spec_input().len(),
        ensures
            s@ == self.spec_input().subrange(start as int, end as int),
    {
        &self.input[start..end]
    }

    /// Whether the input is fully consumed.
    pub fn is_empty(&self) -> (r: bool)
        ensures
            r == (self.spec_pos() >= self.spec_input().len()),
            0 <= self.spec_pos() <= self.spec_input().len(),
    {
        proof { use_type_invariant(self); }
        self.pos >= self.input.len()
    }

    /// Current read offset.
    pub fn position(&self) -> (p: usize)
        ensures
            p == self.spec_pos(),
            p <= self.spec_input().len(),
    {
        proof { use_type_invariant(self); }
        self.pos
    }

    /// Borrow all remaining unread bytes and advance to the end of input.
    pub fn read_remaining(&mut self) -> (res: Result<&'a [u8]>)
        ensures
            final(self).same_source(*old(self)),
            final(self).spec_pos() == old(self).spec_input().len(),
            res is Ok,
            res->Ok_0@ == old(self).spec_rest(),
    {
        proof { use_type_invariant(&*self); }
        let slice = &self.input[self.pos..self.input.len()];
        self.pos = self.input.len();
        Ok(slice)
    }

    /// Read a single byte.
    pub fn read_u8(&mut self) -> (res: Result<u8>)
        ensures
            final(self).same_source(*old(self)),
            final(self).spec_pos() <= final(self).spec_input().len(),
            old(self).spec_pos() < old(self).spec_input().len() ==> {
                &&& res == Ok::<u8, Error>(old(self).spec_input()[old(self).spec_pos()])
                &&& final(self).spec_pos() == old(self).spec_pos() + 1
            },
            old(self).spec_pos() >= old(self).spec_input().len() ==> {
                &&& res == Err::<u8, Error>(Error::Truncated)
                &&& final(self).spec_pos() == old(self).spec_pos()
            },
    {
        proof { use_type_invariant(&*self); }
        if self.pos >= self.input.len() {
            return Err(Error::Truncated);
        }
        let b = self.input[self.pos];
        self.pos = self.pos + 1;
        Ok(b)
    }

    /// Read `n` bytes as a zero-copy slice borrowed from the input.
    pub fn read_bytes(&mut self, n: usize) -> (res: Result<&'a [u8]>)
        ensures
            final(self).same_source(*old(self)),
            final(self).spec_pos() <= final(self).spec_input().len(),
            n <= old(self).spec_input().len() - old(self).spec_pos() ==> {
                &&& res is Ok
                &&& res->Ok_0@ == old(self).spec_input().subrange(old(self).spec_pos(), old(self).spec_pos() + n)
                &&& final(self).spec_pos() == old(self).spec_pos() + n
            },
            n > old(self).spec_input().len() - old(self).spec_pos() ==> {
                &&& res == Err::<&'a [u8], Error>(Error::Truncated)
                &&& final(self).spec_pos() == old(self).spec_pos()
            },
    {
        proof { use_type_invariant(&*self); }
        if n > self.remaining() {
            return Err(Error::Truncated);
        }
        let len = self.input.len();
        assert(self.pos + n <= len);
        let slice = &self.input[self.pos..self.pos + n];
        self.pos = self.pos + n;
        Ok(slice)
    }

    /// Read a [`Tag`].
    pub fn read_tag(&mut self) -> (res: Result<Tag>)
        ensures
            parsed(*old(self), *final(self), res, spec_decode_tag(old(self).spec_input(), old(self).spec_pos())),
    {
        Tag::decode(self)
    }

    /// Peek the next [`Tag`] without consuming any input.
    pub fn peek_tag(&self) -> (res: Result<Tag>)
        ensures
            match spec_decode_tag(self.spec_input(), self.spec_pos()) {
                Ok((t, _)) => res == Ok::<Tag, Error>(t),
                Err(e) => res == Err::<Tag, Error>(e),
            },
    {
        proof { use_type_invariant(self); }
        let mut tmp = Reader { input: self.input, pos: self.pos, config: self.config, depth: self.depth };
        Tag::decode(&mut tmp)
    }

    /// Read a [`Length`].
    pub fn read_length(&mut self) -> (res: Result<Length>)
        ensures
            parsed(*old(self), *final(self), res, spec_decode_length(old(self).spec_input(), old(self).spec_pos(), old(self).spec_config().rule)),
    {
        Length::decode(self)
    }

    /// Read a complete TLV, returning its `(tag, length, value_bytes)`.
    ///
    /// The value bytes are borrowed from the input: for a definite length the
    /// exact value; for an indefinite length the inner content (excluding the
    /// terminating end-of-contents octets).
    pub fn read_tlv(&mut self) -> (res: Result<(Tag, Length, &'a [u8])>)
        ensures
            tlv_read(*old(self), *final(self), res),
            res is Ok ==> old(self).spec_pos() < final(self).spec_pos(),
    {
        proof { lemma_read_tlv_bounds(self.spec_input(), self.spec_pos(), self.spec_config()); }
        let tag = self.read_tag()?;
        let length = self.read_length()?;
        proof { use_type_invariant(&*self); }
        match length {
            Length::Definite(n) => {
                if n > self.config.max_element_size {
                    return Err(Error::ElementTooLarge);
                }
                let value = self.read_bytes(n)?;
                Ok((tag, length, value))
            },
            Length::Indefinite => {
                let start = self.pos;
                let total = self.input.len();
                proof { lemma_scan_eoc_bounds(self.input@, start as int, 0, self.config.max_recursion as int); }
                let content_end = find_eoc(self.input, start, self.config.max_recursion)?;
                let value = &self.input[start..content_end];
                if value.len() > self.config.max_element_size {
                    return Err(Error::ElementTooLarge);
                }
                self.pos = content_end + 2;
                Ok((tag, length, value))
            },
        }
    }

    /// Create a sub-reader over `content` that inherits this reader's config
    /// and enforces the recursion-depth guard.
    pub(crate) fn sub_reader(&self, content: &'a [u8]) -> (res: Result<Reader<'a>>)
        ensures
            self.spec_depth() + 1 > self.spec_config().max_recursion ==> res == Err::<Reader<'a>, Error>(Error::RecursionLimitExceeded),
            self.spec_depth() + 1 <= self.spec_config().max_recursion ==> {
                &&& res is Ok
                &&& res->Ok_0.spec_input() == content@
                &&& res->Ok_0.spec_pos() == 0
                &&& res->Ok_0.spec_config() == self.spec_config()
                &&& res->Ok_0.spec_depth() == self.spec_depth() + 1
            },
    {
        if self.depth >= self.config.max_recursion {
            return Err(Error::RecursionLimitExceeded);
        }
        let sub = Reader { input: content, pos: 0, config: self.config, depth: self.depth + 1 };
        Ok(sub)
    }
}

/// Scan `input` from `start` for the end-of-contents octets (`00 00`) that
/// terminate the enclosing indefinite-length element, respecting nesting.
fn find_eoc(input: &[u8], start: usize, max_recursion: usize) -> (res: Result<usize>)
    requires
        start <= input@.len(),
    ensures
        match spec_scan_eoc(input@, start as int, 0, max_recursion as int) {
            Ok(e) => res == Ok::<usize, Error>(e as usize),
            Err(e) => res == Err::<usize, Error>(e),
        },
        res matches Ok(v) ==> start <= v && v + 2 <= input@.len(),
{
    proof { lemma_scan_eoc_bounds(input@, start as int, 0, max_recursion as int); }
    let len = input.len();
    find_eoc_inner(input, start, 0, max_recursion)
}

/// Parse the tag and length octets of the element at `pos` (for the
/// end-of-contents scan): the offset after them and the definite length.
#[verifier::loop_isolation(false)]
fn eoc_header(input: &[u8], pos: usize) -> (res: Result<(usize, Option<usize>)>)
    requires
        pos < input@.len(),
    ensures
        match spec_eoc_header(input@, pos as int) {
            Ok((a, n)) => res is Ok && res->Ok_0.0 == a && (match n {
                Some(k) => res->Ok_0.1 == Some(k as usize),
                None => res->Ok_0.1 is None,
            }),
            Err(e) => res == Err::<(usize, Option<usize>), Error>(e),
        },
{
    let ghost s = input@;
    let first = input[pos];
    assert((first & 0x1f) == first % 32) by (bit_vector);
    let tag_len = if (first & 0x1f) == 0x1f {
        let mut t = pos + 1;
        loop
            invariant
                pos < t <= input@.len(),
                s == input@,
                spec_high_tag_end(s, t as int) == spec_high_tag_end(s, pos + 1),
            decreases input@.len() - t,
        {
            if t >= input.len() {
                return Err(Error::Truncated);
            }
            let b = input[t];
            t += 1;
            assert((b & 0x80 == 0) == (b < 0x80)) by (bit_vector);
            if b & 0x80 == 0 {
                break;
            }
        }
        t - pos
    } else {
        1
    };
    let len_pos = pos + tag_len;
    if len_pos >= input.len() {
        return Err(Error::Truncated);
    }
    let len_byte = input[len_pos];
    if len_byte < 0x80 {
        Ok((len_pos + 1, Some(len_byte as usize)))
    } else if len_byte == 0x80 {
        Ok((len_pos + 1, None))
    } else if len_byte == 0xff {
        Err(Error::InvalidLength)
    } else {
        let num = (len_byte & 0x7f) as usize;
        assert(len_byte & 0x7f == len_byte - 0x80) by (bit_vector)
            requires len_byte >= 0x80;
        if num > input.len() - (len_pos + 1) {
            return Err(Error::Truncated);
        }
        let mut v: usize = 0;
        let mut i: usize = 0;
        while i < num
            invariant
                i <= num,
                len_pos + 1 + num <= input@.len(),
                s == input@,
                v == spec_be_word(s.subrange(len_pos + 1, len_pos + 1 + i)),
            decreases num - i,
        {
            assert(s.subrange(len_pos + 1, len_pos + 1 + i + 1).drop_last() =~= s.subrange(len_pos + 1, len_pos + 1 + i));
            v = (v << 8) | input[len_pos + 1 + i] as usize;
            i += 1;
        }
        Ok((len_pos + 1 + num, Some(v)))
    }
}

#[verifier::loop_isolation(false)]
fn find_eoc_inner(input: &[u8], start: usize, depth: usize, max_recursion: usize) -> (res: Result<usize>)
    requires
        start <= input@.len(),
        depth <= start,
    ensures
        match spec_scan_eoc(input@, start as int, depth as int, max_recursion as int) {
            Ok(e) => res == Ok::<usize, Error>(e as usize),
            Err(e) => res == Err::<usize, Error>(e),
        },
    decreases input@.len() - start,
{
    let ghost s = input@;
    let ghost target = spec_scan_eoc(s, start as int, depth as int, max_recursion as int);
    proof { lemma_scan_eoc_bounds(s, start as int, depth as int, max_recursion as int); }
    if depth > max_recursion {
        return Err(Error::RecursionLimitExceeded);
    }
    let mut pos = start;
    while pos < input.len()
        invariant
            start <= pos <= input@.len(),
            depth <= pos,
            depth <= max_recursion,
            s == input@,
            spec_scan_eoc(s, pos as int, depth as int, max_recursion as int) == target,
        decreases input@.len() - pos,
    {
        if input[pos] == 0x00 && pos + 1 < input.len() && input[pos + 1] == 0x00 {
            // End-of-contents closes the indefinite element being scanned at
            // this level; nested ones are scanned by the recursive call.
            return Ok(pos);
        }
        proof { lemma_eoc_header(s, pos as int); }
        let (after, value_len) = eoc_header(input, pos)?;
        match value_len {
            Some(n) => {
                if n > input.len() - after {
                    return Err(Error::Truncated);
                }
                pos = after + n;
            },
            None => {
                let eoc = find_eoc_inner(input, after, depth + 1, max_recursion)?;
                proof { lemma_scan_eoc_bounds(s, after as int, depth + 1, max_recursion as int); }
                pos = eoc + 2;
            },
        }
    }
    Err(Error::Truncated)
}

/// Read a single top-level TLV from `bytes` using strict DER.
pub fn read_tlv(bytes: &[u8]) -> (res: Result<(Tag, Length, &[u8])>)
    ensures
        match spec_read_tlv(bytes@, 0, spec_default_config(EncodingRule::Der)) {
            Ok((t, l, a, b, _)) => res is Ok && res->Ok_0.0 == t && res->Ok_0.1 == l && res->Ok_0.2@ == bytes@.subrange(a, b),
            Err(e) => res == Err::<(Tag, Length, &[u8]), Error>(e),
        },
{
    let mut reader = Reader::new(bytes, Config::der());
    reader.read_tlv()
}

} // verus!
