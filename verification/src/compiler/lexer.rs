//! Hand-written lexer for `.tpt-asn1` schema files.
//!
//! The token stream is specified by [`lex_from`]: a scan of the source bytes
//! from left to right, which the executable [`lex`] is proved to follow.

use crate::asn1::types::str_from_utf8;
use crate::text::{hex_byte, push_hex_byte};
use crate::compiler::error::{CompilerError, Result};
use vstd::prelude::*;
use vstd::string::StringSliceAdditionalSpecFns;
use vstd::utf8::*;

verus! {

/// A lexical token of the `.tpt-asn1` grammar.
#[derive(Debug, Clone, PartialEq, Eq)]
pub enum Token {
    /// An identifier or keyword (`INTEGER`, `SEQUENCE`, `module`, ...).
    Ident(String),
    /// An integer literal (also used for tag numbers and enum values).
    Int(i64),
    /// `:`
    Colon,
    /// `=`
    Equals,
    /// `{`
    LBrace,
    /// `}`
    RBrace,
    /// `(`
    LParen,
    /// `)`
    RParen,
    /// `[`
    LBracket,
    /// `]`
    RBracket,
    /// `,`
    Comma,
    /// `;`
    Semi,
    /// End of input.
    Eof,
}

/// Model of a [`Token`]: identifiers by their characters.
pub ghost enum TokenModel {
    Ident(Seq<char>),
    Int(int),
    Colon,
    Equals,
    LBrace,
    RBrace,
    LParen,
    RParen,
    LBracket,
    RBracket,
    Comma,
    Semi,
    Eof,
}

impl View for Token {
    type V = TokenModel;

    open spec fn view(&self) -> TokenModel {
        match self {
            Token::Ident(s) => TokenModel::Ident(s@),
            Token::Int(n) => TokenModel::Int(*n as int),
            Token::Colon => TokenModel::Colon,
            Token::Equals => TokenModel::Equals,
            Token::LBrace => TokenModel::LBrace,
            Token::RBrace => TokenModel::RBrace,
            Token::LParen => TokenModel::LParen,
            Token::RParen => TokenModel::RParen,
            Token::LBracket => TokenModel::LBracket,
            Token::RBracket => TokenModel::RBracket,
            Token::Comma => TokenModel::Comma,
            Token::Semi => TokenModel::Semi,
            Token::Eof => TokenModel::Eof,
        }
    }
}

/// The models of a token list.
pub open spec fn tokens_model(toks: Seq<Token>) -> Seq<TokenModel> {
    toks.map_values(|t: Token| t@)
}

/// Why lexing stopped.
pub ghost enum LexFailure {
    /// A decimal literal does not fit in `i64`.
    Overflow,
    /// A byte that starts no token.
    Unexpected(u8),
}

pub open spec fn is_space(c: u8) -> bool {
    c == 0x20 || c == 0x09 || c == 0x0d || c == 0x0a
}

pub open spec fn is_digit(c: u8) -> bool {
    0x30 <= c <= 0x39
}

pub open spec fn is_alpha(c: u8) -> bool {
    (0x41 <= c <= 0x5a) || (0x61 <= c <= 0x7a)
}

/// Bytes that continue an identifier: letters, digits, `_` and `-`.
pub open spec fn is_ident_byte(c: u8) -> bool {
    is_alpha(c) || is_digit(c) || c == 0x5f || c == 0x2d
}

/// The single-byte punctuation tokens.
pub open spec fn punct(c: u8) -> Option<TokenModel> {
    if c == 0x3a {
        Some(TokenModel::Colon)
    } else if c == 0x3d {
        Some(TokenModel::Equals)
    } else if c == 0x7b {
        Some(TokenModel::LBrace)
    } else if c == 0x7d {
        Some(TokenModel::RBrace)
    } else if c == 0x28 {
        Some(TokenModel::LParen)
    } else if c == 0x29 {
        Some(TokenModel::RParen)
    } else if c == 0x5b {
        Some(TokenModel::LBracket)
    } else if c == 0x5d {
        Some(TokenModel::RBracket)
    } else if c == 0x2c {
        Some(TokenModel::Comma)
    } else if c == 0x3b {
        Some(TokenModel::Semi)
    } else {
        None
    }
}

/// The end of the run of digits that starts at `i`.
pub open spec fn digits_end(b: Seq<u8>, i: int) -> int
    decreases b.len() - i,
{
    if 0 <= i < b.len() && is_digit(b[i]) {
        digits_end(b, i + 1)
    } else {
        i
    }
}

/// The end of the run of identifier bytes that starts at `i`.
pub open spec fn ident_end(b: Seq<u8>, i: int) -> int
    decreases b.len() - i,
{
    if 0 <= i < b.len() && is_ident_byte(b[i]) {
        ident_end(b, i + 1)
    } else {
        i
    }
}

/// The position of the first newline at or after `i` (or the end).
pub open spec fn line_end(b: Seq<u8>, i: int) -> int
    decreases b.len() - i,
{
    if 0 <= i < b.len() && b[i] != 0x0a {
        line_end(b, i + 1)
    } else {
        i
    }
}

/// The value of a run of decimal digits.
pub open spec fn decimal_value(s: Seq<u8>) -> int
    decreases s.len(),
{
    if s.len() == 0 {
        0
    } else {
        decimal_value(s.drop_last()) * 10 + (s.last() - 0x30)
    }
}

/// ASCII bytes read as characters.
pub open spec fn ascii_chars(s: Seq<u8>) -> Seq<char> {
    Seq::new(s.len(), |k: int| s[k] as char)
}

/// `t` in front of a successful token list.
pub open spec fn prepend(t: TokenModel, r: core::result::Result<Seq<TokenModel>, LexFailure>) -> core::result::Result<
    Seq<TokenModel>,
    LexFailure,
> {
    match r {
        Ok(s) => Ok(seq![t] + s),
        Err(e) => Err(e),
    }
}

/// `p` in front of a successful token list.
pub open spec fn prepend_all(p: Seq<TokenModel>, r: core::result::Result<Seq<TokenModel>, LexFailure>) -> core::result::Result<
    Seq<TokenModel>,
    LexFailure,
> {
    match r {
        Ok(s) => Ok(p + s),
        Err(e) => Err(e),
    }
}

/// The tokens of `b[i..]`, ending in `Eof`, or the first failure.
///
/// Blanks separate tokens; `--` and `-/` start a comment that runs to the end
/// of the line; `-` before a digit starts a negative literal; other `-`,
/// letters and `_` start an identifier, which runs over letters, digits, `_`
/// and `-`; a decimal literal must fit in `i64`.
pub open spec fn lex_from(b: Seq<u8>, i: int) -> core::result::Result<Seq<TokenModel>, LexFailure>
    decreases b.len() - i,
{
    if i < 0 || i >= b.len() {
        Ok(seq![TokenModel::Eof])
    } else {
        let c = b[i];
        if is_space(c) {
            lex_from(b, i + 1)
        } else if punct(c) is Some {
            prepend(punct(c)->0, lex_from(b, i + 1))
        } else if c == 0x2d && i + 1 < b.len() && (b[i + 1] == 0x2d || b[i + 1] == 0x2f) {
            let j = line_end(b, i + 1);
            proof {
                lemma_line_end(b, i + 1);
            }
            lex_from(b, j)
        } else if c == 0x2f && i + 1 < b.len() && b[i + 1] == 0x2f {
            let j = line_end(b, i + 1);
            proof {
                lemma_line_end(b, i + 1);
            }
            lex_from(b, j)
        } else if c == 0x2d && i + 1 < b.len() && is_digit(b[i + 1]) {
            let j = digits_end(b, i + 1);
            proof {
                lemma_digits_end(b, i + 1);
            }
            let v = decimal_value(b.subrange(i + 1, j));
            if v > i64::MAX {
                Err(LexFailure::Overflow)
            } else {
                prepend(TokenModel::Int(-v), lex_from(b, j))
            }
        } else if c == 0x2d || is_alpha(c) || c == 0x5f {
            let j = ident_end(b, i);
            proof {
                lemma_ident_end(b, i);
            }
            prepend(TokenModel::Ident(ascii_chars(b.subrange(i, j))), lex_from(b, j))
        } else if is_digit(c) {
            let j = digits_end(b, i);
            proof {
                lemma_digits_end(b, i);
            }
            let v = decimal_value(b.subrange(i, j));
            if v > i64::MAX {
                Err(LexFailure::Overflow)
            } else {
                prepend(TokenModel::Int(v), lex_from(b, j))
            }
        } else {
            Err(LexFailure::Unexpected(c))
        }
    }
}

/// The lexer's result on a source text's bytes.
pub open spec fn spec_lex(b: Seq<u8>) -> core::result::Result<Seq<TokenModel>, LexFailure> {
    lex_from(b, 0)
}

/// The message of a lex failure.
pub open spec fn lex_failure_message(f: LexFailure) -> Seq<char> {
    match f {
        LexFailure::Overflow => "integer overflow"@,
        LexFailure::Unexpected(c) => "unexpected byte 0x"@ + hex_byte(c),
    }
}

pub proof fn lemma_line_end(b: Seq<u8>, i: int)
    requires
        0 <= i <= b.len(),
    ensures
        i <= line_end(b, i) <= b.len(),
        forall|k: int| i <= k < line_end(b, i) ==> b[k] != 0x0a,
    decreases b.len() - i,
{
    if i < b.len() && b[i] != 0x0a {
        lemma_line_end(b, i + 1);
    }
}

pub proof fn lemma_digits_end(b: Seq<u8>, i: int)
    requires
        0 <= i <= b.len(),
    ensures
        i <= digits_end(b, i) <= b.len(),
        forall|k: int| i <= k < digits_end(b, i) ==> is_digit(#[trigger] b[k]),
        digits_end(b, i) < b.len() ==> !is_digit(b[digits_end(b, i)]),
    decreases b.len() - i,
{
    if i < b.len() && is_digit(b[i]) {
        lemma_digits_end(b, i + 1);
    }
}

pub proof fn lemma_ident_end(b: Seq<u8>, i: int)
    requires
        0 <= i <= b.len(),
    ensures
        i <= ident_end(b, i) <= b.len(),
        forall|k: int| i <= k < ident_end(b, i) ==> is_ident_byte(#[trigger] b[k]),
        ident_end(b, i) < b.len() ==> !is_ident_byte(b[ident_end(b, i)]),
    decreases b.len() - i,
{
    if i < b.len() && is_ident_byte(b[i]) {
        lemma_ident_end(b, i + 1);
    }
}

proof fn lemma_decimal_nonneg(s: Seq<u8>)
    requires
        forall|k: int| 0 <= k < s.len() ==> is_digit(#[trigger] s[k]),
    ensures
        decimal_value(s) >= 0,
    decreases s.len(),
{
    if s.len() > 0 {
        lemma_decimal_nonneg(s.drop_last());
    }
}

/// A run of digits is worth at least any of its prefixes.
proof fn lemma_decimal_prefix(s: Seq<u8>, k: int)
    requires
        0 <= k <= s.len(),
        forall|m: int| 0 <= m < s.len() ==> is_digit(#[trigger] s[m]),
    ensures
        decimal_value(s.subrange(0, k)) <= decimal_value(s),
    decreases s.len(),
{
    if k < s.len() {
        assert(s.drop_last().subrange(0, k) =~= s.subrange(0, k));
        lemma_decimal_prefix(s.drop_last(), k);
        lemma_decimal_nonneg(s.drop_last());
    } else {
        assert(s.subrange(0, k) =~= s);
    }
}

/// ASCII bytes are valid UTF-8, and a string whose bytes they are holds
/// exactly those characters.
proof fn lemma_ascii_text(b: Seq<u8>, s: Seq<char>)
    requires
        forall|k: int| 0 <= k < b.len() ==> #[trigger] b[k] < 128,
    ensures
        valid_utf8(b),
        encode_utf8(s) == b ==> s == ascii_chars(b),
{
    let c = ascii_chars(b);
    assert(is_ascii_chars(c));
    is_ascii_chars_encode_utf8(c);
    assert forall|k: int| 0 <= k < b.len() implies encode_utf8(c)[k] == b[k] by {
        assert(c[k] as u8 == encode_utf8(c)[k]);
    }
    assert(encode_utf8(c) =~= b);
    encode_utf8_valid_utf8(c);
    if encode_utf8(s) == b {
        encode_utf8_decode_utf8(s);
        encode_utf8_decode_utf8(c);
    }
}

} // verus!

verus! {

/// The message for a byte that starts no token.
fn unexpected_byte_message(c: u8) -> (m: String)
    ensures
        m@ == lex_failure_message(LexFailure::Unexpected(c)),
{
    let mut m = String::from_str("unexpected byte 0x");
    push_hex_byte(&mut m, c);
    m
}

/// The punctuation token a byte stands for, if any.
fn punct_token(c: u8) -> (r: Option<Token>)
    ensures
        r is None <==> punct(c) is None,
        r matches Some(t) ==> punct(c) == Some(t@),
{
    match c {
        0x3a => Some(Token::Colon),
        0x3d => Some(Token::Equals),
        0x7b => Some(Token::LBrace),
        0x7d => Some(Token::RBrace),
        0x28 => Some(Token::LParen),
        0x29 => Some(Token::RParen),
        0x5b => Some(Token::LBracket),
        0x5d => Some(Token::RBracket),
        0x2c => Some(Token::Comma),
        0x3b => Some(Token::Semi),
        _ => None,
    }
}

fn is_digit_byte(c: u8) -> (r: bool)
    ensures
        r == is_digit(c),
{
    0x30 <= c && c <= 0x39
}

fn is_alpha_byte(c: u8) -> (r: bool)
    ensures
        r == is_alpha(c),
{
    (0x41 <= c && c <= 0x5a) || (0x61 <= c && c <= 0x7a)
}

fn is_ident_char(c: u8) -> (r: bool)
    ensures
        r == is_ident_byte(c),
{
    is_alpha_byte(c) || is_digit_byte(c) || c == 0x5f || c == 0x2d
}

fn scan_digits(b: &[u8], i: usize) -> (j: usize)
    requires
        i <= b@.len(),
    ensures
        j == digits_end(b@, i as int),
{
    let mut j = i;
    while j < b.len() && is_digit_byte(b[j])
        invariant
            i <= j <= b@.len(),
            digits_end(b@, i as int) == digits_end(b@, j as int),
        decreases b@.len() - j,
    {
        j += 1;
    }
    j
}

fn scan_line(b: &[u8], i: usize) -> (j: usize)
    requires
        i <= b@.len(),
    ensures
        j == line_end(b@, i as int),
{
    let mut j = i;
    while j < b.len() && b[j] != 0x0a
        invariant
            i <= j <= b@.len(),
            line_end(b@, i as int) == line_end(b@, j as int),
        decreases b@.len() - j,
    {
        j += 1;
    }
    j
}

/// The value of the digits `b[start..end]`, or `None` where it exceeds
/// `i64::MAX`.
fn decimal_i64(b: &[u8], start: usize, end: usize) -> (r: Option<i64>)
    requires
        start <= end <= b@.len(),
        forall|k: int| start <= k < end ==> is_digit(#[trigger] b@[k]),
    ensures
        r is None <==> decimal_value(b@.subrange(start as int, end as int)) > i64::MAX,
        r matches Some(v) ==> v == decimal_value(b@.subrange(start as int, end as int)) && v >= 0,
{
    let ghost s = b@.subrange(start as int, end as int);
    let mut acc: i64 = 0;
    let mut k = start;
    while k < end
        invariant
            start <= k <= end <= b@.len(),
            s == b@.subrange(start as int, end as int),
            forall|m: int| start <= m < end ==> is_digit(#[trigger] b@[m]),
            acc == decimal_value(s.subrange(0, k - start)),
            0 <= acc,
        decreases end - k,
    {
        let d = (b[k] - 0x30) as i64;
        proof {
            assert(s.subrange(0, k + 1 - start).drop_last() =~= s.subrange(0, k - start));
        }
        if acc > (i64::MAX - d) / 10 {
            proof {
                lemma_decimal_prefix(s, k + 1 - start);
            }
            return None;
        }
        acc = acc * 10 + d;
        k += 1;
    }
    proof {
        assert(s.subrange(0, end - start) =~= s);
    }
    Some(acc)
}

/// Reads the identifier that starts at `i` into `toks`; returns where it ends.
fn lex_ident(bytes: &[u8], i: usize, toks: &mut Vec<Token>) -> (res: Result<usize>)
    requires
        i < bytes@.len(),
        is_ident_byte(bytes@[i as int]),
    ensures
        res matches Ok(j) && j == ident_end(bytes@, i as int) && i < j <= bytes@.len() && tokens_model(final(toks)@)
            == tokens_model(old(toks)@).push(
            TokenModel::Ident(ascii_chars(bytes@.subrange(i as int, j as int))),
        ),
{
    let start = i;
    let mut i = i;
    while i < bytes.len() && is_ident_char(bytes[i])
        invariant
            start <= i <= bytes@.len(),
            ident_end(bytes@, start as int) == ident_end(bytes@, i as int),
        decreases bytes@.len() - i,
    {
        i += 1;
    }
    let ghost word = bytes@.subrange(start as int, i as int);
    proof {
        lemma_ident_end(bytes@, start as int);
        assert forall|k: int| 0 <= k < word.len() implies #[trigger] word[k] < 128 by {
            assert(is_ident_byte(bytes@[start + k]));
        }
    }
    let text = &bytes[start..i];
    proof {
        assert(text@ =~= word);
        lemma_ascii_text(word, Seq::empty());
    }
    match str_from_utf8(text) {
        Some(s) => {
            proof {
                lemma_ascii_text(word, s@);
            }
            let ghost before = toks@;
            toks.push(Token::Ident(String::from_str(s)));
            proof {
                assert(tokens_model(toks@) =~= tokens_model(before).push(TokenModel::Ident(ascii_chars(word))));
            }
            Ok(i)
        },
        None => Err(CompilerError::lex("invalid identifier")),
    }
}

/// Tokenize `src` into a token stream ending in [`Token::Eof`].
pub fn lex(src: &str) -> (res: Result<Vec<Token>>)
    ensures
        match spec_lex(src.spec_bytes()) {
            Ok(ts) => res matches Ok(toks) && tokens_model(toks@) == ts,
            Err(f) => res matches Err(CompilerError::LexError(m)) && m@ == lex_failure_message(f),
        },
{
    let bytes = src.as_bytes();
    let ghost b = bytes@;
    let mut i: usize = 0;
    let mut toks: Vec<Token> = Vec::new();
    proof {
        assert(tokens_model(toks@) =~= Seq::empty());
        assert(prepend_all(Seq::empty(), lex_from(b, 0)) =~= lex_from(b, 0)) by {
            match lex_from(b, 0) {
                Ok(s) => {
                    assert(Seq::<TokenModel>::empty() + s =~= s);
                },
                Err(_) => {},
            }
        }
    }
    while i < bytes.len()
        invariant
            i <= b.len(),
            b == bytes@,
            b == src.spec_bytes(),
            spec_lex(b) == prepend_all(tokens_model(toks@), lex_from(b, i as int)),
        decreases b.len() - i,
    {
        let c = bytes[i];
        let ghost before = tokens_model(toks@);
        if c == 0x20 || c == 0x09 || c == 0x0d || c == 0x0a {
            i += 1;
        } else if let Some(t) = punct_token(c) {
            toks.push(t);
            proof {
                assert(tokens_model(toks@) =~= before.push(t@));
                lemma_prepend_step(before, t@, lex_from(b, i + 1));
            }
            i += 1;
        } else if c == 0x2d {
            if i + 1 < bytes.len() && (bytes[i + 1] == 0x2d || bytes[i + 1] == 0x2f) {
                proof {
                    lemma_line_end(b, i + 1);
                }
                i = scan_line(bytes, i + 1);
            } else if i + 1 < bytes.len() && is_digit_byte(bytes[i + 1]) {
                let start = i + 1;
                let end = scan_digits(bytes, start);
                proof {
                    lemma_digits_end(b, start as int);
                }
                match decimal_i64(bytes, start, end) {
                    Some(v) => {
                        toks.push(Token::Int(-v));
                        proof {
                            assert(tokens_model(toks@) =~= before.push(TokenModel::Int(-v)));
                            lemma_prepend_step(before, TokenModel::Int(-v), lex_from(b, end as int));
                        }
                        i = end;
                    },
                    None => {
                        return Err(CompilerError::lex("integer overflow"));
                    },
                }
            } else {
                let j = lex_ident(bytes, i, &mut toks)?;
                proof {
                    lemma_prepend_step(
                        before,
                        TokenModel::Ident(ascii_chars(b.subrange(i as int, j as int))),
                        lex_from(b, j as int),
                    );
                }
                i = j;
            }
        } else if c == 0x2f && i + 1 < bytes.len() && bytes[i + 1] == 0x2f {
            proof {
                lemma_line_end(b, i + 1);
            }
            i = scan_line(bytes, i + 1);
        } else if is_alpha_byte(c) || c == 0x5f {
            let j = lex_ident(bytes, i, &mut toks)?;
            proof {
                lemma_prepend_step(
                    before,
                    TokenModel::Ident(ascii_chars(b.subrange(i as int, j as int))),
                    lex_from(b, j as int),
                );
            }
            i = j;
        } else if is_digit_byte(c) {
            let end = scan_digits(bytes, i);
            proof {
                lemma_digits_end(b, i as int);
            }
            match decimal_i64(bytes, i, end) {
                Some(v) => {
                    toks.push(Token::Int(v));
                    proof {
                        assert(tokens_model(toks@) =~= before.push(TokenModel::Int(v as int)));
                        lemma_prepend_step(before, TokenModel::Int(v as int), lex_from(b, end as int));
                    }
                    i = end;
                },
                None => {
                    return Err(CompilerError::lex("integer overflow"));
                },
            }
        } else {
            return Err(CompilerError::LexError(unexpected_byte_message(c)));
        }
    }
    let ghost before = tokens_model(toks@);
    toks.push(Token::Eof);
    proof {
        assert(tokens_model(toks@) =~= before.push(TokenModel::Eof));
        assert(before + seq![TokenModel::Eof] =~= before.push(TokenModel::Eof));
    }
    Ok(toks)
}

/// Moving one token from the pending result onto the emitted prefix.
proof fn lemma_prepend_step(p: Seq<TokenModel>, t: TokenModel, r: core::result::Result<Seq<TokenModel>, LexFailure>)
    ensures
        prepend_all(p, prepend(t, r)) == prepend_all(p.push(t), r),
{
    match r {
        Ok(s) => {
            assert(p + (seq![t] + s) =~= p.push(t) + s);
        },
        Err(_) => {},
    }
}

} // verus!
