//! Recursive-descent parser: tokens -> [`Schema`] AST.
//!
//! The grammar is stated by the spec functions of this module, each of which
//! reads a token list from a position and gives what it parsed and where it
//! stopped, or why it failed. The executable functions are proved to agree
//! with them, position for position.

use crate::asn1::util::bytes_eq;
use crate::asn1::util::push_str;
use crate::compiler::ast::{
    assignments_model, enum_variant_model, field_model, fields_model, lemma_fields_model_push,
    type_assignment_model, EnumVariant, Field, Schema, Type, TypeAssignment, TypeDef,
    Builtin, DefaultValue, EnumVariantModel, FieldModel, SchemaModel, TagClass, TagSpec, Tagging,
    TypeAssignmentModel, TypeDefModel, TypeModel,
};
use crate::compiler::error::CompilerError;
use crate::compiler::lexer::{tokens_model, Token, TokenModel};
use crate::text::{debug_str, debug_text, decimal, push_decimal, push_signed_decimal, signed_decimal};
use vstd::prelude::*;
use vstd::utf8::encode_utf8_decode_utf8;

verus! {

/// Why parsing stopped.
pub ghost enum ParseFailure {
    /// A specific token was required and another was found: the one
    /// required, the one found, and the position.
    Mismatch(TokenModel, TokenModel, int),
    /// An identifier was required: the token found, and the position the
    /// message shows (one past it, but for `Eof`).
    NotIdent(TokenModel, int),
    /// An integer literal was required; holds the token found.
    NotInt(TokenModel),
    /// A step of the grammar that would consume no tokens, or run past the
    /// end of the list.
    NoProgress,
    /// A module header did not start with `module`; holds the word found.
    NotModule(Seq<char>),
    /// An inline `SEQUENCE { ... }` where only a named type may stand.
    InlineSequence,
    /// An inline `SET { ... }` where only a named type may stand.
    InlineSet,
    /// An inline `CHOICE { ... }` where only a named type may stand.
    InlineChoice,
    /// `ENUMERATED` anywhere but directly after `::=`.
    InlineEnumerated,
    /// A `DEFAULT` that is not `TRUE`, `FALSE`, `NULL` or an integer; holds
    /// the token found.
    BadDefault(TokenModel),
}

/// The `Debug` rendering of a token: the variant's name, and for an
/// identifier or integer its value in brackets.
pub open spec fn token_debug(t: TokenModel) -> Seq<char> {
    match t {
        TokenModel::Ident(s) => "Ident("@ + debug_str(s) + ")"@,
        TokenModel::Int(n) => "Int("@ + signed_decimal(n) + ")"@,
        TokenModel::Colon => "Colon"@,
        TokenModel::Equals => "Equals"@,
        TokenModel::LBrace => "LBrace"@,
        TokenModel::RBrace => "RBrace"@,
        TokenModel::LParen => "LParen"@,
        TokenModel::RParen => "RParen"@,
        TokenModel::LBracket => "LBracket"@,
        TokenModel::RBracket => "RBracket"@,
        TokenModel::Comma => "Comma"@,
        TokenModel::Semi => "Semi"@,
        TokenModel::Eof => "Eof"@,
    }
}

/// The message of each failure (`None` for a step that makes no progress,
/// whose message is not fixed).
pub open spec fn parse_failure_message(f: ParseFailure) -> Option<Seq<char>> {
    match f {
        ParseFailure::Mismatch(e, g, pos) => Some(
            "expected "@ + token_debug(e) + ", got "@ + token_debug(g) + " (token #"@ + decimal(
                pos as nat,
            ) + ")"@,
        ),
        ParseFailure::NotIdent(g, shown) => Some(
            "expected identifier, got "@ + token_debug(g) + " (token #"@ + decimal(shown as nat)
                + ")"@,
        ),
        ParseFailure::NotInt(g) => Some("expected integer, got "@ + token_debug(g)),
        ParseFailure::BadDefault(g) => Some("unsupported DEFAULT value: "@ + token_debug(g)),
        ParseFailure::NotModule(kw) => Some("expected 'module', got '"@ + kw + "'"@),
        ParseFailure::InlineSequence => Some(
            "inline SEQUENCE must be a named type; define it at module level"@,
        ),
        ParseFailure::InlineSet => Some("inline SET must be a named type; define it at module level"@),
        ParseFailure::InlineChoice => Some(
            "inline CHOICE must be a named type; define it at module level"@,
        ),
        ParseFailure::InlineEnumerated => Some(
            "ENUMERATED must be a named type: `Name ::= ENUMERATED { ... }`"@,
        ),
        _ => None,
    }
}

/// The token at `p`, reading past either end as `Eof`.
pub open spec fn tok(t: Seq<TokenModel>, p: int) -> TokenModel {
    if 0 <= p < t.len() {
        t[p]
    } else {
        TokenModel::Eof
    }
}

/// A token list the parser accepts as input: it ends in `Eof`.
pub open spec fn well_formed(t: Seq<TokenModel>) -> bool {
    t.len() > 0 && t.last() == TokenModel::Eof
}

pub open spec fn s_ident(t: Seq<TokenModel>, p: int) -> Result<(Seq<char>, int), ParseFailure> {
    match tok(t, p) {
        TokenModel::Ident(s) => Ok((s, p + 1)),
        TokenModel::Eof => Err(ParseFailure::NotIdent(TokenModel::Eof, p)),
        g => Err(ParseFailure::NotIdent(g, p + 1)),
    }
}

pub open spec fn s_expect(t: Seq<TokenModel>, p: int, k: TokenModel) -> Result<int, ParseFailure> {
    if tok(t, p) == k {
        Ok(p + 1)
    } else {
        Err(ParseFailure::Mismatch(k, tok(t, p), p))
    }
}

pub open spec fn s_int(t: Seq<TokenModel>, p: int) -> Result<(int, int), ParseFailure> {
    match tok(t, p) {
        TokenModel::Int(n) => Ok((n, p + 1)),
        g => Err(ParseFailure::NotInt(g)),
    }
}

pub open spec fn peek_is_ident(t: Seq<TokenModel>, p: int, s: Seq<char>) -> bool {
    tok(t, p) == TokenModel::Ident(s)
}

/// The built-in type a keyword names.
pub open spec fn builtin_of(s: Seq<char>) -> Option<Builtin> {
    if s == "BOOLEAN"@ {
        Some(Builtin::Boolean)
    } else if s == "INTEGER"@ {
        Some(Builtin::Integer)
    } else if s == "BIT STRING"@ {
        Some(Builtin::BitString)
    } else if s == "OCTET STRING"@ {
        Some(Builtin::OctetString)
    } else if s == "NULL"@ {
        Some(Builtin::Null)
    } else if s == "OBJECT IDENTIFIER"@ {
        Some(Builtin::ObjectIdentifier)
    } else if s == "RELATIVE-OID"@ {
        Some(Builtin::RelativeOid)
    } else if s == "UTF8String"@ {
        Some(Builtin::Utf8String)
    } else if s == "NumericString"@ {
        Some(Builtin::NumericString)
    } else if s == "PrintableString"@ {
        Some(Builtin::PrintableString)
    } else if s == "TeletexString"@ {
        Some(Builtin::TeletexString)
    } else if s == "VideotexString"@ {
        Some(Builtin::VideotexString)
    } else if s == "IA5String"@ {
        Some(Builtin::Ia5String)
    } else if s == "UTCTime"@ {
        Some(Builtin::UtcTime)
    } else if s == "GeneralizedTime"@ {
        Some(Builtin::GeneralizedTime)
    } else if s == "GraphicString"@ {
        Some(Builtin::GraphicString)
    } else if s == "VisibleString"@ {
        Some(Builtin::VisibleString)
    } else if s == "GeneralString"@ {
        Some(Builtin::GeneralString)
    } else if s == "UniversalString"@ {
        Some(Builtin::UniversalString)
    } else if s == "CHARACTER STRING"@ {
        Some(Builtin::CharacterString)
    } else if s == "BMPString"@ {
        Some(Builtin::BmpString)
    } else if s == "ObjectDescriptor"@ {
        Some(Builtin::ObjectDescriptor)
    } else {
        None
    }
}

/// An optional tag `[CLASS n] IMPLICIT|EXPLICIT`; the class defaults to
/// context-specific and the mode to EXPLICIT.
pub open spec fn s_tag(t: Seq<TokenModel>, p: int) -> Result<(Tagging, int), ParseFailure> {
    if tok(t, p) != TokenModel::LBracket {
        Ok((Tagging::Untagged, p))
    } else {
        let p1 = p + 1;
        let (class, p2) = match tok(t, p1) {
            TokenModel::Ident(c) => if c == "UNIVERSAL"@ {
                (TagClass::Universal, p1 + 1)
            } else if c == "APPLICATION"@ {
                (TagClass::Application, p1 + 1)
            } else if c == "PRIVATE"@ {
                (TagClass::Private, p1 + 1)
            } else if c == "CONTEXT"@ {
                (TagClass::Context, p1 + 1)
            } else {
                (TagClass::Context, p1)
            },
            _ => (TagClass::Context, p1),
        };
        match s_int(t, p2) {
            Err(e) => Err(e),
            Ok((n, p3)) => match s_expect(t, p3, TokenModel::RBracket) {
                Err(e) => Err(e),
                Ok(p4) => {
                    let (explicit, p5) = match tok(t, p4) {
                        TokenModel::Ident(k) => if k == "IMPLICIT"@ {
                            (false, p4 + 1)
                        } else if k == "EXPLICIT"@ {
                            (true, p4 + 1)
                        } else {
                            (true, p4)
                        },
                        _ => (true, p4),
                    };
                    Ok((Tagging::Tagged(TagSpec { class, number: n as u32, explicit }), p5))
                },
            },
        }
    }
}

/// A `DEFAULT` value.
pub open spec fn s_default(t: Seq<TokenModel>, p: int) -> Result<(DefaultValue, int), ParseFailure> {
    match tok(t, p) {
        TokenModel::Ident(s) => if s == "TRUE"@ {
            Ok((DefaultValue::Boolean(true), p + 1))
        } else if s == "FALSE"@ {
            Ok((DefaultValue::Boolean(false), p + 1))
        } else if s == "NULL"@ {
            Ok((DefaultValue::Null, p + 1))
        } else {
            Err(ParseFailure::BadDefault(TokenModel::Ident(s)))
        },
        TokenModel::Int(n) => Ok((DefaultValue::Integer(n as i64), p + 1)),
        g => Err(ParseFailure::BadDefault(g)),
    }
}

/// A type: its leading keyword, then the rest.
pub open spec fn s_base_type(t: Seq<TokenModel>, p: int, allow_compound: bool) -> Result<
    (TypeModel, int),
    ParseFailure,
>
    decreases t.len() - p, 0int,
{
    match s_ident(t, p) {
        Err(e) => Err(e),
        Ok((kw, p1)) => s_base_inner(t, p1, kw, allow_compound),
    }
}

/// A type whose leading keyword `kw` was read; inline compounds only where
/// `allow_compound`.
pub open spec fn s_base_inner(t: Seq<TokenModel>, p: int, kw: Seq<char>, allow_compound: bool) -> Result<
    (TypeModel, int),
    ParseFailure,
>
    decreases t.len() - p, 2int,
{
    let (kw2, p2) = if kw == "BIT"@ && peek_is_ident(t, p, "STRING"@) {
        ("BIT STRING"@, p + 1)
    } else if kw == "OBJECT"@ && peek_is_ident(t, p, "IDENTIFIER"@) {
        ("OBJECT IDENTIFIER"@, p + 1)
    } else if kw == "OCTET"@ && peek_is_ident(t, p, "STRING"@) {
        ("OCTET STRING"@, p + 1)
    } else {
        (kw, p)
    };
    if p2 < 0 || p2 > t.len() {
        Err(ParseFailure::NoProgress)
    } else if kw2 == "SEQUENCE"@ {
        if peek_is_ident(t, p2, "OF"@) {
            match s_base_type(t, p2 + 1, true) {
                Err(e) => Err(e),
                Ok((inner, q)) => Ok((TypeModel::SequenceOf(Box::new(inner)), q)),
            }
        } else if allow_compound {
            match s_fields(t, p2) {
                Err(e) => Err(e),
                Ok((fs, q)) => Ok((TypeModel::Sequence(fs), q)),
            }
        } else {
            Err(ParseFailure::InlineSequence)
        }
    } else if kw2 == "SET"@ {
        if peek_is_ident(t, p2, "OF"@) {
            match s_base_type(t, p2 + 1, true) {
                Err(e) => Err(e),
                Ok((inner, q)) => Ok((TypeModel::SetOf(Box::new(inner)), q)),
            }
        } else if allow_compound {
            match s_fields(t, p2) {
                Err(e) => Err(e),
                Ok((fs, q)) => Ok((TypeModel::SetType(fs), q)),
            }
        } else {
            Err(ParseFailure::InlineSet)
        }
    } else if kw2 == "CHOICE"@ {
        if allow_compound {
            match s_fields(t, p2) {
                Err(e) => Err(e),
                Ok((fs, q)) => Ok((TypeModel::Choice(fs), q)),
            }
        } else {
            Err(ParseFailure::InlineChoice)
        }
    } else if kw2 == "ENUMERATED"@ {
        Err(ParseFailure::InlineEnumerated)
    } else {
        match builtin_of(kw2) {
            Some(b) => Ok((TypeModel::Builtin(b), p2)),
            None => Ok((TypeModel::Named(kw2), p2)),
        }
    }
}

/// A braced field list.
pub open spec fn s_fields(t: Seq<TokenModel>, p: int) -> Result<(Seq<FieldModel>, int), ParseFailure>
    decreases t.len() - p, 1int,
{
    match s_expect(t, p, TokenModel::LBrace) {
        Err(e) => Err(e),
        Ok(p1) => s_field_list(t, p1),
    }
}

/// The fields up to and including the closing brace; a comma may follow each.
pub open spec fn s_field_list(t: Seq<TokenModel>, p: int) -> Result<(Seq<FieldModel>, int), ParseFailure>
    decreases t.len() - p, 1int,
{
    if tok(t, p) == TokenModel::RBrace {
        Ok((Seq::empty(), p + 1))
    } else if p < 0 || p > t.len() {
        Err(ParseFailure::NoProgress)
    } else {
        match s_field(t, p) {
            Err(e) => Err(e),
            Ok((f, p1)) => if !(p < p1 <= t.len()) {
                Err(ParseFailure::NoProgress)
            } else {
                let p2 = if tok(t, p1) == TokenModel::Comma {
                    p1 + 1
                } else {
                    p1
                };
                match s_field_list(t, p2) {
                    Err(e) => Err(e),
                    Ok((rest, q)) => Ok((seq![f] + rest, q)),
                }
            },
        }
    }
}

/// One field: name, optional tag, type, `OPTIONAL`, `DEFAULT value`.
pub open spec fn s_field(t: Seq<TokenModel>, p: int) -> Result<(FieldModel, int), ParseFailure>
    decreases t.len() - p, 0int,
{
    match s_ident(t, p) {
        Err(e) => Err(e),
        Ok((name, p1)) => match s_tag(t, p1) {
            Err(e) => Err(e),
            Ok((tagging, p2)) => if p2 < p1 {
                Err(ParseFailure::NoProgress)
            } else {
                match s_base_type(t, p2, false) {
                    Err(e) => Err(e),
                    Ok((ty, p3)) => {
                        let (optional, p4) = if peek_is_ident(t, p3, "OPTIONAL"@) {
                            (true, p3 + 1)
                        } else {
                            (false, p3)
                        };
                        if peek_is_ident(t, p4, "DEFAULT"@) {
                            match s_default(t, p4 + 1) {
                                Err(e) => Err(e),
                                Ok((d, p5)) => Ok(
                                    (
                                        FieldModel {
                                            name,
                                            ty,
                                            tagging,
                                            optional,
                                            default: Some(d),
                                        },
                                        p5,
                                    ),
                                ),
                            }
                        } else {
                            Ok((FieldModel { name, ty, tagging, optional, default: None }, p4))
                        }
                    },
                }
            },
        },
    }
}

} // verus!

verus! {

/// The `name(number)` entries up to and including the closing brace; a comma
/// may follow each.
pub open spec fn s_enum_list(t: Seq<TokenModel>, p: int) -> Result<(Seq<EnumVariantModel>, int), ParseFailure>
    decreases t.len() - p,
{
    if tok(t, p) == TokenModel::RBrace {
        Ok((Seq::empty(), p + 1))
    } else {
        match s_ident(t, p) {
            Err(e) => Err(e),
            Ok((name, p1)) => match s_expect(t, p1, TokenModel::LParen) {
                Err(e) => Err(e),
                Ok(p2) => match s_int(t, p2) {
                    Err(e) => Err(e),
                    Ok((n, p3)) => match s_expect(t, p3, TokenModel::RParen) {
                        Err(e) => Err(e),
                        Ok(p4) => {
                            let p5 = if tok(t, p4) == TokenModel::Comma {
                                p4 + 1
                            } else {
                                p4
                            };
                            match s_enum_list(t, p5) {
                                Err(e) => Err(e),
                                Ok((rest, q)) => Ok(
                                    (seq![EnumVariantModel { name, number: n as i64 }] + rest, q),
                                ),
                            }
                        },
                    },
                },
            },
        }
    }
}

/// A braced `ENUMERATED` body.
pub open spec fn s_enum(t: Seq<TokenModel>, p: int) -> Result<(Seq<EnumVariantModel>, int), ParseFailure> {
    match s_expect(t, p, TokenModel::LBrace) {
        Err(e) => Err(e),
        Ok(p1) => s_enum_list(t, p1),
    }
}

/// The body after `::=`.
pub open spec fn s_type_def(t: Seq<TokenModel>, p: int) -> Result<(TypeDefModel, int), ParseFailure> {
    match s_ident(t, p) {
        Err(e) => Err(e),
        Ok((kw, p1)) => if kw == "ENUMERATED"@ {
            match s_enum(t, p1) {
                Err(e) => Err(e),
                Ok((vs, q)) => Ok((TypeDefModel::Enumerated(vs), q)),
            }
        } else if kw == "SEQUENCE"@ {
            if peek_is_ident(t, p1, "OF"@) {
                match s_base_type(t, p1 + 1, true) {
                    Err(e) => Err(e),
                    Ok((inner, q)) => Ok((TypeDefModel::Alias(TypeModel::SequenceOf(Box::new(inner))), q)),
                }
            } else {
                match s_fields(t, p1) {
                    Err(e) => Err(e),
                    Ok((fs, q)) => Ok((TypeDefModel::Sequence(fs), q)),
                }
            }
        } else if kw == "SET"@ {
            if peek_is_ident(t, p1, "OF"@) {
                match s_base_type(t, p1 + 1, true) {
                    Err(e) => Err(e),
                    Ok((inner, q)) => Ok((TypeDefModel::Alias(TypeModel::SetOf(Box::new(inner))), q)),
                }
            } else {
                match s_fields(t, p1) {
                    Err(e) => Err(e),
                    Ok((fs, q)) => Ok((TypeDefModel::SetType(fs), q)),
                }
            }
        } else if kw == "CHOICE"@ {
            match s_fields(t, p1) {
                Err(e) => Err(e),
                Ok((fs, q)) => Ok((TypeDefModel::Choice(fs), q)),
            }
        } else {
            match s_base_inner(t, p1, kw, true) {
                Err(e) => Err(e),
                Ok((ty, q)) => Ok((TypeDefModel::Alias(ty), q)),
            }
        },
    }
}

/// `Name ::= body`, written `:` `:` `=` or `:` `=`, with an optional `;`.
pub open spec fn s_type_assignment(t: Seq<TokenModel>, p: int) -> Result<(TypeAssignmentModel, int), ParseFailure> {
    match s_ident(t, p) {
        Err(e) => Err(e),
        Ok((name, p1)) => match s_expect(t, p1, TokenModel::Colon) {
            Err(e) => Err(e),
            Ok(p2) => {
                let p3 = if tok(t, p2) == TokenModel::Colon {
                    p2 + 1
                } else {
                    p2
                };
                match s_expect(t, p3, TokenModel::Equals) {
                    Err(e) => Err(e),
                    Ok(p4) => match s_type_def(t, p4) {
                        Err(e) => Err(e),
                        Ok((def, p5)) => {
                            let p6 = if tok(t, p5) == TokenModel::Semi {
                                p5 + 1
                            } else {
                                p5
                            };
                            Ok((TypeAssignmentModel { name, def }, p6))
                        },
                    },
                }
            },
        },
    }
}

/// The assignments of a module body up to and including its closing brace.
pub open spec fn s_assignments(t: Seq<TokenModel>, p: int) -> Result<(Seq<TypeAssignmentModel>, int), ParseFailure>
    decreases t.len() - p,
{
    if tok(t, p) == TokenModel::RBrace {
        Ok((Seq::empty(), p + 1))
    } else {
        match s_type_assignment(t, p) {
            Err(e) => Err(e),
            Ok((ta, p1)) => if !(p < p1 <= t.len()) {
                Err(ParseFailure::NoProgress)
            } else {
                match s_assignments(t, p1) {
                    Err(e) => Err(e),
                    Ok((rest, q)) => Ok((seq![ta] + rest, q)),
                }
            },
        }
    }
}

/// `module Name { ... }` blocks until `Eof`; the assignments of all modules
/// accumulate and the last module's name is kept.
pub open spec fn s_modules(
    t: Seq<TokenModel>,
    p: int,
    module: Seq<char>,
    types: Seq<TypeAssignmentModel>,
) -> Result<SchemaModel, ParseFailure>
    decreases t.len() - p,
{
    if tok(t, p) == TokenModel::Eof {
        Ok(SchemaModel { module, types })
    } else {
        match s_ident(t, p) {
            Err(e) => Err(e),
            Ok((kw, p1)) => if kw != "module"@ {
                Err(ParseFailure::NotModule(kw))
            } else {
                match s_ident(t, p1) {
                    Err(e) => Err(e),
                    Ok((name, p2)) => match s_expect(t, p2, TokenModel::LBrace) {
                        Err(e) => Err(e),
                        Ok(p3) => match s_assignments(t, p3) {
                            Err(e) => Err(e),
                            Ok((tas, p4)) => if !(p < p4 <= t.len()) {
                                Err(ParseFailure::NoProgress)
                            } else {
                                s_modules(t, p4, name, types + tas)
                            },
                        },
                    },
                }
            },
        }
    }
}

/// The schema a token list denotes.
pub open spec fn spec_parse(t: Seq<TokenModel>) -> Result<SchemaModel, ParseFailure> {
    s_modules(t, 0, Seq::empty(), Seq::empty())
}

} // verus!

verus! {

/// The parser's result agrees with the grammar's: the same value (by model)
/// and end position, or an error for the same reason.
pub open spec fn error_agrees(e: CompilerError, f: ParseFailure) -> bool {
    e matches CompilerError::ParseError(m) && (parse_failure_message(f) matches Some(text) ==> m@
        == text)
}

/// A list parse `r` with `p` in front of its items.
pub open spec fn prepend_list<M>(p: Seq<M>, r: Result<(Seq<M>, int), ParseFailure>) -> Result<
    (Seq<M>, int),
    ParseFailure,
> {
    match r {
        Ok((s, q)) => Ok((p + s, q)),
        Err(e) => Err(e),
    }
}

proof fn lemma_prepend_list_step<M>(p: Seq<M>, x: M, r: Result<(Seq<M>, int), ParseFailure>)
    ensures
        prepend_list(p, prepend_list(seq![x], r)) == prepend_list(p.push(x), r),
{
    match r {
        Ok((s, q)) => {
            assert(p + (seq![x] + s) =~= p.push(x) + s);
        },
        Err(_) => {},
    }
}

proof fn lemma_prepend_list_empty<M>(r: Result<(Seq<M>, int), ParseFailure>)
    ensures
        prepend_list(Seq::<M>::empty(), r) == r,
{
    match r {
        Ok((s, q)) => {
            assert(Seq::<M>::empty() + s =~= s);
        },
        Err(_) => {},
    }
}

/// Inside a well-formed list, a token other than `Eof` has a successor.
proof fn lemma_token_at(toks: Seq<Token>, pos: int)
    requires
        well_formed(tokens_model(toks)),
        0 <= pos < toks.len(),
    ensures
        tok(tokens_model(toks), pos) == toks[pos]@,
        toks[pos]@ != TokenModel::Eof ==> pos + 1 < toks.len(),
{
    assert(tokens_model(toks)[pos] == toks[pos]@);
    assert(tokens_model(toks)[toks.len() - 1] == toks[toks.len() - 1]@);
}

/// `a` and `b` hold the same characters.
fn str_eq(a: &str, b: &str) -> (r: bool)
    ensures
        r == (a@ == b@),
{
    let r = bytes_eq(a.as_bytes(), b.as_bytes());
    proof {
        encode_utf8_decode_utf8(a@);
        encode_utf8_decode_utf8(b@);
    }
    r
}

/// `t` is the identifier `s`.
fn ident_is(t: &Token, s: &str) -> (r: bool)
    ensures
        r == (t@ == TokenModel::Ident(s@)),
{
    match t {
        Token::Ident(x) => str_eq(x.as_str(), s),
        _ => false,
    }
}

/// `a` and `b` are the same token.
fn same_token(a: &Token, b: &Token) -> (r: bool)
    ensures
        r == (a@ == b@),
{
    match (a, b) {
        (Token::Ident(x), Token::Ident(y)) => str_eq(x.as_str(), y.as_str()),
        (Token::Int(x), Token::Int(y)) => *x == *y,
        (Token::Colon, Token::Colon) => true,
        (Token::Equals, Token::Equals) => true,
        (Token::LBrace, Token::LBrace) => true,
        (Token::RBrace, Token::RBrace) => true,
        (Token::LParen, Token::LParen) => true,
        (Token::RParen, Token::RParen) => true,
        (Token::LBracket, Token::LBracket) => true,
        (Token::RBracket, Token::RBracket) => true,
        (Token::Comma, Token::Comma) => true,
        (Token::Semi, Token::Semi) => true,
        (Token::Eof, Token::Eof) => true,
        _ => false,
    }
}

/// Appends the `Debug` rendering of a token.
fn push_token_debug(s: &mut String, t: &Token)
    ensures
        final(s)@ == old(s)@ + token_debug(t@),
{
    let ghost start = s@;
    match t {
        Token::Ident(x) => {
            push_str(s, "Ident(");
            let d = debug_text(x.as_str());
            push_str(s, d.as_str());
            push_str(s, ")");
            proof {
                assert(start + "Ident("@ + debug_str(x@) + ")"@ =~= start + ("Ident("@ + debug_str(x@)
                    + ")"@));
            }
        },
        Token::Int(n) => {
            push_str(s, "Int(");
            push_signed_decimal(s, *n);
            push_str(s, ")");
            proof {
                assert(start + "Int("@ + signed_decimal(*n as int) + ")"@ =~= start + ("Int("@
                    + signed_decimal(*n as int) + ")"@));
            }
        },
        Token::Colon => push_str(s, "Colon"),
        Token::Equals => push_str(s, "Equals"),
        Token::LBrace => push_str(s, "LBrace"),
        Token::RBrace => push_str(s, "RBrace"),
        Token::LParen => push_str(s, "LParen"),
        Token::RParen => push_str(s, "RParen"),
        Token::LBracket => push_str(s, "LBracket"),
        Token::RBracket => push_str(s, "RBracket"),
        Token::Comma => push_str(s, "Comma"),
        Token::Semi => push_str(s, "Semi"),
        Token::Eof => push_str(s, "Eof"),
    }
}

/// The diagnostic for a token other than the one required.
fn expected_token_message(expected: &Token, got: &Token, pos: usize) -> (m: String)
    ensures
        parse_failure_message(ParseFailure::Mismatch(expected@, got@, pos as int)) == Some(m@),
{
    let mut m = String::new();
    push_str(&mut m, "expected ");
    push_token_debug(&mut m, expected);
    push_str(&mut m, ", got ");
    push_token_debug(&mut m, got);
    push_str(&mut m, " (token #");
    push_decimal(&mut m, pos as u128);
    push_str(&mut m, ")");
    proof {
        assert(m@ =~= "expected "@ + token_debug(expected@) + ", got "@ + token_debug(got@)
            + " (token #"@ + decimal(pos as nat) + ")"@);
    }
    m
}

/// The diagnostic for a missing identifier, showing position `shown`.
fn expected_ident_message(got: &Token, shown: usize) -> (m: String)
    ensures
        parse_failure_message(ParseFailure::NotIdent(got@, shown as int)) == Some(m@),
{
    let mut m = String::new();
    push_str(&mut m, "expected identifier, got ");
    push_token_debug(&mut m, got);
    push_str(&mut m, " (token #");
    push_decimal(&mut m, shown as u128);
    push_str(&mut m, ")");
    proof {
        assert(m@ =~= "expected identifier, got "@ + token_debug(got@) + " (token #"@ + decimal(
            shown as nat,
        ) + ")"@);
    }
    m
}

/// The diagnostic for a missing integer literal.
fn expected_int_message(got: &Token) -> (m: String)
    ensures
        parse_failure_message(ParseFailure::NotInt(got@)) == Some(m@),
{
    let mut m = String::new();
    push_str(&mut m, "expected integer, got ");
    push_token_debug(&mut m, got);
    proof {
        assert(m@ =~= "expected integer, got "@ + token_debug(got@));
    }
    m
}

/// The diagnostic for an unsupported `DEFAULT` value.
fn unsupported_default_message(got: &Token) -> (m: String)
    ensures
        parse_failure_message(ParseFailure::BadDefault(got@)) == Some(m@),
{
    let mut m = String::new();
    push_str(&mut m, "unsupported DEFAULT value: ");
    push_token_debug(&mut m, got);
    proof {
        assert(m@ =~= "unsupported DEFAULT value: "@ + token_debug(got@));
    }
    m
}

/// Consumes the token `k` at `pos`.
fn expect(toks: &[Token], pos: usize, k: Token) -> (res: Result<usize, CompilerError>)
    requires
        well_formed(tokens_model(toks@)),
        pos < toks@.len() <= usize::MAX,
        k@ != TokenModel::Eof,
    ensures
        match s_expect(tokens_model(toks@), pos as int, k@) {
            Ok(q) => res == Ok::<usize, CompilerError>(q as usize) && q < toks@.len(),
            Err(f) => res matches Err(e) && error_agrees(e, f),
        },
{
    proof {
        lemma_token_at(toks@, pos as int);
    }
    if same_token(&toks[pos], &k) {
        Ok(pos + 1)
    } else {
        Err(CompilerError::ParseError(expected_token_message(&k, &toks[pos], pos)))
    }
}

/// Consumes an identifier at `pos`.
fn expect_ident(toks: &[Token], pos: usize) -> (res: Result<(String, usize), CompilerError>)
    requires
        well_formed(tokens_model(toks@)),
        pos < toks@.len() <= usize::MAX,
    ensures
        match s_ident(tokens_model(toks@), pos as int) {
            Ok((s, q)) => res matches Ok((v, q2)) && v@ == s && q2 == q && q2 < toks@.len(),
            Err(f) => res matches Err(e) && error_agrees(e, f),
        },
{
    proof {
        lemma_token_at(toks@, pos as int);
    }
    match &toks[pos] {
        Token::Ident(s) => Ok((s.clone(), pos + 1)),
        other => {
            let shown = if matches!(other, Token::Eof) {
                pos
            } else {
                pos + 1
            };
            Err(CompilerError::ParseError(expected_ident_message(other, shown)))
        },
    }
}

/// Consumes an integer literal at `pos`.
fn parse_int(toks: &[Token], pos: usize) -> (res: Result<(i64, usize), CompilerError>)
    requires
        well_formed(tokens_model(toks@)),
        pos < toks@.len() <= usize::MAX,
    ensures
        match s_int(tokens_model(toks@), pos as int) {
            Ok((n, q)) => res matches Ok((v, q2)) && v == n && q2 == q && q2 < toks@.len(),
            Err(f) => res matches Err(e) && error_agrees(e, f),
        },
{
    proof {
        lemma_token_at(toks@, pos as int);
    }
    match &toks[pos] {
        Token::Int(n) => Ok((*n, pos + 1)),
        other => Err(CompilerError::ParseError(expected_int_message(other))),
    }
}

/// The token at `pos` is the identifier `s`.
fn peek_is(toks: &[Token], pos: usize, s: &str) -> (r: bool)
    requires
        well_formed(tokens_model(toks@)),
        pos < toks@.len() <= usize::MAX,
    ensures
        r == peek_is_ident(tokens_model(toks@), pos as int, s@),
        r ==> pos + 1 < toks@.len(),
{
    proof {
        lemma_token_at(toks@, pos as int);
    }
    ident_is(&toks[pos], s)
}

/// The built-in type a keyword names.
fn builtin_from_str(s: &str) -> (r: Option<Builtin>)
    ensures
        r == builtin_of(s@),
{
    if str_eq(s, "BOOLEAN") {
        Some(Builtin::Boolean)
    } else if str_eq(s, "INTEGER") {
        Some(Builtin::Integer)
    } else if str_eq(s, "BIT STRING") {
        Some(Builtin::BitString)
    } else if str_eq(s, "OCTET STRING") {
        Some(Builtin::OctetString)
    } else if str_eq(s, "NULL") {
        Some(Builtin::Null)
    } else if str_eq(s, "OBJECT IDENTIFIER") {
        Some(Builtin::ObjectIdentifier)
    } else if str_eq(s, "RELATIVE-OID") {
        Some(Builtin::RelativeOid)
    } else if str_eq(s, "UTF8String") {
        Some(Builtin::Utf8String)
    } else if str_eq(s, "NumericString") {
        Some(Builtin::NumericString)
    } else if str_eq(s, "PrintableString") {
        Some(Builtin::PrintableString)
    } else if str_eq(s, "TeletexString") {
        Some(Builtin::TeletexString)
    } else if str_eq(s, "VideotexString") {
        Some(Builtin::VideotexString)
    } else if str_eq(s, "IA5String") {
        Some(Builtin::Ia5String)
    } else if str_eq(s, "UTCTime") {
        Some(Builtin::UtcTime)
    } else if str_eq(s, "GeneralizedTime") {
        Some(Builtin::GeneralizedTime)
    } else if str_eq(s, "GraphicString") {
        Some(Builtin::GraphicString)
    } else if str_eq(s, "VisibleString") {
        Some(Builtin::VisibleString)
    } else if str_eq(s, "GeneralString") {
        Some(Builtin::GeneralString)
    } else if str_eq(s, "UniversalString") {
        Some(Builtin::UniversalString)
    } else if str_eq(s, "CHARACTER STRING") {
        Some(Builtin::CharacterString)
    } else if str_eq(s, "BMPString") {
        Some(Builtin::BmpString)
    } else if str_eq(s, "ObjectDescriptor") {
        Some(Builtin::ObjectDescriptor)
    } else {
        None
    }
}

/// An optional `[CLASS n] IMPLICIT|EXPLICIT` tag at `pos`.
fn parse_optional_tag(toks: &[Token], pos: usize) -> (res: Result<(Tagging, usize), CompilerError>)
    requires
        well_formed(tokens_model(toks@)),
        pos < toks@.len() <= usize::MAX,
    ensures
        match s_tag(tokens_model(toks@), pos as int) {
            Ok((m, q)) => res matches Ok((v, q2)) && v == m && q2 == q && pos <= q2 < toks@.len(),
            Err(f) => res matches Err(e) && error_agrees(e, f),
        },
{
    proof {
        lemma_token_at(toks@, pos as int);
    }
    if !matches!(toks[pos], Token::LBracket) {
        return Ok((Tagging::Untagged, pos));
    }
    let mut pos = pos + 1;
    proof {
        lemma_token_at(toks@, pos as int);
    }
    let class = match &toks[pos] {
        Token::Ident(c) => {
            if str_eq(c.as_str(), "UNIVERSAL") {
                pos += 1;
                TagClass::Universal
            } else if str_eq(c.as_str(), "APPLICATION") {
                pos += 1;
                TagClass::Application
            } else if str_eq(c.as_str(), "PRIVATE") {
                pos += 1;
                TagClass::Private
            } else if str_eq(c.as_str(), "CONTEXT") {
                pos += 1;
                TagClass::Context
            } else {
                TagClass::Context
            }
        },
        _ => TagClass::Context,
    };
    let (number, p3) = match parse_int(toks, pos) {
        Ok(v) => v,
        Err(e) => return Err(e),
    };
    let p4 = match expect(toks, p3, Token::RBracket) {
        Ok(v) => v,
        Err(e) => return Err(e),
    };
    proof {
        lemma_token_at(toks@, p4 as int);
    }
    let mut explicit = true;
    let mut p5 = p4;
    if let Token::Ident(k) = &toks[p4] {
        if str_eq(k.as_str(), "IMPLICIT") {
            p5 = p4 + 1;
            explicit = false;
        } else if str_eq(k.as_str(), "EXPLICIT") {
            p5 = p4 + 1;
            explicit = true;
        }
    }
    Ok((Tagging::Tagged(TagSpec { class, number: number as u32, explicit }), p5))
}

/// A `DEFAULT` value at `pos`.
fn parse_default_value(toks: &[Token], pos: usize) -> (res: Result<(DefaultValue, usize), CompilerError>)
    requires
        well_formed(tokens_model(toks@)),
        pos < toks@.len() <= usize::MAX,
    ensures
        match s_default(tokens_model(toks@), pos as int) {
            Ok((m, q)) => res matches Ok((v, q2)) && v == m && q2 == q && q2 < toks@.len(),
            Err(f) => res matches Err(e) && error_agrees(e, f),
        },
{
    proof {
        lemma_token_at(toks@, pos as int);
    }
    match &toks[pos] {
        Token::Ident(s) => {
            if str_eq(s.as_str(), "TRUE") {
                Ok((DefaultValue::Boolean(true), pos + 1))
            } else if str_eq(s.as_str(), "FALSE") {
                Ok((DefaultValue::Boolean(false), pos + 1))
            } else if str_eq(s.as_str(), "NULL") {
                Ok((DefaultValue::Null, pos + 1))
            } else {
                Err(CompilerError::ParseError(unsupported_default_message(&toks[pos])))
            }
        },
        Token::Int(n) => Ok((DefaultValue::Integer(*n), pos + 1)),
        other => Err(CompilerError::ParseError(unsupported_default_message(other))),
    }
}

} // verus!

verus! {

/// A type at `pos`: its leading keyword, then the rest.
fn parse_base_type(toks: &[Token], pos: usize, allow_compound: bool) -> (res: Result<(Type, usize), CompilerError>)
    requires
        well_formed(tokens_model(toks@)),
        pos < toks@.len() <= usize::MAX,
    ensures
        match s_base_type(tokens_model(toks@), pos as int, allow_compound) {
            Ok((m, q)) => res matches Ok((v, q2)) && v@ == m && q2 == q && pos < q2 < toks@.len(),
            Err(f) => res matches Err(e) && error_agrees(e, f),
        },
    decreases toks@.len() - pos, 0int,
{
    let (kw, p1) = match expect_ident(toks, pos) {
        Ok(v) => v,
        Err(e) => return Err(e),
    };
    parse_base_type_inner(toks, p1, kw, allow_compound)
}

/// A type whose leading keyword `kw` was read already; inline compounds are
/// accepted only where `allow_compound`.
fn parse_base_type_inner(toks: &[Token], pos: usize, kw: String, allow_compound: bool) -> (res: Result<
    (Type, usize),
    CompilerError,
>)
    requires
        well_formed(tokens_model(toks@)),
        pos < toks@.len() <= usize::MAX,
    ensures
        match s_base_inner(tokens_model(toks@), pos as int, kw@, allow_compound) {
            Ok((m, q)) => res matches Ok((v, q2)) && v@ == m && q2 == q && pos <= q2 < toks@.len(),
            Err(f) => res matches Err(e) && error_agrees(e, f),
        },
    decreases toks@.len() - pos, 2int,
{
    let ghost t = tokens_model(toks@);
    let (kw, pos) = if str_eq(kw.as_str(), "BIT") && peek_is(toks, pos, "STRING") {
        (String::from_str("BIT STRING"), pos + 1)
    } else if str_eq(kw.as_str(), "OBJECT") && peek_is(toks, pos, "IDENTIFIER") {
        (String::from_str("OBJECT IDENTIFIER"), pos + 1)
    } else if str_eq(kw.as_str(), "OCTET") && peek_is(toks, pos, "STRING") {
        (String::from_str("OCTET STRING"), pos + 1)
    } else {
        (kw, pos)
    };
    if str_eq(kw.as_str(), "SEQUENCE") {
        if peek_is(toks, pos, "OF") {
            let (inner, q) = match parse_base_type(toks, pos + 1, true) {
                Ok(v) => v,
                Err(e) => return Err(e),
            };
            Ok((Type::SequenceOf(Box::new(inner)), q))
        } else if allow_compound {
            let (fields, q) = match parse_fields(toks, pos) {
                Ok(v) => v,
                Err(e) => return Err(e),
            };
            Ok((Type::Sequence(fields), q))
        } else {
            Err(CompilerError::parse("inline SEQUENCE must be a named type; define it at module level"))
        }
    } else if str_eq(kw.as_str(), "SET") {
        if peek_is(toks, pos, "OF") {
            let (inner, q) = match parse_base_type(toks, pos + 1, true) {
                Ok(v) => v,
                Err(e) => return Err(e),
            };
            Ok((Type::SetOf(Box::new(inner)), q))
        } else if allow_compound {
            let (fields, q) = match parse_fields(toks, pos) {
                Ok(v) => v,
                Err(e) => return Err(e),
            };
            Ok((Type::SetType(fields), q))
        } else {
            Err(CompilerError::parse("inline SET must be a named type; define it at module level"))
        }
    } else if str_eq(kw.as_str(), "CHOICE") {
        if allow_compound {
            let (fields, q) = match parse_fields(toks, pos) {
                Ok(v) => v,
                Err(e) => return Err(e),
            };
            Ok((Type::Choice(fields), q))
        } else {
            Err(CompilerError::parse("inline CHOICE must be a named type; define it at module level"))
        }
    } else if str_eq(kw.as_str(), "ENUMERATED") {
        Err(CompilerError::parse("ENUMERATED must be a named type: `Name ::= ENUMERATED { ... }`"))
    } else {
        match builtin_from_str(kw.as_str()) {
            Some(b) => Ok((Type::Builtin(b), pos)),
            None => Ok((Type::Named(kw), pos)),
        }
    }
}

/// A braced field list at `pos`.
fn parse_fields(toks: &[Token], pos: usize) -> (res: Result<(Vec<Field>, usize), CompilerError>)
    requires
        well_formed(tokens_model(toks@)),
        pos < toks@.len() <= usize::MAX,
    ensures
        match s_fields(tokens_model(toks@), pos as int) {
            Ok((m, q)) => res matches Ok((v, q2)) && fields_model(v@) == m && q2 == q && pos < q2
                < toks@.len(),
            Err(f) => res matches Err(e) && error_agrees(e, f),
        },
    decreases toks@.len() - pos, 1int,
{
    let ghost t = tokens_model(toks@);
    let start = match expect(toks, pos, Token::LBrace) {
        Ok(v) => v,
        Err(e) => return Err(e),
    };
    let mut cur = start;
    let mut fields: Vec<Field> = Vec::new();
    proof {
        lemma_prepend_list_empty(s_field_list(t, start as int));
    }
    while !matches!(toks[cur], Token::RBrace)
        invariant
            t == tokens_model(toks@),
            well_formed(t),
            pos < start <= cur < toks@.len() <= usize::MAX,
            s_fields(t, pos as int) == s_field_list(t, start as int),
            s_field_list(t, start as int) == prepend_list(fields_model(fields@), s_field_list(t, cur as int)),
        decreases toks@.len() - cur,
    {
        proof {
            lemma_token_at(toks@, cur as int);
        }
        let (f, p1) = match parse_field(toks, cur) {
            Ok(v) => v,
            Err(e) => return Err(e),
        };
        proof {
            lemma_token_at(toks@, p1 as int);
            lemma_fields_model_push(fields@, f);
        }
        let ghost before = fields@;
        fields.push(f);
        let p2 = if matches!(toks[p1], Token::Comma) {
            p1 + 1
        } else {
            p1
        };
        proof {
            lemma_prepend_list_step(fields_model(before), field_model(f), s_field_list(t, p2 as int));
        }
        cur = p2;
    }
    proof {
        lemma_token_at(toks@, cur as int);
    }
    let end = match expect(toks, cur, Token::RBrace) {
        Ok(v) => v,
        Err(e) => return Err(e),
    };
    proof {
        assert(fields_model(fields@) + Seq::<FieldModel>::empty() =~= fields_model(fields@));
    }
    Ok((fields, end))
}

/// One field at `pos`: name, optional tag, type, `OPTIONAL`, `DEFAULT value`.
fn parse_field(toks: &[Token], pos: usize) -> (res: Result<(Field, usize), CompilerError>)
    requires
        well_formed(tokens_model(toks@)),
        pos < toks@.len() <= usize::MAX,
    ensures
        match s_field(tokens_model(toks@), pos as int) {
            Ok((m, q)) => res matches Ok((v, q2)) && v@ == m && q2 == q && pos < q2 < toks@.len(),
            Err(f) => res matches Err(e) && error_agrees(e, f),
        },
    decreases toks@.len() - pos, 0int,
{
    let (name, p1) = match expect_ident(toks, pos) {
        Ok(v) => v,
        Err(e) => return Err(e),
    };
    let (tagging, p2) = match parse_optional_tag(toks, p1) {
        Ok(v) => v,
        Err(e) => return Err(e),
    };
    let (ty, p3) = match parse_base_type(toks, p2, false) {
        Ok(v) => v,
        Err(e) => return Err(e),
    };
    let mut optional = false;
    let mut p4 = p3;
    if peek_is(toks, p3, "OPTIONAL") {
        optional = true;
        p4 = p3 + 1;
    }
    let mut default = None;
    let mut p5 = p4;
    if peek_is(toks, p4, "DEFAULT") {
        let (d, q) = match parse_default_value(toks, p4 + 1) {
            Ok(v) => v,
            Err(e) => return Err(e),
        };
        default = Some(d);
        p5 = q;
    }
    Ok((Field { name, ty, tagging, optional, default }, p5))
}

} // verus!

verus! {

/// A braced `ENUMERATED` body at `pos`.
fn parse_enum_variants(toks: &[Token], pos: usize) -> (res: Result<(Vec<EnumVariant>, usize), CompilerError>)
    requires
        well_formed(tokens_model(toks@)),
        pos < toks@.len() <= usize::MAX,
    ensures
        match s_enum(tokens_model(toks@), pos as int) {
            Ok((m, q)) => res matches Ok((v, q2)) && v@.map_values(|e: EnumVariant| enum_variant_model(e))
                == m && q2 == q && pos < q2 < toks@.len(),
            Err(f) => res matches Err(e) && error_agrees(e, f),
        },
{
    let ghost t = tokens_model(toks@);
    let start = match expect(toks, pos, Token::LBrace) {
        Ok(v) => v,
        Err(e) => return Err(e),
    };
    let mut cur = start;
    let mut vars: Vec<EnumVariant> = Vec::new();
    proof {
        lemma_prepend_list_empty(s_enum_list(t, start as int));
        assert(vars@.map_values(|e: EnumVariant| enum_variant_model(e)) =~= Seq::empty());
    }
    while !matches!(toks[cur], Token::RBrace)
        invariant
            t == tokens_model(toks@),
            well_formed(t),
            pos < start <= cur < toks@.len() <= usize::MAX,
            s_enum(t, pos as int) == s_enum_list(t, start as int),
            s_enum_list(t, start as int) == prepend_list(
                vars@.map_values(|e: EnumVariant| enum_variant_model(e)),
                s_enum_list(t, cur as int),
            ),
        decreases toks@.len() - cur,
    {
        proof {
            lemma_token_at(toks@, cur as int);
        }
        let (name, p1) = match expect_ident(toks, cur) {
            Ok(v) => v,
            Err(e) => return Err(e),
        };
        let p2 = match expect(toks, p1, Token::LParen) {
            Ok(v) => v,
            Err(e) => return Err(e),
        };
        let (number, p3) = match parse_int(toks, p2) {
            Ok(v) => v,
            Err(e) => return Err(e),
        };
        let p4 = match expect(toks, p3, Token::RParen) {
            Ok(v) => v,
            Err(e) => return Err(e),
        };
        proof {
            lemma_token_at(toks@, p4 as int);
        }
        let ghost before = vars@;
        let v = EnumVariant { name, number };
        vars.push(v);
        let p5 = if matches!(toks[p4], Token::Comma) {
            p4 + 1
        } else {
            p4
        };
        proof {
            assert(vars@.map_values(|e: EnumVariant| enum_variant_model(e)) =~= before.map_values(
                |e: EnumVariant| enum_variant_model(e),
            ).push(enum_variant_model(v)));
            lemma_prepend_list_step(
                before.map_values(|e: EnumVariant| enum_variant_model(e)),
                enum_variant_model(v),
                s_enum_list(t, p5 as int),
            );
        }
        cur = p5;
    }
    proof {
        lemma_token_at(toks@, cur as int);
    }
    let end = match expect(toks, cur, Token::RBrace) {
        Ok(v) => v,
        Err(e) => return Err(e),
    };
    proof {
        let m = vars@.map_values(|e: EnumVariant| enum_variant_model(e));
        assert(m + Seq::<EnumVariantModel>::empty() =~= m);
    }
    Ok((vars, end))
}

/// The body after `::=` at `pos`.
fn parse_type_def(toks: &[Token], pos: usize) -> (res: Result<(TypeDef, usize), CompilerError>)
    requires
        well_formed(tokens_model(toks@)),
        pos < toks@.len() <= usize::MAX,
    ensures
        match s_type_def(tokens_model(toks@), pos as int) {
            Ok((m, q)) => res matches Ok((v, q2)) && v@ == m && q2 == q && pos < q2 < toks@.len(),
            Err(f) => res matches Err(e) && error_agrees(e, f),
        },
{
    let (kw, p1) = match expect_ident(toks, pos) {
        Ok(v) => v,
        Err(e) => return Err(e),
    };
    if str_eq(kw.as_str(), "ENUMERATED") {
        let (vars, q) = match parse_enum_variants(toks, p1) {
            Ok(v) => v,
            Err(e) => return Err(e),
        };
        Ok((TypeDef::Enumerated(vars), q))
    } else if str_eq(kw.as_str(), "SEQUENCE") {
        if peek_is(toks, p1, "OF") {
            let (inner, q) = match parse_base_type(toks, p1 + 1, true) {
                Ok(v) => v,
                Err(e) => return Err(e),
            };
            Ok((TypeDef::Alias(Type::SequenceOf(Box::new(inner))), q))
        } else {
            let (fields, q) = match parse_fields(toks, p1) {
                Ok(v) => v,
                Err(e) => return Err(e),
            };
            Ok((TypeDef::Sequence(fields), q))
        }
    } else if str_eq(kw.as_str(), "SET") {
        if peek_is(toks, p1, "OF") {
            let (inner, q) = match parse_base_type(toks, p1 + 1, true) {
                Ok(v) => v,
                Err(e) => return Err(e),
            };
            Ok((TypeDef::Alias(Type::SetOf(Box::new(inner))), q))
        } else {
            let (fields, q) = match parse_fields(toks, p1) {
                Ok(v) => v,
                Err(e) => return Err(e),
            };
            Ok((TypeDef::SetType(fields), q))
        }
    } else if str_eq(kw.as_str(), "CHOICE") {
        let (fields, q) = match parse_fields(toks, p1) {
            Ok(v) => v,
            Err(e) => return Err(e),
        };
        Ok((TypeDef::Choice(fields), q))
    } else {
        let (ty, q) = match parse_base_type_inner(toks, p1, kw, true) {
            Ok(v) => v,
            Err(e) => return Err(e),
        };
        Ok((TypeDef::Alias(ty), q))
    }
}

/// `Name ::= body` at `pos`, with an optional trailing `;`.
fn parse_type_assignment(toks: &[Token], pos: usize) -> (res: Result<(TypeAssignment, usize), CompilerError>)
    requires
        well_formed(tokens_model(toks@)),
        pos < toks@.len() <= usize::MAX,
    ensures
        match s_type_assignment(tokens_model(toks@), pos as int) {
            Ok((m, q)) => res matches Ok((v, q2)) && v@ == m && q2 == q && pos < q2 < toks@.len(),
            Err(f) => res matches Err(e) && error_agrees(e, f),
        },
{
    let (name, p1) = match expect_ident(toks, pos) {
        Ok(v) => v,
        Err(e) => return Err(e),
    };
    let mut p2 = match expect(toks, p1, Token::Colon) {
        Ok(v) => v,
        Err(e) => return Err(e),
    };
    proof {
        lemma_token_at(toks@, p2 as int);
    }
    if matches!(toks[p2], Token::Colon) {
        p2 = p2 + 1;
    }
    let p4 = match expect(toks, p2, Token::Equals) {
        Ok(v) => v,
        Err(e) => return Err(e),
    };
    let (def, p5) = match parse_type_def(toks, p4) {
        Ok(v) => v,
        Err(e) => return Err(e),
    };
    proof {
        lemma_token_at(toks@, p5 as int);
    }
    let p6 = if matches!(toks[p5], Token::Semi) {
        p5 + 1
    } else {
        p5
    };
    Ok((TypeAssignment { name, def }, p6))
}

/// The assignments of a module body at `pos`, through its closing brace.
fn parse_assignments(toks: &[Token], pos: usize) -> (res: Result<(Vec<TypeAssignment>, usize), CompilerError>)
    requires
        well_formed(tokens_model(toks@)),
        pos < toks@.len() <= usize::MAX,
    ensures
        match s_assignments(tokens_model(toks@), pos as int) {
            Ok((m, q)) => res matches Ok((v, q2)) && assignments_model(v@) == m && q2 == q && pos < q2
                < toks@.len(),
            Err(f) => res matches Err(e) && error_agrees(e, f),
        },
{
    let ghost t = tokens_model(toks@);
    let mut cur = pos;
    let mut types: Vec<TypeAssignment> = Vec::new();
    proof {
        assert(assignments_model(types@) =~= Seq::empty());
        lemma_prepend_list_empty(s_assignments(t, pos as int));
    }
    while !matches!(toks[cur], Token::RBrace)
        invariant
            t == tokens_model(toks@),
            well_formed(t),
            pos <= cur < toks@.len() <= usize::MAX,
            s_assignments(t, pos as int) == prepend_list(assignments_model(types@), s_assignments(t, cur as int)),
        decreases toks@.len() - cur,
    {
        proof {
            lemma_token_at(toks@, cur as int);
        }
        let (ta, q) = match parse_type_assignment(toks, cur) {
            Ok(v) => v,
            Err(e) => return Err(e),
        };
        let ghost before = types@;
        types.push(ta);
        proof {
            assert(assignments_model(types@) =~= assignments_model(before).push(type_assignment_model(ta)));
            lemma_prepend_list_step(assignments_model(before), type_assignment_model(ta), s_assignments(t, q as int));
        }
        cur = q;
    }
    proof {
        lemma_token_at(toks@, cur as int);
    }
    let end = match expect(toks, cur, Token::RBrace) {
        Ok(v) => v,
        Err(e) => return Err(e),
    };
    proof {
        let m = assignments_model(types@);
        assert(m + Seq::<TypeAssignmentModel>::empty() =~= m);
    }
    Ok((types, end))
}

/// The message for a module header that does not start with `module`.
fn not_module_message(kw: &str) -> (m: String)
    ensures
        parse_failure_message(ParseFailure::NotModule(kw@)) == Some(m@),
{
    let mut msg = String::from_str("expected 'module', got '");
    push_str(&mut msg, kw);
    push_str(&mut msg, "'");
    msg
}

/// The position of the first `Eof` of `t` from `i` (or `t.len()`).
pub open spec fn spec_first_eof(t: Seq<TokenModel>, i: int) -> int
    decreases t.len() - i,
{
    if i < 0 || i >= t.len() {
        t.len() as int
    } else if t[i] == TokenModel::Eof {
        i
    } else {
        spec_first_eof(t, i + 1)
    }
}

/// The tokens of `t` up to and including its first `Eof`: all the parser
/// ever reads.
pub open spec fn spec_upto_eof(t: Seq<TokenModel>) -> Seq<TokenModel> {
    t.subrange(0, spec_first_eof(t, 0) + 1)
}

/// The first `Eof` from `j` is at `e` when none comes between.
pub proof fn lemma_first_eof(t: Seq<TokenModel>, j: int, e: int)
    requires
        0 <= j <= e < t.len(),
        t[e] == TokenModel::Eof,
        forall|k: int| j <= k < e ==> t[k] != TokenModel::Eof,
    ensures
        spec_first_eof(t, j) == e,
    decreases e - j,
{
    if j < e {
        lemma_first_eof(t, j + 1, e);
    }
}

/// Parse a token stream into a [`Schema`]; parsing stops at its first
/// [`Token::Eof`].
pub fn parse(tokens: &[Token]) -> (res: Result<Schema, CompilerError>)
    requires
        exists|i: int| 0 <= i < tokens@.len() && tokens@[i]@ == TokenModel::Eof,
    ensures
        match spec_parse(spec_upto_eof(tokens_model(tokens@))) {
            Ok(m) => res matches Ok(s) && s@ == m,
            Err(f) => res matches Err(e) && error_agrees(e, f),
        },
{
    let ghost t = tokens_model(tokens@);
    let mut e: usize = 0;
    while !matches!(tokens[e], Token::Eof)
        invariant
            e < tokens@.len(),
            exists|i: int| e <= i < tokens@.len() && tokens@[i]@ == TokenModel::Eof,
            forall|k: int| 0 <= k < e ==> tokens@[k]@ != TokenModel::Eof,
        decreases tokens@.len() - e,
    {
        assert(tokens@[e as int]@ != TokenModel::Eof);
        e += 1;
    }
    let prefix = &tokens[0..e + 1];
    proof {
        assert(tokens@[e as int]@ == TokenModel::Eof);
        assert forall|k: int| 0 <= k < e implies t[k] != TokenModel::Eof by {
            assert(t[k] == tokens@[k]@);
        }
        lemma_first_eof(t, 0, e as int);
        assert(tokens_model(prefix@) =~= spec_upto_eof(t));
    }
    parse_tokens(prefix)
}

/// Parse a token stream ending in [`Token::Eof`] into a [`Schema`].
fn parse_tokens(tokens: &[Token]) -> (res: Result<Schema, CompilerError>)
    requires
        well_formed(tokens_model(tokens@)),
    ensures
        match spec_parse(tokens_model(tokens@)) {
            Ok(m) => res matches Ok(s) && s@ == m,
            Err(f) => res matches Err(e) && error_agrees(e, f),
        },
{
    let ghost t = tokens_model(tokens@);
    let toks = tokens;
    let _n = toks.len();
    let mut pos: usize = 0;
    let mut module = String::new();
    let mut types: Vec<TypeAssignment> = Vec::new();
    proof {
        assert(assignments_model(types@) =~= Seq::empty());
    }
    while !matches!(toks[pos], Token::Eof)
        invariant
            t == tokens_model(toks@),
            t == tokens_model(tokens@),
            well_formed(t),
            pos < toks@.len() <= usize::MAX,
            spec_parse(t) == s_modules(t, pos as int, module@, assignments_model(types@)),
        decreases toks@.len() - pos,
    {
        proof {
            lemma_token_at(toks@, pos as int);
        }
        let (kw, p1) = match expect_ident(toks, pos) {
            Ok(v) => v,
            Err(e) => return Err(e),
        };
        if !str_eq(kw.as_str(), "module") {
            return Err(CompilerError::ParseError(not_module_message(kw.as_str())));
        }
        let (name, p2) = match expect_ident(toks, p1) {
            Ok(v) => v,
            Err(e) => return Err(e),
        };
        let start = match expect(toks, p2, Token::LBrace) {
            Ok(v) => v,
            Err(e) => return Err(e),
        };
        let (mut added, end) = match parse_assignments(toks, start) {
            Ok(v) => v,
            Err(e) => return Err(e),
        };
        let ghost before = types@;
        let ghost new_items = added@;
        types.append(&mut added);
        proof {
            assert(assignments_model(types@) =~= assignments_model(before) + assignments_model(new_items));
        }
        module = name;
        pos = end;
    }
    proof {
        lemma_token_at(toks@, pos as int);
    }
    Ok(Schema { module, types })
}

} // verus!
