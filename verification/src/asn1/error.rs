//! Error types returned by the codec.

use crate::asn1::tag::{Class, Tag};
use crate::asn1::util::push_str;
use crate::text::{decimal, push_decimal};
use vstd::prelude::*;

verus! {

/// Errors produced while parsing or encoding ASN.1.
#[derive(Clone, PartialEq, Eq, Debug)]
pub enum Error {
    /// The input ended before a complete TLV could be read.
    Truncated,
    /// The input contained bytes after the expected end of a value.
    TrailingData,
    /// A tag byte could not be interpreted.
    InvalidTag,
    /// A length field was malformed.
    InvalidLength,
    /// A length was encoded using more bytes than necessary (DER only).
    NonMinimalLength,
    /// An indefinite length appeared where definite lengths are required (DER).
    IndefiniteLength,
    /// A tag number exceeded the supported range.
    UnsupportedTagNumber(u32),
    /// Nesting exceeded the configured recursion limit.
    RecursionLimitExceeded,
    /// A length claimed more bytes than the remaining input allows.
    ElementTooLarge,
    /// A BOOLEAN value did not use the canonical encoding.
    MalformedBoolean,
    /// An INTEGER was encoded with a leading redundant byte.
    IntegerNotMinimal,
    /// An OBJECT IDENTIFIER was malformed.
    BadObjectIdentifier,
    /// A BIT STRING had an invalid unused-bits count.
    BadBitString,
    /// A string value was not valid UTF-8 where required.
    BadUtf8,
    /// A string value violated its permitted character set.
    BadStringType,
    /// A time value did not match its grammar.
    BadTime,
    /// A `SET OF` was not in canonical (DER/CER) sort order.
    SetOfNotSorted,
    /// A tag was found where a different tag was expected.
    UnexpectedTag {
        /// The tag that was expected.
        expected: Tag,
        /// The tag that was actually present.
        actual: Tag,
    },
    /// A critical extension could not be processed (fail-closed).
    UnknownCriticalExtension,
    /// A caller-supplied invariant was violated.
    Custom(&'static str),
}

/// The `Debug` rendering of a tag class.
pub open spec fn class_debug(c: Class) -> Seq<char> {
    match c {
        Class::Universal => "Universal"@,
        Class::Application => "Application"@,
        Class::Context => "Context"@,
        Class::Private => "Private"@,
    }
}

/// The `Debug` rendering of a tag: `Tag { class: C, constructed: b, number: n }`.
pub open spec fn tag_debug(t: Tag) -> Seq<char> {
    "Tag { class: "@ + class_debug(t.class) + ", constructed: "@ + (if t.constructed {
        "true"@
    } else {
        "false"@
    }) + ", number: "@ + decimal(t.number as nat) + " }"@
}

/// The human-readable description of an error.
pub open spec fn error_text(e: Error) -> Seq<char> {
    match e {
        Error::Truncated => "truncated input"@,
        Error::TrailingData => "trailing data after value"@,
        Error::InvalidTag => "invalid tag"@,
        Error::InvalidLength => "invalid length encoding"@,
        Error::NonMinimalLength => "non-minimal length encoding"@,
        Error::IndefiniteLength => "indefinite length not allowed"@,
        Error::UnsupportedTagNumber(n) => "unsupported tag number "@ + decimal(n as nat),
        Error::RecursionLimitExceeded => "recursion limit exceeded"@,
        Error::ElementTooLarge => "element size exceeds configured limit"@,
        Error::MalformedBoolean => "malformed BOOLEAN"@,
        Error::IntegerNotMinimal => "INTEGER not minimally encoded"@,
        Error::BadObjectIdentifier => "malformed OBJECT IDENTIFIER"@,
        Error::BadBitString => "invalid BIT STRING"@,
        Error::BadUtf8 => "invalid UTF-8"@,
        Error::BadStringType => "string violates character set"@,
        Error::BadTime => "malformed time value"@,
        Error::SetOfNotSorted => "SET OF not in canonical order"@,
        Error::UnexpectedTag { expected, actual } => "unexpected tag: expected "@ + tag_debug(expected)
            + ", got "@ + tag_debug(actual),
        Error::UnknownCriticalExtension => "unhandled critical extension (fail-closed)"@,
        Error::Custom(msg) => msg@,
    }
}

/// Appends the `Debug` rendering of a tag.
fn push_tag_debug(s: &mut String, t: Tag)
    ensures
        final(s)@ == old(s)@ + tag_debug(t),
{
    let ghost start = s@;
    push_str(s, "Tag { class: ");
    push_str(
        s,
        match t.class {
            Class::Universal => "Universal",
            Class::Application => "Application",
            Class::Context => "Context",
            Class::Private => "Private",
        },
    );
    push_str(s, ", constructed: ");
    push_str(s, if t.constructed { "true" } else { "false" });
    push_str(s, ", number: ");
    push_decimal(s, t.number as u128);
    push_str(s, " }");
    proof {
        assert(s@ =~= start + tag_debug(t));
    }
}

impl Error {
    /// The human-readable description of this error.
    pub fn to_string(&self) -> (s: String)
        ensures
            s@ == error_text(*self),
    {
        match self {
            Error::Truncated => String::from_str("truncated input"),
            Error::TrailingData => String::from_str("trailing data after value"),
            Error::InvalidTag => String::from_str("invalid tag"),
            Error::InvalidLength => String::from_str("invalid length encoding"),
            Error::NonMinimalLength => String::from_str("non-minimal length encoding"),
            Error::IndefiniteLength => String::from_str("indefinite length not allowed"),
            Error::UnsupportedTagNumber(n) => {
                let mut s = String::from_str("unsupported tag number ");
                push_decimal(&mut s, *n as u128);
                s
            },
            Error::RecursionLimitExceeded => String::from_str("recursion limit exceeded"),
            Error::ElementTooLarge => String::from_str("element size exceeds configured limit"),
            Error::MalformedBoolean => String::from_str("malformed BOOLEAN"),
            Error::IntegerNotMinimal => String::from_str("INTEGER not minimally encoded"),
            Error::BadObjectIdentifier => String::from_str("malformed OBJECT IDENTIFIER"),
            Error::BadBitString => String::from_str("invalid BIT STRING"),
            Error::BadUtf8 => String::from_str("invalid UTF-8"),
            Error::BadStringType => String::from_str("string violates character set"),
            Error::BadTime => String::from_str("malformed time value"),
            Error::SetOfNotSorted => String::from_str("SET OF not in canonical order"),
            Error::UnexpectedTag { expected, actual } => {
                let mut s = String::from_str("unexpected tag: expected ");
                push_tag_debug(&mut s, *expected);
                push_str(&mut s, ", got ");
                push_tag_debug(&mut s, *actual);
                s
            },
            Error::UnknownCriticalExtension => String::from_str(
                "unhandled critical extension (fail-closed)",
            ),
            Error::Custom(msg) => String::from_str(msg),
        }
    }
}

/// Result alias used throughout the codec.
pub type Result<T> = core::result::Result<T, Error>;

} // verus!
