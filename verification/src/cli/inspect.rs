//! Recursive ASN.1 structural inspector: TLV tree and JSON rendering.
//!
//! The tree is specified by [`spec_nodes_from`]: each element's header is read
//! as the codec reads it, constructed values are walked to a depth limit, and
//! every node carries a label and a one-line summary whose texts are stated
//! by the spec functions of this module.

use crate::asn1::error::Error as CoreError;
use crate::asn1::reader::{lemma_read_tlv_bounds, spec_read_tlv, Config, Reader};
use crate::asn1::length::Length;
use crate::asn1::tag::{Class, Tag};
use crate::asn1::types::{
    spec_as_i64, spec_parse_time, str_from_utf8, DateTime, GeneralizedTime, Integer, UtcTime,
};
use crate::asn1::util::push_str;
use crate::text::{debug_str, debug_text, 
    decimal, hex_byte, padded, push_char, push_decimal, push_hex_byte, push_padded, push_signed_decimal,
    signed_decimal,
};
use vstd::prelude::*;

verus! {

/// Options controlling how [`parse_tlvs`] walks and renders a value.
#[derive(Clone, Copy)]
pub struct InspectOptions {
    /// Encoding-rule configuration handed to the core reader.
    pub config: Config,
    /// Maximum recursion depth before a constructed value is shown raw.
    pub max_depth: usize,
    /// Attempt to re-parse OCTET STRING / BIT STRING contents as embedded DER.
    pub try_der: bool,
    /// Show full hex for primitive values instead of a truncated preview.
    pub show_bytes: bool,
}

/// A single ASN.1 TLV node in the inspection tree.
#[derive(Debug)]
pub struct TlvNode {
    /// Absolute byte offset of this TLV's tag within the top-level buffer.
    pub offset: usize,
    /// Total encoded length of this TLV (tag + length + value).
    pub tlv_len: usize,
    /// Tag class index (0=Universal, 1=Application, 2=Context, 3=Private).
    pub class: u8,
    /// Whether the tag is constructed.
    pub constructed: bool,
    /// Tag number within its class.
    pub number: u32,
    /// Human-readable tag label (e.g. `INTEGER`, `[CONTEXT 0]`).
    pub tag_label: String,
    /// A short, human-readable summary of the value.
    pub summary: String,
    /// Child nodes for constructed values (and embedded DER when `--try-der`).
    pub children: Vec<TlvNode>,
}

/// Model of a [`TlvNode`].
pub ghost struct NodeModel {
    pub offset: int,
    pub tlv_len: int,
    pub class: u8,
    pub constructed: bool,
    pub number: u32,
    pub tag_label: Seq<char>,
    pub summary: Seq<char>,
    pub children: Seq<NodeModel>,
}

/// The model of a node.
pub open spec fn node_model(n: TlvNode) -> NodeModel
    decreases n,
{
    NodeModel {
        offset: n.offset as int,
        tlv_len: n.tlv_len as int,
        class: n.class,
        constructed: n.constructed,
        number: n.number,
        tag_label: n.tag_label@,
        summary: n.summary@,
        children: nodes_model(n.children@),
    }
}

/// The models of a list of nodes.
pub open spec fn nodes_model(ns: Seq<TlvNode>) -> Seq<NodeModel>
    decreases ns,
{
    if ns.len() == 0 {
        Seq::empty()
    } else {
        nodes_model(ns.drop_last()).push(node_model(ns.last()))
    }
}

/// The models of a list are the models of its elements, one for one.
pub proof fn lemma_nodes_model_len(ns: Seq<TlvNode>)
    ensures
        nodes_model(ns).len() == ns.len(),
        forall|i: int| 0 <= i < ns.len() ==> #[trigger] nodes_model(ns)[i] == node_model(ns[i]),
    decreases ns.len(),
{
    if ns.len() > 0 {
        lemma_nodes_model_len(ns.drop_last());
    }
}

pub proof fn lemma_nodes_model_push(ns: Seq<TlvNode>, n: TlvNode)
    ensures
        nodes_model(ns.push(n)) == nodes_model(ns).push(node_model(n)),
{
    assert(ns.push(n).drop_last() =~= ns);
}

// ---------------------------------------------------------------------------
// Texts
// ---------------------------------------------------------------------------

/// The class index of a tag class.
pub open spec fn class_index(c: Class) -> u8 {
    match c {
        Class::Universal => 0,
        Class::Application => 1,
        Class::Context => 2,
        Class::Private => 3,
    }
}

/// The name of a universal tag number, where it has one.
pub open spec fn universal_name(n: u32) -> Option<Seq<char>> {
    if n == 1 {
        Some("BOOLEAN"@)
    } else if n == 2 {
        Some("INTEGER"@)
    } else if n == 3 {
        Some("BIT STRING"@)
    } else if n == 4 {
        Some("OCTET STRING"@)
    } else if n == 5 {
        Some("NULL"@)
    } else if n == 6 {
        Some("OBJECT IDENTIFIER"@)
    } else if n == 7 {
        Some("OBJECT DESCRIPTOR"@)
    } else if n == 8 {
        Some("EXTERNAL"@)
    } else if n == 9 {
        Some("REAL"@)
    } else if n == 10 {
        Some("ENUMERATED"@)
    } else if n == 11 {
        Some("EMBEDDED PDV"@)
    } else if n == 12 {
        Some("UTF8String"@)
    } else if n == 13 {
        Some("RELATIVE-OID"@)
    } else if n == 16 {
        Some("SEQUENCE"@)
    } else if n == 17 {
        Some("SET"@)
    } else if n == 18 {
        Some("NumericString"@)
    } else if n == 19 {
        Some("PrintableString"@)
    } else if n == 20 {
        Some("TeletexString"@)
    } else if n == 21 {
        Some("VideotexString"@)
    } else if n == 22 {
        Some("IA5String"@)
    } else if n == 23 {
        Some("UTCTime"@)
    } else if n == 24 {
        Some("GeneralizedTime"@)
    } else if n == 25 {
        Some("GraphicString"@)
    } else if n == 26 {
        Some("VisibleString"@)
    } else if n == 27 {
        Some("GeneralString"@)
    } else if n == 28 {
        Some("UniversalString"@)
    } else if n == 29 {
        Some("CHARACTER STRING"@)
    } else if n == 30 {
        Some("BMPString"@)
    } else {
        None
    }
}

/// The label of a tag: a universal type's name, `UNIVERSAL n`, or
/// `[CLASS n]` (with ` constructed` inside the brackets for a constructed
/// tag of another class).
pub open spec fn spec_tag_label(tag: Tag) -> Seq<char> {
    if tag.class == Class::Universal {
        match universal_name(tag.number) {
            Some(name) => name,
            None => "UNIVERSAL "@ + decimal(tag.number as nat),
        }
    } else {
        let c = match tag.class {
            Class::Application => "APPLICATION"@,
            Class::Context => "CONTEXT"@,
            _ => "PRIVATE"@,
        };
        "["@ + c + " "@ + decimal(tag.number as nat) + if tag.constructed {
            " constructed]"@
        } else {
            "]"@
        }
    }
}

/// Bytes in hexadecimal, separated by single spaces.
pub open spec fn hex_join(b: Seq<u8>) -> Seq<char>
    decreases b.len(),
{
    if b.len() == 0 {
        Seq::empty()
    } else if b.len() == 1 {
        hex_byte(b[0])
    } else {
        hex_join(b.drop_last()) + seq![' '] + hex_byte(b.last())
    }
}

/// How many bytes a preview shows before it abbreviates.
pub open spec fn preview_limit() -> nat {
    32
}

/// The hex preview of a value: `(empty)`, all its bytes, or (unless `full`)
/// the first 32 bytes followed by ` … (n bytes)`.
pub open spec fn spec_hex_preview(b: Seq<u8>, full: bool) -> Seq<char> {
    if b.len() == 0 {
        "(empty)"@
    } else if full || b.len() <= preview_limit() {
        hex_join(b)
    } else {
        hex_join(b.subrange(0, preview_limit() as int)) + " … ("@ + decimal(b.len()) + " bytes)"@
    }
}

/// The subidentifiers of an OID's content from `i` on, `cur` being the value
/// accumulated so far (in 64 bits, higher bits falling away); a final
/// unterminated subidentifier is dropped.
pub open spec fn oid_arcs(b: Seq<u8>, i: int, cur: u64) -> Seq<u64>
    decreases b.len() - i,
{
    if i < 0 || i >= b.len() {
        Seq::empty()
    } else {
        let c = ((cur as int * 128) % 0x1_0000_0000_0000_0000 + b[i] as int % 128) as u64;
        if b[i] < 0x80 {
            seq![c] + oid_arcs(b, i + 1, 0)
        } else {
            oid_arcs(b, i + 1, c)
        }
    }
}

/// Numbers joined by dots.
pub open spec fn dotted(a: Seq<u64>) -> Seq<char>
    decreases a.len(),
{
    if a.len() == 0 {
        Seq::empty()
    } else if a.len() == 1 {
        decimal(a[0] as nat)
    } else {
        dotted(a.drop_last()) + seq!['.'] + decimal(a.last() as nat)
    }
}

/// An OBJECT IDENTIFIER (or, if `relative`, a RELATIVE-OID) in dotted
/// notation; the first subidentifier of an absolute OID stands for two arcs.
pub open spec fn spec_oid_string(b: Seq<u8>, relative: bool) -> Seq<char> {
    let arcs = oid_arcs(b, 0, 0);
    if relative {
        dotted(arcs)
    } else if arcs.len() == 0 {
        Seq::empty()
    } else {
        let first = arcs[0];
        let a0: u64 = if first < 40 {
            0
        } else if first < 80 {
            1
        } else {
            2
        };
        let a1 = (first - a0 * 40) as u64;
        dotted(seq![a0, a1] + arcs.subrange(1, arcs.len() as int))
    }
}

/// A date and time as `YYYY-MM-DDTHH:MM:SS` and `Z` or `±HH:MM`.
pub open spec fn spec_datetime_text(dt: DateTime) -> Seq<char> {
    let tz = match dt.tz_offset_minutes {
        None => "Z"@,
        Some(m) => {
            let am: nat = if m < 0 {
                (-m) as nat
            } else {
                m as nat
            };
            seq![if m < 0 {
                '-'
            } else {
                '+'
            }] + padded(am / 60, 2) + ":"@ + padded(am % 60, 2)
        },
    };
    padded(dt.year as nat, 4) + "-"@ + padded(dt.month as nat, 2) + "-"@ + padded(dt.day as nat, 2)
        + "T"@ + padded(dt.hour as nat, 2) + ":"@ + padded(dt.minute as nat, 2) + ":"@ + padded(
        dt.second as nat,
        2,
    ) + tz
}

/// The summary of a primitive value (or of a constructed one past the depth
/// limit).
pub open spec fn spec_summary(tag: Tag, value: Seq<u8>, full: bool) -> Seq<char> {
    let u = tag.class == Class::Universal;
    let n = tag.number;
    if u && n == 1 {
        if value.len() == 1 {
            if value[0] != 0 {
                "true"@
            } else {
                "false"@
            }
        } else {
            "(bad) "@ + spec_hex_preview(value, full)
        }
    } else if u && (n == 2 || n == 10) {
        match spec_as_i64(value) {
            Some(v) => signed_decimal(v as int) + " ("@ + spec_hex_preview(value, full) + ")"@,
            None => spec_hex_preview(value, full),
        }
    } else if u && n == 3 {
        if value.len() == 0 {
            "(empty)"@
        } else {
            "unused "@ + decimal(value[0] as nat) + " bits: "@ + spec_hex_preview(
                value.subrange(1, value.len() as int),
                full,
            )
        }
    } else if u && n == 5 {
        "NULL"@
    } else if u && n == 6 {
        spec_oid_string(value, false)
    } else if u && n == 13 {
        spec_oid_string(value, true)
    } else if u && (n == 12 || n == 19 || n == 22 || n == 26 || n == 18) {
        if vstd::utf8::valid_utf8(value) {
            debug_str(vstd::utf8::decode_utf8(value))
        } else {
            spec_hex_preview(value, full)
        }
    } else if u && n == 23 {
        match spec_parse_time(value, true) {
            Ok(dt) => spec_datetime_text(dt) + " (UTCTime)"@,
            Err(_) => spec_hex_preview(value, full),
        }
    } else if u && n == 24 {
        match spec_parse_time(value, false) {
            Ok(dt) => spec_datetime_text(dt) + " (GeneralizedTime)"@,
            Err(_) => spec_hex_preview(value, full),
        }
    } else {
        spec_hex_preview(value, full)
    }
}

} // verus!

verus! {


fn class_name(c: Class) -> (r: &'static str)
    requires
        c != Class::Universal,
    ensures
        r@ == match c {
            Class::Application => "APPLICATION"@,
            Class::Context => "CONTEXT"@,
            _ => "PRIVATE"@,
        },
{
    match c {
        Class::Application => "APPLICATION",
        Class::Context => "CONTEXT",
        _ => "PRIVATE",
    }
}

fn universal_tag_name(n: u32) -> (r: Option<&'static str>)
    ensures
        match universal_name(n) {
            Some(name) => r matches Some(s) && s@ == name,
            None => r is None,
        },
{
    match n {
        1 => Some("BOOLEAN"),
        2 => Some("INTEGER"),
        3 => Some("BIT STRING"),
        4 => Some("OCTET STRING"),
        5 => Some("NULL"),
        6 => Some("OBJECT IDENTIFIER"),
        7 => Some("OBJECT DESCRIPTOR"),
        8 => Some("EXTERNAL"),
        9 => Some("REAL"),
        10 => Some("ENUMERATED"),
        11 => Some("EMBEDDED PDV"),
        12 => Some("UTF8String"),
        13 => Some("RELATIVE-OID"),
        16 => Some("SEQUENCE"),
        17 => Some("SET"),
        18 => Some("NumericString"),
        19 => Some("PrintableString"),
        20 => Some("TeletexString"),
        21 => Some("VideotexString"),
        22 => Some("IA5String"),
        23 => Some("UTCTime"),
        24 => Some("GeneralizedTime"),
        25 => Some("GraphicString"),
        26 => Some("VisibleString"),
        27 => Some("GeneralString"),
        28 => Some("UniversalString"),
        29 => Some("CHARACTER STRING"),
        30 => Some("BMPString"),
        _ => None,
    }
}

/// Human-readable label for a tag.
fn tag_label(tag: &Tag) -> (r: String)
    ensures
        r@ == spec_tag_label(*tag),
{
    if tag.class == Class::Universal {
        match universal_tag_name(tag.number) {
            Some(name) => String::from_str(name),
            None => {
                let mut s = String::from_str("UNIVERSAL ");
                push_decimal(&mut s, tag.number as u128);
                s
            },
        }
    } else {
        let mut s = String::from_str("[");
        push_str(&mut s, class_name(tag.class));
        push_str(&mut s, " ");
        push_decimal(&mut s, tag.number as u128);
        if tag.constructed {
            push_str(&mut s, " constructed]");
        } else {
            push_str(&mut s, "]");
        }
        s
    }
}

/// Appends `bytes` in hexadecimal, separated by single spaces.
fn push_hex_join(s: &mut String, bytes: &[u8])
    ensures
        final(s)@ == old(s)@ + hex_join(bytes@),
{
    let ghost start = s@;
    let mut k: usize = 0;
    proof {
        assert(bytes@.subrange(0, 0) =~= Seq::<u8>::empty());
        assert(start + hex_join(Seq::<u8>::empty()) =~= start);
    }
    while k < bytes.len()
        invariant
            k <= bytes@.len(),
            s@ == start + hex_join(bytes@.subrange(0, k as int)),
        decreases bytes@.len() - k,
    {
        let ghost prev = s@;
        if k > 0 {
            push_char(s, ' ');
        }
        push_hex_byte(s, bytes[k]);
        proof {
            let p = bytes@.subrange(0, k as int);
            let q = bytes@.subrange(0, k + 1);
            assert(q.drop_last() =~= p);
            if k == 0 {
                assert(start + hex_join(q) =~= start + Seq::<char>::empty() + hex_byte(bytes@[0]));
            } else {
                assert(start + hex_join(q) =~= start + hex_join(p) + seq![' '] + hex_byte(bytes@[k as int]));
            }
        }
        k += 1;
    }
    proof {
        assert(bytes@.subrange(0, bytes@.len() as int) =~= bytes@);
    }
}

/// Hex preview: full spaced hex when `full`, else a truncated form for long values.
fn hex_preview(bytes: &[u8], full: bool) -> (r: String)
    ensures
        r@ == spec_hex_preview(bytes@, full),
{
    if bytes.len() == 0 {
        return String::from_str("(empty)");
    }
    let mut s = String::new();
    if full || bytes.len() <= 32 {
        push_hex_join(&mut s, bytes);
    } else {
        push_hex_join(&mut s, &bytes[0..32]);
        push_str(&mut s, " … (");
        push_decimal(&mut s, bytes.len() as u128);
        push_str(&mut s, " bytes)");
    }
    s
}

/// Appends numbers joined by dots.
fn push_dotted(s: &mut String, a: &Vec<u64>)
    ensures
        final(s)@ == old(s)@ + dotted(a@),
{
    let ghost start = s@;
    let mut k: usize = 0;
    proof {
        assert(a@.subrange(0, 0) =~= Seq::<u64>::empty());
        assert(start + dotted(Seq::<u64>::empty()) =~= start);
    }
    while k < a.len()
        invariant
            k <= a@.len(),
            s@ == start + dotted(a@.subrange(0, k as int)),
        decreases a@.len() - k,
    {
        if k > 0 {
            push_char(s, '.');
        }
        push_decimal(s, a[k] as u128);
        proof {
            let p = a@.subrange(0, k as int);
            let q = a@.subrange(0, k + 1);
            assert(q.drop_last() =~= p);
            if k == 0 {
                assert(start + dotted(q) =~= start + Seq::<char>::empty() + decimal(a@[0] as nat));
            } else {
                assert(start + dotted(q) =~= start + dotted(p) + seq!['.'] + decimal(a@[k as int] as nat));
            }
        }
        k += 1;
    }
    proof {
        assert(a@.subrange(0, a@.len() as int) =~= a@);
    }
}

/// Decode an OBJECT IDENTIFIER's subidentifiers into dotted notation.
fn oid_string(bytes: &[u8], relative: bool) -> (r: String)
    ensures
        r@ == spec_oid_string(bytes@, relative),
{
    let mut arcs: Vec<u64> = Vec::new();
    let mut cur: u64 = 0;
    let mut i: usize = 0;
    proof {
        assert(arcs@ + oid_arcs(bytes@, 0, 0) =~= oid_arcs(bytes@, 0, 0));
    }
    while i < bytes.len()
        invariant
            i <= bytes@.len(),
            arcs@ + oid_arcs(bytes@, i as int, cur) == oid_arcs(bytes@, 0, 0),
        decreases bytes@.len() - i,
    {
        let b = bytes[i];
        let low = (b & 0x7f) as u64;
        let shifted = cur << 7u64;
        let next = shifted | low;
        proof {
            assert(b & 0x7f == b % 128) by (bit_vector);
            assert(shifted == (cur as int * 128) % 0x1_0000_0000_0000_0000) by (bit_vector)
                requires
                    shifted == cur << 7u64,
            ;
            assert(shifted | low == shifted + low) by (bit_vector)
                requires
                    shifted == cur << 7u64,
                    low < 128,
            ;
        }
        if b & 0x80 == 0 {
            proof {
                assert(b & 0x80 == 0 ==> b < 0x80) by (bit_vector);
                assert(arcs@.push(next) + oid_arcs(bytes@, i + 1, 0) =~= arcs@ + (seq![next] + oid_arcs(
                    bytes@,
                    i + 1,
                    0,
                )));
            }
            arcs.push(next);
            cur = 0;
        } else {
            proof {
                assert(b & 0x80 != 0 ==> b >= 0x80) by (bit_vector);
            }
            cur = next;
        }
        i += 1;
    }
    proof {
        assert(arcs@ + Seq::<u64>::empty() =~= arcs@);
    }
    let mut s = String::new();
    if relative {
        push_dotted(&mut s, &arcs);
    } else if arcs.len() > 0 {
        let first = arcs[0];
        let a0: u64 = if first < 40 {
            0
        } else if first < 80 {
            1
        } else {
            2
        };
        let mut all: Vec<u64> = Vec::new();
        all.push(a0);
        all.push(first - a0 * 40);
        let mut k: usize = 1;
        while k < arcs.len()
            invariant
                1 <= k <= arcs@.len(),
                all@ == seq![a0, (first - a0 * 40) as u64] + arcs@.subrange(1, k as int),
            decreases arcs@.len() - k,
        {
            all.push(arcs[k]);
            proof {
                assert(seq![a0, (first - a0 * 40) as u64] + arcs@.subrange(1, k + 1) =~= (seq![
                    a0,
                    (first - a0 * 40) as u64,
                ] + arcs@.subrange(1, k as int)).push(arcs@[k as int]));
            }
            k += 1;
        }
        push_dotted(&mut s, &all);
    }
    s
}

/// Render a parsed date and time as an ISO-like string.
fn format_datetime(dt: &DateTime) -> (r: String)
    ensures
        r@ == spec_datetime_text(*dt),
{
    let mut s = String::new();
    push_padded(&mut s, dt.year as u64, 4);
    push_str(&mut s, "-");
    push_padded(&mut s, dt.month as u64, 2);
    push_str(&mut s, "-");
    push_padded(&mut s, dt.day as u64, 2);
    push_str(&mut s, "T");
    push_padded(&mut s, dt.hour as u64, 2);
    push_str(&mut s, ":");
    push_padded(&mut s, dt.minute as u64, 2);
    push_str(&mut s, ":");
    push_padded(&mut s, dt.second as u64, 2);
    match dt.tz_offset_minutes {
        None => push_str(&mut s, "Z"),
        Some(m) => {
            let am: u64 = if m < 0 {
                (-(m as i64)) as u64
            } else {
                m as u64
            };
            push_char(&mut s, if m < 0 { '-' } else { '+' });
            push_padded(&mut s, am / 60, 2);
            push_str(&mut s, ":");
            push_padded(&mut s, am % 60, 2);
        },
    }
    s
}

} // verus!

verus! {

/// Produce a short value summary for a primitive TLV.
fn summarize(tag: &Tag, value: &[u8], opts: &InspectOptions) -> (r: String)
    ensures
        r@ == spec_summary(*tag, value@, opts.show_bytes),
{
    let u = tag.class == Class::Universal;
    let n = tag.number;
    let full = opts.show_bytes;
    if u && n == Tag::BOOLEAN {
        if value.len() == 1 {
            return if value[0] != 0 {
                String::from_str("true")
            } else {
                String::from_str("false")
            };
        }
        let mut s = String::from_str("(bad) ");
        let h = hex_preview(value, full);
        push_str(&mut s, h.as_str());
        return s;
    }
    if u && (n == Tag::INTEGER || n == Tag::ENUMERATED) {
        if let Some(v) = Integer(value).as_i64() {
            let mut s = String::new();
            push_signed_decimal(&mut s, v);
            push_str(&mut s, " (");
            let h = hex_preview(value, full);
            push_str(&mut s, h.as_str());
            push_str(&mut s, ")");
            return s;
        }
        return hex_preview(value, full);
    }
    if u && n == Tag::BIT_STRING {
        if value.len() == 0 {
            return String::from_str("(empty)");
        }
        let mut s = String::from_str("unused ");
        push_decimal(&mut s, value[0] as u128);
        push_str(&mut s, " bits: ");
        let h = hex_preview(&value[1..value.len()], full);
        push_str(&mut s, h.as_str());
        return s;
    }
    if u && n == Tag::NULL {
        return String::from_str("NULL");
    }
    if u && n == Tag::OBJECT_IDENTIFIER {
        return oid_string(value, false);
    }
    if u && n == Tag::RELATIVE_OID {
        return oid_string(value, true);
    }
    if u && (n == Tag::UTF8_STRING || n == Tag::PRINTABLE_STRING || n == Tag::IA5_STRING || n
        == Tag::VISIBLE_STRING || n == Tag::NUMERIC_STRING) {
        if let Some(text) = str_from_utf8(value) {
            proof {
                vstd::utf8::encode_utf8_decode_utf8(text@);
            }
            return debug_text(text);
        }
        return hex_preview(value, full);
    }
    if u && n == Tag::UTC_TIME {
        if let Ok(dt) = UtcTime(value).parse() {
            let mut s = format_datetime(&dt);
            push_str(&mut s, " (UTCTime)");
            return s;
        }
        return hex_preview(value, full);
    }
    if u && n == Tag::GENERALIZED_TIME {
        if let Ok(dt) = GeneralizedTime(value).parse() {
            let mut s = format_datetime(&dt);
            push_str(&mut s, " (GeneralizedTime)");
            return s;
        }
        return hex_preview(value, full);
    }
    hex_preview(value, full)
}

} // verus!

verus! {

// ---------------------------------------------------------------------------
// The tree
// ---------------------------------------------------------------------------

/// The nodes of the elements of `s` from `pos` on; `base` is the offset of
/// `s` in the top-level input and `depth` its nesting depth. Fails with the
/// first header the codec rejects.
pub open spec fn spec_nodes_from(s: Seq<u8>, pos: int, base: int, opts: InspectOptions, depth: int) -> Result<
    Seq<NodeModel>,
    CoreError,
>
    decreases s.len(), s.len() - pos, 1int,
{
    if pos < 0 || pos >= s.len() {
        Ok(Seq::empty())
    } else {
        match spec_read_tlv(s, pos, opts.config) {
            Err(e) => Err(e),
            Ok((tag, length, a, b, n)) => {
                proof {
                    lemma_read_tlv_bounds(s, pos, opts.config);
                }
                match spec_nodes_from(s, n, base, opts, depth) {
                    Err(e) => Err(e),
                    Ok(rest) => Ok(seq![spec_node(s, pos, base, opts, depth)] + rest),
                }
            },
        }
    }
}

/// The node of the element at `pos` of `s` (which the codec accepts).
///
/// A constructed element within the depth limit shows its children, or, if
/// its content does not parse, a hex preview. Other elements show their
/// summary; with `try_der`, an OCTET STRING, or a BIT STRING with no unused
/// bits, whose content parses as one or more elements shows those.
pub open spec fn spec_node(s: Seq<u8>, pos: int, base: int, opts: InspectOptions, depth: int) -> NodeModel
    decreases s.len(), s.len() - pos, 0int,
{
    match spec_read_tlv(s, pos, opts.config) {
        Err(_) => arbitrary(),
        Ok((tag, length, a, b, n)) => {
            proof {
                lemma_read_tlv_bounds(s, pos, opts.config);
            }
            let value = s.subrange(a, b);
            let plain = NodeModel {
                offset: base + pos,
                tlv_len: n - pos,
                class: class_index(tag.class),
                constructed: tag.constructed,
                number: tag.number,
                tag_label: spec_tag_label(tag),
                summary: spec_summary(tag, value, opts.show_bytes),
                children: Seq::empty(),
            };
            if 0 <= pos && tag.constructed && depth < opts.max_depth {
                match spec_nodes_from(value, 0, base + a, opts, depth + 1) {
                    Ok(children) => NodeModel {
                        summary: decimal(children.len()) + " element(s)"@,
                        children,
                        ..plain
                    },
                    Err(_) => NodeModel {
                        summary: "(unparseable constructed) "@ + spec_hex_preview(value, opts.show_bytes),
                        ..plain
                    },
                }
            } else if 0 <= pos && opts.try_der && tag.class == Class::Universal && tag.number == 4 {
                match spec_embedded(value, base + a, opts, depth) {
                    Some(children) => NodeModel {
                        summary: "octet string, embedded DER ("@ + decimal(children.len()) + " elem)"@,
                        children,
                        ..plain
                    },
                    None => plain,
                }
            } else if 0 <= pos && opts.try_der && tag.class == Class::Universal && tag.number == 3
                && value.len() > 0 && value[0] == 0 {
                match spec_embedded(value.subrange(1, value.len() as int), base + a + 1, opts, depth) {
                    Some(children) => NodeModel {
                        summary: "bit string, embedded DER ("@ + decimal(children.len()) + " elem)"@,
                        children,
                        ..plain
                    },
                    None => plain,
                }
            } else {
                plain
            }
        },
    }
}

/// The elements that bytes embedded in a value hold, if they parse as at
/// least one element.
pub open spec fn spec_embedded(bytes: Seq<u8>, base: int, opts: InspectOptions, depth: int) -> Option<
    Seq<NodeModel>,
>
    decreases bytes.len(), bytes.len(), 2int,
{
    if bytes.len() == 0 {
        None
    } else {
        match spec_nodes_from(bytes, 0, base, opts, depth + 1) {
            Ok(ns) => if ns.len() > 0 {
                Some(ns)
            } else {
                None
            },
            Err(_) => None,
        }
    }
}

} // verus!

verus! {

/// `p` in front of the nodes of a successful result.
pub open spec fn prepend_nodes(p: Seq<NodeModel>, r: Result<Seq<NodeModel>, CoreError>) -> Result<
    Seq<NodeModel>,
    CoreError,
> {
    match r {
        Ok(s) => Ok(p + s),
        Err(e) => Err(e),
    }
}

/// Parse every top-level TLV in `input`, returning the document's node tree.
pub fn parse_tlvs(input: &[u8], opts: &InspectOptions) -> (res: Result<Vec<TlvNode>, CoreError>)
    ensures
        match spec_nodes_from(input@, 0, 0, *opts, 0) {
            Ok(m) => res matches Ok(v) && nodes_model(v@) == m,
            Err(e) => res == Err::<Vec<TlvNode>, CoreError>(e),
        },
{
    let _n = input.len();
    parse_tlvs_at(input, 0, opts, 0)
}

/// The nodes of the elements of `input`, which starts at offset `base` of the
/// top-level buffer and lies `depth` levels down.
fn parse_tlvs_at(input: &[u8], base: usize, opts: &InspectOptions, depth: usize) -> (res: Result<
    Vec<TlvNode>,
    CoreError,
>)
    requires
        base + input@.len() <= usize::MAX,
        depth + input@.len() <= usize::MAX,
    ensures
        match spec_nodes_from(input@, 0, base as int, *opts, depth as int) {
            Ok(m) => res matches Ok(v) && nodes_model(v@) == m,
            Err(e) => res == Err::<Vec<TlvNode>, CoreError>(e),
        },
    decreases input@.len(), input@.len(), 1int,
{
    let mut r = Reader::new(input, opts.config);
    let mut out: Vec<TlvNode> = Vec::new();
    proof {
        assert(nodes_model(out@) =~= Seq::empty());
        match spec_nodes_from(input@, 0, base as int, *opts, depth as int) {
            Ok(s) => {
                assert(Seq::<NodeModel>::empty() + s =~= s);
            },
            Err(_) => {},
        }
    }
    while !r.is_empty()
        invariant
            r.spec_input() == input@,
            r.spec_config() == opts.config,
            0 <= r.spec_pos() <= input@.len(),
            base + input@.len() <= usize::MAX,
            depth + input@.len() <= usize::MAX,
            spec_nodes_from(input@, 0, base as int, *opts, depth as int) == prepend_nodes(
                nodes_model(out@),
                spec_nodes_from(input@, r.spec_pos(), base as int, *opts, depth as int),
            ),
        decreases input@.len() - r.spec_pos(),
    {
        let ghost pos = r.spec_pos();
        let node = match parse_one(&mut r, base, opts, depth) {
            Ok(n) => n,
            Err(e) => return Err(e),
        };
        proof {
            lemma_read_tlv_bounds(input@, pos, opts.config);
            lemma_nodes_model_push(out@, node);
            match spec_nodes_from(input@, r.spec_pos(), base as int, *opts, depth as int) {
                Ok(s) => {
                    assert(nodes_model(out@) + (seq![node_model(node)] + s) =~= nodes_model(out@).push(
                        node_model(node),
                    ) + s);
                },
                Err(_) => {},
            }
        }
        out.push(node);
    }
    proof {
        assert(nodes_model(out@) + Seq::<NodeModel>::empty() =~= nodes_model(out@));
    }
    Ok(out)
}

/// Reads the element at the reader's position and builds its node.
fn parse_one<'a>(r: &mut Reader<'a>, base: usize, opts: &InspectOptions, depth: usize) -> (res: Result<
    TlvNode,
    CoreError,
>)
    requires
        old(r).spec_config() == opts.config,
        0 <= old(r).spec_pos(),
        base + old(r).spec_input().len() <= usize::MAX,
        depth + old(r).spec_input().len() <= usize::MAX,
    ensures
        final(r).same_source(*old(r)),
        match spec_read_tlv(old(r).spec_input(), old(r).spec_pos(), opts.config) {
            Err(e) => res == Err::<TlvNode, CoreError>(e),
            Ok((_, _, _, _, n)) => res matches Ok(node) && node_model(node) == spec_node(
                old(r).spec_input(),
                old(r).spec_pos(),
                base as int,
                *opts,
                depth as int,
            ) && final(r).spec_pos() == n,
        },
    decreases old(r).spec_input().len(), old(r).spec_input().len() - old(r).spec_pos(), 0int,
{
    let ghost s = r.spec_input();
    let start = r.position();
    proof {
        lemma_read_tlv_bounds(s, start as int, opts.config);
    }
    let (tag, length, value) = match r.read_tlv() {
        Ok(t) => t,
        Err(e) => return Err(e),
    };
    let end = r.position();
    let a = match length {
        Length::Definite(_) => end - value.len(),
        Length::Indefinite => end - 2 - value.len(),
    };
    let ghost b = a + value@.len();
    proof {
        assert(value@ == s.subrange(a as int, b));
    }
    let label = tag_label(&tag);
    let mut node = TlvNode {
        offset: base + start,
        tlv_len: end - start,
        class: class_number(tag.class),
        constructed: tag.constructed,
        number: tag.number,
        tag_label: label,
        summary: String::new(),
        children: Vec::new(),
    };
    if tag.constructed && depth < opts.max_depth {
        match parse_tlvs_at(value, base + a, opts, depth + 1) {
            Ok(children) => {
                proof {
                    lemma_nodes_model_len(children@);
                }
                let mut summary = String::new();
                push_decimal(&mut summary, children.len() as u128);
                push_str(&mut summary, " element(s)");
                node.children = children;
                node.summary = summary;
            },
            Err(_) => {
                let mut summary = String::from_str("(unparseable constructed) ");
                let h = hex_preview(value, opts.show_bytes);
                push_str(&mut summary, h.as_str());
                node.summary = summary;
            },
        }
    } else {
        node.summary = summarize(&tag, value, opts);
        if opts.try_der {
            if tag.is_universal(Tag::OCTET_STRING) {
                if let Some(ch) = try_embedded(value, base + a, opts, depth) {
                    proof {
                        lemma_nodes_model_len(ch@);
                    }
                    let mut summary = String::from_str("octet string, embedded DER (");
                    push_decimal(&mut summary, ch.len() as u128);
                    push_str(&mut summary, " elem)");
                    node.children = ch;
                    node.summary = summary;
                }
            } else if tag.is_universal(Tag::BIT_STRING) && value.len() > 0 && value[0] == 0 {
                if let Some(ch) = try_embedded(&value[1..value.len()], base + a + 1, opts, depth) {
                    proof {
                        lemma_nodes_model_len(ch@);
                    }
                    let mut summary = String::from_str("bit string, embedded DER (");
                    push_decimal(&mut summary, ch.len() as u128);
                    push_str(&mut summary, " elem)");
                    node.children = ch;
                    node.summary = summary;
                }
            }
        }
    }
    proof {
        assert(node.children@.len() == 0 ==> nodes_model(node.children@) =~= Seq::empty());
        assert(spec_read_tlv(s, start as int, opts.config) matches Ok((t, l, a2, b2, n2)) && t == tag && l == length && a2 == a && b2 == b && n2 == end);
    }
    Ok(node)
}

/// The class index of a tag class.
fn class_number(c: Class) -> (r: u8)
    ensures
        r == class_index(c),
{
    match c {
        Class::Universal => 0,
        Class::Application => 1,
        Class::Context => 2,
        Class::Private => 3,
    }
}

/// Attempt to interpret `bytes` as DER; returns the parsed subtree on success.
fn try_embedded(bytes: &[u8], base: usize, opts: &InspectOptions, depth: usize) -> (r: Option<Vec<TlvNode>>)
    requires
        base + bytes@.len() <= usize::MAX,
        depth + 1 + bytes@.len() <= usize::MAX,
    ensures
        match spec_embedded(bytes@, base as int, *opts, depth as int) {
            Some(m) => r matches Some(v) && nodes_model(v@) == m,
            None => r is None,
        },
    decreases bytes@.len(), bytes@.len(), 2int,
{
    if bytes.len() == 0 {
        return None;
    }
    // A plausible DER tag byte must have a valid class (top two bits).
    let first = bytes[0];
    let class = first >> 6;
    proof {
        assert(first >> 6 <= 3) by (bit_vector);
    }
    if class > 3 {
        return None;
    }
    match parse_tlvs_at(bytes, base, opts, depth + 1) {
        Ok(nodes) => {
            if nodes.len() > 0 {
                Some(nodes)
            } else {
                None
            }
        },
        Err(_) => None,
    }
}

} // verus!
