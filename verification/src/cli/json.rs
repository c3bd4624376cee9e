//! JSON rendering of an inspection tree.

use crate::asn1::util::push_str;
use crate::cli::inspect::{node_model, nodes_model, lemma_nodes_model_len, NodeModel, TlvNode};
use crate::text::{chars_of, decimal, hex_digit, push_char, push_decimal};
use vstd::prelude::*;

verus! {

/// A character as it stands inside a JSON string literal.
pub open spec fn json_escape_char(c: char) -> Seq<char> {
    if c == '"' {
        seq!['\\', '"']
    } else if c == '\\' {
        seq!['\\', '\\']
    } else if c == '\n' {
        seq!['\\', 'n']
    } else if c == '\r' {
        seq!['\\', 'r']
    } else if c == '\t' {
        seq!['\\', 't']
    } else if (c as int) < 0x20 {
        seq!['\\', 'u', '0', '0', hex_digit(c as int / 16), hex_digit(c as int % 16)]
    } else {
        seq![c]
    }
}

/// The characters of `s` escaped for a JSON string literal.
pub open spec fn json_escape(s: Seq<char>) -> Seq<char>
    decreases s.len(),
{
    if s.len() == 0 {
        Seq::empty()
    } else {
        json_escape(s.drop_last()) + json_escape_char(s.last())
    }
}

/// `s` as a JSON string literal.
pub open spec fn json_string(s: Seq<char>) -> Seq<char> {
    seq!['"'] + json_escape(s) + seq!['"']
}

/// The members of a node's JSON object before its children.
pub open spec fn node_json_head(n: NodeModel) -> Seq<char> {
    "{\"offset\":"@ + decimal(n.offset as nat) + ",\"length\":"@ + decimal(n.tlv_len as nat)
        + ",\"class\":"@ + decimal(n.class as nat) + ",\"constructed\":"@ + (if n.constructed {
        "true"@
    } else {
        "false"@
    }) + ",\"tag_number\":"@ + decimal(n.number as nat) + ",\"tag\":"@ + json_string(n.tag_label)
        + ",\"summary\":"@ + json_string(n.summary) + ",\"children\":["@
}

/// A node as a JSON object.
pub open spec fn node_json(n: NodeModel) -> Seq<char>
    decreases n,
{
    node_json_head(n) + nodes_json(n.children) + "]}"@
}

/// Nodes as JSON objects separated by commas.
pub open spec fn nodes_json(ns: Seq<NodeModel>) -> Seq<char>
    decreases ns,
{
    if ns.len() == 0 {
        Seq::empty()
    } else if ns.len() == 1 {
        node_json(ns[0])
    } else {
        nodes_json(ns.drop_last()) + seq![','] + node_json(ns.last())
    }
}

/// The JSON document for a parsed block.
pub open spec fn spec_to_json(nodes: Seq<NodeModel>, block: Seq<char>, rule: Seq<char>) -> Seq<char> {
    "{\"tool\":\"tpt-asn1\",\"rule\":"@ + json_string(rule) + ",\"block\":"@ + json_string(block)
        + ",\"elements\":["@ + nodes_json(nodes) + "]}"@
}

/// Serialize a parsed document as JSON.
pub fn to_json(nodes: &[TlvNode], block_label: Option<&str>, rule: &str) -> (r: String)
    ensures
        r@ == spec_to_json(
            nodes_model(nodes@),
            match block_label {
                Some(b) => b@,
                None => Seq::empty(),
            },
            rule@,
        ),
{
    let mut out = String::from_str("{\"tool\":\"tpt-asn1\",\"rule\":");
    json_str(rule, &mut out);
    push_str(&mut out, ",\"block\":");
    match block_label {
        Some(b) => json_str(b, &mut out),
        None => json_str("", &mut out),
    }
    push_str(&mut out, ",\"elements\":[");
    append_json_list(nodes, &mut out);
    push_str(&mut out, "]}");
    proof {
        reveal_strlit("");
    }
    out
}

/// Appends the JSON objects of `nodes`, separated by commas.
fn append_json_list(nodes: &[TlvNode], out: &mut String)
    ensures
        final(out)@ == old(out)@ + nodes_json(nodes_model(nodes@)),
    decreases nodes@,
{
    let ghost start = out@;
    let mut i: usize = 0;
    proof {
        assert(nodes@.subrange(0, 0) =~= Seq::<TlvNode>::empty());
        assert(nodes_model(Seq::<TlvNode>::empty()) =~= Seq::empty());
        assert(start + nodes_json(Seq::empty()) =~= start);
    }
    while i < nodes.len()
        invariant
            i <= nodes@.len(),
            out@ == start + nodes_json(nodes_model(nodes@.subrange(0, i as int))),
        decreases nodes@.len() - i,
    {
        if i > 0 {
            push_char(out, ',');
        }
        proof {
            assert(decreases_to!(nodes@ => nodes@[i as int]));
        }
        append_json(&nodes[i], out);
        proof {
            let p = nodes@.subrange(0, i as int);
            let q = nodes@.subrange(0, i + 1);
            assert(q =~= p.push(nodes@[i as int]));
            assert(q.drop_last() =~= p);
            lemma_nodes_model_len(p);
            let mq = nodes_model(q);
            assert(mq.drop_last() =~= nodes_model(p));
            if i == 0 {
                assert(start + nodes_json(mq) =~= start + Seq::<char>::empty() + node_json(node_model(nodes@[0])));
            } else {
                assert(start + nodes_json(mq) =~= start + nodes_json(nodes_model(p)) + seq![','] + node_json(
                    node_model(nodes@[i as int]),
                ));
            }
        }
        i += 1;
    }
    proof {
        assert(nodes@.subrange(0, nodes@.len() as int) =~= nodes@);
    }
}

/// Appends the JSON object of one node.
fn append_json(n: &TlvNode, out: &mut String)
    ensures
        final(out)@ == old(out)@ + node_json(node_model(*n)),
    decreases *n,
{
    let ghost start = out@;
    push_json_head(n, out);
    proof {
        assert(decreases_to!(*n => n.children@));
    }
    append_json_list(n.children.as_slice(), out);
    push_str(out, "]}");
    proof {
        assert(out@ =~= start + node_json(node_model(*n)));
    }
}

/// Appends the members of a node's JSON object before its children.
fn push_json_head(n: &TlvNode, out: &mut String)
    ensures
        final(out)@ == old(out)@ + node_json_head(node_model(*n)),
{
    let ghost start = out@;
    push_str(out, "{\"offset\":");
    push_decimal(out, n.offset as u128);
    push_str(out, ",\"length\":");
    push_decimal(out, n.tlv_len as u128);
    push_str(out, ",\"class\":");
    push_decimal(out, n.class as u128);
    push_str(out, ",\"constructed\":");
    push_str(out, if n.constructed { "true" } else { "false" });
    let ghost part1 = out@;
    proof {
        assert(part1 =~= start + ("{\"offset\":"@ + decimal(n.offset as nat) + ",\"length\":"@ + decimal(n.tlv_len as nat)
            + ",\"class\":"@ + decimal(n.class as nat) + ",\"constructed\":"@ + (if n.constructed {
            "true"@
        } else {
            "false"@
        })));
    }
    push_str(out, ",\"tag_number\":");
    push_decimal(out, n.number as u128);
    push_str(out, ",\"tag\":");
    json_str(n.tag_label.as_str(), out);
    push_str(out, ",\"summary\":");
    json_str(n.summary.as_str(), out);
    push_str(out, ",\"children\":[");
    proof {
        assert(out@ =~= start + node_json_head(node_model(*n)));
    }
}

/// Appends the escape of one character.
fn push_json_char(out: &mut String, c: char)
    ensures
        final(out)@ == old(out)@ + json_escape_char(c),
{
    let ghost start = out@;
    if c == '"' {
        push_char(out, '\\');
        push_char(out, '"');
    } else if c == '\\' {
        push_char(out, '\\');
        push_char(out, '\\');
    } else if c == '\n' {
        push_char(out, '\\');
        push_char(out, 'n');
    } else if c == '\r' {
        push_char(out, '\\');
        push_char(out, 'r');
    } else if c == '\t' {
        push_char(out, '\\');
        push_char(out, 't');
    } else if (c as u32) < 0x20 {
        let v = c as u32;
        push_char(out, '\\');
        push_char(out, 'u');
        push_char(out, '0');
        push_char(out, '0');
        push_char(out, if v / 16 < 10 { (0x30u8 + (v / 16) as u8) as char } else { (0x61u8 + (v / 16) as u8 - 10) as char });
        push_char(out, if v % 16 < 10 { (0x30u8 + (v % 16) as u8) as char } else { (0x61u8 + (v % 16) as u8 - 10) as char });
    } else {
        push_char(out, c);
    }
    proof {
        assert(out@ =~= start + json_escape_char(c));
    }
}

/// Append `s` to `out` as a JSON-escaped string literal.
fn json_str(s: &str, out: &mut String)
    ensures
        final(out)@ == old(out)@ + json_string(s@),
{
    let ghost start = out@;
    let cs = chars_of(s);
    push_char(out, '"');
    let mut i: usize = 0;
    proof {
        assert(cs@.subrange(0, 0) =~= Seq::<char>::empty());
        assert(start.push('"') =~= start + seq!['"'] + json_escape(Seq::<char>::empty()));
    }
    while i < cs.len()
        invariant
            i <= cs@.len(),
            cs@ == s@,
            out@ == start + seq!['"'] + json_escape(cs@.subrange(0, i as int)),
        decreases cs@.len() - i,
    {
        push_json_char(out, cs[i]);
        proof {
            let q = cs@.subrange(0, i + 1);
            assert(q.drop_last() =~= cs@.subrange(0, i as int));
            assert(start + seq!['"'] + json_escape(cs@.subrange(0, i as int)) + json_escape_char(cs@[i as int])
                =~= start + seq!['"'] + json_escape(q));
        }
        i += 1;
    }
    push_char(out, '"');
    proof {
        assert(cs@.subrange(0, cs@.len() as int) =~= s@);
        assert(out@ =~= start + json_string(s@));
    }
}

} // verus!
