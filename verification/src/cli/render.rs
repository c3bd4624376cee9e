//! Indented, human-readable rendering of an inspection tree.

use crate::asn1::util::push_str;
use crate::cli::inspect::{node_model, nodes_model, NodeModel, TlvNode};
use crate::text::{decimal, push_decimal};
use vstd::prelude::*;

verus! {

/// `s` wrapped in the ANSI escape sequence that sets the color `code` and
/// the one that resets it.
pub open spec fn spec_colorize(s: Seq<char>, code: Seq<char>) -> Seq<char> {
    seq!['\x1b', '['] + code + seq!['m'] + s + seq!['\x1b', '[', '0', 'm']
}

/// The line of one node after the indentation `pre`:
/// `offset: LABEL  summary  [begin..end]`, the label in cyan when `color`.
pub open spec fn node_line(n: NodeModel, pre: Seq<char>, color: bool) -> Seq<char> {
    pre + decimal(n.offset as nat) + ": "@ + (if color {
        spec_colorize(n.tag_label, "36"@)
    } else {
        n.tag_label
    }) + "  "@ + n.summary + "  ["@ + decimal(n.offset as nat) + ".."@ + decimal(
        (n.offset + n.tlv_len) as nat,
    ) + "]\n"@
}

/// The lines of a node and, indented two spaces further, of its children.
pub open spec fn node_text(n: NodeModel, pre: Seq<char>, color: bool) -> Seq<char>
    decreases n,
{
    node_line(n, pre, color) + nodes_text(n.children, pre + seq![' ', ' '], color)
}

/// The lines of a list of nodes at one indentation.
pub open spec fn nodes_text(ns: Seq<NodeModel>, pre: Seq<char>, color: bool) -> Seq<char>
    decreases ns,
{
    if ns.len() == 0 {
        Seq::empty()
    } else {
        nodes_text(ns.drop_last(), pre, color) + node_text(ns.last(), pre, color)
    }
}

/// Wrap `s` in the ANSI color `code`.
pub fn colorize(s: &str, code: &str) -> (r: String)
    ensures
        r@ == spec_colorize(s@, code@),
{
    let mut out = String::from_str("\x1b[");
    push_str(&mut out, code);
    push_str(&mut out, "m");
    push_str(&mut out, s);
    push_str(&mut out, "\x1b[0m");
    proof {
        reveal_strlit("\x1b[");
        reveal_strlit("m");
        reveal_strlit("\x1b[0m");
        assert(out@ =~= spec_colorize(s@, code@));
    }
    out
}

/// The indented text of a parsed document, one line per node.
pub fn render_text(nodes: &[TlvNode], color: bool) -> (r: String)
    ensures
        r@ == nodes_text(nodes_model(nodes@), Seq::empty(), color),
{
    let mut out = String::new();
    let pre = String::new();
    render_nodes(nodes, &pre, color, &mut out);
    proof {
        assert(Seq::<char>::empty() + nodes_text(nodes_model(nodes@), Seq::empty(), color) =~= nodes_text(
            nodes_model(nodes@),
            Seq::empty(),
            color,
        ));
    }
    out
}

fn render_nodes(nodes: &[TlvNode], pre: &String, color: bool, out: &mut String)
    ensures
        final(out)@ == old(out)@ + nodes_text(nodes_model(nodes@), pre@, color),
    decreases nodes@,
{
    let ghost start = out@;
    let mut i: usize = 0;
    proof {
        assert(nodes@.subrange(0, 0) =~= Seq::<TlvNode>::empty());
        assert(start + nodes_text(nodes_model(Seq::<TlvNode>::empty()), pre@, color) =~= start);
    }
    while i < nodes.len()
        invariant
            i <= nodes@.len(),
            out@ == start + nodes_text(nodes_model(nodes@.subrange(0, i as int)), pre@, color),
        decreases nodes@.len() - i,
    {
        proof {
            assert(decreases_to!(nodes@ => nodes@[i as int]));
        }
        render_node(&nodes[i], pre, color, out);
        proof {
            let p = nodes@.subrange(0, i as int);
            let q = nodes@.subrange(0, i + 1);
            assert(q =~= p.push(nodes@[i as int]));
            assert(q.drop_last() =~= p);
            let mq = nodes_model(q);
            assert(mq == nodes_model(p).push(node_model(nodes@[i as int])));
            assert(mq.drop_last() =~= nodes_model(p));
            assert(start + nodes_text(mq, pre@, color) =~= start + nodes_text(nodes_model(p), pre@, color)
                + node_text(node_model(nodes@[i as int]), pre@, color));
        }
        i += 1;
    }
    proof {
        assert(nodes@.subrange(0, nodes@.len() as int) =~= nodes@);
    }
}

fn render_node(n: &TlvNode, pre: &String, color: bool, out: &mut String)
    ensures
        final(out)@ == old(out)@ + node_text(node_model(*n), pre@, color),
    decreases *n,
{
    let ghost start = out@;
    push_str(out, pre.as_str());
    push_decimal(out, n.offset as u128);
    push_str(out, ": ");
    if color {
        let label = colorize(n.tag_label.as_str(), "36");
        push_str(out, label.as_str());
    } else {
        push_str(out, n.tag_label.as_str());
    }
    push_str(out, "  ");
    push_str(out, n.summary.as_str());
    push_str(out, "  [");
    push_decimal(out, n.offset as u128);
    push_str(out, "..");
    push_decimal(out, n.offset as u128 + n.tlv_len as u128);
    push_str(out, "]\n");
    proof {
        assert(out@ =~= start + node_line(node_model(*n), pre@, color));
    }
    let mut deeper = pre.clone();
    push_str(&mut deeper, "  ");
    proof {
        reveal_strlit("  ");
        assert(deeper@ =~= pre@ + seq![' ', ' ']);
        assert(decreases_to!(*n => n.children@));
    }
    render_nodes(n.children.as_slice(), &deeper, color, out);
    proof {
        assert(out@ =~= start + node_text(node_model(*n), pre@, color));
    }
}

} // verus!
