//! The decisions of the differential fuzzer: how large a parsed tree is, how
//! many elements an `openssl asn1parse` listing shows, and what disagreement
//! between the two is reported.

use crate::asn1::reader::Config;
use crate::asn1::util::push_str;
use crate::cli::inspect::{node_model, nodes_model, NodeModel, TlvNode};
use crate::cli::pem::{is_white_space_char, lemma_next_line, line_at, line_bounds, next_line, trim_start};
use crate::text::{chars_of, decimal, lossy_text, push_decimal, utf8_lossy};
use vstd::prelude::*;

verus! {

/// Options for the fuzzing run.
#[derive(Clone, Copy)]
pub struct FuzzOptions {
    /// Encoding-rule configuration for our own parser.
    pub config: Config,
    /// Optional: fail the run if OpenSSL is not available.
    pub require_openssl: bool,
}

/// The number of nodes in a tree, counting every level.
pub open spec fn tree_size(n: NodeModel) -> nat
    decreases n,
{
    1 + forest_size(n.children)
}

/// The number of nodes in a list of trees.
pub open spec fn forest_size(ns: Seq<NodeModel>) -> nat
    decreases ns,
{
    if ns.len() == 0 {
        0
    } else {
        forest_size(ns.drop_last()) + tree_size(ns.last())
    }
}

/// Total number of TLV nodes in a parsed tree (saturating at `usize::MAX`).
pub fn count_nodes(nodes: &[TlvNode]) -> (r: usize)
    ensures
        r == if forest_size(nodes_model(nodes@)) <= usize::MAX {
            forest_size(nodes_model(nodes@))
        } else {
            usize::MAX as nat
        },
    decreases nodes@,
{
    let mut total: usize = 0;
    let mut i: usize = 0;
    proof {
        assert(nodes@.subrange(0, 0) =~= Seq::<TlvNode>::empty());
    }
    while i < nodes.len()
        invariant
            i <= nodes@.len(),
            total == if forest_size(nodes_model(nodes@.subrange(0, i as int))) <= usize::MAX {
                forest_size(nodes_model(nodes@.subrange(0, i as int)))
            } else {
                usize::MAX as nat
            },
        decreases nodes@.len() - i,
    {
        proof {
            assert(decreases_to!(nodes@ => nodes@[i as int]));
            assert(decreases_to!(nodes@[i as int] => nodes@[i as int].children@));
        }
        let sub = count_nodes(nodes[i].children.as_slice());
        proof {
            let p = nodes@.subrange(0, i as int);
            let q = nodes@.subrange(0, i + 1);
            assert(q =~= p.push(nodes@[i as int]));
            assert(q.drop_last() =~= p);
            assert(nodes_model(q) == nodes_model(p).push(node_model(nodes@[i as int])));
            assert(nodes_model(q).drop_last() =~= nodes_model(p));
            let x = nodes@[i as int];
            assert(nodes_model(q).last() == node_model(x));
            assert(forest_size(nodes_model(q)) == forest_size(nodes_model(p)) + tree_size(node_model(x)));
            assert(tree_size(node_model(x)) == 1 + forest_size(nodes_model(x.children@)));
        }
        total = total.saturating_add(1).saturating_add(sub);
        i += 1;
    }
    proof {
        assert(nodes@.subrange(0, nodes@.len() as int) =~= nodes@);
    }
    total
}

/// A line of an `asn1parse` listing that shows an element: after its
/// leading white space comes a digit, and it holds a colon.
pub open spec fn is_element_line(l: Seq<char>) -> bool {
    let t = trim_start(l, 0);
    &&& 0 <= t < l.len()
    &&& '0' <= l[t] <= '9'
    &&& l.contains(':')
}

/// The element lines of a listing from the line at `p` on.
pub open spec fn element_lines_from(cs: Seq<char>, p: int) -> nat
    decreases cs.len() - p,
{
    if p < 0 || p >= cs.len() {
        0
    } else {
        proof {
            lemma_next_line(cs, p);
        }
        (if is_element_line(line_at(cs, p)) {
            1nat
        } else {
            0nat
        }) + element_lines_from(cs, next_line(cs, p))
    }
}

/// Count `asn1parse` element lines (lines like `    0:d=0 hl=2 l=3 cons: ...`).
pub fn count_openssl_elems(stdout: &[u8]) -> (r: usize)
    ensures
        r == element_lines_from(lossy_text(stdout@), 0),
{
    let text = utf8_lossy(stdout);
    let cs = chars_of(text.as_str());
    let n = cs.len();
    let mut p: usize = 0;
    let mut count: usize = 0;
    while p < n
        invariant
            n == cs@.len(),
            cs@ == lossy_text(stdout@),
            p <= n,
            count <= p,
            count + element_lines_from(cs@, p as int) == element_lines_from(cs@, 0),
        decreases n - p,
    {
        let (le, next) = line_bounds(&cs, p);
        proof {
            lemma_next_line(cs@, p as int);
        }
        let ghost line = cs@.subrange(p as int, le as int);
        let mut t = p;
        while t < le && is_white_space_char(cs[t])
            invariant
                p <= t <= le <= n == cs@.len(),
                line == cs@.subrange(p as int, le as int),
                trim_start(line, 0) == trim_start(line, t - p),
            decreases le - t,
        {
            t += 1;
        }
        let starts_digit = t < le && '0' <= cs[t] && cs[t] <= '9';
        let mut has_colon = false;
        let mut k = p;
        while k < le
            invariant
                p <= k <= le <= n == cs@.len(),
                line == cs@.subrange(p as int, le as int),
                has_colon == (exists|m: int| p <= m < k && cs@[m] == ':'),
            decreases le - k,
        {
            if cs[k] == ':' {
                has_colon = true;
            }
            k += 1;
        }
        proof {
            assert(line_at(cs@, p as int) == line);
            if has_colon {
                let m = choose|m: int| p <= m < le && cs@[m] == ':';
                assert(line[m - p] == ':');
            }
            if line.contains(':') {
                let j = choose|j: int| 0 <= j < line.len() && line[j] == ':';
                assert(cs@[p + j] == ':');
            }
            assert(is_element_line(line) == (starts_digit && has_colon));
        }
        if starts_digit && has_colon {
            count += 1;
        }
        p = next;
    }
    count
}

/// What a disagreement between our parser and OpenSSL on one input is
/// reported as, if they disagree: on acceptance, or (both accepting) on the
/// number of elements.
pub open spec fn spec_finding(ours_ok: bool, ours_elems: nat, openssl_ok: bool, openssl_elems: nat) -> Option<
    Seq<char>,
> {
    if openssl_ok != ours_ok {
        Some(
            "acceptance mismatch: tpt-asn1="@ + (if ours_ok {
                "true"@
            } else {
                "false"@
            }) + ", openssl="@ + (if openssl_ok {
                "true"@
            } else {
                "false"@
            }),
        )
    } else if openssl_ok && openssl_elems != ours_elems {
        Some("element count mismatch: tpt-asn1="@ + decimal(ours_elems) + ", openssl="@ + decimal(openssl_elems))
    } else {
        None
    }
}

/// Compares our verdict on an input with OpenSSL's.
pub fn differential_finding(ours_ok: bool, ours_elems: usize, openssl_ok: bool, openssl_elems: usize) -> (r:
    Option<String>)
    ensures
        match spec_finding(ours_ok, ours_elems as nat, openssl_ok, openssl_elems as nat) {
            Some(t) => r matches Some(s) && s@ == t,
            None => r is None,
        },
{
    if openssl_ok != ours_ok {
        let mut s = String::from_str("acceptance mismatch: tpt-asn1=");
        push_str(&mut s, if ours_ok { "true" } else { "false" });
        push_str(&mut s, ", openssl=");
        push_str(&mut s, if openssl_ok { "true" } else { "false" });
        Some(s)
    } else if openssl_ok && openssl_elems != ours_elems {
        let mut s = String::from_str("element count mismatch: tpt-asn1=");
        push_decimal(&mut s, ours_elems as u128);
        push_str(&mut s, ", openssl=");
        push_decimal(&mut s, openssl_elems as u128);
        Some(s)
    } else {
        None
    }
}

} // verus!
