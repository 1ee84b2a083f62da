use vstd::prelude::*;

use crate::locate::binding_attrpath;
use crate::syntax::{NodeKind, TreeElement, TreeNode, elem_len, elem_text, elems_text, node_text};
use crate::text::{append_bytes, bytes_eq, path_head, path_head_vec, trim_bytes, trimmed};

verus! {

/// `".url"`, the path suffix the planner writes.
pub open spec fn dot_url_bytes() -> Seq<u8> {
    seq![46u8, 117u8, 114u8, 108u8]
}

/// Whether one direct child of an attribute set is a binding under `name`.
/// Three shapes collide with `name`: a path whose first dot-segment,
/// trimmed, equals it (`name = ...` and `name.url = ...`, whatever shape
/// the value takes), and — for a `name` that itself contains dots — a path
/// that, trimmed, equals `name` or `name.url`, the entry the planner
/// itself writes.
pub open spec fn entry_matches(e: TreeElement, name: Seq<u8>) -> bool {
    match e {
        TreeElement::Node(c) => c.kind == NodeKind::Binding && match binding_attrpath(c) {
            Some(p) => path_head(p) == name || trimmed(p) == name || trimmed(p) == name
                + dot_url_bytes(),
            None => false,
        },
        TreeElement::Token(_) => false,
    }
}

/// The Duplicate Checker's question: does the attribute set `set` already
/// bind `name` among its direct entries? Nested sets are not scanned.
pub open spec fn set_has_entry(set: TreeNode, name: Seq<u8>) -> bool {
    exists|i: int| 0 <= i < set.children@.len() && entry_matches(#[trigger] set.children@[i], name)
}

/// The Duplicate Checker: scans only the direct entries of `set`.
pub fn has_entry(set: &TreeNode, name: &Vec<u8>) -> (r: bool)
    ensures
        r == set_has_entry(*set, name@),
{
    let mut name_url: Vec<u8> = Vec::new();
    append_bytes(&mut name_url, name);
    name_url.push(46u8);
    name_url.push(117u8);
    name_url.push(114u8);
    name_url.push(108u8);
    proof {
        assert(name_url@ =~= name@ + dot_url_bytes());
    }
    let mut i: usize = 0;
    while i < set.children.len()
        invariant
            i <= set.children.len(),
            name_url@ == name@ + dot_url_bytes(),
            forall|k: int| 0 <= k < i ==> !entry_matches(#[trigger] set.children@[k], name@),
        decreases set.children.len() - i,
    {
        match &set.children[i] {
            TreeElement::Node(c) => {
                if matches!(c.kind, NodeKind::Binding) {
                    proof {
                        assert(c.children@.skip(0) =~= c.children@);
                    }
                    match crate::locate::attrpath_vec(c) {
                        Some(p) => {
                            let head = path_head_vec(&p);
                            let full = trim_bytes(&p);
                            if bytes_eq(&head, name) || bytes_eq(&full, name) || bytes_eq(
                                &full,
                                &name_url,
                            ) {
                                proof {
                                    assert(entry_matches(set.children@[i as int], name@));
                                }
                                return true;
                            }
                        },
                        None => {},
                    }
                }
            },
            TreeElement::Token(_) => {},
        }
        i += 1;
    }
    false
}

/// Whether an element is the one-byte closing-brace token of a set.
pub open spec fn is_close_brace(e: TreeElement) -> bool {
    match e {
        TreeElement::Token(t) => t.text@ == seq![125u8],
        TreeElement::Node(_) => false,
    }
}

/// Byte offset, within the text of an attribute set's children, of the
/// first closing-brace token among them; `None` when the set has no closing
/// delimiter (a malformed, unterminated set).
pub open spec fn brace_offset_from(es: Seq<TreeElement>) -> Option<int>
    decreases es.len(),
{
    if es.len() == 0 {
        None
    } else if is_close_brace(es[0]) {
        Some(0)
    } else {
        match brace_offset_from(es.subrange(1, es.len() as int)) {
            Some(o) => Some(elem_text(es[0]).len() + o),
            None => None,
        }
    }
}

/// The closing brace found lies inside the children's text.
pub proof fn lemma_brace_offset_bounds(es: Seq<TreeElement>)
    ensures
        brace_offset_from(es) matches Some(b) ==> 0 <= b && b + 1 <= elems_text(es).len(),
    decreases es.len(),
{
    if es.len() > 0 {
        let rest = es.subrange(1, es.len() as int);
        lemma_brace_offset_bounds(rest);
        assert(elems_text(es) == elem_text(es[0]) + elems_text(rest));
    }
}

/// Index of the first closing-brace token among `es`.
pub open spec fn brace_index_from(es: Seq<TreeElement>) -> Option<int>
    decreases es.len(),
{
    if es.len() == 0 {
        None
    } else if is_close_brace(es[0]) {
        Some(0)
    } else {
        match brace_index_from(es.subrange(1, es.len() as int)) {
            Some(i) => Some(i + 1),
            None => None,
        }
    }
}

/// Byte offset where sibling `k` starts, within the siblings' joint text.
pub open spec fn child_offset(es: Seq<TreeElement>, k: int) -> int {
    elems_text(es.take(k)).len() as int
}

/// The planned offset is where the first closing brace starts: the brace
/// found is real, it is the first, and its byte offset is the joint length
/// of everything standing before it.
pub proof fn lemma_brace_offset_is_index_offset(es: Seq<TreeElement>)
    ensures
        match brace_index_from(es) {
            Some(i) => 0 <= i < es.len() && is_close_brace(es[i]) && (forall|j: int|
                0 <= j < i ==> !is_close_brace(#[trigger] es[j])) && brace_offset_from(es) == Some(
                child_offset(es, i),
            ),
            None => brace_offset_from(es) is None && forall|j: int|
                0 <= j < es.len() ==> !is_close_brace(#[trigger] es[j]),
        },
    decreases es.len(),
{
    if es.len() == 0 {
    } else if is_close_brace(es[0]) {
        assert(es.take(0) =~= Seq::<TreeElement>::empty());
    } else {
        let rest = es.subrange(1, es.len() as int);
        lemma_brace_offset_is_index_offset(rest);
        match brace_index_from(rest) {
            Some(i) => {
                assert(es.take(i + 1)[0] == es[0]);
                assert(es.take(i + 1).subrange(1, i + 1) =~= rest.take(i));
                assert(forall|j: int| 0 <= j < i + 1 ==> !is_close_brace(#[trigger] es[j]))
                    by {
                    assert(forall|j: int| 1 <= j < i + 1 ==> es[j] == rest[j - 1]);
                }
            },
            None => {
                assert(forall|j: int| 1 <= j < es.len() ==> es[j] == rest[j - 1]);
            },
        }
    }
}

/// Order preservation at the byte level: every direct child of the set that
/// stands before the closing brace ends at or before the planned insertion
/// offset. Together with the losslessness of the splice, existing entries
/// keep their bytes and their order, and the new entry lands after all of
/// them: an append, never a reordering.
pub proof fn lemma_insertion_appends(es: Seq<TreeElement>, k: int)
    requires
        0 <= k,
        match brace_index_from(es) {
            Some(i) => k < i,
            None => false,
        },
    ensures
        match brace_offset_from(es) {
            Some(b) => 0 <= child_offset(es, k) && child_offset(es, k) + elem_text(
                es[k],
            ).len() <= b,
            None => false,
        },
{
    lemma_brace_offset_is_index_offset(es);
    match brace_index_from(es) {
        Some(i) => {
            crate::syntax::lemma_elems_text_split(es.take(k + 1), k);
            assert(es.take(k + 1).take(k) =~= es.take(k));
            assert(es.take(k + 1).skip(k) =~= seq![es[k]]);
            assert(seq![es[k]].subrange(1, 1) =~= Seq::<TreeElement>::empty());
            assert(seq![es[k]][0] == es[k]);
            assert(elems_text(Seq::<TreeElement>::empty()) =~= Seq::<u8>::empty());
            assert(elems_text(seq![es[k]]) =~= elem_text(es[k]));
            assert(child_offset(es, k + 1) == child_offset(es, k) + elem_text(es[k]).len());
            crate::syntax::lemma_elems_text_split(es.take(i), k + 1);
            assert(es.take(i).take(k + 1) =~= es.take(k + 1));
            assert(child_offset(es, k + 1) <= child_offset(es, i));
        },
        None => {},
    }
}

/// The text the editor splices in: a newline, four spaces of indentation,
/// the attribute name, `.url = "`, the value, `";`, then a newline and the
/// two spaces of indentation the closing brace of the set already used.
pub open spec fn insertion_text(name: Seq<u8>, value: Seq<u8>) -> Seq<u8> {
    lead_bytes() + name + mid_bytes() + value + tail_bytes()
}

/// `"\n    "`.
pub open spec fn lead_bytes() -> Seq<u8> {
    seq![10u8, 32u8, 32u8, 32u8, 32u8]
}

/// `".url = \""`.
pub open spec fn mid_bytes() -> Seq<u8> {
    seq![46u8, 117u8, 114u8, 108u8, 32u8, 61u8, 32u8, 34u8]
}

/// `"\";\n  "`.
pub open spec fn tail_bytes() -> Seq<u8> {
    seq![34u8, 59u8, 10u8, 32u8, 32u8]
}

/// A computed splice: insert `text` at byte `offset` of the original
/// source. Transient: produced by the planner, consumed by the rewrite.
pub struct InsertionPlan {
    pub offset: usize,
    pub text: Vec<u8>,
}

/// Builds the literal text to insert for one new entry.
pub fn build_insertion(name: &Vec<u8>, value: &Vec<u8>) -> (r: Vec<u8>)
    ensures
        r@ == insertion_text(name@, value@),
{
    let mut out: Vec<u8> = Vec::new();
    out.push(10u8);
    out.push(32u8);
    out.push(32u8);
    out.push(32u8);
    out.push(32u8);
    proof {
        assert(out@ =~= lead_bytes());
    }
    crate::text::append_bytes(&mut out, name);
    let ghost g1 = out@;
    out.push(46u8);
    out.push(117u8);
    out.push(114u8);
    out.push(108u8);
    out.push(32u8);
    out.push(61u8);
    out.push(32u8);
    out.push(34u8);
    proof {
        assert(out@ =~= g1 + mid_bytes());
    }
    crate::text::append_bytes(&mut out, value);
    let ghost g2 = out@;
    out.push(34u8);
    out.push(59u8);
    out.push(10u8);
    out.push(32u8);
    out.push(32u8);
    proof {
        assert(out@ =~= g2 + tail_bytes());
        assert(out@ =~= insertion_text(name@, value@));
    }
    out
}

/// The Insertion Planner: finds the closing delimiter of the located
/// attribute set (whose own text starts at absolute byte `set_offset`) and
/// plans the splice that makes the new entry the last member of the set.
/// `None` means the set has no closing brace: a malformed section, and no
/// partial insertion is attempted.
pub fn plan_insert(set: &TreeNode, set_offset: usize, name: &Vec<u8>, value: &Vec<u8>) -> (r:
    Option<InsertionPlan>)
    requires
        set_offset + node_text(*set).len() <= usize::MAX,
    ensures
        match r {
            Some(p) => brace_offset_from(set.children@) matches Some(b) && p.offset == set_offset
                + b && p.text@ == insertion_text(name@, value@),
            None => brace_offset_from(set.children@) is None,
        },
{
    proof {
        assert(set.children@.skip(0) =~= set.children@);
    }
    match brace_from(set, 0) {
        Some(rel) => {
            proof {
                lemma_brace_offset_bounds(set.children@);
            }
            Some(InsertionPlan { offset: set_offset + rel, text: build_insertion(name, value) })
        },
        None => None,
    }
}

/// Byte offset of the first closing-brace token among the children of `n`
/// from `i` on, relative to where child `i` starts.
fn brace_from(n: &TreeNode, i: usize) -> (r: Option<usize>)
    requires
        i <= n.children.len(),
        elems_text(n.children@.skip(i as int)).len() <= usize::MAX,
    ensures
        match r {
            Some(b) => brace_offset_from(n.children@.skip(i as int)) == Some(b as int),
            None => brace_offset_from(n.children@.skip(i as int)) is None,
        },
    decreases n.children@.len() - i,
{
    if i == n.children.len() {
        proof {
            assert(n.children@.skip(i as int) =~= Seq::<TreeElement>::empty());
        }
        None
    } else {
        proof {
            let s = n.children@.skip(i as int);
            assert(s[0] == n.children@[i as int]);
            assert(s.subrange(1, s.len() as int) =~= n.children@.skip(i as int + 1));
        }
        let close: bool = match &n.children[i] {
            TreeElement::Token(t) => t.text.len() == 1 && t.text[0] == 125u8,
            TreeElement::Node(_) => false,
        };
        proof {
            match n.children@[i as int] {
                TreeElement::Token(t) => {
                    assert(t.text@ == seq![125u8] <==> (t.text@.len() == 1 && t.text@[0] == 125u8))
                        by {
                        if t.text@.len() == 1 && t.text@[0] == 125u8 {
                            assert(t.text@ =~= seq![125u8]);
                        }
                    }
                },
                TreeElement::Node(_) => {},
            }
            assert(close == is_close_brace(n.children@[i as int]));
        }
        if close {
            Some(0)
        } else {
            proof {
                lemma_brace_offset_bounds(n.children@.skip(i as int + 1));
            }
            let l0: usize = elem_len(&n.children[i]);
            match brace_from(n, i + 1) {
                Some(b) => Some(l0 + b),
                None => None,
            }
        }
    }
}

} // verus!
