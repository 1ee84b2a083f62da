use vstd::prelude::*;

use crate::syntax::{NodeKind, TreeElement, TreeNode, elem_len, elem_text, elems_text, node_text};
use crate::syntax::append_node_text_from;
use crate::text::{bytes_eq, trim_bytes, trimmed};

verus! {

/// The attribute-path text of a binding: the text of the first child node of
/// kind `Attrpath`, scanning the children in document order.
pub open spec fn attrpath_text_from(es: Seq<TreeElement>) -> Option<Seq<u8>>
    decreases es.len(),
{
    if es.len() == 0 {
        None
    } else {
        match es[0] {
            TreeElement::Node(c) => if c.kind == NodeKind::Attrpath {
                Some(node_text(c))
            } else {
                attrpath_text_from(es.subrange(1, es.len() as int))
            },
            TreeElement::Token(_) => attrpath_text_from(es.subrange(1, es.len() as int)),
        }
    }
}

/// The attribute-path text of a binding node, if it has one.
pub open spec fn binding_attrpath(n: TreeNode) -> Option<Seq<u8>> {
    attrpath_text_from(n.children@)
}

/// The value of a binding: its first child node that is not the path.
pub open spec fn value_node_from(es: Seq<TreeElement>) -> Option<TreeNode>
    decreases es.len(),
{
    if es.len() == 0 {
        None
    } else {
        match es[0] {
            TreeElement::Node(c) => if c.kind != NodeKind::Attrpath {
                Some(c)
            } else {
                value_node_from(es.subrange(1, es.len() as int))
            },
            TreeElement::Token(_) => value_node_from(es.subrange(1, es.len() as int)),
        }
    }
}

/// Byte offset of that value node within its parent's text (meaningful when
/// `value_node_from` finds one).
pub open spec fn value_offset_from(es: Seq<TreeElement>) -> int
    decreases es.len(),
{
    if es.len() == 0 {
        0
    } else {
        match es[0] {
            TreeElement::Node(c) => if c.kind != NodeKind::Attrpath {
                0
            } else {
                elem_text(es[0]).len() + value_offset_from(es.subrange(1, es.len() as int))
            },
            TreeElement::Token(_) => elem_text(es[0]).len() + value_offset_from(
                es.subrange(1, es.len() as int),
            ),
        }
    }
}

/// A binding whose attribute path, trimmed, equals `name`, and whose value
/// is an attribute-set literal: the structural pattern the editor targets.
pub open spec fn is_target_binding(n: TreeNode, name: Seq<u8>) -> bool {
    &&& n.kind == NodeKind::Binding
    &&& match binding_attrpath(n) {
        Some(p) => trimmed(p) == name,
        None => false,
    }
    &&& match value_node_from(n.children@) {
        Some(v) => v.kind == NodeKind::AttrSet,
        None => false,
    }
}

/// Preorder, depth-first, document-order search for the first binding of
/// `name` to an attribute set. Returns the absolute byte offset of that
/// attribute-set node (counting from `base` at the start of `n`) and the
/// node itself. The parent is examined before its children, and children
/// left to right, so the match appearing earliest and outermost in the
/// source wins.
pub open spec fn locate_in_node(n: TreeNode, name: Seq<u8>, base: int) -> Option<(int, TreeNode)>
    decreases n, 0int,
{
    if is_target_binding(n, name) {
        match value_node_from(n.children@) {
            Some(v) => Some((base + value_offset_from(n.children@), v)),
            None => None,
        }
    } else {
        locate_in_elems(n.children@, name, base)
    }
}

/// Search across a sequence of siblings, left to right.
pub open spec fn locate_in_elems(es: Seq<TreeElement>, name: Seq<u8>, base: int) -> Option<
    (int, TreeNode),
>
    decreases es, 2int,
{
    if es.len() == 0 {
        None
    } else {
        match locate_in_elem(es[0], name, base) {
            Some(r) => Some(r),
            None => locate_in_elems(
                es.subrange(1, es.len() as int),
                name,
                base + elem_text(es[0]).len(),
            ),
        }
    }
}

/// Search inside one element: tokens never match.
pub open spec fn locate_in_elem(e: TreeElement, name: Seq<u8>, base: int) -> Option<
    (int, TreeNode),
>
    decreases e, 1int,
{
    match e {
        TreeElement::Node(n) => locate_in_node(n, name, base),
        TreeElement::Token(_) => None,
    }
}

/// The value node found in a sequence of siblings lies inside their text.
pub proof fn lemma_value_node_bounds(es: Seq<TreeElement>)
    ensures
        value_node_from(es) matches Some(v) ==> 0 <= value_offset_from(es) && value_offset_from(
            es,
        ) + node_text(v).len() <= elems_text(es).len(),
    decreases es.len(),
{
    if es.len() > 0 {
        let rest = es.subrange(1, es.len() as int);
        lemma_value_node_bounds(rest);
        assert(elems_text(es) == elem_text(es[0]) + elems_text(rest));
    }
}

/// A located attribute set lies inside the text of the node searched.
pub proof fn lemma_locate_node_bounds(n: TreeNode, name: Seq<u8>, base: int)
    ensures
        locate_in_node(n, name, base) matches Some(p) ==> base <= p.0 && p.0 + node_text(
            p.1,
        ).len() <= base + node_text(n).len(),
    decreases n, 0int,
{
    if is_target_binding(n, name) {
        lemma_value_node_bounds(n.children@);
    } else {
        lemma_locate_elems_bounds(n.children@, name, base);
    }
}

/// As `lemma_locate_node_bounds`, across a sequence of siblings.
pub proof fn lemma_locate_elems_bounds(es: Seq<TreeElement>, name: Seq<u8>, base: int)
    ensures
        locate_in_elems(es, name, base) matches Some(p) ==> base <= p.0 && p.0 + node_text(
            p.1,
        ).len() <= base + elems_text(es).len(),
    decreases es, 2int,
{
    if es.len() > 0 {
        lemma_locate_elem_bounds(es[0], name, base);
        lemma_locate_elems_bounds(
            es.subrange(1, es.len() as int),
            name,
            base + elem_text(es[0]).len(),
        );
    }
}

/// As `lemma_locate_node_bounds`, for one element.
pub proof fn lemma_locate_elem_bounds(e: TreeElement, name: Seq<u8>, base: int)
    ensures
        locate_in_elem(e, name, base) matches Some(p) ==> base <= p.0 && p.0 + node_text(
            p.1,
        ).len() <= base + elem_text(e).len(),
    decreases e, 1int,
{
    match e {
        TreeElement::Node(n) => lemma_locate_node_bounds(n, name, base),
        TreeElement::Token(_) => {},
    }
}

/// The attribute-path text of the children of `n` from `i` on, as bytes.
fn attrpath_from(n: &TreeNode, i: usize) -> (r: Option<Vec<u8>>)
    requires
        i <= n.children.len(),
    ensures
        match r {
            Some(v) => attrpath_text_from(n.children@.skip(i as int)) == Some(v@),
            None => attrpath_text_from(n.children@.skip(i as int)) is None,
        },
    decreases n.children@.len() - i,
{
    if i == n.children.len() {
        proof {
            assert(n.children@.skip(i as int) =~= Seq::<TreeElement>::empty());
        }
        None
    } else {
        proof {
            let s = n.children@.skip(i as int);
            assert(s[0] == n.children@[i as int]);
            assert(s.subrange(1, s.len() as int) =~= n.children@.skip(i as int + 1));
        }
        match &n.children[i] {
            TreeElement::Node(c) => {
                if c.kind == NodeKind::Attrpath {
                    let mut out: Vec<u8> = Vec::new();
                    proof {
                        assert(c.children@.skip(0) =~= c.children@);
                    }
                    append_node_text_from(c, 0, &mut out);
                    proof {
                        assert(Seq::<u8>::empty() + node_text(*c) =~= node_text(*c));
                    }
                    Some(out)
                } else {
                    attrpath_from(n, i + 1)
                }
            },
            TreeElement::Token(_) => attrpath_from(n, i + 1),
        }
    }
}

/// The attribute-path text of a binding node, as bytes.
pub fn attrpath_vec(n: &TreeNode) -> (r: Option<Vec<u8>>)
    ensures
        match r {
            Some(v) => binding_attrpath(*n) == Some(v@),
            None => binding_attrpath(*n) is None,
        },
{
    proof {
        assert(n.children@.skip(0) =~= n.children@);
    }
    attrpath_from(n, 0)
}

/// The value node among the children of `n` from `i` on, with its byte
/// offset within that remainder.
fn find_value_from<'a>(n: &'a TreeNode, i: usize) -> (r: Option<(usize, &'a TreeNode)>)
    requires
        i <= n.children.len(),
        elems_text(n.children@.skip(i as int)).len() <= usize::MAX,
    ensures
        match r {
            Some(p) => value_node_from(n.children@.skip(i as int)) == Some(*p.1)
                && value_offset_from(n.children@.skip(i as int)) == p.0 as int,
            None => value_node_from(n.children@.skip(i as int)) is None,
        },
    decreases n.children@.len() - i,
{
    if i == n.children.len() {
        proof {
            assert(n.children@.skip(i as int) =~= Seq::<TreeElement>::empty());
        }
        None
    } else {
        proof {
            let s = n.children@.skip(i as int);
            assert(s[0] == n.children@[i as int]);
            assert(s.subrange(1, s.len() as int) =~= n.children@.skip(i as int + 1));
        }
        let found: bool = match &n.children[i] {
            TreeElement::Node(c) => c.kind != NodeKind::Attrpath,
            TreeElement::Token(_) => false,
        };
        if found {
            match &n.children[i] {
                TreeElement::Node(c) => Some((0, c)),
                TreeElement::Token(_) => None,
            }
        } else {
            proof {
                lemma_value_node_bounds(n.children@.skip(i as int + 1));
            }
            let l0: usize = elem_len(&n.children[i]);
            match find_value_from(n, i + 1) {
                Some(p) => Some((l0 + p.0, p.1)),
                None => None,
            }
        }
    }
}

/// Whether `n` is a binding of `name` (trimmed) to an attribute set.
fn check_target_binding(n: &TreeNode, name: &Vec<u8>) -> (r: bool)
    requires
        node_text(*n).len() <= usize::MAX,
    ensures
        r == is_target_binding(*n, name@),
{
    if !matches!(n.kind, NodeKind::Binding) {
        return false;
    }
    proof {
        assert(n.children@.skip(0) =~= n.children@);
    }
    match attrpath_from(n, 0) {
        None => false,
        Some(p) => {
            let t = trim_bytes(&p);
            if !bytes_eq(&t, name) {
                return false;
            }
            match find_value_from(n, 0) {
                None => false,
                Some(p) => matches!(p.1.kind, NodeKind::AttrSet),
            }
        },
    }
}

/// Preorder search below `n`, whose text starts at absolute offset `base`.
fn locate_node_at<'a>(n: &'a TreeNode, name: &Vec<u8>, base: usize) -> (r: Option<
    (usize, &'a TreeNode),
>)
    requires
        base + node_text(*n).len() <= usize::MAX,
    ensures
        match r {
            Some(p) => locate_in_node(*n, name@, base as int) == Some((p.0 as int, *p.1)),
            None => locate_in_node(*n, name@, base as int) is None,
        },
    decreases *n, n.children@.len() + 1,
{
    proof {
        assert(n.children@.skip(0) =~= n.children@);
    }
    if check_target_binding(n, name) {
        proof {
            lemma_value_node_bounds(n.children@);
        }
        match find_value_from(n, 0) {
            Some(p) => Some((base + p.0, p.1)),
            None => None,
        }
    } else {
        locate_elems_at(n, 0, name, base)
    }
}

/// Search across the children of `n` from `i` on; `base` is the absolute
/// offset where child `i` starts.
fn locate_elems_at<'a>(n: &'a TreeNode, i: usize, name: &Vec<u8>, base: usize) -> (r: Option<
    (usize, &'a TreeNode),
>)
    requires
        i <= n.children.len(),
        base + elems_text(n.children@.skip(i as int)).len() <= usize::MAX,
    ensures
        match r {
            Some(p) => locate_in_elems(n.children@.skip(i as int), name@, base as int) == Some(
                (p.0 as int, *p.1),
            ),
            None => locate_in_elems(n.children@.skip(i as int), name@, base as int) is None,
        },
    decreases *n, n.children@.len() - i,
{
    if i == n.children.len() {
        proof {
            assert(n.children@.skip(i as int) =~= Seq::<TreeElement>::empty());
        }
        None
    } else {
        proof {
            let s = n.children@.skip(i as int);
            assert(s[0] == n.children@[i as int]);
            assert(s.subrange(1, s.len() as int) =~= n.children@.skip(i as int + 1));
        }
        match &n.children[i] {
            TreeElement::Node(c) => {
                if let Some(p) = locate_node_at(c, name, base) {
                    return Some(p);
                }
                proof {
                    assert(locate_in_elem(n.children@[i as int], name@, base as int) is None);
                }
            },
            TreeElement::Token(_) => {
                proof {
                    assert(locate_in_elem(n.children@[i as int], name@, base as int) is None);
                }
            },
        }
        let l0: usize = elem_len(&n.children[i]);
        locate_elems_at(n, i + 1, name, base + l0)
    }
}

/// The Structural Locator: finds the first binding of `name` to an
/// attribute set anywhere below `root`, in preorder document order, and
/// returns the absolute byte offset of that attribute-set node together
/// with the node.
pub fn locate_target_set<'a>(root: &'a TreeNode, name: &Vec<u8>) -> (r: Option<
    (usize, &'a TreeNode),
>)
    requires
        node_text(*root).len() <= usize::MAX,
    ensures
        match r {
            Some(p) => locate_in_node(*root, name@, 0) == Some((p.0 as int, *p.1)),
            None => locate_in_node(*root, name@, 0) is None,
        },
{
    locate_node_at(root, name, 0)
}

} // verus!
