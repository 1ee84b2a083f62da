use vstd::prelude::*;

verus! {

/// The grammatical kinds the editor distinguishes. Every other kind of
/// node collapses into `Other`: the editor never looks inside those.
#[derive(Clone, Copy, PartialEq, Eq, Structural, Debug)]
pub enum NodeKind {
    /// A binding of an attribute path to a value expression.
    Binding,
    /// An attribute-set literal (braced collection of bindings).
    AttrSet,
    /// The attribute-path part of a binding.
    Attrpath,
    /// Any other grammatical construct.
    Other,
}

/// A terminal of the lossless tree: literal source bytes.
pub struct TreeToken {
    pub text: Vec<u8>,
}

/// A child of a node: either a nested node or a token.
pub enum TreeElement {
    Node(TreeNode),
    Token(TreeToken),
}

/// A non-terminal of the lossless tree. Its source text is exactly the
/// concatenation of its children's texts, in order; nothing is stored
/// beside the structure, so losslessness is a property of the text
/// functions below, not an invariant to maintain.
pub struct TreeNode {
    pub kind: NodeKind,
    pub children: Vec<TreeElement>,
}

/// The source text covered by a sequence of sibling elements.
pub open spec fn elems_text(es: Seq<TreeElement>) -> Seq<u8>
    decreases es, 1int,
{
    if es.len() == 0 {
        Seq::empty()
    } else {
        elem_text(es[0]) + elems_text(es.subrange(1, es.len() as int))
    }
}

/// The source text covered by one element.
pub open spec fn elem_text(e: TreeElement) -> Seq<u8>
    decreases e, 0int,
{
    match e {
        TreeElement::Token(t) => t.text@,
        TreeElement::Node(n) => elems_text(n.children@),
    }
}

/// The source text covered by a node.
pub open spec fn node_text(n: TreeNode) -> Seq<u8> {
    elems_text(n.children@)
}

/// The text of a sequence of siblings splits at any index.
pub proof fn lemma_elems_text_split(es: Seq<TreeElement>, k: int)
    requires
        0 <= k <= es.len(),
    ensures
        elems_text(es) == elems_text(es.take(k)) + elems_text(es.skip(k)),
    decreases k,
{
    if k == 0 {
        assert(es.take(0) =~= Seq::<TreeElement>::empty());
        assert(es.skip(0) =~= es);
        assert(elems_text(es) =~= Seq::<u8>::empty() + elems_text(es));
    } else {
        let rest = es.subrange(1, es.len() as int);
        lemma_elems_text_split(rest, k - 1);
        assert(es.take(k)[0] == es[0]);
        assert(es.take(k).subrange(1, k) =~= rest.take(k - 1));
        assert(es.skip(k) =~= rest.skip(k - 1));
        assert(elem_text(es[0]) + (elems_text(rest.take(k - 1)) + elems_text(rest.skip(k - 1)))
            =~= (elem_text(es[0]) + elems_text(rest.take(k - 1))) + elems_text(rest.skip(k - 1)));
    }
}

/// Byte length of the text covered by one element.
pub fn elem_len(e: &TreeElement) -> (r: usize)
    requires
        elem_text(*e).len() <= usize::MAX,
    ensures
        r == elem_text(*e).len(),
    decreases *e, 0int,
{
    match e {
        TreeElement::Token(t) => t.text.len(),
        TreeElement::Node(n) => {
            proof {
                assert(n.children@.skip(0) =~= n.children@);
            }
            node_len_from(n, 0)
        },
    }
}

/// Byte length of the text covered by the children of `n` from index `i` on.
pub fn node_len_from(n: &TreeNode, i: usize) -> (r: usize)
    requires
        i <= n.children.len(),
        elems_text(n.children@.skip(i as int)).len() <= usize::MAX,
    ensures
        r == elems_text(n.children@.skip(i as int)).len(),
    decreases *n, n.children@.len() - i,
{
    if i == n.children.len() {
        proof {
            assert(n.children@.skip(i as int) =~= Seq::<TreeElement>::empty());
        }
        0
    } else {
        proof {
            let s = n.children@.skip(i as int);
            assert(s[0] == n.children@[i as int]);
            assert(s.subrange(1, s.len() as int) =~= n.children@.skip(i as int + 1));
        }
        let l0: usize = elem_len(&n.children[i]);
        let rest: usize = node_len_from(n, i + 1);
        l0 + rest
    }
}

/// Appends the text covered by one element to `out`.
pub fn append_elem_text(e: &TreeElement, out: &mut Vec<u8>)
    ensures
        final(out)@ == old(out)@ + elem_text(*e),
    decreases *e, 0int,
{
    match e {
        TreeElement::Token(t) => {
            let mut j: usize = 0;
            while j < t.text.len()
                invariant
                    j <= t.text.len(),
                    out@ == old(out)@ + t.text@.take(j as int),
                decreases t.text.len() - j,
            {
                out.push(t.text[j]);
                proof {
                    assert(t.text@.take(j + 1 as int) =~= t.text@.take(j as int).push(
                        t.text@[j as int],
                    ));
                }
                j += 1;
            }
            proof {
                assert(t.text@.take(t.text.len() as int) =~= t.text@);
            }
        },
        TreeElement::Node(n) => {
            proof {
                assert(n.children@.skip(0) =~= n.children@);
            }
            append_node_text_from(n, 0, out);
        },
    }
}

/// Appends the text covered by the children of `n` from index `i` on.
pub fn append_node_text_from(n: &TreeNode, i: usize, out: &mut Vec<u8>)
    requires
        i <= n.children.len(),
    ensures
        final(out)@ == old(out)@ + elems_text(n.children@.skip(i as int)),
    decreases *n, n.children@.len() - i,
{
    if i == n.children.len() {
        proof {
            assert(n.children@.skip(i as int) =~= Seq::<TreeElement>::empty());
            assert(out@ =~= out@ + Seq::<u8>::empty());
        }
    } else {
        proof {
            let s = n.children@.skip(i as int);
            assert(s[0] == n.children@[i as int]);
            assert(s.subrange(1, s.len() as int) =~= n.children@.skip(i as int + 1));
        }
        append_elem_text(&n.children[i], out);
        append_node_text_from(n, i + 1, out);
        proof {
            assert(old(out)@ + elem_text(n.children@[i as int]) + elems_text(
                n.children@.skip(i as int + 1),
            ) =~= old(out)@ + elems_text(n.children@.skip(i as int)));
        }
    }
}

/// The text covered by a node, as a fresh byte vector.
pub fn node_text_vec(n: &TreeNode) -> (r: Vec<u8>)
    ensures
        r@ == node_text(*n),
{
    let mut out: Vec<u8> = Vec::new();
    proof {
        assert(n.children@.skip(0) =~= n.children@);
    }
    append_node_text_from(n, 0, &mut out);
    proof {
        assert(Seq::<u8>::empty() + node_text(*n) =~= node_text(*n));
    }
    out
}

} // verus!
