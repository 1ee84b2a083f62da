use vstd::prelude::*;

use crate::syntax::{NodeKind, TreeElement, TreeNode, TreeToken, node_text};

verus! {

/// An rnix tree node, opaque to the verifier. `rowan::SyntaxNode`'s own
/// declaration is out of reach here (its `Language` bound cannot be stated),
/// so the node is held behind this private wrapper instead; only the trusted
/// conversion below ever looks inside.
#[verifier::external_body]
struct RawNode {
    node: rnix::SyntaxNode,
}

/// What the parser returns on a given byte string. The result is a function
/// of the bytes alone: the grammar is fixed, so equal sources give equal
/// trees, in every process and on every machine.
pub uninterp spec fn parse_of(s: Seq<u8>) -> Option<TreeNode>;

/// Whether a byte string is well-formed UTF-8, as `core::str::from_utf8`
/// decides it.
pub uninterp spec fn utf8_ok(s: Seq<u8>) -> bool;

/// Relies on rowan's `SyntaxNode::kind`, `SyntaxNode::children_with_tokens`
/// and `SyntaxToken::text`: rebuilds an rnix tree as the crate's own tree,
/// keeping each token's bytes and the document order of all children, and
/// telling apart the three node kinds the editor reads.
#[verifier::external_body]
fn convert_node(raw: &RawNode) -> TreeNode {
    let kind = match raw.node.kind() {
        rnix::SyntaxKind::NODE_ATTRPATH_VALUE => NodeKind::Binding,
        rnix::SyntaxKind::NODE_ATTR_SET => NodeKind::AttrSet,
        rnix::SyntaxKind::NODE_ATTRPATH => NodeKind::Attrpath,
        _ => NodeKind::Other,
    };
    let mut children: Vec<TreeElement> = Vec::new();
    for child in raw.node.children_with_tokens() {
        children.push(match child {
            rnix::NodeOrToken::Node(n) => TreeElement::Node(convert_node(&RawNode { node: n })),
            rnix::NodeOrToken::Token(t) => TreeElement::Token(TreeToken { text: t.text().as_bytes().to_vec() }),
        });
    }
    TreeNode { kind, children }
}

/// Relies on `core::str::from_utf8`, which succeeds exactly on well-formed
/// UTF-8, and on `rnix::Root::parse`, rowan's lossless Nix parser: it never
/// fails, its tokens carry every byte of the source in document order, and
/// the same source always yields the same tree.
#[verifier::external_body]
pub fn parse_nix(src: &Vec<u8>) -> (r: Option<TreeNode>)
    ensures
        r == parse_of(src@),
        r is Some <==> utf8_ok(src@),
        r matches Some(root) ==> node_text(root) == src@,
{
    match core::str::from_utf8(src.as_slice()) {
        Ok(s) => Some(convert_node(&RawNode { node: rnix::Root::parse(s).syntax() })),
        Err(_) => None,
    }
}

} // verus!
