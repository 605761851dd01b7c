//! The syntax-tree adapter.
//!
//! The pipeline needs seven operations from the Nix parser: parse a file,
//! find the element covering a byte range, read an element's kind, walk
//! ancestors, walk previous siblings, read a token's text, and read a
//! lambda's parts. Each is a thin trusted wrapper around rnix/rowan; every
//! decision taken on what they hand back lives in verified code.
//!
//! rnix's node and token types are generic over rowan's `Language` trait,
//! which Verus cannot take in a type declaration, so the two handle types
//! below hold them opaquely instead.

use vstd::prelude::*;

verus! {

use rowan::ast::AstNode;

/// An opaque handle to one node of a parsed syntax tree. Verus sees nothing
/// inside it; every operation goes through the trusted wrappers below.
#[verifier::external_body]
pub struct NixNode {
    inner: rnix::SyntaxNode,
}

/// An opaque handle to one element (node or token) of a parsed syntax tree.
#[verifier::external_body]
pub struct NixElement {
    inner: rnix::SyntaxElement,
}

/// What the backward comment walk sees in one tree element.
pub enum ElementClass {
    Comment { text: String },
    Whitespace { text: String },
    Other,
}

/// A token child of a parameter node, classified for rendering.
pub enum ParamChild {
    Comment { text: String },
    Ellipsis { text: String },
    Question { text: String },
    LBrace { text: String },
    RBrace { text: String },
    Other,
}

/// A node's distance from the tree root: a parent is nearer the root than
/// its child. Only stated of the wrappers below, to bound the walks.
pub uninterp spec fn node_depth(n: NixNode) -> nat;

/// An element's distance from the tree root.
pub uninterp spec fn element_depth(el: NixElement) -> nat;

/// An element's position among its siblings: a previous sibling stands
/// earlier.
pub uninterp spec fn element_pos(el: NixElement) -> nat;

/// The size of the subtree under a node: a child's subtree is smaller.
pub uninterp spec fn node_size(n: NixNode) -> nat;

/// Relies on rnix's Root::parse, Parse::ok and Root::expr: parses a source
/// text and hands back the syntax node of its top-level expression, or
/// nothing when the text does not parse cleanly or holds no expression.
#[verifier::external_body]
pub fn parse_root_expr(source: &str) -> (r: Option<NixNode>) {
    match rnix::Root::parse(source).ok() {
        Ok(root) => root.expr().map(|e| NixNode { inner: e.syntax().clone() }),
        Err(_) => None,
    }
}

/// Relies on rowan's SyntaxNode::text_range and covering_element: the
/// deepest element covering the byte range `[pos, pos + len)`, or nothing
/// when that range does not lie inside the node's own range, where
/// covering_element would panic.
#[verifier::external_body]
pub fn covering_element_within(root: &NixNode, pos: u32, len: u32) -> (r: Option<NixElement>)
    requires
        pos + len <= u32::MAX,
{
    let range = rnix::TextRange::at(rnix::TextSize::from(pos), rnix::TextSize::from(len));
    if root.inner.text_range().contains_range(range) {
        Some(NixElement { inner: root.inner.covering_element(range) })
    } else {
        None
    }
}

/// Relies on rowan's SyntaxToken::parent: the node an ancestor walk starts
/// from, which is a node element itself, or a token element's parent.
#[verifier::external_body]
pub fn element_start_node(el: &NixElement) -> (r: Option<NixNode>) {
    match &el.inner {
        rowan::NodeOrToken::Node(n) => Some(NixNode { inner: n.clone() }),
        rowan::NodeOrToken::Token(t) => t.parent().map(|p| NixNode { inner: p }),
    }
}

/// Relies on rowan's SyntaxNode::parent; the parent lies one step nearer
/// the root.
#[verifier::external_body]
pub fn node_parent(n: &NixNode) -> (r: Option<NixNode>)
    ensures
        r matches Some(p) ==> node_depth(p) < node_depth(*n),
{
    n.inner.parent().map(|p| NixNode { inner: p })
}

/// Relies on rowan's NodeOrToken: the node viewed as an element, at the
/// same place in the tree.
#[verifier::external_body]
pub fn node_to_element(n: &NixNode) -> (r: NixElement)
    ensures
        element_depth(r) == node_depth(*n),
{
    NixElement { inner: rowan::NodeOrToken::Node(n.inner.clone()) }
}

/// Relies on rowan's SyntaxNode::kind: whether the node is a function
/// literal.
#[verifier::external_body]
pub fn node_is_lambda(n: &NixNode) -> (r: bool) {
    n.inner.kind() == rnix::SyntaxKind::NODE_LAMBDA
}

/// Relies on rowan's SyntaxNode::kind: whether the node is a `name = value;`
/// binding.
#[verifier::external_body]
pub fn node_is_attrpath_value(n: &NixNode) -> (r: bool) {
    n.inner.kind() == rnix::SyntaxKind::NODE_ATTRPATH_VALUE
}

/// Relies on rnix's AttrpathValue::cast and attrpath, and on the Display
/// impl of rnix nodes, which prints a node's source text: the text of the
/// binding's attribute path, or nothing when the node is not a well-formed
/// binding.
#[verifier::external_body]
pub fn attrpath_value_name(n: &NixNode) -> (r: Option<String>) {
    match rnix::ast::AttrpathValue::cast(n.inner.clone()) {
        Some(b) => b.attrpath().map(|p| p.to_string()),
        None => None,
    }
}

/// Relies on rowan's prev_sibling_or_token on an element: the sibling
/// shares the element's parent and stands earlier among the siblings.
#[verifier::external_body]
pub fn element_prev(el: &NixElement) -> (r: Option<NixElement>)
    ensures
        r matches Some(p) ==> element_depth(p) == element_depth(*el) && element_pos(p)
            < element_pos(*el),
{
    el.inner.prev_sibling_or_token().map(|e| NixElement { inner: e })
}

/// Relies on rowan's parent on an element; the parent lies one step nearer
/// the root.
#[verifier::external_body]
pub fn element_parent(el: &NixElement) -> (r: Option<NixNode>)
    ensures
        r matches Some(p) ==> node_depth(p) < element_depth(*el),
{
    el.inner.parent().map(|p| NixNode { inner: p })
}

/// Relies on rowan's SyntaxToken::kind and text: a comment or whitespace
/// token yields its kind and text; every other element is opaque to the
/// comment walk.
#[verifier::external_body]
pub fn classify_element(el: &NixElement) -> (r: ElementClass) {
    match &el.inner {
        rowan::NodeOrToken::Token(t) => match t.kind() {
            rnix::SyntaxKind::TOKEN_COMMENT => ElementClass::Comment {
                text: t.text().to_string(),
            },
            rnix::SyntaxKind::TOKEN_WHITESPACE => ElementClass::Whitespace {
                text: t.text().to_string(),
            },
            _ => ElementClass::Other,
        },
        rowan::NodeOrToken::Node(_) => ElementClass::Other,
    }
}

/// Relies on rnix's Lambda::cast and Lambda::param: the syntax node of the
/// lambda's parameter, or nothing when the node is no well-formed lambda.
#[verifier::external_body]
pub fn lambda_param_node(n: &NixNode) -> (r: Option<NixNode>) {
    match rnix::ast::Lambda::cast(n.inner.clone()) {
        Some(l) => l.param().map(|p| NixNode { inner: p.syntax().clone() }),
        None => None,
    }
}

/// Relies on rnix's Lambda::cast and Lambda::body: the syntax node of the
/// lambda's body expression, or nothing when the node is no well-formed
/// lambda. The body is a child of the lambda, so its subtree is smaller.
#[verifier::external_body]
pub fn lambda_body_node(n: &NixNode) -> (r: Option<NixNode>)
    ensures
        r matches Some(b) ==> node_size(b) < node_size(*n),
{
    match rnix::ast::Lambda::cast(n.inner.clone()) {
        Some(l) => l.body().map(|b| NixNode { inner: b.syntax().clone() }),
        None => None,
    }
}

/// Relies on rowan's SyntaxNode::children_with_tokens: the node's children,
/// in source order, gathered into a vector.
#[verifier::external_body]
pub fn node_children(n: &NixNode) -> (r: Vec<NixElement>) {
    n.inner.children_with_tokens().map(|e| NixElement { inner: e }).collect()
}

/// Relies on rowan's SyntaxText::to_string (via SyntaxNode::text) and
/// SyntaxNode::kind: for a node child of a parameter, its source text and
/// whether it is a pattern entry.
#[verifier::external_body]
pub fn param_child_node_info(el: &NixElement) -> (r: Option<(String, bool)>) {
    match &el.inner {
        rowan::NodeOrToken::Node(node) => Some(
            (node.text().to_string(), node.kind() == rnix::SyntaxKind::NODE_PAT_ENTRY),
        ),
        rowan::NodeOrToken::Token(_) => None,
    }
}

/// Relies on rowan's SyntaxToken::kind and text: a token child of a
/// parameter classified by kind, with its source text.
#[verifier::external_body]
pub fn param_child_token_info(el: &NixElement) -> (r: ParamChild) {
    let t = match &el.inner {
        rowan::NodeOrToken::Token(t) => t,
        rowan::NodeOrToken::Node(_) => {
            return ParamChild::Other;
        },
    };
    let text = t.text().to_string();
    match t.kind() {
        rnix::SyntaxKind::TOKEN_COMMENT => ParamChild::Comment { text },
        rnix::SyntaxKind::TOKEN_ELLIPSIS => ParamChild::Ellipsis { text },
        rnix::SyntaxKind::TOKEN_QUESTION => ParamChild::Question { text },
        rnix::SyntaxKind::TOKEN_L_BRACE => ParamChild::LBrace { text },
        rnix::SyntaxKind::TOKEN_R_BRACE => ParamChild::RBrace { text },
        _ => ParamChild::Other,
    }
}

} // verus!
