//! Parsing Java source with tree-sitter into a flat list of syntax nodes.
//!
//! The list is in preorder; each entry records the node's depth below the
//! root, from which `cst` rebuilds the tree.

use vstd::prelude::*;

verus! {

#[verifier::external_type_specification]
#[verifier::external_body]
pub struct ExTree(tree_sitter::Tree);

/// One syntax node as tree-sitter reports it.
#[derive(Clone, Debug)]
pub struct FlatNode {
    pub kind: String,
    pub start_byte: usize,
    pub end_byte: usize,
    pub start_row: usize,
    pub end_row: usize,
    pub depth: u32,
    pub is_named: bool,
    pub is_extra: bool,
    pub field_name: Option<String>,
}

/// The plain values of a `FlatNode`: kind, start byte, end byte, start row,
/// end row, depth, named, extra, field name.
pub type FlatNodeView = (Seq<char>, usize, usize, usize, usize, u32, bool, bool, Option<Seq<char>>);

/// The plain values of an optional string.
pub open spec fn opt_view(s: Option<String>) -> Option<Seq<char>> {
    match s {
        Some(v) => Some(v@),
        None => None,
    }
}

impl FlatNode {
    pub open spec fn view_tuple(&self) -> FlatNodeView {
        (
            self.kind@,
            self.start_byte,
            self.end_byte,
            self.start_row,
            self.end_row,
            self.depth,
            self.is_named,
            self.is_extra,
            opt_view(self.field_name),
        )
    }
}

/// The syntax nodes, in preorder, that tree-sitter's Java grammar gives for `source`.
pub uninterp spec fn java_syntax_nodes(source: Seq<char>) -> Seq<FlatNodeView>;

/// A tree-sitter syntax tree, with the text it was parsed from.
pub struct JavaSyntaxTree {
    tree: tree_sitter::Tree,
    source: Ghost<Seq<char>>,
}

impl JavaSyntaxTree {
    pub closed spec fn source(&self) -> Seq<char> {
        self.source@
    }
}

/// `tree_sitter::Parser::set_language` with the Java grammar of
/// `tree_sitter_java`, then `tree_sitter::Parser::parse`. Claimed: a tree is
/// returned, and it is the one parsed from `source`. `set_language` fails only
/// for a grammar of an ABI version outside the parser's range or without a lex
/// function; the Java grammar brought here has version 14 (the parser accepts
/// 13 to 15) and a lex function. `parse` returns `None` only when no language
/// is set, as its documentation says (no timeout or cancellation is used).
#[verifier::external_body]
pub(crate) fn parse_java_syntax(source: &str) -> (r: Option<JavaSyntaxTree>)
    ensures
        r.is_some(),
        r.is_some() ==> r.unwrap().source() == source@,
{
    let mut parser = tree_sitter::Parser::new();
    let language: tree_sitter::Language = tree_sitter_java::LANGUAGE.into();
    if parser.set_language(&language).is_err() {
        return None;
    }
    let tree = parser.parse(source, None)?;
    Some(JavaSyntaxTree { tree, source: Ghost(source@) })
}

/// `tree_sitter::Node::descendant_count` of the root: the number of nodes of
/// the tree. Claimed: it is the length of the preorder node list of the source.
#[verifier::external_body]
pub(crate) fn syntax_node_count(t: &JavaSyntaxTree) -> (r: usize)
    ensures
        r == java_syntax_nodes(t.source()).len(),
{
    t.tree.root_node().descendant_count()
}

/// `tree_sitter::TreeCursor::goto_descendant` to the `index`-th node in
/// preorder, and that node's kind, byte range, rows, depth, named and extra
/// flags and field name. Claimed: the result is entry `index` of the preorder
/// node list of the source.
#[verifier::external_body]
pub(crate) fn syntax_node_at(t: &JavaSyntaxTree, index: usize) -> (r: FlatNode)
    requires
        index < java_syntax_nodes(t.source()).len(),
    ensures
        r.view_tuple() == java_syntax_nodes(t.source())[index as int],
{
    let mut c = t.tree.walk();
    c.goto_descendant(index);
    let n = c.node();
    FlatNode {
        kind: n.kind().to_string(),
        start_byte: n.start_byte(),
        end_byte: n.end_byte(),
        start_row: n.start_position().row,
        end_row: n.end_position().row,
        depth: c.depth(),
        is_named: n.is_named(),
        is_extra: n.is_extra(),
        field_name: c.field_name().map(|f| f.to_string()),
    }
}

/// The preorder node list of `source`; the Java grammar always loads, so
/// there is always one.
pub fn java_flat_nodes(source: &str) -> (r: Option<Vec<FlatNode>>)
    ensures
        r.is_some(),
        r.is_some() ==> r.unwrap()@.len() == java_syntax_nodes(source@).len(),
        r.is_some() ==> forall|i: int| 0 <= i < r.unwrap()@.len()
            ==> (#[trigger] r.unwrap()@[i]).view_tuple() == java_syntax_nodes(source@)[i],
{
    let t = parse_java_syntax(source)?;
    let n = syntax_node_count(&t);
    let mut out: Vec<FlatNode> = Vec::new();
    let mut i: usize = 0;
    while i < n
        invariant
            0 <= i <= n,
            n == java_syntax_nodes(t.source()).len(),
            t.source() == source@,
            out@.len() == i,
            forall|k: int| 0 <= k < i ==> (#[trigger] out@[k]).view_tuple() == java_syntax_nodes(source@)[k],
        decreases n - i,
    {
        let node = syntax_node_at(&t, i);
        out.push(node);
        i = i + 1;
    }
    Some(out)
}

} // verus!
