//! Syntax trees as plain data.

use vstd::prelude::*;

use crate::outside::{
    grammar_fault,
    node_children,
    node_end,
    node_end_byte,
    node_field,
    node_kind,
    node_model,
    node_named,
    node_start,
    node_start_byte,
    syntax_of,
    tree_parse,
    tree_root,
    Grammar,
    ParseFault,
};

verus! {

/// A node of a syntax tree. Rows, columns and bytes are counted from zero; the ends
/// are exclusive.
#[derive(Debug)]
pub struct SyntaxNode {
    pub kind: String,
    pub named: bool,
    pub start_byte: usize,
    pub end_byte: usize,
    pub start_row: usize,
    pub start_col: usize,
    pub end_row: usize,
    pub end_col: usize,
    /// The bytes of the node's name, where it has one.
    pub name: Option<(usize, usize)>,
    pub children: Vec<SyntaxNode>,
}

/// The model of [`SyntaxNode`].
pub struct SyntaxModel {
    pub kind: Seq<char>,
    pub named: bool,
    pub start_byte: usize,
    pub end_byte: usize,
    pub start_row: usize,
    pub start_col: usize,
    pub end_row: usize,
    pub end_col: usize,
    pub name: Option<(usize, usize)>,
    pub children: Seq<SyntaxModel>,
}

/// What a parsed node holds: its kind, its extent, the extent in bytes of the child
/// in each of its fields, and the nodes below. The fields are a total map: it holds
/// nothing at a field without a child.
pub struct NodeModel {
    pub kind: Seq<char>,
    pub named: bool,
    pub start_byte: usize,
    pub end_byte: usize,
    pub start_row: usize,
    pub start_col: usize,
    pub end_row: usize,
    pub end_col: usize,
    pub fields: Map<Seq<char>, Option<(usize, usize)>>,
    pub children: Seq<NodeModel>,
}

/// A parsed node as plain data. Its name is the child in the field `name`.
pub open spec fn plain_node(n: NodeModel) -> SyntaxModel
    decreases n,
{
    SyntaxModel {
        kind: n.kind,
        named: n.named,
        start_byte: n.start_byte,
        end_byte: n.end_byte,
        start_row: n.start_row,
        start_col: n.start_col,
        end_row: n.end_row,
        end_col: n.end_col,
        name: n.fields["name"@],
        children: Seq::new(
            n.children.len(),
            |i: int|
                if 0 <= i < n.children.len() {
                    plain_node(n.children[i])
                } else {
                    arbitrary()
                },
        ),
    }
}

/// What a node stands for.
pub open spec fn syntax_model(n: SyntaxNode) -> SyntaxModel
    decreases n,
{
    SyntaxModel {
        kind: n.kind@,
        named: n.named,
        start_byte: n.start_byte,
        end_byte: n.end_byte,
        start_row: n.start_row,
        start_col: n.start_col,
        end_row: n.end_row,
        end_col: n.end_col,
        name: n.name,
        children: Seq::new(
            n.children@.len(),
            |i: int|
                if 0 <= i < n.children@.len() {
                    syntax_model(n.children@[i])
                } else {
                    arbitrary()
                },
        ),
    }
}

impl View for SyntaxNode {
    type V = SyntaxModel;

    open spec fn view(&self) -> SyntaxModel {
        syntax_model(*self)
    }
}

/// Copies a node, with everything below, into plain data.
fn read_node(node: &tree_sitter::Node<'_>) -> (r: SyntaxNode)
    ensures
        r@ == plain_node(node_model(*node)),
    decreases node_model(*node),
{
    let below = node_children(node);
    let ghost model = node_model(*node);
    let mut children: Vec<SyntaxNode> = Vec::new();
    let mut i: usize = 0;
    while i < below.len()
        invariant
            i <= below@.len(),
            model == node_model(*node),
            below@.len() == model.children.len(),
            forall|k: int|
                0 <= k < below@.len() ==> node_model(#[trigger] below@[k]) == model.children[k],
            children@.len() == i,
            forall|k: int| 0 <= k < i ==> (#[trigger] children@[k])@ == plain_node(model.children[k]),
        decreases below@.len() - i,
    {
        assert(decreases_to!(model => model.children));
        assert(decreases_to!(model.children => model.children[i as int]));
        children.push(read_node(&below[i]));
        i += 1;
    }
    let (start_row, start_col) = node_start(node);
    let (end_row, end_col) = node_end(node);
    let r = SyntaxNode {
        kind: node_kind(node),
        named: node_named(node),
        start_byte: node_start_byte(node),
        end_byte: node_end_byte(node),
        start_row,
        start_col,
        end_row,
        end_col,
        name: node_field(node, "name"),
        children,
    };
    assert(r@.children =~= plain_node(model).children);
    r
}

/// What parsing a text gives: the tree, or why there is none.
pub open spec fn parsed_tree(grammar: Grammar, text: Seq<char>) -> Result<SyntaxModel, Option<Seq<char>>> {
    match grammar_fault(grammar) {
        Some(e) => Err(Some(e)),
        None => match syntax_of(grammar, text) {
            Some(t) => Ok(plain_node(t)),
            None => Err(None),
        },
    }
}

/// Parses a text with a grammar.
pub fn parse_source(grammar: Grammar, text: &str) -> (r: Result<SyntaxNode, ParseFault>)
    ensures
        match r {
            Ok(n) => parsed_tree(grammar, text@) == Ok::<SyntaxModel, Option<Seq<char>>>(n@),
            Err(ParseFault::Grammar(e)) => parsed_tree(grammar, text@) == Err::<
                SyntaxModel,
                Option<Seq<char>>,
            >(Some(e@)),
            Err(ParseFault::NoTree) => parsed_tree(grammar, text@) == Err::<
                SyntaxModel,
                Option<Seq<char>>,
            >(None),
        },
{
    match tree_parse(grammar, text) {
        Ok(tree) => {
            let root = tree_root(&tree);
            Ok(read_node(&root))
        },
        Err(e) => Err(e),
    }
}

} // verus!
