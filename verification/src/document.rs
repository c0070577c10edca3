use vstd::prelude::*;
use vstd::std_specs::cmp::PartialEqSpecImpl;
use crate::parser::parsed_text;
use crate::protocol::Diagnostic;
use crate::diagnostics::{document_diagnostics, published_diagnostics};
use crate::protocol::{handed_out, lines_ordered, ranges_ordered, PositionEncoding};
use crate::syntax::{
    diagnose_syntax, error_captures, error_diagnostics, error_nodes, missing_diagnostics,
    missing_nodes, syntax_diagnostics, tree_nodes, tree_sexp, tree_shape,
};
use vstd::utf8::encode_utf8;

verus! {

/// Calls `Clone::clone` of `tree_sitter::Tree`: the copy is the same tree.
#[verifier::external_body]
fn clone_tree(tree: &tree_sitter::Tree) -> (r: tree_sitter::Tree)
    ensures
        r == *tree,
{
    tree.clone()
}

/// A parsed document: the syntax tree of one text. Two parsed documents are
/// equal where their trees have the same shape, whatever text they came
/// from.
#[derive(Debug)]
pub struct BladeDocument {
    pub tree: tree_sitter::Tree,
}

impl BladeDocument {
    /// The shape of the tree, written as an S-expression of node kinds.
    pub open spec fn shape(&self) -> Seq<char> {
        tree_shape(self.tree)
    }

    /// The text that the document was parsed from.
    pub open spec fn text(&self) -> Seq<char> {
        parsed_text(self.tree)
    }

    /// The shape of the tree, written as an S-expression of node kinds.
    pub fn to_sexp(&self) -> (r: String)
        ensures
            r@ == self.shape(),
    {
        tree_sexp(&self.tree)
    }

    /// The syntax errors of the document, which was parsed from `contents`:
    /// an error diagnostic for every node that the error query captures, and
    /// behind them one for every missing node, named by its kind. The ranges
    /// are in `encoding`, the encoding of the session. Where the error query
    /// cannot be built, nothing is found.
    pub fn syntax_errors(&self, contents: &str, encoding: PositionEncoding) -> (r: Vec<
        Diagnostic,
    >)
        ensures
            r.deep_view() == published_diagnostics(*self, contents@, encoding),
            lines_ordered(r.deep_view()),
            encoding is Utf8 ==> ranges_ordered(r.deep_view()),
    {
        document_diagnostics(self, contents, encoding)
    }

    /// The nodes that the error query captures in the document: one error
    /// diagnostic for each, at the rows and byte columns of the node.
    /// `None` where the query cannot be built.
    pub fn error_nodes(&self, contents: &str) -> (r: Option<Vec<Diagnostic>>)
        ensures
            handed_out(r) == error_diagnostics(error_captures(self.tree, contents@)),
            r matches Some(found) ==> ranges_ordered(found.deep_view()),
    {
        error_nodes(&self.tree, contents)
    }

    /// The nodes that the parser put in where the text lacks what the grammar
    /// asks for, in document order, each named by its kind.
    pub fn missing_nodes(&self) -> (r: Vec<Diagnostic>)
        ensures
            r.deep_view() == missing_diagnostics(tree_nodes(self.tree)),
            ranges_ordered(r.deep_view()),
    {
        missing_nodes(&self.tree)
    }

    /// Every node of the document that is missing or in error, in document
    /// order, each with a message of its own.
    pub fn diagnose(&self, contents: &str) -> (r: Vec<Diagnostic>)
        ensures
            r.deep_view() == syntax_diagnostics(tree_nodes(self.tree), encode_utf8(contents@)),
    {
        diagnose_syntax(&self.tree, contents)
    }
}

impl Clone for BladeDocument {
    fn clone(&self) -> (r: Self)
        ensures
            r == *self,
    {
        BladeDocument { tree: clone_tree(&self.tree) }
    }
}

impl PartialEq for BladeDocument {
    fn eq(&self, other: &Self) -> (r: bool) {
        tree_sexp(&self.tree) == tree_sexp(&other.tree)
    }
}

impl PartialEqSpecImpl for BladeDocument {
    open spec fn obeys_eq_spec() -> bool {
        true
    }

    open spec fn eq_spec(&self, other: &Self) -> bool {
        tree_shape(self.tree) == tree_shape(other.tree)
    }
}

impl Eq for BladeDocument {

}

} // verus!
