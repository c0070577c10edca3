use vstd::prelude::*;
use vstd::string::StringExecFns;
use vstd::utf8::{decode_utf8, encode_utf8, valid_utf8};
use crate::protocol::{
    handed_out, ranges_ordered, Diagnostic, DiagnosticSeverity, DiagnosticView, Position, Range,
};
use crate::text::lemma_deep_view_push;

verus! {

#[verifier::external_type_specification]
#[verifier::external_body]
pub struct ExTree(tree_sitter::Tree);

#[verifier::external_type_specification]
#[verifier::external_body]
pub struct ExQueryError(tree_sitter::QueryError);

/// The rows and byte columns between which a node of a syntax tree lies.
#[derive(Clone, Copy, Debug, PartialEq, Eq, Hash, Structural)]
pub struct NodeSpan {
    pub start_row: u32,
    pub start_column: u32,
    pub end_row: u32,
    pub end_column: u32,
}

impl NodeSpan {
    /// Whether the span starts no later than it ends.
    pub open spec fn ordered(self) -> bool {
        self.start_row < self.end_row || (self.start_row == self.end_row && self.start_column
            <= self.end_column)
    }
}

/// Whether every span starts no later than it ends.
pub open spec fn all_ordered(spans: Seq<NodeSpan>) -> bool {
    forall|i: int| 0 <= i < spans.len() ==> (#[trigger] spans[i]).ordered()
}

/// Whether every span of every match starts no later than it ends.
pub open spec fn groups_ordered(groups: Seq<Seq<NodeSpan>>) -> bool {
    forall|i: int| 0 <= i < groups.len() ==> all_ordered(#[trigger] groups[i])
}

/// One node of a syntax tree, as plain values.
#[derive(Clone, Debug)]
pub struct SyntaxNode {
    pub kind: String,
    pub span: NodeSpan,
    pub start_byte: usize,
    pub end_byte: usize,
    pub is_error: bool,
    pub is_missing: bool,
    pub child_count: usize,
}

/// What a [`SyntaxNode`] is in contracts.
pub struct SyntaxNodeView {
    pub kind: Seq<char>,
    pub span: NodeSpan,
    pub start_byte: usize,
    pub end_byte: usize,
    pub is_error: bool,
    pub is_missing: bool,
    pub child_count: usize,
}

impl View for SyntaxNode {
    type V = SyntaxNodeView;

    open spec fn view(&self) -> SyntaxNodeView {
        SyntaxNodeView {
            kind: self.kind@,
            span: self.span,
            start_byte: self.start_byte,
            end_byte: self.end_byte,
            is_error: self.is_error,
            is_missing: self.is_missing,
            child_count: self.child_count,
        }
    }
}

/// The nodes of a syntax tree in document order: each node before its
/// children, the children in their order.
pub uninterp spec fn tree_nodes(tree: tree_sitter::Tree) -> Seq<SyntaxNodeView>;

/// The shape of a syntax tree, written as an S-expression of node kinds.
pub uninterp spec fn tree_shape(tree: tree_sitter::Tree) -> Seq<char>;

/// What a query with the pattern `pattern` captures in a syntax tree: for
/// each match, in the order of the matches, the spans of the nodes that it
/// captures. `None` where no query can be built from the pattern for the
/// language of the tree.
pub uninterp spec fn query_captures(tree: tree_sitter::Tree, pattern: Seq<char>, text: Seq<char>)
    -> Option<Seq<Seq<NodeSpan>>>;

/// The pattern that matches the error nodes of a tree.
pub const ERROR_QUERY: &'static str = "(ERROR) @error";

/// The captures of all matches, one match behind the other.
pub open spec fn flat(groups: Seq<Seq<NodeSpan>>) -> Seq<NodeSpan>
    decreases groups.len(),
{
    if groups.len() == 0 {
        Seq::empty()
    } else {
        flat(groups.drop_last()) + groups.last()
    }
}

/// The captures of each match, as they are in contracts.
pub open spec fn groups_of(found: Seq<Vec<NodeSpan>>) -> Seq<Seq<NodeSpan>> {
    Seq::new(found.len(), |i: int| found[i]@)
}

/// The nodes of a syntax tree that the error query captures, in the order of
/// its matches; `None` where the query cannot be built for the tree's
/// language.
pub open spec fn error_captures(tree: tree_sitter::Tree, text: Seq<char>) -> Option<
    Seq<NodeSpan>,
> {
    match query_captures(tree, ERROR_QUERY@, text) {
        Some(groups) => Some(flat(groups)),
        None => None,
    }
}

/// Calls `tree_sitter::Node::descendant_count` on the root of the tree: the
/// number of its nodes, the root included.
#[verifier::external_body]
pub(crate) fn node_count(tree: &tree_sitter::Tree) -> (r: usize)
    ensures
        r == tree_nodes(*tree).len(),
{
    tree.root_node().descendant_count()
}

/// Calls `tree_sitter::TreeCursor::goto_descendant` from the root of the
/// tree and hands out the node found there as plain values. A node ends at
/// its start moved on by its extent, so no earlier than it starts.
#[verifier::external_body]
pub(crate) fn node_at(tree: &tree_sitter::Tree, at: usize) -> (r: SyntaxNode)
    requires
        at < tree_nodes(*tree).len(),
    ensures
        r@ == tree_nodes(*tree)[at as int],
        r@.span.ordered(),
{
    let mut cursor = tree.walk();
    cursor.goto_descendant(at);
    let node = cursor.node();
    let (start, end) = (node.start_position(), node.end_position());
    let (start_row, start_column) = (start.row as u32, start.column as u32);
    let (end_row, end_column) = (end.row as u32, end.column as u32);
    SyntaxNode {
        kind: node.kind().to_string(),
        span: NodeSpan { start_row, start_column, end_row, end_column },
        start_byte: node.start_byte(),
        end_byte: node.end_byte(),
        is_error: node.is_error(),
        is_missing: node.is_missing(),
        child_count: node.child_count(),
    }
}

/// Calls `tree_sitter::Node::utf8_text` on the node at `at`: the bytes of
/// `source` that the node covers, read as UTF-8, and `None` where they are
/// no UTF-8 text. The call fails where the node reaches behind the end of
/// `source`, which the precondition leaves out.
#[verifier::external_body]
fn node_text(tree: &tree_sitter::Tree, at: usize, source: &str) -> (r: Option<String>)
    requires
        at < tree_nodes(*tree).len(),
        tree_nodes(*tree)[at as int].start_byte <= tree_nodes(*tree)[at as int].end_byte,
        tree_nodes(*tree)[at as int].end_byte <= encode_utf8(source@).len(),
    ensures
        r matches Some(text) ==> Some(text@) == covered_text(
            tree_nodes(*tree)[at as int],
            encode_utf8(source@),
        ),
        r is None ==> covered_text(tree_nodes(*tree)[at as int], encode_utf8(source@)) is None,
{
    let mut cursor = tree.walk();
    cursor.goto_descendant(at);
    cursor.node().utf8_text(source.as_bytes()).ok().map(str::to_owned)
}

/// Calls `tree_sitter::Node::to_sexp` on the root of the tree.
#[verifier::external_body]
pub(crate) fn tree_sexp(tree: &tree_sitter::Tree) -> (r: String)
    ensures
        r@ == tree_shape(*tree),
{
    tree.root_node().to_sexp()
}

/// Builds a query from `pattern` with `tree_sitter::Query::new` for the
/// language of the tree, runs it over the whole tree with
/// `tree_sitter::QueryCursor::matches`, and hands out, match by match, the
/// spans of the captured nodes. A node ends at its start moved on by its
/// extent, so no earlier than it starts. The error of a query that cannot
/// be built is handed on. The pattern is the error pattern, which holds no
/// predicate: a predicate would make the run read `text` at the bytes of
/// each captured node, and fail where the text is shorter than the tree.
#[verifier::external_body]
fn run_query(tree: &tree_sitter::Tree, pattern: &str, text: &str) -> (r: Result<
    Vec<Vec<NodeSpan>>,
    tree_sitter::QueryError,
>)
    requires
        pattern@ == ERROR_QUERY@,
    ensures
        r matches Ok(found) ==> query_captures(*tree, pattern@, text@) == Some(groups_of(found@)),
        r matches Ok(found) ==> groups_ordered(groups_of(found@)),
        r is Err ==> query_captures(*tree, pattern@, text@) is None,
{
    let query = tree_sitter::Query::new(&tree.language(), pattern)?;
    let mut cursor = tree_sitter::QueryCursor::new();
    let mut matches = cursor.matches(&query, tree.root_node(), text.as_bytes());
    let mut found = Vec::new();
    while let Some(one) = tree_sitter::StreamingIterator::next(&mut matches) {
        found.push(one.captures.iter().map(|c| {
            let (s, e) = (c.node.start_position(), c.node.end_position());
            let (start_row, start_column) = (s.row as u32, s.column as u32);
            NodeSpan { start_row, start_column, end_row: e.row as u32, end_column: e.column as u32 }
        }).collect());
    }
    Ok(found)
}

/// Where the spans of every match are ordered, so are they all in one row.
pub proof fn lemma_flat_ordered(groups: Seq<Seq<NodeSpan>>)
    requires
        groups_ordered(groups),
    ensures
        all_ordered(flat(groups)),
    decreases groups.len(),
{
    if groups.len() > 0 {
        let head = groups.drop_last();
        assert forall|i: int| 0 <= i < head.len() implies all_ordered(#[trigger] head[i]) by {
            assert(head[i] == groups[i]);
        }
        lemma_flat_ordered(head);
        assert(all_ordered(groups.last())) by {
            assert(groups.last() == groups[groups.len() - 1]);
        }
    }
}

/// Puts the captures of all matches in one row, one match behind the other.
pub fn flatten_captures(found: &Vec<Vec<NodeSpan>>) -> (r: Vec<NodeSpan>)
    ensures
        r@ == flat(groups_of(found@)),
{
    let ghost groups = groups_of(found@);
    let mut spans: Vec<NodeSpan> = Vec::new();
    let mut i: usize = 0;
    assert(groups.subrange(0, 0).len() == 0);
    while i < found.len()
        invariant
            i <= found.len(),
            groups == groups_of(found@),
            spans@ == flat(groups.subrange(0, i as int)),
        decreases found.len() - i,
    {
        let group = &found[i];
        let ghost before = spans@;
        let mut j: usize = 0;
        while j < group.len()
            invariant
                j <= group.len(),
                spans@ == before + group@.subrange(0, j as int),
            decreases group.len() - j,
        {
            spans.push(group[j]);
            j += 1;
            assert(spans@ =~= before + group@.subrange(0, j as int));
        }
        proof {
            let upto = groups.subrange(0, i + 1);
            assert(upto.drop_last() == groups.subrange(0, i as int));
            assert(upto.last() == group@);
            assert(group@.subrange(0, group.len() as int) == group@);
        }
        i += 1;
    }
    assert(groups.subrange(0, found.len() as int) == groups);
    spans
}

/// The text that a node covers in `source`: the bytes between its two byte
/// offsets, where they lie inside `source` and are UTF-8 text.
pub open spec fn covered_text(node: SyntaxNodeView, source: Seq<u8>) -> Option<Seq<char>> {
    if node.start_byte <= node.end_byte <= source.len() && valid_utf8(
        source.subrange(node.start_byte as int, node.end_byte as int),
    ) {
        Some(decode_utf8(source.subrange(node.start_byte as int, node.end_byte as int)))
    } else {
        None
    }
}

/// The range in a document that a node span covers, columns counted in
/// bytes.
pub open spec fn span_range(span: NodeSpan) -> Range {
    Range {
        start: Position { line: span.start_row, character: span.start_column },
        end: Position { line: span.end_row, character: span.end_column },
    }
}

/// The diagnostic for one captured error node.
pub open spec fn error_diagnostic(span: NodeSpan) -> DiagnosticView {
    DiagnosticView {
        range: span_range(span),
        severity: DiagnosticSeverity::Error,
        source: None,
        message: "Syntax error"@,
    }
}

/// The diagnostics for what the error query captured: one for each captured
/// node, in order, and none where the query could not be built.
pub open spec fn capture_diagnostics(captures: Option<Seq<NodeSpan>>) -> Seq<DiagnosticView> {
    match captures {
        Some(spans) => Seq::new(spans.len(), |i: int| error_diagnostic(spans[i])),
        None => Seq::empty(),
    }
}

/// The range in a document that a node span covers.
pub fn node_range(span: NodeSpan) -> (r: Range)
    ensures
        r == span_range(span),
{
    Range {
        start: Position { line: span.start_row, character: span.start_column },
        end: Position { line: span.end_row, character: span.end_column },
    }
}

/// Turns what the error query gave into diagnostics: one error diagnostic
/// for each captured node, and none at all where the query failed.
pub fn diagnostics_from_captures(captures: Result<Vec<NodeSpan>, tree_sitter::QueryError>) -> (r:
    Vec<Diagnostic>)
    ensures
        r.deep_view() == capture_diagnostics(
            match captures {
                Ok(spans) => Some(spans@),
                Err(_) => None,
            },
        ),
{
    let mut diagnostics: Vec<Diagnostic> = Vec::new();
    match captures {
        Ok(spans) => {
            let mut i: usize = 0;
            while i < spans.len()
                invariant
                    i <= spans.len(),
                    diagnostics.deep_view() == Seq::new(
                        i as nat,
                        |k: int| error_diagnostic(spans@[k]),
                    ),
                decreases spans.len() - i,
            {
                let diagnostic = Diagnostic {
                    range: node_range(spans[i]),
                    severity: DiagnosticSeverity::Error,
                    source: None,
                    message: String::from_str("Syntax error"),
                };
                let ghost before = diagnostics;
                let ghost last = diagnostic;
                diagnostics.push(diagnostic);
                i += 1;
                proof {
                    lemma_deep_view_push(before, diagnostics, last);
                    assert(last@ == error_diagnostic(spans@[i - 1]));
                    assert(diagnostics.deep_view() =~= Seq::new(
                        i as nat,
                        |k: int| error_diagnostic(spans@[k]),
                    ));
                }
            }
            assert(diagnostics.deep_view() =~= capture_diagnostics(Some(spans@)));
        },
        Err(_) => {
            assert(diagnostics.deep_view() =~= Seq::<DiagnosticView>::empty());
        },
    }
    diagnostics
}

/// The diagnostics for what the error query captured, and `None` where the
/// query could not be built.
pub open spec fn error_diagnostics(captures: Option<Seq<NodeSpan>>) -> Option<
    Seq<DiagnosticView>,
> {
    match captures {
        Some(spans) => Some(capture_diagnostics(Some(spans))),
        None => None,
    }
}

/// The error nodes of a tree: one error diagnostic for every node that the
/// error query captures, with the rows and byte columns of the node, each
/// range starting no later than it ends. `None` where the query cannot be
/// built.
pub fn error_nodes(tree: &tree_sitter::Tree, contents: &str) -> (r: Option<Vec<Diagnostic>>)
    ensures
        handed_out(r) == error_diagnostics(error_captures(*tree, contents@)),
        r matches Some(found) ==> ranges_ordered(found.deep_view()),
{
    match run_query(tree, ERROR_QUERY, contents) {
        Ok(groups) => {
            proof {
                lemma_flat_ordered(groups_of(groups@));
            }
            let spans = flatten_captures(&groups);
            let ghost given = spans@;
            let found = diagnostics_from_captures(Ok(spans));
            proof {
                assert forall|i: int| 0 <= i < found.deep_view().len() implies (
                #[trigger] found.deep_view()[i]).range.ordered() by {
                    assert(given[i].ordered());
                }
            }
            Some(found)
        },
        Err(_) => None,
    }
}

/// The text that a node covers in `source`, and the empty text where it
/// covers none.
pub open spec fn leaf_text(node: SyntaxNodeView, source: Seq<u8>) -> Seq<char> {
    match covered_text(node, source) {
        Some(text) => text,
        None => Seq::empty(),
    }
}

/// What is said of an error node whose own text is `text`: a childless node
/// with a short text is named by that text, and any other node by its kind.
pub open spec fn error_message(node: SyntaxNodeView, text: Seq<char>) -> Seq<char> {
    if node.child_count == 0 && text.len() > 0 && encode_utf8(text).len() < 50 {
        "Unexpected token: '"@ + text + "'"@
    } else if node.kind == "ERROR"@ {
        "Syntax error"@
    } else {
        "Unexpected syntax: "@ + node.kind
    }
}

/// What is said of a node that is missing or in error.
pub open spec fn node_message(node: SyntaxNodeView, text: Seq<char>) -> Seq<char> {
    if node.is_missing {
        "Missing "@ + node.kind
    } else {
        error_message(node, text)
    }
}

/// The diagnostic for a node that is missing or in error.
pub open spec fn node_diagnostic(node: SyntaxNodeView, source: Seq<u8>) -> DiagnosticView {
    DiagnosticView {
        range: span_range(node.span),
        severity: DiagnosticSeverity::Error,
        source: Some("tree-sitter"@),
        message: node_message(node, leaf_text(node, source)),
    }
}

/// The diagnostics for a sequence of nodes: one for each node that is
/// missing or in error, in the order of the nodes.
pub open spec fn syntax_diagnostics(nodes: Seq<SyntaxNodeView>, source: Seq<u8>) -> Seq<
    DiagnosticView,
>
    decreases nodes.len(),
{
    if nodes.len() == 0 {
        Seq::empty()
    } else {
        let before = syntax_diagnostics(nodes.drop_last(), source);
        let node = nodes.last();
        if node.is_error || node.is_missing {
            before.push(node_diagnostic(node, source))
        } else {
            before
        }
    }
}

/// The diagnostic for a node that the parser put in where the text lacks
/// what the grammar asks for.
pub open spec fn missing_diagnostic(node: SyntaxNodeView) -> DiagnosticView {
    DiagnosticView {
        range: span_range(node.span),
        severity: DiagnosticSeverity::Error,
        source: None,
        message: "Missing "@ + node.kind,
    }
}

/// The diagnostics for the missing nodes among `nodes`, in the order of the
/// nodes.
pub open spec fn missing_diagnostics(nodes: Seq<SyntaxNodeView>) -> Seq<DiagnosticView>
    decreases nodes.len(),
{
    if nodes.len() == 0 {
        Seq::empty()
    } else {
        let before = missing_diagnostics(nodes.drop_last());
        if nodes.last().is_missing {
            before.push(missing_diagnostic(nodes.last()))
        } else {
            before
        }
    }
}

/// Walks the tree in document order and reports every missing node by its
/// kind.
pub fn missing_nodes(tree: &tree_sitter::Tree) -> (r: Vec<Diagnostic>)
    ensures
        r.deep_view() == missing_diagnostics(tree_nodes(*tree)),
        ranges_ordered(r.deep_view()),
{
    let ghost nodes = tree_nodes(*tree);
    let count = node_count(tree);
    let mut diagnostics: Vec<Diagnostic> = Vec::new();
    let mut i: usize = 0;
    assert(nodes.subrange(0, 0).len() == 0);
    while i < count
        invariant
            i <= count,
            count == nodes.len(),
            nodes == tree_nodes(*tree),
            diagnostics.deep_view() == missing_diagnostics(nodes.subrange(0, i as int)),
            ranges_ordered(diagnostics.deep_view()),
        decreases count - i,
    {
        let node = node_at(tree, i);
        proof {
            let upto = nodes.subrange(0, i + 1);
            assert(upto.drop_last() == nodes.subrange(0, i as int));
            assert(upto.last() == nodes[i as int]);
        }
        if node.is_missing {
            let mut message = String::from_str("Missing ");
            message.append(node.kind.as_str());
            let diagnostic = Diagnostic {
                range: node_range(node.span),
                severity: DiagnosticSeverity::Error,
                source: None,
                message,
            };
            let ghost before = diagnostics;
            let ghost last = diagnostic;
            diagnostics.push(diagnostic);
            proof {
                lemma_deep_view_push(before, diagnostics, last);
                assert(last@ == missing_diagnostic(nodes[i as int]));
            }
        }
        i += 1;
    }
    assert(nodes.subrange(0, count as int) == nodes);
    diagnostics
}

/// Words an error node whose own text is `node_text`.
pub fn get_error_message(node: &SyntaxNode, node_text: &str) -> (r: String)
    ensures
        r@ == error_message(node@, node_text@),
{
    if node.child_count == 0 && !node_text.is_empty() && node_text.as_bytes().len() < 50 {
        let mut message = String::from_str("Unexpected token: '");
        message.append(node_text);
        message.append("'");
        message
    } else if node.kind == String::from_str("ERROR") {
        String::from_str("Syntax error")
    } else {
        let mut message = String::from_str("Unexpected syntax: ");
        message.append(node.kind.as_str());
        message
    }
}

/// The diagnostic for one node that is missing or in error, whose own text
/// is `node_text`.
pub fn diagnose_node(node: &SyntaxNode, node_text: &str) -> (r: Diagnostic)
    ensures
        r@ == (DiagnosticView {
            range: span_range(node@.span),
            severity: DiagnosticSeverity::Error,
            source: Some("tree-sitter"@),
            message: node_message(node@, node_text@),
        }),
{
    let message = if node.is_missing {
        let mut message = String::from_str("Missing ");
        message.append(node.kind.as_str());
        message
    } else {
        get_error_message(node, node_text)
    };
    Diagnostic {
        range: node_range(node.span),
        severity: DiagnosticSeverity::Error,
        source: Some(String::from_str("tree-sitter")),
        message,
    }
}

/// Walks the tree in document order and reports every node that is missing
/// or in error.
pub fn diagnose_syntax(tree: &tree_sitter::Tree, source_code: &str) -> (r: Vec<Diagnostic>)
    ensures
        r.deep_view() == syntax_diagnostics(tree_nodes(*tree), encode_utf8(source_code@)),
{
    let ghost nodes = tree_nodes(*tree);
    let ghost source = encode_utf8(source_code@);
    let count = node_count(tree);
    let source_len = source_code.as_bytes().len();
    let mut diagnostics: Vec<Diagnostic> = Vec::new();
    let mut i: usize = 0;
    assert(nodes.subrange(0, 0).len() == 0);
    while i < count
        invariant
            i <= count,
            count == nodes.len(),
            nodes == tree_nodes(*tree),
            source == encode_utf8(source_code@),
            source_len == source.len(),
            diagnostics.deep_view() == syntax_diagnostics(nodes.subrange(0, i as int), source),
        decreases count - i,
    {
        let node = node_at(tree, i);
        proof {
            let upto = nodes.subrange(0, i + 1);
            assert(upto.drop_last() == nodes.subrange(0, i as int));
            assert(upto.last() == nodes[i as int]);
        }
        if node.is_error || node.is_missing {
            let text = if node.child_count == 0 && node.start_byte <= node.end_byte
                && node.end_byte <= source_len {
                match node_text(tree, i, source_code) {
                    Some(text) => text,
                    None => String::new(),
                }
            } else {
                String::new()
            };
            let diagnostic = diagnose_node(&node, text.as_str());
            let ghost before = diagnostics;
            let ghost last = diagnostic;
            diagnostics.push(diagnostic);
            proof {
                lemma_deep_view_push(before, diagnostics, last);
                assert(last@ == node_diagnostic(nodes[i as int], source));
            }
        }
        i += 1;
    }
    assert(nodes.subrange(0, count as int) == nodes);
    diagnostics
}

} // verus!
