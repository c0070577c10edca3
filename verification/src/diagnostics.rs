use vstd::prelude::*;
use vstd::utf8::encode_utf8;
use crate::document::BladeDocument;
use crate::position::{client_range, to_client_range, LineMap};
use crate::parser::{counted_once_more, BladeParser};
use crate::protocol::{
    handed_out, lines_ordered, ranges_ordered, Diagnostic, DiagnosticView, PositionEncoding,
};
use crate::syntax::{
    capture_diagnostics, error_captures, missing_diagnostics, syntax_diagnostics, tree_nodes,
};
use crate::text::lemma_deep_view_push;

verus! {

/// A diagnostic with its range put into the session's encoding.
pub open spec fn client_diagnostic(
    text: Seq<u8>,
    encoding: PositionEncoding,
    diagnostic: DiagnosticView,
) -> DiagnosticView {
    DiagnosticView {
        range: client_range(text, encoding, diagnostic.range),
        severity: diagnostic.severity,
        source: diagnostic.source,
        message: diagnostic.message,
    }
}

/// Diagnostics whose ranges are given in rows and byte columns of `text`,
/// each put into the session's encoding. A text too long for 32-bit offsets
/// has no line table, and its diagnostics stay as they are.
pub open spec fn client_diagnostics(
    text: Seq<char>,
    encoding: PositionEncoding,
    diagnostics: Seq<DiagnosticView>,
) -> Seq<DiagnosticView> {
    if encode_utf8(text).len() < u32::MAX {
        Seq::new(
            diagnostics.len(),
            |i: int| client_diagnostic(encode_utf8(text), encoding, diagnostics[i]),
        )
    } else {
        diagnostics
    }
}

/// What is found in a parsed document: an error diagnostic for every node
/// that the error query captures, and behind them one for every missing
/// node; nothing at all where the error query cannot be built. The ranges
/// are given in rows and byte columns.
pub open spec fn found_diagnostics(document: BladeDocument, text: Seq<char>) -> Seq<
    DiagnosticView,
> {
    match error_captures(document.tree, text) {
        Some(spans) => capture_diagnostics(Some(spans)) + missing_diagnostics(
            tree_nodes(document.tree),
        ),
        None => Seq::empty(),
    }
}

/// The diagnostics that a client is sent for a parsed document and the text
/// it was parsed from: what is found in the document, in the session's
/// encoding.
pub open spec fn published_diagnostics(
    document: BladeDocument,
    text: Seq<char>,
    encoding: PositionEncoding,
) -> Seq<DiagnosticView> {
    client_diagnostics(text, encoding, found_diagnostics(document, text))
}

/// Puts the ranges of `diagnostics`, given in rows and byte columns of the
/// indexed text, into the encoding of the index.
pub fn to_client_diagnostics(line_index: &LineMap, diagnostics: &Vec<Diagnostic>) -> (r: Vec<
    Diagnostic,
>)
    ensures
        r.deep_view() == Seq::new(
            diagnostics.deep_view().len(),
            |i: int|
                client_diagnostic(
                    line_index.bytes(),
                    line_index.encoding(),
                    diagnostics.deep_view()[i],
                ),
        ),
{
    let mut converted: Vec<Diagnostic> = Vec::new();
    let mut i: usize = 0;
    while i < diagnostics.len()
        invariant
            i <= diagnostics.len(),
            converted.deep_view() == Seq::new(
                i as nat,
                |k: int|
                    client_diagnostic(
                        line_index.bytes(),
                        line_index.encoding(),
                        diagnostics.deep_view()[k],
                    ),
            ),
        decreases diagnostics.len() - i,
    {
        let diagnostic = &diagnostics[i];
        let source = match &diagnostic.source {
            Some(source) => Some(source.clone()),
            None => None,
        };
        let moved = Diagnostic {
            range: to_client_range(line_index, diagnostic.range),
            severity: diagnostic.severity,
            source,
            message: diagnostic.message.clone(),
        };
        let ghost before = converted;
        let ghost last = moved;
        converted.push(moved);
        proof {
            lemma_deep_view_push(before, converted, last);
            assert(last@ == client_diagnostic(
                line_index.bytes(),
                line_index.encoding(),
                diagnostics.deep_view()[i as int],
            ));
        }
        i += 1;
        assert(converted.deep_view() =~= Seq::new(
            i as nat,
            |k: int|
                client_diagnostic(
                    line_index.bytes(),
                    line_index.encoding(),
                    diagnostics.deep_view()[k],
                ),
        ));
    }
    converted
}

/// Ranges that are put into the session's encoding stay on their lines, and
/// stay as they are in UTF-8.
pub proof fn lemma_client_diagnostics_ordered(
    text: Seq<char>,
    encoding: PositionEncoding,
    diagnostics: Seq<DiagnosticView>,
)
    requires
        ranges_ordered(diagnostics),
    ensures
        lines_ordered(client_diagnostics(text, encoding, diagnostics)),
        encoding is Utf8 ==> client_diagnostics(text, encoding, diagnostics) == diagnostics,
{
    let moved = client_diagnostics(text, encoding, diagnostics);
    assert forall|i: int| 0 <= i < moved.len() implies (#[trigger] moved[i]).range.start.line
        <= moved[i].range.end.line by {
        assert(diagnostics[i].range.ordered());
    }
    if encoding is Utf8 {
        assert(moved =~= diagnostics);
    }
}

/// What is found in `document`, parsed from `contents`: its syntax errors
/// and, behind them, its missing nodes, and nothing where the error query
/// cannot be built. The ranges are given in rows and byte columns, and each
/// starts no later than it ends.
pub fn extract(document: &BladeDocument, contents: &str) -> (r: Vec<Diagnostic>)
    ensures
        r.deep_view() == found_diagnostics(*document, contents@),
        ranges_ordered(r.deep_view()),
{
    match document.error_nodes(contents) {
        Some(errors) => {
            let mut found = errors;
            let mut missing = document.missing_nodes();
            let ghost first = found.deep_view();
            let ghost rest = missing.deep_view();
            found.append(&mut missing);
            assert(found.deep_view() =~= first + rest);
            found
        },
        None => {
            let found: Vec<Diagnostic> = Vec::new();
            assert(found.deep_view() =~= Seq::<DiagnosticView>::empty());
            found
        },
    }
}

/// Parses `text` from scratch and walks the tree: every node that is
/// missing or in error is reported, in document order, each with a message
/// of its own. `None` where the parser gives no tree for the text.
pub fn get_diagnostics(parser: &mut BladeParser, text: &str) -> (r: Option<Vec<Diagnostic>>)
    ensures
        final(parser).parses() == counted_once_more(old(parser).parses()),
        final(parser).grammar() == old(parser).grammar(),
        match old(parser).outcome(text@) {
            Some(document) => handed_out(r) == Some(
                syntax_diagnostics(tree_nodes(document.tree), encode_utf8(text@)),
            ),
            None => r is None,
        },
{
    match parser.parse(text) {
        Some(document) => Some(document.diagnose(text)),
        None => None,
    }
}

/// The diagnostics that a client is sent for `document`, parsed from
/// `contents`: its syntax errors and its missing nodes, with their ranges in
/// `encoding`. Every range starts on no later a line than it ends on, and
/// in UTF-8 no later than it ends.
pub fn document_diagnostics(document: &BladeDocument, contents: &str, encoding: PositionEncoding)
    -> (r: Vec<Diagnostic>)
    ensures
        r.deep_view() == published_diagnostics(*document, contents@, encoding),
        lines_ordered(r.deep_view()),
        encoding is Utf8 ==> ranges_ordered(r.deep_view()),
{
    let found = extract(document, contents);
    proof {
        lemma_client_diagnostics_ordered(contents@, encoding, found.deep_view());
    }
    match LineMap::try_new(contents, encoding) {
        Some(line_index) => to_client_diagnostics(&line_index, &found),
        None => found,
    }
}

} // verus!
