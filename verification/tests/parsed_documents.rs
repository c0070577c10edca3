use blase::diagnostics::{
    document_diagnostics, extract, get_diagnostics, to_client_diagnostics,
};
use blase::db::{parse_document, RootDatabase};
use blase::parser::BladeParser;
use blase::position::LineMap;
use blase::protocol::{
    Diagnostic, DiagnosticSeverity, Position, PositionEncoding, Range, WideEncoding,
};
use blase::syntax::{
    diagnose_node, diagnostics_from_captures, get_error_message, node_range, NodeSpan, SyntaxNode,
};

fn markup_parser() -> BladeParser {
    let language: tree_sitter::Language = tree_sitter_html::LANGUAGE.into();
    BladeParser::new(&language).unwrap()
}

fn data_parser() -> BladeParser {
    let language: tree_sitter::Language = tree_sitter_json::LANGUAGE.into();
    BladeParser::new(&language).unwrap()
}

fn range(sl: u32, sc: u32, el: u32, ec: u32) -> Range {
    Range {
        start: Position { line: sl, character: sc },
        end: Position { line: el, character: ec },
    }
}

fn node(kind: &str, child_count: usize, is_error: bool, is_missing: bool) -> SyntaxNode {
    SyntaxNode {
        kind: String::from(kind),
        span: NodeSpan { start_row: 1, start_column: 2, end_row: 3, end_column: 4 },
        start_byte: 0,
        end_byte: 0,
        is_error,
        is_missing,
        child_count,
    }
}

#[test]
fn test_document_eq() {
    let contents = "\n@if($foo)\n  {{ $bar }}\n@endif\n";
    let mut parser = markup_parser();
    let mut db = RootDatabase::default();
    db.set_source_file(String::from("one"), contents);
    db.set_source_file(String::from("two"), contents);
    let source1 = db.source_file("one").unwrap();
    let doc1 = parse_document(&mut db, &mut parser, source1).unwrap();
    let source2 = db.source_file("two").unwrap();
    let doc2 = parse_document(&mut db, &mut parser, source2).unwrap();
    assert_eq!(doc1, doc2);
}

#[test]
fn test_document_eq_diff_ws_contents() {
    let contents1 = "\n@if($foo)\n  {{ $bar }}\n@endif\n";
    let contents2 = "\n\n@if($foo)\n  {{ $bar }}\n@endif\n";
    let mut parser = markup_parser();
    let mut db = RootDatabase::default();
    db.set_source_file(String::from("one"), contents1);
    db.set_source_file(String::from("two"), contents2);
    let source1 = db.source_file("one").unwrap();
    let doc1 = parse_document(&mut db, &mut parser, source1).unwrap();
    let source2 = db.source_file("two").unwrap();
    let doc2 = parse_document(&mut db, &mut parser, source2).unwrap();
    assert_ne!(contents1, contents2);
    assert_eq!(doc1, doc2);
}

#[test]
fn documents_of_another_shape_differ() {
    let mut parser = data_parser();
    let doc1 = parser.parse("{\"a\": 1}").unwrap();
    let doc2 = parser.parse("{ \"a\":   1 }").unwrap();
    let doc3 = parser.parse("[1]").unwrap();
    assert_eq!(doc1, doc2);
    assert_ne!(doc1, doc3);
    assert_eq!(doc3.to_sexp(), "(document (array (number)))");
    assert_eq!(doc3.clone(), doc3);
}

#[test]
fn well_formed_input_has_no_diagnostics() {
    let contents = "@if($foo)\n  {{ $bar }}\n@endif";
    let mut parser = markup_parser();
    let document = parser.parse(contents).unwrap();
    assert!(document.error_nodes(contents).unwrap().is_empty());
    assert!(document.diagnose(contents).is_empty());
    let contents = "<p>a</p>";
    let document = parser.parse(contents).unwrap();
    assert!(document.error_nodes(contents).unwrap().is_empty());
}

#[test]
fn malformed_input_has_an_error_over_the_bad_region() {
    let contents = "<p>ok</p>\n<div><";
    let mut parser = markup_parser();
    let document = parser.parse(contents).unwrap();
    let found = document.error_nodes(contents).unwrap();
    assert!(!found.is_empty());
    let first = &found[0];
    assert_eq!(first.severity, DiagnosticSeverity::Error);
    assert_eq!(first.message, "Syntax error");
    assert_eq!(first.source, None);
    assert!(first.range.start.line <= 1 && first.range.end.line == 1);
    assert_eq!(first.range.end.character, 6);
}

#[test]
fn error_query_reports_every_error_node() {
    let contents = "</";
    let mut parser = markup_parser();
    let document = parser.parse(contents).unwrap();
    let found = document.error_nodes(contents).unwrap();
    assert_eq!(found.len(), 1);
    assert_eq!(found[0].range, range(0, 0, 0, 2));
    assert_eq!(found[0].message, "Syntax error");
}

#[test]
fn missing_nodes_are_named() {
    let contents = "{\"a\": }";
    let mut parser = data_parser();
    let document = parser.parse(contents).unwrap();
    assert!(document.error_nodes(contents).unwrap().is_empty());
    let found = document.diagnose(contents);
    assert_eq!(found.len(), 1);
    assert_eq!(found[0].message, "Missing number");
    assert_eq!(found[0].range, range(0, 5, 0, 5));
    assert_eq!(found[0].severity, DiagnosticSeverity::Error);
    assert_eq!(found[0].source, Some(String::from("tree-sitter")));
}

#[test]
fn walk_reports_nodes_in_document_order() {
    let contents = "[1, é😀 ]";
    let mut parser = data_parser();
    let document = parser.parse(contents).unwrap();
    let found = document.diagnose(contents);
    assert_eq!(found.len(), 2);
    assert_eq!(found[0].message, "Syntax error");
    assert_eq!(found[0].range, range(0, 2, 0, 10));
    assert_eq!(found[1].message, "Unexpected token: 'é😀'");
    assert_eq!(found[1].range, range(0, 4, 0, 10));
}

#[test]
fn error_messages_by_kind_and_text() {
    assert_eq!(get_error_message(&node("ERROR", 2, true, false), "abc"), "Syntax error");
    assert_eq!(
        get_error_message(&node("string", 2, true, false), "abc"),
        "Unexpected syntax: string"
    );
    assert_eq!(
        get_error_message(&node("ERROR", 0, true, false), "abc"),
        "Unexpected token: 'abc'"
    );
    assert_eq!(get_error_message(&node("ERROR", 0, true, false), ""), "Syntax error");
    let long = "x".repeat(50);
    assert_eq!(get_error_message(&node("ERROR", 0, true, false), &long), "Syntax error");
    let short = "x".repeat(49);
    assert_eq!(
        get_error_message(&node("ERROR", 0, true, false), &short),
        format!("Unexpected token: '{}'", short)
    );
}

#[test]
fn node_diagnostic_for_missing_and_error() {
    let missing = diagnose_node(&node("identifier", 0, false, true), "");
    assert_eq!(missing.message, "Missing identifier");
    assert_eq!(missing.range, range(1, 2, 3, 4));
    assert_eq!(missing.severity, DiagnosticSeverity::Error);
    assert_eq!(missing.source, Some(String::from("tree-sitter")));
    let error = diagnose_node(&node("ERROR", 0, true, false), "}");
    assert_eq!(error.message, "Unexpected token: '}'");
}

#[test]
fn captures_become_error_diagnostics() {
    let spans = vec![
        NodeSpan { start_row: 0, start_column: 1, end_row: 0, end_column: 2 },
        NodeSpan { start_row: 3, start_column: 0, end_row: 4, end_column: 9 },
    ];
    assert_eq!(node_range(spans[1]), range(3, 0, 4, 9));
    let found = diagnostics_from_captures(Ok(spans));
    assert_eq!(found.len(), 2);
    assert_eq!(found[0].range, range(0, 1, 0, 2));
    assert_eq!(found[1].range, range(3, 0, 4, 9));
    assert_eq!(found[1].message, "Syntax error");
    assert_eq!(found[1].severity, DiagnosticSeverity::Error);
}

#[test]
fn failed_query_gives_no_diagnostics() {
    let language: tree_sitter::Language = tree_sitter_json::LANGUAGE.into();
    let failure = tree_sitter::Query::new(&language, "(no_such_node_kind) @x").unwrap_err();
    assert!(diagnostics_from_captures(Err(failure)).is_empty());
}

#[test]
fn diagnostics_go_to_the_client_encoding() {
    let contents = "[1, é😀 ]";
    let mut parser = data_parser();
    let document = parser.parse(contents).unwrap();
    let bytes = document_diagnostics(&document, contents, PositionEncoding::Utf8);
    assert_eq!(bytes[1].range, range(0, 4, 0, 10));
    let utf16 =
        document_diagnostics(&document, contents, PositionEncoding::Wide(WideEncoding::Utf16));
    assert_eq!(utf16[0].range, range(0, 2, 0, 7));
    assert_eq!(utf16[1].range, range(0, 4, 0, 7));
    assert_eq!(utf16[1].message, "Syntax error");
    let utf32 =
        document_diagnostics(&document, contents, PositionEncoding::Wide(WideEncoding::Utf32));
    assert_eq!(utf32[1].range, range(0, 4, 0, 6));
}

#[test]
fn client_diagnostics_keep_everything_but_the_range() {
    let index = LineMap::new("é😀!", PositionEncoding::Wide(WideEncoding::Utf16));
    let given = vec![Diagnostic {
        range: range(0, 2, 0, 6),
        severity: DiagnosticSeverity::Warning,
        source: Some(String::from("here")),
        message: String::from("look"),
    }];
    let moved = to_client_diagnostics(&index, &given);
    assert_eq!(moved.len(), 1);
    assert_eq!(moved[0].range, range(0, 1, 0, 3));
    assert_eq!(moved[0].severity, DiagnosticSeverity::Warning);
    assert_eq!(moved[0].source, Some(String::from("here")));
    assert_eq!(moved[0].message, "look");
}

#[test]
fn parser_counts_its_runs() {
    let mut parser = data_parser();
    assert_eq!(parser.parse_count(), 0);
    parser.parse("[]");
    parser.parse("[]");
    assert_eq!(parser.parse_count(), 2);
}

#[test]
fn missing_nodes_are_published() {
    let contents = "{\"é\": }";
    let mut parser = data_parser();
    let document = parser.parse(contents).unwrap();
    let missing = document.missing_nodes();
    assert_eq!(missing.len(), 1);
    assert_eq!(missing[0].message, "Missing number");
    assert_eq!(missing[0].range, range(0, 6, 0, 6));
    assert_eq!(missing[0].severity, DiagnosticSeverity::Error);
    assert_eq!(missing[0].source, None);
    let found = extract(&document, contents);
    assert_eq!(found.len(), 1);
    assert_eq!(found[0].message, "Missing number");
    let published =
        document_diagnostics(&document, contents, PositionEncoding::Wide(WideEncoding::Utf16));
    assert_eq!(published.len(), 1);
    assert_eq!(published[0].message, "Missing number");
    assert_eq!(published[0].range, range(0, 5, 0, 5));
}

#[test]
fn errors_come_before_missing_nodes() {
    let contents = "[é😀 {\"a\": }]";
    let mut parser = data_parser();
    let document = parser.parse(contents).unwrap();
    let errors = document.error_nodes(contents).unwrap();
    let missing = document.missing_nodes();
    let found = extract(&document, contents);
    assert_eq!(found.len(), errors.len() + missing.len());
    for (i, diagnostic) in errors.iter().enumerate() {
        assert_eq!(found[i].range, diagnostic.range);
        assert_eq!(found[i].message, "Syntax error");
    }
    for (i, diagnostic) in missing.iter().enumerate() {
        assert_eq!(found[errors.len() + i].range, diagnostic.range);
        assert_eq!(found[errors.len() + i].message, diagnostic.message);
    }
}

#[test]
fn supported_versions_are_those_of_the_parser_library() {
    assert_eq!(blase::parser::MIN_COMPATIBLE_LANGUAGE_VERSION, tree_sitter::MIN_COMPATIBLE_LANGUAGE_VERSION);
    assert_eq!(blase::parser::LANGUAGE_VERSION, tree_sitter::LANGUAGE_VERSION);
    for language in [
        tree_sitter::Language::from(tree_sitter_html::LANGUAGE),
        tree_sitter::Language::from(tree_sitter_json::LANGUAGE),
    ] {
        let version = language.abi_version();
        let supported = blase::parser::MIN_COMPATIBLE_LANGUAGE_VERSION <= version
            && version <= blase::parser::LANGUAGE_VERSION;
        assert_eq!(BladeParser::new(&language).is_ok(), supported);
        assert!(supported);
    }
}

#[test]
fn syntax_errors_name_missing_nodes_too() {
    let contents = "{\"é\": }";
    let mut parser = data_parser();
    let document = parser.parse(contents).unwrap();
    assert!(document.error_nodes(contents).unwrap().is_empty());
    let found = document.syntax_errors(contents, PositionEncoding::Utf8);
    assert_eq!(found.len(), 1);
    assert_eq!(found[0].message, "Missing number");
    assert_eq!(found[0].severity, DiagnosticSeverity::Error);
    assert_eq!(found[0].range, range(0, 6, 0, 6));
    let found = document.syntax_errors(contents, PositionEncoding::Wide(WideEncoding::Utf16));
    assert_eq!(found.len(), 1);
    assert_eq!(found[0].message, "Missing number");
    assert_eq!(found[0].range, range(0, 5, 0, 5));
    let contents = "[é😀 {\"a\": }]";
    let document = parser.parse(contents).unwrap();
    let errors = document.error_nodes(contents).unwrap();
    let missing = document.missing_nodes();
    let found = document.syntax_errors(contents, PositionEncoding::Utf8);
    assert!(!errors.is_empty());
    assert_eq!(found.len(), errors.len() + missing.len());
    for (i, diagnostic) in errors.iter().enumerate() {
        assert_eq!(found[i].message, "Syntax error");
        assert_eq!(found[i].range, diagnostic.range);
    }
}

#[test]
fn syntax_errors_are_in_the_encoding_of_the_session() {
    let contents = "[1, é😀 ]";
    let mut parser = data_parser();
    let document = parser.parse(contents).unwrap();
    let bytes = document.syntax_errors(contents, PositionEncoding::Utf8);
    assert_eq!(bytes[1].range, range(0, 4, 0, 10));
    let utf16 = document.syntax_errors(contents, PositionEncoding::Wide(WideEncoding::Utf16));
    assert_eq!(utf16[1].range, range(0, 4, 0, 7));
    let utf32 = document.syntax_errors(contents, PositionEncoding::Wide(WideEncoding::Utf32));
    assert_eq!(utf32[1].range, range(0, 4, 0, 6));
    for diagnostic in utf16.iter().chain(utf32.iter()).chain(bytes.iter()) {
        let (start, end) = (diagnostic.range.start, diagnostic.range.end);
        assert!((start.line, start.character) <= (end.line, end.character));
    }
}

#[test]
fn captures_are_put_in_one_row() {
    let span = |n: u32| NodeSpan { start_row: n, start_column: 0, end_row: n, end_column: 1 };
    let found = vec![vec![span(1), span(2)], vec![], vec![span(3)]];
    assert_eq!(blase::syntax::flatten_captures(&found), vec![span(1), span(2), span(3)]);
    assert!(blase::syntax::flatten_captures(&Vec::new()).is_empty());
}

#[test]
fn diagnostics_of_a_text_parsed_from_scratch() {
    let mut parser = data_parser();
    let found = get_diagnostics(&mut parser, "[1, é😀 ]").unwrap();
    assert_eq!(parser.parse_count(), 1);
    assert_eq!(found.len(), 2);
    assert_eq!(found[0].message, "Syntax error");
    assert_eq!(found[1].message, "Unexpected token: 'é😀'");
    assert_eq!(found[1].source, Some(String::from("tree-sitter")));
    let found = get_diagnostics(&mut parser, "{\"a\": }").unwrap();
    assert_eq!(found.len(), 1);
    assert_eq!(found[0].message, "Missing number");
    assert!(get_diagnostics(&mut parser, "[1]").unwrap().is_empty());
    assert_eq!(parser.parse_count(), 3);
}

#[test]
fn the_same_text_parses_to_the_same_document() {
    let mut parser = data_parser();
    let one = parser.parse("[1, {\"a\": 2}]").unwrap();
    parser.parse("{}").unwrap();
    let other = parser.parse("[1, {\"a\": 2}]").unwrap();
    assert_eq!(one, other);
    assert_eq!(one.to_sexp(), other.to_sexp());
    assert_eq!(one.diagnose("[1, {\"a\": 2}]").len(), other.diagnose("[1, {\"a\": 2}]").len());
}
