use blase::analysis::AnalysisHost;
use blase::db::{parse_document, Files, RootDatabase, SourceFile, Storage};
use blase::handler::{
    accepts_changes, current_diagnostics, handle_did_change, handle_did_close, handle_did_open,
    handle_did_save,
};
use blase::lsp_to_tree::{point, Point};
use blase::parser::BladeParser;
use blase::protocol::{ChangeEvent, Position, PositionEncoding, Range, WideEncoding};
use blase::server::PositionEncodingKind::{Other, Utf16, Utf32, Utf8};
use blase::server::{choose_workspace, negotiated_encoding, ServerState, WorkspaceChoice};
use blase::store::{DocumentData, DocumentStore};
use blase::text::same_text;

fn data_parser() -> BladeParser {
    let language: tree_sitter::Language = tree_sitter_json::LANGUAGE.into();
    BladeParser::new(&language).unwrap()
}

fn ranged(sl: u32, sc: u32, el: u32, ec: u32, text: &str) -> ChangeEvent {
    ChangeEvent::ranged(
        Position { line: sl, character: sc },
        Position { line: el, character: ec },
        String::from(text),
    )
}

#[test]
fn same_text_is_byte_equality() {
    assert!(same_text("", ""));
    assert!(same_text("aé😀", "aé😀"));
    assert!(!same_text("aé😀", "aé😁"));
    assert!(!same_text("ab", "abc"));
    assert!(!same_text("abc", "ab"));
}

#[test]
fn store_open_get_close() {
    let mut store = DocumentStore::new();
    assert!(store.get("file:///a").is_none());
    let before = store.open(
        String::from("file:///a"),
        DocumentData { version: Some(1), contents: String::from("one") },
    );
    assert!(before.is_none());
    let found = store.get("file:///a").unwrap();
    assert_eq!(found.contents, "one");
    assert_eq!(found.version, Some(1));
    let before = store.open(
        String::from("file:///a"),
        DocumentData { version: Some(2), contents: String::from("two") },
    );
    assert_eq!(before.unwrap().contents, "one");
    assert_eq!(store.get("file:///a").unwrap().contents, "two");
    let closed = store.close("file:///a").unwrap();
    assert_eq!(closed.contents, "two");
    assert!(store.get("file:///a").is_none());
    assert!(store.close("file:///a").is_none());
}

#[test]
fn store_set_contents_keeps_the_version() {
    let mut store = DocumentStore::new();
    assert!(!store.set_contents("file:///a", String::from("x"), Some(1)));
    assert!(store.get("file:///a").is_none());
    store.open(
        String::from("file:///a"),
        DocumentData { version: Some(7), contents: String::from("one") },
    );
    assert!(store.set_contents("file:///a", String::from("two"), None));
    let found = store.get("file:///a").unwrap();
    assert_eq!(found.contents, "two");
    assert_eq!(found.version, Some(7));
    assert!(store.set_contents("file:///a", String::from("three"), Some(8)));
    let found = store.get("file:///a").unwrap();
    assert_eq!(found.contents, "three");
    assert_eq!(found.version, Some(8));
}

#[test]
fn change_of_one_document_leaves_the_other() {
    let mut store = DocumentStore::new();
    store.open(String::from("a"), DocumentData { version: None, contents: String::from("A") });
    store.open(String::from("b"), DocumentData { version: Some(3), contents: String::from("B") });
    store.set_contents("a", String::from("A2"), None);
    assert_eq!(store.get("b").unwrap().contents, "B");
    assert_eq!(store.get("b").unwrap().version, Some(3));
    store.close("a");
    assert_eq!(store.get("b").unwrap().contents, "B");
}

#[test]
fn database_hands_out_one_handle_per_identity() {
    let mut db = RootDatabase::new();
    assert!(db.source_file("a").is_none());
    db.set_source_file(String::from("a"), "[1]");
    db.set_source_file(String::from("b"), "[2]");
    let a = db.source_file("a").unwrap();
    let b = db.source_file("b").unwrap();
    assert_ne!(a, b);
    assert_eq!(a, SourceFile { index: 0 });
    assert_eq!(b, SourceFile { index: 1 });
    assert_eq!(db.source_file("b"), Some(b));
    assert_eq!(db.source_file("nowhere"), None);
    db.set_source_file(String::from("a"), "[3]");
    assert_eq!(db.source_file("a"), Some(a));
    assert_eq!(db.contents(a), "[3]");
    assert_eq!(db.contents(b), "[2]");
}

#[test]
fn files_and_storage_work_together() {
    let mut files = Files::new();
    let mut storage = Storage::new();
    assert_eq!(storage.len(), 0);
    files.set_source_file(&mut storage, String::from("a"), "one");
    let a = files.source_file("a").unwrap();
    assert_eq!(files.source_file("a"), Some(a));
    assert_eq!(files.source_file("b"), None);
    assert_eq!(storage.contents(a), "one");
    files.set_source_file(&mut storage, String::from("a"), "two");
    assert_eq!(storage.len(), 1);
    assert_eq!(storage.contents(a), "two");
    let b = storage.new_input("three");
    assert_eq!(b, SourceFile { index: 1 });
    storage.set_contents(b, "four");
    assert_eq!(storage.contents(b), "four");
    let copy = storage.copy();
    assert_eq!(copy.len(), 2);
    assert_eq!(copy.contents(a), "two");
}

#[test]
fn same_text_twice_parses_once() {
    let mut db = RootDatabase::new();
    let mut parser = data_parser();
    db.set_source_file(String::from("a"), "[1]");
    let a = db.source_file("a").unwrap();
    let first = parse_document(&mut db, &mut parser, a).unwrap();
    assert_eq!(parser.parse_count(), 1);
    db.set_source_file(String::from("a"), "[1]");
    let second = parse_document(&mut db, &mut parser, a).unwrap();
    assert_eq!(parser.parse_count(), 1);
    assert_eq!(first, second);
    let third = parse_document(&mut db, &mut parser, a).unwrap();
    assert_eq!(parser.parse_count(), 1);
    assert_eq!(first, third);
}

#[test]
fn new_text_parses_again() {
    let mut db = RootDatabase::new();
    let mut parser = data_parser();
    db.set_source_file(String::from("a"), "[1]");
    db.set_source_file(String::from("b"), "{}");
    let a = db.source_file("a").unwrap();
    let b = db.source_file("b").unwrap();
    parse_document(&mut db, &mut parser, a).unwrap();
    parse_document(&mut db, &mut parser, b).unwrap();
    assert_eq!(parser.parse_count(), 2);
    db.set_source_file(String::from("a"), "[1, 2]");
    let again = parse_document(&mut db, &mut parser, a).unwrap();
    assert_eq!(parser.parse_count(), 3);
    assert_eq!(again.to_sexp(), "(document (array (number) (number)))");
    // The other document was not touched.
    let other = parse_document(&mut db, &mut parser, b).unwrap();
    assert_eq!(parser.parse_count(), 3);
    assert_eq!(other.to_sexp(), "(document (object))");
}

#[test]
fn snapshot_does_not_see_later_texts() {
    let mut host = AnalysisHost::new();
    let mut parser = data_parser();
    host.set_source_file(String::from("a"), "[1]");
    let mut snapshot = host.analysis();
    host.set_source_file(String::from("a"), "[1, 2]");
    host.set_source_file(String::from("b"), "{}");
    assert_eq!(snapshot.file_contents("a"), Some(String::from("[1]")));
    assert_eq!(snapshot.file_contents("b"), None);
    assert!(snapshot.source_file("b").is_none());
    assert!(snapshot.parsed_document(&mut parser, "b").is_none());
    assert_eq!(parser.parse_count(), 0);
    assert_eq!(snapshot.source_file("a"), Some(SourceFile { index: 0 }));
    let document = snapshot.parsed_document(&mut parser, "a").unwrap();
    assert_eq!(document.to_sexp(), "(document (array (number)))");
    assert_eq!(host.raw_database().contents(SourceFile { index: 0 }), "[1, 2]");
    let length = snapshot.with_db(|db: &RootDatabase| db.contents(SourceFile { index: 0 }).len());
    assert_eq!(length, 3);
    host.raw_database_mut().set_source_file(String::from("c"), "3");
    assert!(host.raw_database().source_file("c").is_some());
}

#[test]
fn snapshot_keeps_what_was_parsed() {
    let mut host = AnalysisHost::new();
    let mut parser = data_parser();
    host.set_source_file(String::from("a"), "[1]");
    let a = host.raw_database().source_file("a").unwrap();
    parse_document(host.raw_database_mut(), &mut parser, a).unwrap();
    let mut snapshot = host.analysis();
    snapshot.parsed_document(&mut parser, "a").unwrap();
    assert_eq!(parser.parse_count(), 1);
}

#[test]
fn encoding_negotiation() {
    assert_eq!(negotiated_encoding(&vec![]), PositionEncoding::Wide(WideEncoding::Utf16));
    assert_eq!(negotiated_encoding(&vec![Utf16]), PositionEncoding::Wide(WideEncoding::Utf16));
    assert_eq!(negotiated_encoding(&vec![Utf16, Utf8, Utf32]), PositionEncoding::Utf8);
    assert_eq!(
        negotiated_encoding(&vec![Other, Utf32, Utf8]),
        PositionEncoding::Wide(WideEncoding::Utf32)
    );
    assert_eq!(
        negotiated_encoding(&vec![Other, Utf16]),
        PositionEncoding::Wide(WideEncoding::Utf16)
    );
}

#[test]
fn point_of_a_position() {
    assert_eq!(point(Position { line: 3, character: 9 }), Point { row: 3, column: 9 });
}

#[test]
fn change_gives_diagnostics_of_the_new_text() {
    let mut server = ServerState::new(PositionEncoding::Wide(WideEncoding::Utf16));
    let mut parser = data_parser();
    assert_eq!(server.negotiated_encoding(), PositionEncoding::Wide(WideEncoding::Utf16));
    handle_did_open(&mut server, String::from("a"), String::from("[1]"), Some(1));
    assert_eq!(server.documents.get("a").unwrap().contents, "[1]");
    // A document that was only opened is not yet known to the analysis.
    assert!(handle_did_save(&mut server, &mut parser, "a").is_none());
    let changes = vec![ranged(0, 2, 0, 2, ", é😀 ")];
    assert!(accepts_changes(&server, "a", &changes));
    let found = handle_did_change(&mut server, &mut parser, "a", Some(2), changes).unwrap();
    assert_eq!(server.documents.get("a").unwrap().contents, "[1, é😀 ]");
    assert_eq!(server.documents.get("a").unwrap().version, Some(2));
    assert_eq!(found.len(), 2);
    assert_eq!(
        found[0].range,
        Range {
            start: Position { line: 0, character: 2 },
            end: Position { line: 0, character: 7 },
        }
    );
    assert_eq!(parser.parse_count(), 1);
    let saved = handle_did_save(&mut server, &mut parser, "a").unwrap();
    assert_eq!(saved.len(), 2);
    assert_eq!(parser.parse_count(), 1);
    let fixed = handle_did_change(
        &mut server,
        &mut parser,
        "a",
        None,
        vec![ChangeEvent::full(String::from("[1]"))],
    )
    .unwrap();
    assert!(fixed.is_empty());
    assert_eq!(server.documents.get("a").unwrap().version, Some(2));
    assert_eq!(parser.parse_count(), 2);
    let snapshot = server.snapshot();
    assert_eq!(snapshot.analysis.file_contents("a"), Some(String::from("[1]")));
}

#[test]
fn change_for_an_unknown_document_is_passed_over() {
    let mut server = ServerState::new(PositionEncoding::Utf8);
    let mut parser = data_parser();
    let changes = vec![ChangeEvent::full(String::from("[1]"))];
    assert!(accepts_changes(&server, "nowhere", &changes));
    assert!(handle_did_change(&mut server, &mut parser, "nowhere", Some(1), changes).is_none());
    assert!(server.documents.get("nowhere").is_none());
    assert!(current_diagnostics(&mut server, &mut parser, "nowhere").is_none());
    assert_eq!(parser.parse_count(), 0);
}

#[test]
fn close_removes_the_document() {
    let mut server = ServerState::new(PositionEncoding::Utf8);
    handle_did_open(&mut server, String::from("a"), String::from("[1]"), None);
    handle_did_close(&mut server, "a");
    assert!(server.documents.get("a").is_none());
    handle_did_close(&mut server, "a");
    assert!(server.documents.get("a").is_none());
}

#[test]
fn mutate_works_on_one_document() {
    let mut store = DocumentStore::new();
    store.open(String::from("a"), DocumentData { version: Some(1), contents: String::from("A") });
    store.open(String::from("b"), DocumentData { version: Some(2), contents: String::from("B") });
    let done = store.mutate("a", |document: DocumentData| DocumentData {
        version: Some(9),
        contents: document.contents + "!",
    });
    assert!(done);
    assert_eq!(store.get("a").unwrap().contents, "A!");
    assert_eq!(store.get("a").unwrap().version, Some(9));
    assert_eq!(store.get("b").unwrap().contents, "B");
    let done = store.mutate("c", |document: DocumentData| document);
    assert!(!done);
    assert!(store.get("c").is_none());
}

#[test]
fn workspace_choice_by_number_of_folders() {
    assert_eq!(choose_workspace(None), WorkspaceChoice::CurrentDirectory);
    assert_eq!(choose_workspace(Some(1)), WorkspaceChoice::FirstFolder);
    assert_eq!(choose_workspace(Some(2)), WorkspaceChoice::Refused);
    assert_eq!(choose_workspace(Some(7)), WorkspaceChoice::Refused);
}

#[test]
fn default_database_is_empty() {
    let db = RootDatabase::default();
    assert!(db.source_file("a").is_none());
    let host = AnalysisHost::default();
    assert!(host.raw_database().source_file("a").is_none());
}

#[test]
fn what_the_parser_gave_is_remembered() {
    let mut db = RootDatabase::new();
    let mut parser = data_parser();
    db.set_source_file(String::from("a"), "[1]");
    let a = db.source_file("a").unwrap();
    let given = parser.parse("[1]");
    let kept = blase::db::remember(&mut db, a, given).unwrap();
    assert_eq!(kept.to_sexp(), "(document (array (number)))");
    // The document that is remembered is handed out, whatever comes later.
    let again = blase::db::remember(&mut db, a, None).unwrap();
    assert_eq!(again, kept);
    assert_eq!(parse_document(&mut db, &mut parser, a), Some(kept));
    assert_eq!(parser.parse_count(), 1);
    db.set_source_file(String::from("a"), "{}");
    assert!(blase::db::remember(&mut db, a, None).is_none());
    assert_eq!(parse_document(&mut db, &mut parser, a).unwrap().to_sexp(), "(document (object))");
}
