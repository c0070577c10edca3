use vstd::prelude::*;
use crate::db::{lemma_set_text_leaves_others, parse_document, Database, SourceFile};
use crate::diagnostics::{document_diagnostics, published_diagnostics};
use crate::document::BladeDocument;
use crate::parser::{counted_once_more, BladeParser};
use crate::protocol::{handed_out, Change, ChangeEvent, Diagnostic, DiagnosticView};
use crate::server::ServerState;
use crate::store::{next_version, DocumentData, DocumentDataView};
use crate::util::{apply_changes, apply_document_changes, batch_fits, fits};

verus! {

/// What a client is sent after a request for the diagnostics of `source`,
/// where `outcome` is the parsed document that the request gave: the syntax
/// errors of that document, and nothing where there is no document.
pub open spec fn diagnostics_of(
    db: Database,
    source: SourceFile,
    outcome: Option<BladeDocument>,
    encoding: crate::protocol::PositionEncoding,
) -> Option<Seq<DiagnosticView>> {
    match outcome {
        Some(document) => Some(
            published_diagnostics(document, db.inputs[source.index as int], encoding),
        ),
        None => None,
    }
}

/// The documents after a batch of changes arrived for `uri` with the
/// version number `version`: an open document has the batch applied to its
/// text and takes the number, and a batch for a document that is not open
/// is passed over.
pub open spec fn documents_after_change(
    documents: Map<Seq<char>, DocumentDataView>,
    encoding: crate::protocol::PositionEncoding,
    uri: Seq<char>,
    version: Option<i32>,
    changes: Seq<Change>,
) -> Map<Seq<char>, DocumentDataView> {
    if documents.contains_key(uri) {
        documents.insert(
            uri,
            DocumentDataView {
                version: next_version(documents[uri].version, version),
                contents: apply_changes(encoding, documents[uri].contents, changes),
            },
        )
    } else {
        documents
    }
}

/// The database after a batch of changes arrived for `uri`, before any
/// diagnostics are asked for: it is told the new text of an open document.
pub open spec fn database_after_change(
    db: Database,
    documents: Map<Seq<char>, DocumentDataView>,
    encoding: crate::protocol::PositionEncoding,
    uri: Seq<char>,
    changes: Seq<Change>,
) -> Database {
    if documents.contains_key(uri) {
        db.set_text(uri, apply_changes(encoding, documents[uri].contents, changes))
    } else {
        db
    }
}

/// Whether a batch of changes for `uri` can be taken: the document, if it is
/// open, and the batch stay below `u32::MAX` bytes together.
pub open spec fn accepts(
    documents: Map<Seq<char>, DocumentDataView>,
    uri: Seq<char>,
    changes: Seq<Change>,
) -> bool {
    documents.contains_key(uri) ==> fits(documents[uri].contents, changes)
}

/// What a request for the parsed document of `uri` gives, where the
/// database is `db` and the parser `parser`: nothing for a document that the
/// database was not told of; the remembered document where there is one; and
/// else what the parser gives for the text that the database holds.
pub open spec fn parsed_for(db: Database, uri: Seq<char>, parser: BladeParser) -> Option<
    BladeDocument,
> {
    if db.files.contains_key(uri) {
        let source = db.files[uri];
        db.parse_result(source, parser.outcome(db.inputs[source.index as int]))
    } else {
        None
    }
}

/// Whether `found` answers a request for the diagnostics of `uri` that met
/// the database `db` and the parser `parser`, and left the database `after`.
/// What the request gives as parsed document is remembered, and the answer
/// is the diagnostics of that document for the text that the database
/// holds. There is no answer where there is no parsed document, and the
/// database then stays as it is.
pub open spec fn answers(
    db: Database,
    after: Database,
    uri: Seq<char>,
    encoding: crate::protocol::PositionEncoding,
    parser: BladeParser,
    found: Option<Seq<DiagnosticView>>,
) -> bool {
    if db.files.contains_key(uri) {
        let source = db.files[uri];
        let outcome = parsed_for(db, uri, parser);
        &&& after == db.after_parse(source, outcome)
        &&& outcome matches Some(document) ==> document.text() == db.inputs[source.index as int]
        &&& found == diagnostics_of(db, source, outcome, encoding)
    } else {
        found is None && after == db
    }
}

/// Whether the parser went from `before` to `after` as a request for the
/// diagnostics of `uri` makes it: it runs once where the database holds a
/// text for `uri` and remembers no parsed document for it, and is left
/// alone otherwise.
pub open spec fn parser_used(db: Database, uri: Seq<char>, before: BladeParser, after: BladeParser)
    -> bool {
    if db.files.contains_key(uri) && db.needs_parse(db.files[uri]) {
        after.parses() == counted_once_more(before.parses()) && after.grammar()
            == before.grammar()
    } else {
        after == before
    }
}

/// A batch of changes for one document leaves every other document as it
/// was: in the store, and its text and its handle in the database.
pub proof fn lemma_change_leaves_other_documents(
    documents: Map<Seq<char>, DocumentDataView>,
    db: Database,
    encoding: crate::protocol::PositionEncoding,
    uri: Seq<char>,
    version: Option<i32>,
    changes: Seq<Change>,
    other: Seq<char>,
)
    requires
        db.wf(),
        other != uri,
    ensures
        documents_after_change(documents, encoding, uri, version, changes).contains_key(other)
            == documents.contains_key(other),
        documents.contains_key(other) ==> documents_after_change(
            documents,
            encoding,
            uri,
            version,
            changes,
        )[other] == documents[other],
        db.files.contains_key(other) ==> ({
            let after = database_after_change(db, documents, encoding, uri, changes);
            &&& after.files.contains_key(other)
            &&& after.files[other] == db.files[other]
            &&& after.inputs[after.files[other].index as int]
                == db.inputs[db.files[other].index as int]
        }),
{
    if db.files.contains_key(other) && documents.contains_key(uri) {
        lemma_set_text_leaves_others(
            db,
            uri,
            apply_changes(encoding, documents[uri].contents, changes),
            other,
        );
    }
}

/// Whether [`handle_did_change`] can take `content_changes` for `uri`.
pub fn accepts_changes(server: &ServerState, uri: &str, content_changes: &Vec<ChangeEvent>) -> (r:
    bool)
    ensures
        r == accepts(server.documents@, uri@, content_changes.deep_view()),
{
    match server.documents.get(uri) {
        Some(document) => batch_fits(document.contents.as_str(), content_changes),
        None => true,
    }
}

/// The diagnostics of the document `uri` as the database has its text now.
/// The text is parsed only where no parsed document is remembered for it.
/// `None` where the database was not told of `uri`, or where the parser
/// gave no document.
pub fn current_diagnostics(server: &mut ServerState, parser: &mut BladeParser, uri: &str) -> (r:
    Option<Vec<Diagnostic>>)
    requires
        old(server).wf(),
    ensures
        final(server).wf(),
        final(server).documents == old(server).documents,
        final(server).encoding == old(server).encoding,
        answers(
            old(server).analysis_host@,
            final(server).analysis_host@,
            uri@,
            old(server).encoding,
            *old(parser),
            handed_out(r),
        ),
        parser_used(old(server).analysis_host@, uri@, *old(parser), *final(parser)),
{
    let encoding = server.encoding;
    let db = server.analysis_host.raw_database_mut();
    let source = match db.source_file(uri) {
        Some(source) => source,
        None => {
            return None;
        },
    };
    let parsed = parse_document(db, parser, source);
    match parsed {
        Some(document) => {
            let contents = db.contents(source);
            Some(document_diagnostics(&document, contents.as_str(), encoding))
        },
        None => None,
    }
}

/// A document was opened: it stands in the store under `uri` from now on,
/// in place of one that stood there.
pub fn handle_did_open(server: &mut ServerState, uri: String, text: String, version: Option<i32>)
    ensures
        final(server).documents@ == old(server).documents@.insert(
            uri@,
            DocumentDataView { version, contents: text@ },
        ),
        final(server).analysis_host == old(server).analysis_host,
        final(server).encoding == old(server).encoding,
{
    server.documents.open(uri, DocumentData { version, contents: text });
}

/// A document was closed: nothing stands in the store under `uri` from now
/// on. A document that was not open is passed over.
pub fn handle_did_close(server: &mut ServerState, uri: &str)
    ensures
        final(server).documents@ == old(server).documents@.remove(uri@),
        final(server).analysis_host == old(server).analysis_host,
        final(server).encoding == old(server).encoding,
{
    server.documents.close(uri);
}

/// A batch of changes arrived for `uri`, with the version number that the
/// client gave the document after it. Where the document is open, the batch
/// is applied to its text, the store gets the new text and the number, and
/// the database the new text; a batch for a document that is not open
/// changes neither. Then the diagnostics of `uri` are worked out from the
/// text that the database has now, as [`current_diagnostics`] does.
pub fn handle_did_change(
    server: &mut ServerState,
    parser: &mut BladeParser,
    uri: &str,
    version: Option<i32>,
    content_changes: Vec<ChangeEvent>,
) -> (r: Option<Vec<Diagnostic>>)
    requires
        old(server).wf(),
        accepts(old(server).documents@, uri@, content_changes.deep_view()),
    ensures
        final(server).wf(),
        final(server).encoding == old(server).encoding,
        final(server).documents@ == documents_after_change(
            old(server).documents@,
            old(server).encoding,
            uri@,
            version,
            content_changes.deep_view(),
        ),
        answers(
            database_after_change(
                old(server).analysis_host@,
                old(server).documents@,
                old(server).encoding,
                uri@,
                content_changes.deep_view(),
            ),
            final(server).analysis_host@,
            uri@,
            old(server).encoding,
            *old(parser),
            handed_out(r),
        ),
        parser_used(
            database_after_change(
                old(server).analysis_host@,
                old(server).documents@,
                old(server).encoding,
                uri@,
                content_changes.deep_view(),
            ),
            uri@,
            *old(parser),
            *final(parser),
        ),
{
    let changed = match server.documents.get(uri) {
        Some(document) => Some(
            apply_document_changes(server.encoding, document.contents.as_str(), content_changes),
        ),
        None => None,
    };
    match changed {
        Some(new_contents) => {
            server.analysis_host.set_source_file(uri.to_owned(), new_contents.as_str());
            server.documents.set_contents(uri, new_contents, version);
        },
        None => {},
    }
    current_diagnostics(server, parser, uri)
}

/// The document `uri` was saved: its diagnostics are worked out from the
/// text that the database has now, as [`current_diagnostics`] does.
pub fn handle_did_save(server: &mut ServerState, parser: &mut BladeParser, uri: &str) -> (r:
    Option<Vec<Diagnostic>>)
    requires
        old(server).wf(),
    ensures
        final(server).wf(),
        final(server).documents == old(server).documents,
        final(server).encoding == old(server).encoding,
        answers(
            old(server).analysis_host@,
            final(server).analysis_host@,
            uri@,
            old(server).encoding,
            *old(parser),
            handed_out(r),
        ),
        parser_used(old(server).analysis_host@, uri@, *old(parser), *final(parser)),
{
    current_diagnostics(server, parser, uri)
}

} // verus!
