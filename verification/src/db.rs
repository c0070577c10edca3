use vstd::prelude::*;
use std::sync::Arc;
use crate::document::BladeDocument;
use crate::parser::{counted_once_more, BladeParser};
use crate::text::same_text;

verus! {

/// The handle of one input text of the database.
#[derive(Clone, Copy, Debug, PartialEq, Eq, Hash, Structural)]
pub struct SourceFile {
    pub index: usize,
}

/// What the database is in contracts: which handle stands under which
/// identity, the text behind each handle, and the parsed document that is
/// remembered for it.
pub struct Database {
    pub files: Map<Seq<char>, SourceFile>,
    pub inputs: Seq<Seq<char>>,
    pub parsed: Seq<Option<BladeDocument>>,
}

impl Database {
    /// The database that holds nothing.
    pub open spec fn empty() -> Database {
        Database { files: Map::empty(), inputs: Seq::empty(), parsed: Seq::empty() }
    }

    /// Whether `source` is a handle of this database.
    pub open spec fn has(self, source: SourceFile) -> bool {
        source.index < self.inputs.len()
    }

    /// The handles fit the machine, every identity has a handle of its own,
    /// and every remembered document is the document of the text that its
    /// handle holds now.
    pub open spec fn wf(self) -> bool {
        &&& self.inputs.len() <= usize::MAX
        &&& self.parsed.len() == self.inputs.len()
        &&& forall|id: Seq<char>| #[trigger]
            self.files.contains_key(id) ==> self.has(self.files[id])
        &&& forall|a: Seq<char>, b: Seq<char>|
            #![trigger self.files[a], self.files[b]]
            self.files.contains_key(a) && self.files.contains_key(b) && self.files[a]
                == self.files[b] ==> a == b
        &&& forall|i: int|
            0 <= i < self.parsed.len() ==> (#[trigger] self.parsed[i] matches Some(document)
                ==> document.text() == self.inputs[i])
    }

    /// The database after the text under `id` was set to `text`. A text equal
    /// to the one that is there changes nothing; another text takes its place
    /// and what was remembered for the old one is dropped; an identity that
    /// is new gets a handle of its own.
    pub open spec fn set_text(self, id: Seq<char>, text: Seq<char>) -> Database {
        if self.files.contains_key(id) {
            let at = self.files[id].index as int;
            if self.inputs[at] == text {
                self
            } else {
                Database {
                    files: self.files,
                    inputs: self.inputs.update(at, text),
                    parsed: self.parsed.update(at, None),
                }
            }
        } else {
            Database {
                files: self.files.insert(id, SourceFile { index: self.inputs.len() as usize }),
                inputs: self.inputs.push(text),
                parsed: self.parsed.push(None),
            }
        }
    }

    /// Whether a request for the parsed document of `source` has to run the
    /// parser.
    pub open spec fn needs_parse(self, source: SourceFile) -> bool {
        self.parsed[source.index as int] is None
    }

    /// The database after a request for the parsed document of `source`,
    /// where `outcome` is what the parser gave, had it to run.
    pub open spec fn after_parse(self, source: SourceFile, outcome: Option<BladeDocument>)
        -> Database {
        if self.needs_parse(source) {
            Database {
                files: self.files,
                inputs: self.inputs,
                parsed: self.parsed.update(source.index as int, outcome),
            }
        } else {
            self
        }
    }

    /// What a request for the parsed document of `source` gives, where
    /// `outcome` is what the parser gave, had it to run.
    pub open spec fn parse_result(self, source: SourceFile, outcome: Option<BladeDocument>)
        -> Option<BladeDocument> {
        if self.needs_parse(source) {
            outcome
        } else {
            self.parsed[source.index as int]
        }
    }
}

/// The handles that a map holds, each under its identity.
pub uninterp spec fn stored_files(map: dashmap::DashMap<String, SourceFile>) -> Map<
    Seq<char>,
    SourceFile,
>;

/// No handle under any identity.
pub open spec fn no_files() -> Map<Seq<char>, SourceFile> {
    Map::empty()
}

/// Calls `dashmap::DashMap::new`: a map that holds nothing.
#[verifier::external_body]
fn new_files() -> (r: dashmap::DashMap<String, SourceFile>)
    ensures
        stored_files(r) == no_files(),
{
    dashmap::DashMap::new()
}

/// Calls `dashmap::DashMap::get` and hands out the handle found.
#[verifier::external_body]
fn get_file(map: &dashmap::DashMap<String, SourceFile>, url: &str) -> (r: Option<SourceFile>)
    ensures
        match r {
            Some(found) => stored_files(*map).contains_key(url@) && stored_files(*map)[url@]
                == found,
            None => !stored_files(*map).contains_key(url@),
        },
{
    map.get(url).map(|found| *found.value())
}

/// Calls `dashmap::DashMap::insert`: the handle stands under the identity
/// from now on.
#[verifier::external_body]
fn insert_file(map: &mut dashmap::DashMap<String, SourceFile>, url: String, file: SourceFile)
    ensures
        stored_files(*final(map)) == stored_files(*old(map)).insert(url@, file),
{
    map.insert(url, file);
}

/// Calls `Clone::clone` of `dashmap::DashMap`: the copy holds what the map
/// holds.
#[verifier::external_body]
fn clone_files(map: &dashmap::DashMap<String, SourceFile>) -> (r: dashmap::DashMap<
    String,
    SourceFile,
>)
    ensures
        stored_files(r) == stored_files(*map),
{
    map.clone()
}

/// Calls `Clone::clone` of `std::sync::Arc`: another handle on the same
/// text.
#[verifier::external_body]
fn share(text: &Arc<String>) -> (r: Arc<String>)
    ensures
        r == *text,
{
    Arc::clone(text)
}

/// The input texts of the database and the parsed documents that are
/// remembered for them. A text is shared, not copied, with every snapshot
/// that holds it.
pub struct Storage {
    inputs: Vec<Arc<String>>,
    parsed: Vec<Option<BladeDocument>>,
}

impl Storage {
    /// The input texts, by handle.
    pub closed spec fn inputs(&self) -> Seq<Seq<char>> {
        self.inputs.deep_view()
    }

    /// The remembered documents, by handle.
    pub closed spec fn parsed(&self) -> Seq<Option<BladeDocument>> {
        self.parsed@
    }

    /// A storage without inputs.
    pub fn new() -> (r: Storage)
        ensures
            r.inputs() == Seq::<Seq<char>>::empty(),
            r.parsed() == Seq::<Option<BladeDocument>>::empty(),
    {
        let r = Storage { inputs: Vec::new(), parsed: Vec::new() };
        assert(r.inputs.deep_view() =~= Seq::<Seq<char>>::empty());
        r
    }

    /// Takes in a new input text and hands out its handle, which is the
    /// number of the inputs that were there. The inputs still fit the
    /// machine.
    pub fn new_input(&mut self, contents: &str) -> (r: SourceFile)
        requires
            old(self).inputs().len() == old(self).parsed().len(),
        ensures
            r.index == old(self).inputs().len(),
            final(self).inputs() == old(self).inputs().push(contents@),
            final(self).parsed() == old(self).parsed().push(None),
            final(self).inputs().len() <= usize::MAX,
    {
        self.inputs.push(Arc::new(contents.to_owned()));
        self.parsed.push(None);
        assert(self.inputs.deep_view() =~= old(self).inputs.deep_view().push(contents@));
        SourceFile { index: self.inputs.len() - 1 }
    }

    /// Sets the text behind `source`. A text equal to the one that is there
    /// changes nothing; another text takes its place, and the document
    /// remembered for the old one is dropped.
    pub fn set_contents(&mut self, source: SourceFile, contents: &str)
        requires
            old(self).inputs().len() == old(self).parsed().len(),
            source.index < old(self).inputs().len(),
        ensures
            old(self).inputs()[source.index as int] == contents@ ==> *final(self) == *old(self),
            old(self).inputs()[source.index as int] != contents@ ==> final(self).inputs() == old(
                self,
            ).inputs().update(source.index as int, contents@) && final(self).parsed() == old(
                self,
            ).parsed().update(source.index as int, None),
    {
        if !same_text(self.inputs[source.index].as_str(), contents) {
            self.inputs.set(source.index, Arc::new(contents.to_owned()));
            self.parsed.set(source.index, None);
            assert(self.inputs.deep_view() =~= old(self).inputs.deep_view().update(
                source.index as int,
                contents@,
            ));
        }
    }

    /// A copy with the same texts and the same remembered documents. The
    /// texts themselves are shared with the copy.
    pub fn copy(&self) -> (r: Storage)
        ensures
            r.inputs() == self.inputs(),
            r.parsed() == self.parsed(),
    {
        let mut inputs: Vec<Arc<String>> = Vec::new();
        let mut i: usize = 0;
        while i < self.inputs.len()
            invariant
                i <= self.inputs.len(),
                inputs.len() == i,
                forall|k: int| 0 <= k < i ==> inputs@[k]@ == self.inputs@[k]@,
            decreases self.inputs.len() - i,
        {
            inputs.push(share(&self.inputs[i]));
            i += 1;
        }
        let mut parsed: Vec<Option<BladeDocument>> = Vec::new();
        let mut j: usize = 0;
        while j < self.parsed.len()
            invariant
                j <= self.parsed.len(),
                parsed.len() == j,
                forall|k: int| 0 <= k < j ==> parsed@[k] == self.parsed@[k],
            decreases self.parsed.len() - j,
        {
            let document = match &self.parsed[j] {
                Some(document) => Some(document.clone()),
                None => None,
            };
            parsed.push(document);
            j += 1;
        }
        assert(inputs.deep_view() =~= self.inputs.deep_view());
        assert(parsed@ =~= self.parsed@);
        Storage { inputs, parsed }
    }

    /// The number of input texts.
    pub fn len(&self) -> (r: usize)
        ensures
            r == self.inputs().len(),
    {
        self.inputs.len()
    }

    /// The text behind `source`.
    pub fn contents(&self, source: SourceFile) -> (r: &String)
        requires
            source.index < self.inputs().len(),
        ensures
            r@ == self.inputs()[source.index as int],
    {
        &self.inputs[source.index]
    }
}

/// The handles of the input texts, each under the identity of its document.
pub struct Files {
    files: dashmap::DashMap<String, SourceFile>,
}

impl View for Files {
    type V = Map<Seq<char>, SourceFile>;

    closed spec fn view(&self) -> Map<Seq<char>, SourceFile> {
        stored_files(self.files)
    }
}

impl Files {
    /// No handles.
    pub fn new() -> (r: Files)
        ensures
            r@ == no_files(),
    {
        Files { files: new_files() }
    }

    /// The handle under `url`, and `None` where there is none.
    pub fn source_file(&self, url: &str) -> (r: Option<SourceFile>)
        ensures
            match r {
                Some(found) => self@.contains_key(url@) && self@[url@] == found,
                None => !self@.contains_key(url@),
            },
    {
        get_file(&self.files, url)
    }

    /// Sets the text of the document `url` in `db`: the text behind its
    /// handle where it has one, and a new input with a handle of its own
    /// where it has none.
    pub fn set_source_file(&mut self, db: &mut Storage, url: String, contents: &str)
        requires
            (Database {
                files: old(self)@,
                inputs: old(db).inputs(),
                parsed: old(db).parsed(),
            }).wf(),
        ensures
            (Database { files: final(self)@, inputs: final(db).inputs(), parsed: final(db).parsed() })
                == (Database {
                files: old(self)@,
                inputs: old(db).inputs(),
                parsed: old(db).parsed(),
            }).set_text(url@, contents@),
            final(db).inputs().len() <= usize::MAX,
    {
        let ghost model = Database { files: self@, inputs: db.inputs(), parsed: db.parsed() };
        match get_file(&self.files, url.as_str()) {
            Some(file) => {
                assert(model.files.contains_key(url@));
                assert(model.has(model.files[url@]));
                db.set_contents(file, contents);
            },
            None => {
                let file = db.new_input(contents);
                insert_file(&mut self.files, url, file);
            },
        }
    }
}

/// The analysis database: the text of every document it was told of, and
/// the parsed document of each text that was asked for since the text last
/// changed.
pub struct RootDatabase {
    storage: Storage,
    files: Files,
}

impl View for RootDatabase {
    type V = Database;

    closed spec fn view(&self) -> Database {
        Database { files: self.files@, inputs: self.storage.inputs(), parsed: self.storage.parsed() }
    }
}

impl Default for RootDatabase {
    fn default() -> (r: RootDatabase)
        ensures
            r@ == Database::empty(),
            r.wf(),
    {
        RootDatabase::new()
    }
}

impl RootDatabase {
    /// Whether the database is in order, as every database is that was
    /// reached from an empty one.
    pub open spec fn wf(&self) -> bool {
        self@.wf()
    }

    /// A database that was told of no document yet.
    pub fn new() -> (r: RootDatabase)
        ensures
            r@ == Database::empty(),
            r.wf(),
    {
        RootDatabase { storage: Storage::new(), files: Files::new() }
    }

    /// The handle of the document `url`, and `None` where the database was
    /// not told of it.
    pub fn source_file(&self, url: &str) -> (r: Option<SourceFile>)
        ensures
            match r {
                Some(found) => self@.files.contains_key(url@) && self@.files[url@] == found,
                None => !self@.files.contains_key(url@),
            },
    {
        self.files.source_file(url)
    }

    /// Tells the database that the text of the document `url` is now
    /// `contents`. From then on `url` has a handle, and the text behind it is
    /// `contents`.
    pub fn set_source_file(&mut self, url: String, contents: &str)
        requires
            old(self).wf(),
        ensures
            final(self)@ == old(self)@.set_text(url@, contents@),
            final(self).wf(),
            final(self)@.files.contains_key(url@),
            final(self)@.inputs[final(self)@.files[url@].index as int] == contents@,
    {
        let ghost id = url@;
        self.files.set_source_file(&mut self.storage, url, contents);
        proof {
            lemma_set_text_gives_text(old(self)@, id, contents@);
            lemma_set_text_wf(old(self)@, id, contents@);
        }
    }

    /// A snapshot: a database of its own that holds what this one holds now.
    pub fn snapshot(&self) -> (r: RootDatabase)
        ensures
            r@ == self@,
    {
        RootDatabase {
            storage: self.storage.copy(),
            files: Files { files: clone_files(&self.files.files) },
        }
    }

    /// The text behind `source`.
    pub fn contents(&self, source: SourceFile) -> (r: &String)
        requires
            self@.has(source),
        ensures
            r@ == self@.inputs[source.index as int],
    {
        self.storage.contents(source)
    }
}

/// Takes in what the parser gave for the text behind `source`. Where a
/// document is remembered for that text, it is handed out and `outcome` is
/// passed over. Where none is, `outcome` is remembered until the text
/// changes, and handed out.
pub fn remember(db: &mut RootDatabase, source: SourceFile, outcome: Option<BladeDocument>) -> (r:
    Option<BladeDocument>)
    requires
        old(db).wf(),
        old(db)@.has(source),
        outcome matches Some(document) ==> document.text() == old(db)@.inputs[source.index as int],
    ensures
        final(db).wf(),
        final(db)@ == old(db)@.after_parse(source, outcome),
        r == old(db)@.parse_result(source, outcome),
{
    match &db.storage.parsed[source.index] {
        Some(document) => {
            return Some(document.clone());
        },
        None => {},
    }
    match outcome {
        Some(document) => {
            let found = document.clone();
            db.storage.parsed.set(source.index, Some(document));
            proof {
                assert forall|i: int| 0 <= i < db@.parsed.len() implies (
                #[trigger] db@.parsed[i] matches Some(known) ==> known.text()
                    == db@.inputs[i]) by {
                    if i != source.index {
                        assert(db@.parsed[i] == old(db)@.parsed[i]);
                    }
                }
            }
            Some(found)
        },
        None => {
            assert(db@.parsed.update(source.index as int, None) =~= db@.parsed);
            None
        },
    }
}

/// The parsed document of the text behind `source`. Where one is
/// remembered, it is handed out and the parser is left alone. Where none is,
/// the parser runs once on the text as it is now, and what it gives is
/// remembered until the text changes, and handed out.
pub fn parse_document(db: &mut RootDatabase, parser: &mut BladeParser, source: SourceFile) -> (r:
    Option<BladeDocument>)
    requires
        old(db).wf(),
        old(db)@.has(source),
    ensures
        final(db).wf(),
        final(db)@ == old(db)@.after_parse(source, r),
        r == old(db)@.parse_result(
            source,
            old(parser).outcome(old(db)@.inputs[source.index as int]),
        ),
        final(parser).grammar() == old(parser).grammar(),
        !old(db)@.needs_parse(source) ==> *final(parser) == *old(parser),
        old(db)@.needs_parse(source) ==> final(parser).parses() == counted_once_more(
            old(parser).parses(),
        ),
        r matches Some(document) ==> document.text() == old(db)@.inputs[source.index as int],
{
    match &db.storage.parsed[source.index] {
        Some(document) => {
            return Some(document.clone());
        },
        None => {},
    }
    let outcome = parser.parse(db.storage.inputs[source.index].as_str());
    remember(db, source, outcome)
}

/// Once a text was set for an identity, the identity has a handle, and the
/// text behind the handle is that text.
pub proof fn lemma_set_text_gives_text(db: Database, id: Seq<char>, text: Seq<char>)
    requires
        db.wf(),
    ensures
        db.set_text(id, text).files.contains_key(id),
        db.set_text(id, text).has(db.set_text(id, text).files[id]),
        db.set_text(id, text).inputs[db.set_text(id, text).files[id].index as int] == text,
{
    if db.files.contains_key(id) {
        assert(db.has(db.files[id]));
    }
}

/// Setting a text keeps the database well formed, as long as a handle is
/// left for an identity that is new.
pub proof fn lemma_set_text_wf(db: Database, id: Seq<char>, text: Seq<char>)
    requires
        db.wf(),
        db.files.contains_key(id) || db.inputs.len() < usize::MAX,
    ensures
        db.set_text(id, text).wf(),
{
    let after = db.set_text(id, text);
    if db.files.contains_key(id) {
        assert(db.has(db.files[id]));
    } else {
        assert forall|a: Seq<char>, b: Seq<char>|
            after.files.contains_key(a) && after.files.contains_key(b) && after.files[a]
                == after.files[b] implies a == b by {
            if a != id {
                assert(db.has(db.files[a]));
            }
            if b != id {
                assert(db.has(db.files[b]));
            }
        }
        assert forall|other: Seq<char>| #[trigger]
            after.files.contains_key(other) implies after.has(after.files[other]) by {
            if other != id {
                assert(db.has(db.files[other]));
            }
        }
    }
}

/// Setting the text of one identity leaves the text of every other identity
/// as it was, and what is remembered for it too.
pub proof fn lemma_set_text_leaves_others(
    db: Database,
    id: Seq<char>,
    text: Seq<char>,
    other: Seq<char>,
)
    requires
        db.wf(),
        db.files.contains_key(other),
        other != id,
    ensures
        db.set_text(id, text).files.contains_key(other),
        db.set_text(id, text).files[other] == db.files[other],
        db.set_text(id, text).inputs[db.files[other].index as int]
            == db.inputs[db.files[other].index as int],
        db.set_text(id, text).parsed[db.files[other].index as int]
            == db.parsed[db.files[other].index as int],
{
    assert(db.has(db.files[other]));
    if db.files.contains_key(id) {
        assert(db.has(db.files[id]));
        assert(db.files[id] != db.files[other]);
    }
}

/// Once the document of a text has been parsed and remembered, setting the
/// same text again changes nothing, and the next request runs no parser.
pub proof fn lemma_same_text_runs_no_parse(
    db: Database,
    id: Seq<char>,
    text: Seq<char>,
    document: BladeDocument,
)
    requires
        db.wf(),
    ensures
        ({
            let first = db.set_text(id, text);
            let source = first.files[id];
            let parsed = first.after_parse(source, Some(document));
            let second = parsed.set_text(id, text);
            &&& second == parsed
            &&& !second.needs_parse(source)
            &&& second.parse_result(source, None) == parsed.parse_result(source, None)
        }),
{
    lemma_set_text_gives_text(db, id, text);
}

/// Setting another text than the one that is there makes the next request
/// run the parser.
pub proof fn lemma_new_text_needs_parse(db: Database, id: Seq<char>, text: Seq<char>)
    requires
        db.wf(),
        db.files.contains_key(id) ==> db.inputs[db.files[id].index as int] != text,
    ensures
        db.set_text(id, text).needs_parse(db.set_text(id, text).files[id]),
{
    if db.files.contains_key(id) {
        assert(db.has(db.files[id]));
    }
}

} // verus!
