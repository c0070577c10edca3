use vstd::prelude::*;
use crate::db::{parse_document, Database, RootDatabase, SourceFile};
use crate::document::BladeDocument;
use crate::parser::{counted_once_more, BladeParser};

verus! {

/// The owner of the analysis database: it takes in the texts and hands out
/// snapshots.
pub struct AnalysisHost {
    db: RootDatabase,
}

impl View for AnalysisHost {
    type V = Database;

    closed spec fn view(&self) -> Database {
        self.db@
    }
}

impl Default for AnalysisHost {
    fn default() -> (r: AnalysisHost)
        ensures
            r@ == Database::empty(),
            r.wf(),
    {
        AnalysisHost::new()
    }
}

impl AnalysisHost {
    /// Whether the database of the host is in order.
    pub open spec fn wf(&self) -> bool {
        self@.wf()
    }

    /// A host that was told of no document yet.
    pub fn new() -> (r: AnalysisHost)
        ensures
            r@ == Database::empty(),
            r.wf(),
    {
        AnalysisHost { db: RootDatabase::new() }
    }

    /// Tells the database that the text of the document `url` is now
    /// `contents`.
    pub fn set_source_file(&mut self, url: String, contents: &str)
        requires
            old(self).wf(),
        ensures
            final(self).wf(),
            final(self)@ == old(self)@.set_text(url@, contents@),
            final(self)@.files.contains_key(url@),
            final(self)@.inputs[final(self)@.files[url@].index as int] == contents@,
    {
        self.db.set_source_file(url, contents);
    }

    /// A snapshot of the database as it is now. What the host is told later
    /// does not reach it.
    pub fn analysis(&self) -> (r: Analysis)
        requires
            self.wf(),
        ensures
            r.wf(),
            r@ == self@,
    {
        Analysis { db: self.db.snapshot() }
    }

    /// The database of the host.
    pub fn raw_database(&self) -> (r: &RootDatabase)
        ensures
            r@ == self@,
            r.wf() == self.wf(),
    {
        &self.db
    }

    /// The database of the host, to work on.
    pub fn raw_database_mut(&mut self) -> (r: &mut RootDatabase)
        ensures
            r@ == old(self)@,
            r.wf() == old(self).wf(),
            final(self)@ == final(r)@,
            final(self).wf() == final(r).wf(),
    {
        &mut self.db
    }
}

/// A snapshot of the analysis database at one point in time.
pub struct Analysis {
    db: RootDatabase,
}

impl View for Analysis {
    type V = Database;

    closed spec fn view(&self) -> Database {
        self.db@
    }
}

impl Analysis {
    /// Whether the database of the snapshot is in order.
    pub open spec fn wf(&self) -> bool {
        self@.wf()
    }

    /// The database of the snapshot.
    pub closed spec fn db(&self) -> RootDatabase {
        self.db
    }

    /// The handle of the document `url`, and `None` where the database was
    /// not told of it.
    pub fn source_file(&self, url: &str) -> (r: Option<SourceFile>)
        ensures
            match r {
                Some(found) => self@.files.contains_key(url@) && self@.files[url@] == found,
                None => !self@.files.contains_key(url@),
            },
    {
        self.db.source_file(url)
    }

    /// The parsed document of `url` as the snapshot has its text. A document
    /// of which the snapshot was not told has none, and nothing changes. For
    /// any other, the remembered document is handed out and the parser is
    /// left alone, or else the parser runs once on the text, and what it
    /// gives is remembered and handed out.
    pub fn parsed_document(&mut self, parser: &mut BladeParser, url: &str) -> (r: Option<
        BladeDocument,
    >)
        requires
            old(self).wf(),
        ensures
            final(self).wf(),
            if old(self)@.files.contains_key(url@) {
                let db = old(self)@;
                let source = db.files[url@];
                &&& r == db.parse_result(
                    source,
                    old(parser).outcome(db.inputs[source.index as int]),
                )
                &&& final(self)@ == db.after_parse(source, r)
                &&& r matches Some(document) ==> document.text() == db.inputs[source.index as int]
                &&& final(parser).grammar() == old(parser).grammar()
                &&& if db.needs_parse(source) {
                    final(parser).parses() == counted_once_more(old(parser).parses())
                } else {
                    *final(parser) == *old(parser)
                }
            } else {
                &&& r is None
                &&& final(self)@ == old(self)@
                &&& *final(parser) == *old(parser)
            },
    {
        match self.db.source_file(url) {
            Some(source) => parse_document(&mut self.db, parser, source),
            None => None,
        }
    }

    /// The text of the document `url` as the snapshot has it, and `None`
    /// where the snapshot was not told of it.
    pub fn file_contents(&self, url: &str) -> (r: Option<String>)
        requires
            self.wf(),
        ensures
            match r {
                Some(text) => self@.files.contains_key(url@) && text@
                    == self@.inputs[self@.files[url@].index as int],
                None => !self@.files.contains_key(url@),
            },
    {
        match self.db.source_file(url) {
            Some(source) => Some(self.db.contents(source).clone()),
            None => None,
        }
    }

    /// Runs `fun` on the database of the snapshot.
    pub fn with_db<F, R>(&self, fun: F) -> (r: R) where F: FnOnce(&RootDatabase) -> R
        requires
            fun.requires((&self.db(),)),
        ensures
            fun.ensures((&self.db(),), r),
    {
        fun(&self.db)
    }
}

} // verus!
