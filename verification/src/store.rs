use vstd::prelude::*;

verus! {

#[verifier::external_type_specification]
#[verifier::external_body]
#[verifier::reject_recursive_types(K)]
#[verifier::reject_recursive_types(V)]
#[verifier::reject_recursive_types(S)]
pub struct ExDashMap<K, V, S>(dashmap::DashMap<K, V, S>);

/// One open document: its text, and the version number that the client gave
/// it, if it gave one.
#[derive(Clone, Debug)]
pub struct DocumentData {
    pub version: Option<i32>,
    pub contents: String,
}

/// What a [`DocumentData`] is in contracts.
pub struct DocumentDataView {
    pub version: Option<i32>,
    pub contents: Seq<char>,
}

impl View for DocumentData {
    type V = DocumentDataView;

    open spec fn view(&self) -> DocumentDataView {
        DocumentDataView { version: self.version, contents: self.contents@ }
    }
}

/// The documents that a map holds, each under its identity.
pub uninterp spec fn stored_documents(map: dashmap::DashMap<String, DocumentData>) -> Map<
    Seq<char>,
    DocumentDataView,
>;

/// No document under any identity.
pub open spec fn no_documents() -> Map<Seq<char>, DocumentDataView> {
    Map::empty()
}

/// Calls `dashmap::DashMap::new`: a map that holds nothing.
#[verifier::external_body]
fn new_documents() -> (r: dashmap::DashMap<String, DocumentData>)
    ensures
        stored_documents(r) == no_documents(),
{
    dashmap::DashMap::new()
}

/// Calls `dashmap::DashMap::insert`: the document stands under the identity
/// from now on, in place of the one that stood there, which is handed back.
#[verifier::external_body]
fn insert_document(
    map: &mut dashmap::DashMap<String, DocumentData>,
    id: String,
    document: DocumentData,
) -> (r: Option<DocumentData>)
    ensures
        stored_documents(*final(map)) == stored_documents(*old(map)).insert(id@, document@),
        match r {
            Some(before) => stored_documents(*old(map)).contains_key(id@) && stored_documents(
                *old(map),
            )[id@] == before@,
            None => !stored_documents(*old(map)).contains_key(id@),
        },
{
    map.insert(id, document)
}

/// Calls `dashmap::DashMap::get` and hands out a copy of the document found.
#[verifier::external_body]
fn get_document(map: &dashmap::DashMap<String, DocumentData>, id: &str) -> (r: Option<
    DocumentData,
>)
    ensures
        match r {
            Some(found) => stored_documents(*map).contains_key(id@) && stored_documents(*map)[id@]
                == found@,
            None => !stored_documents(*map).contains_key(id@),
        },
{
    map.get(id).map(|found| found.value().clone())
}

/// Calls `dashmap::DashMap::remove`: nothing stands under the identity from
/// now on, and the document that stood there is handed back.
#[verifier::external_body]
fn remove_document(map: &mut dashmap::DashMap<String, DocumentData>, id: &str) -> (r: Option<
    DocumentData,
>)
    ensures
        stored_documents(*final(map)) == stored_documents(*old(map)).remove(id@),
        match r {
            Some(before) => stored_documents(*old(map)).contains_key(id@) && stored_documents(
                *old(map),
            )[id@] == before@,
            None => !stored_documents(*old(map)).contains_key(id@),
        },
{
    map.remove(id).map(|(_, document)| document)
}

/// The version number of a document after a change: the one that came with
/// the change, and the one it had where none came.
pub open spec fn next_version(had: Option<i32>, came: Option<i32>) -> Option<i32> {
    match came {
        Some(number) => Some(number),
        None => had,
    }
}

/// The open documents, each under its identity.
pub struct DocumentStore {
    documents: dashmap::DashMap<String, DocumentData>,
}

impl View for DocumentStore {
    type V = Map<Seq<char>, DocumentDataView>;

    closed spec fn view(&self) -> Map<Seq<char>, DocumentDataView> {
        stored_documents(self.documents)
    }
}

impl DocumentStore {
    /// A store with no open document.
    pub fn new() -> (r: DocumentStore)
        ensures
            r@ == no_documents(),
    {
        DocumentStore { documents: new_documents() }
    }

    /// Opens a document. One that was open under the same identity gives way
    /// and is handed back.
    pub fn open(&mut self, id: String, document: DocumentData) -> (r: Option<DocumentData>)
        ensures
            final(self)@ == old(self)@.insert(id@, document@),
            match r {
                Some(before) => old(self)@.contains_key(id@) && old(self)@[id@] == before@,
                None => !old(self)@.contains_key(id@),
            },
    {
        insert_document(&mut self.documents, id, document)
    }

    /// The document that is open under `id`.
    pub fn get(&self, id: &str) -> (r: Option<DocumentData>)
        ensures
            match r {
                Some(found) => self@.contains_key(id@) && self@[id@] == found@,
                None => !self@.contains_key(id@),
            },
    {
        get_document(&self.documents, id)
    }

    /// Gives the document under `id` a new text, and the version number that
    /// came with it; where none came, the document keeps the number it has.
    /// Where no document is open under `id`, nothing changes and `false`
    /// comes back.
    pub fn set_contents(&mut self, id: &str, contents: String, version: Option<i32>) -> (r: bool)
        ensures
            r == old(self)@.contains_key(id@),
            r ==> final(self)@ == old(self)@.insert(
                id@,
                DocumentDataView {
                    version: next_version(old(self)@[id@].version, version),
                    contents: contents@,
                },
            ),
            !r ==> final(self)@ == old(self)@,
    {
        match get_document(&self.documents, id) {
            Some(found) => {
                let version = match version {
                    Some(number) => Some(number),
                    None => found.version,
                };
                let document = DocumentData { version, contents };
                insert_document(&mut self.documents, id.to_owned(), document);
                true
            },
            None => false,
        }
    }

    /// Works on the document under `id` alone: `fun` is handed the document
    /// and what it hands back takes its place. Where no document is open
    /// under `id`, `fun` is not run, nothing changes and `false` comes back.
    pub fn mutate<F>(&mut self, id: &str, fun: F) -> (r: bool) where
        F: FnOnce(DocumentData) -> DocumentData,
        requires
            forall|document: DocumentData|
                old(self)@.contains_key(id@) && document@ == old(self)@[id@] ==> fun.requires(
                    (document,),
                ),
        ensures
            r == old(self)@.contains_key(id@),
            r ==> exists|before: DocumentData, after: DocumentData|
                {
                    &&& before@ == old(self)@[id@]
                    &&& #[trigger] fun.ensures((before,), after)
                    &&& final(self)@ == old(self)@.insert(id@, after@)
                },
            !r ==> final(self)@ == old(self)@,
    {
        match get_document(&self.documents, id) {
            Some(found) => {
                let changed = fun(found);
                insert_document(&mut self.documents, id.to_owned(), changed);
                true
            },
            None => false,
        }
    }

    /// Closes the document under `id` and hands it back, if one was open.
    pub fn close(&mut self, id: &str) -> (r: Option<DocumentData>)
        ensures
            final(self)@ == old(self)@.remove(id@),
            match r {
                Some(before) => old(self)@.contains_key(id@) && old(self)@[id@] == before@,
                None => !old(self)@.contains_key(id@),
            },
    {
        remove_document(&mut self.documents, id)
    }
}

/// What is done to the document under one identity leaves the documents
/// under every other identity as they were.
pub proof fn lemma_other_documents_untouched(
    store: Map<Seq<char>, DocumentDataView>,
    id: Seq<char>,
    document: DocumentDataView,
    other: Seq<char>,
)
    requires
        other != id,
    ensures
        store.insert(id, document).contains_key(other) == store.contains_key(other),
        store.contains_key(other) ==> store.insert(id, document)[other] == store[other],
        store.remove(id).contains_key(other) == store.contains_key(other),
        store.contains_key(other) ==> store.remove(id)[other] == store[other],
{
}

} // verus!
