use vstd::prelude::*;
use crate::analysis::{Analysis, AnalysisHost};
use crate::db::Database;
use crate::protocol::{PositionEncoding, WideEncoding};
use crate::store::DocumentStore;

verus! {

/// An encoding that a client offers for positions.
#[derive(Clone, Copy, Debug, PartialEq, Eq, Hash, Structural)]
pub enum PositionEncodingKind {
    Utf8,
    Utf16,
    Utf32,
    Other,
}

/// The encoding that a list of offers leads to: the first offer of UTF-8 or
/// UTF-32 decides, and UTF-16 is what is left where there is none.
pub open spec fn negotiated(offered: Seq<PositionEncodingKind>) -> PositionEncoding
    decreases offered.len(),
{
    if offered.len() == 0 {
        PositionEncoding::Wide(WideEncoding::Utf16)
    } else {
        match offered[0] {
            PositionEncodingKind::Utf8 => PositionEncoding::Utf8,
            PositionEncodingKind::Utf32 => PositionEncoding::Wide(WideEncoding::Utf32),
            _ => negotiated(offered.drop_first()),
        }
    }
}

/// Picks the session's encoding from what the client offers, in the order
/// of its offers. Anything is preferred to UTF-16.
pub fn negotiated_encoding(client_encodings: &Vec<PositionEncodingKind>) -> (r: PositionEncoding)
    ensures
        r == negotiated(client_encodings@),
{
    let mut i: usize = 0;
    assert(client_encodings@.subrange(0, client_encodings.len() as int) == client_encodings@);
    while i < client_encodings.len()
        invariant
            i <= client_encodings.len(),
            negotiated(client_encodings@) == negotiated(
                client_encodings@.subrange(i as int, client_encodings.len() as int),
            ),
        decreases client_encodings.len() - i,
    {
        let ghost rest = client_encodings@.subrange(i as int, client_encodings.len() as int);
        assert(rest[0] == client_encodings@[i as int]);
        assert(rest.drop_first() == client_encodings@.subrange(
            i + 1,
            client_encodings.len() as int,
        ));
        match client_encodings[i] {
            PositionEncodingKind::Utf8 => {
                return PositionEncoding::Utf8;
            },
            PositionEncodingKind::Utf32 => {
                return PositionEncoding::Wide(WideEncoding::Utf32);
            },
            _ => {},
        }
        i += 1;
    }
    PositionEncoding::Wide(WideEncoding::Utf16)
}

/// Where the server works, given the workspace folders that a client named.
#[derive(Clone, Copy, Debug, PartialEq, Eq, Hash, Structural)]
pub enum WorkspaceChoice {
    /// The client named none: the directory the server runs in.
    CurrentDirectory,
    /// The one folder that the client named.
    FirstFolder,
    /// The client named several, which the server does not take.
    Refused,
}

/// Decides where the server works from the number of workspace folders that
/// the client named, if it named any. A client that names folders names at
/// least one.
pub fn choose_workspace(folders: Option<usize>) -> (r: WorkspaceChoice)
    requires
        folders != Some(0usize),
    ensures
        r == match folders {
            None => WorkspaceChoice::CurrentDirectory,
            Some(count) => if count > 1 {
                WorkspaceChoice::Refused
            } else {
                WorkspaceChoice::FirstFolder
            },
        },
{
    match folders {
        None => WorkspaceChoice::CurrentDirectory,
        Some(count) => if count > 1 {
            WorkspaceChoice::Refused
        } else {
            WorkspaceChoice::FirstFolder
        },
    }
}

/// A view of the analysis at one point in time.
pub struct Snapshot {
    pub analysis: Analysis,
}

/// What the server holds between two messages: the open documents, the
/// analysis database and the encoding of the session.
pub struct ServerState {
    pub documents: DocumentStore,
    pub analysis_host: AnalysisHost,
    pub encoding: PositionEncoding,
}

impl ServerState {
    /// Whether the analysis database is in order.
    pub open spec fn wf(&self) -> bool {
        self.analysis_host.wf()
    }

    /// A server with no open document, for a session in `encoding`.
    pub fn new(encoding: PositionEncoding) -> (r: ServerState)
        ensures
            r.wf(),
            r.encoding == encoding,
            r.documents@ == crate::store::no_documents(),
            r.analysis_host@ == Database::empty(),
    {
        ServerState { documents: DocumentStore::new(), analysis_host: AnalysisHost::new(), encoding }
    }

    /// The encoding of the session.
    pub fn negotiated_encoding(&self) -> (r: PositionEncoding)
        ensures
            r == self.encoding,
    {
        self.encoding
    }

    /// A snapshot of the analysis as it is now.
    pub fn snapshot(&self) -> (r: Snapshot)
        requires
            self.wf(),
        ensures
            r.analysis.wf(),
            r.analysis@ == self.analysis_host@,
    {
        Snapshot { analysis: self.analysis_host.analysis() }
    }
}

} // verus!
