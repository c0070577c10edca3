use vstd::prelude::*;

verus! {

/// A code-unit system wider than a byte.
#[derive(Clone, Copy, Debug, PartialEq, Eq, Hash, Structural)]
pub enum WideEncoding {
    Utf16,
    Utf32,
}

/// The unit in which a client counts the columns of a position. It is fixed
/// once per session.
#[derive(Clone, Copy, Debug, PartialEq, Eq, Hash, Structural)]
pub enum PositionEncoding {
    Utf8,
    Wide(WideEncoding),
}

/// A zero-based line and a zero-based column, the column counted in the
/// session's encoding.
#[derive(Clone, Copy, Debug, PartialEq, Eq, Hash, Structural)]
pub struct Position {
    pub line: u32,
    pub character: u32,
}

/// A start and an end position in one document.
#[derive(Clone, Copy, Debug, PartialEq, Eq, Hash, Structural)]
pub struct Range {
    pub start: Position,
    pub end: Position,
}

impl Range {
    /// Whether the range starts no later than it ends: on an earlier line,
    /// or on the same line at no later a column.
    pub open spec fn ordered(self) -> bool {
        self.start.line < self.end.line || (self.start.line == self.end.line
            && self.start.character <= self.end.character)
    }
}

/// A half-open range of byte offsets, `start <= end`.
#[derive(Clone, Copy, Debug, PartialEq, Eq, Hash, Structural)]
pub struct TextRange {
    pub start: u32,
    pub end: u32,
}

/// Why a position or a range has no place in a text.
#[derive(Clone, Copy, Debug, PartialEq, Eq, Hash, Structural)]
pub enum PositionError {
    /// The text has no such line.
    InvalidLine,
    /// The end of the range lies before its start.
    InvalidRange,
}

/// One edit of a batch: either the whole document is replaced, or one range
/// of it.
#[derive(Clone, Debug)]
pub enum ChangeEvent {
    Full { text: String },
    Ranged { range: Range, text: String },
}

/// What a [`ChangeEvent`] is in contracts.
pub enum Change {
    Full(Seq<char>),
    Ranged(Range, Seq<char>),
}

impl View for ChangeEvent {
    type V = Change;

    open spec fn view(&self) -> Change {
        match *self {
            ChangeEvent::Full { text } => Change::Full(text@),
            ChangeEvent::Ranged { range, text } => Change::Ranged(range, text@),
        }
    }
}

impl DeepView for ChangeEvent {
    type V = Change;

    open spec fn deep_view(&self) -> Change {
        self@
    }
}

impl ChangeEvent {
    /// A change that replaces the whole document.
    pub fn full(text: String) -> (r: ChangeEvent)
        ensures
            r@ == Change::Full(text@),
    {
        ChangeEvent::Full { text }
    }

    /// A change that replaces what lies between two positions.
    pub fn ranged(start: Position, end: Position, text: String) -> (r: ChangeEvent)
        ensures
            r@ == Change::Ranged(Range { start, end }, text@),
    {
        ChangeEvent::Ranged { range: Range { start, end }, text }
    }
}

impl Change {
    /// The text that the change brings.
    pub open spec fn text(self) -> Seq<char> {
        match self {
            Change::Full(text) => text,
            Change::Ranged(_, text) => text,
        }
    }
}

} // verus!

verus! {

/// How grave a diagnostic is.
#[derive(Clone, Copy, Debug, PartialEq, Eq, Hash, Structural)]
pub enum DiagnosticSeverity {
    Error,
    Warning,
    Information,
    Hint,
}

/// An issue found in a document, with its place.
#[derive(Clone, Debug)]
pub struct Diagnostic {
    pub range: Range,
    pub severity: DiagnosticSeverity,
    pub source: Option<String>,
    pub message: String,
}

/// What a [`Diagnostic`] is in contracts.
pub struct DiagnosticView {
    pub range: Range,
    pub severity: DiagnosticSeverity,
    pub source: Option<Seq<char>>,
    pub message: Seq<char>,
}

impl View for Diagnostic {
    type V = DiagnosticView;

    open spec fn view(&self) -> DiagnosticView {
        DiagnosticView {
            range: self.range,
            severity: self.severity,
            source: match self.source {
                Some(source) => Some(source@),
                None => None,
            },
            message: self.message@,
        }
    }
}

impl DeepView for Diagnostic {
    type V = DiagnosticView;

    open spec fn deep_view(&self) -> DiagnosticView {
        self@
    }
}

/// Diagnostics that were handed out, or none, as they are in contracts.
pub open spec fn handed_out(r: Option<Vec<Diagnostic>>) -> Option<Seq<DiagnosticView>> {
    match r {
        Some(found) => Some(found.deep_view()),
        None => None,
    }
}

/// Whether every diagnostic has a range that starts no later than it ends.
pub open spec fn ranges_ordered(diagnostics: Seq<DiagnosticView>) -> bool {
    forall|i: int| 0 <= i < diagnostics.len() ==> (#[trigger] diagnostics[i]).range.ordered()
}

/// Whether every diagnostic has a range that starts on no later a line than
/// it ends on.
pub open spec fn lines_ordered(diagnostics: Seq<DiagnosticView>) -> bool {
    forall|i: int|
        0 <= i < diagnostics.len() ==> (#[trigger] diagnostics[i]).range.start.line
            <= diagnostics[i].range.end.line
}

} // verus!
