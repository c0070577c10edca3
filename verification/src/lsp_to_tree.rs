use vstd::prelude::*;
use crate::protocol::Position;

verus! {

/// A place in a syntax tree: a zero-based row and a zero-based byte column.
#[derive(Clone, Copy, Debug, PartialEq, Eq, Hash, Structural)]
pub struct Point {
    pub row: usize,
    pub column: usize,
}

/// The place in a syntax tree that a position names, the column taken as a
/// byte column.
pub fn point(lsp_pos: Position) -> (r: Point)
    ensures
        r.row == lsp_pos.line,
        r.column == lsp_pos.character,
{
    Point { row: lsp_pos.line as usize, column: lsp_pos.character as usize }
}

} // verus!
