use vstd::prelude::*;
use vstd::utf8::encode_utf8;
use crate::protocol::{Position, PositionEncoding, PositionError, Range, TextRange, WideEncoding};
use crate::text::{lemma_line_span_bounds, line_bytes, line_span, line_start};

verus! {

#[verifier::external_type_specification]
#[verifier::external_body]
pub struct ExLineIndex(line_index::LineIndex);

/// The bytes of the text that a line table was built over.
pub uninterp spec fn indexed_text(table: line_index::LineIndex) -> Seq<u8>;

/// The byte column that stands for the wide column `col` on a line with the
/// bytes `line`, as the line table computes it. `None` where that column
/// does not fit 32 bits.
pub uninterp spec fn utf8_column(line: Seq<u8>, enc: WideEncoding, col: u32) -> Option<u32>;

/// The wide column that stands for the byte column `col` on a line with the
/// bytes `line`, as the line table computes it. `None` where the line has
/// more bytes in wide characters before that column than the column counts.
pub uninterp spec fn wide_column(line: Seq<u8>, enc: WideEncoding, col: u32) -> Option<u32>;

/// Calls `line_index::LineIndex::new`. The table stands for the text it was
/// given. The call fails on a text of `u32::MAX` bytes or more, which the
/// precondition leaves out.
#[verifier::external_body]
fn build_table(text: &str) -> (table: line_index::LineIndex)
    requires
        encode_utf8(text@).len() < u32::MAX,
    ensures
        indexed_text(table) == encode_utf8(text@),
{
    line_index::LineIndex::new(text)
}

/// Calls `line_index::LineIndex::line`: the byte range of a line, from its
/// first byte to behind its newline (or to the end of the text), and `None`
/// where the text has no such line.
#[verifier::external_body]
fn table_line(table: &line_index::LineIndex, line: u32) -> (r: Option<TextRange>)
    ensures
        match r {
            Some(range) => line_span(indexed_text(*table), line as nat) == Some(
                (range.start as int, range.end as int),
            ),
            None => line_span(indexed_text(*table), line as nat) is None,
        },
{
    table.line(line).map(|r| TextRange { start: r.start().into(), end: r.end().into() })
}

/// Calls `line_index::LineIndex::to_utf8`: it keeps the line and turns the
/// wide column into a byte column, which depends on the bytes of that line,
/// the encoding and the column alone.
#[verifier::external_body]
fn table_to_utf8(table: &line_index::LineIndex, enc: WideEncoding, line: u32, col: u32) -> (r:
    Option<(u32, u32)>)
    ensures
        r == match utf8_column(line_bytes(indexed_text(*table), line as nat), enc, col) {
            Some(c) => Some((line, c)),
            None => None,
        },
        col == 0 ==> r == Some((line, 0u32)),
{
    let enc = match enc {
        WideEncoding::Utf16 => line_index::WideEncoding::Utf16,
        WideEncoding::Utf32 => line_index::WideEncoding::Utf32,
    };
    table.to_utf8(enc, line_index::WideLineCol { line, col }).map(|lc| (lc.line, lc.col))
}

/// Calls `line_index::LineIndex::to_wide`: it keeps the line and turns the
/// byte column into a wide column, which depends on the bytes of that line,
/// the encoding and the column alone.
#[verifier::external_body]
fn table_to_wide(table: &line_index::LineIndex, enc: WideEncoding, line: u32, col: u32) -> (r:
    Option<(u32, u32)>)
    ensures
        r == match wide_column(line_bytes(indexed_text(*table), line as nat), enc, col) {
            Some(c) => Some((line, c)),
            None => None,
        },
{
    let enc = match enc {
        WideEncoding::Utf16 => line_index::WideEncoding::Utf16,
        WideEncoding::Utf32 => line_index::WideEncoding::Utf32,
    };
    table.to_wide(enc, line_index::LineCol { line, col }).map(|lc| (lc.line, lc.col))
}

/// The byte column that a position names on its line in `text`. Column 0
/// is byte column 0 in every encoding. `None` where a wide column lies so
/// far behind the line that no 32-bit byte column stands for it.
pub open spec fn byte_column(text: Seq<u8>, encoding: PositionEncoding, position: Position)
    -> Option<int> {
    match encoding {
        PositionEncoding::Utf8 => Some(position.character as int),
        PositionEncoding::Wide(enc) => if position.character == 0 {
            Some(0)
        } else {
            match utf8_column(line_bytes(text, position.line as nat), enc, position.character) {
                Some(col) => Some(col as int),
                None => None,
            }
        },
    }
}

/// The byte offset of a position in `text`: the start of its line plus its
/// byte column, and the end of the line for a column that lies behind it.
/// It fails only where the text has no such line.
pub open spec fn offset_of(text: Seq<u8>, encoding: PositionEncoding, position: Position)
    -> Result<int, PositionError> {
    match line_span(text, position.line as nat) {
        None => Err(PositionError::InvalidLine),
        Some((start, end)) => Ok(
            match byte_column(text, encoding, position) {
                Some(col) => if col <= end - start {
                    start + col
                } else {
                    end
                },
                None => end,
            },
        ),
    }
}

/// The byte range between two positions in `text`. The first failure of the
/// start position comes before one of the end position.
pub open spec fn text_range_of(text: Seq<u8>, encoding: PositionEncoding, range: Range)
    -> Result<(int, int), PositionError> {
    match offset_of(text, encoding, range.start) {
        Err(e) => Err(e),
        Ok(start) => match offset_of(text, encoding, range.end) {
            Err(e) => Err(e),
            Ok(end) => if end < start {
                Err(PositionError::InvalidRange)
            } else {
                Ok((start, end))
            },
        },
    }
}

/// An offset or its failure, the offset as a mathematical integer.
pub open spec fn widen(r: Result<u32, PositionError>) -> Result<int, PositionError> {
    match r {
        Ok(at) => Ok(at as int),
        Err(e) => Err(e),
    }
}

/// A byte range or its failure, the offsets as mathematical integers.
pub open spec fn widen_range(r: Result<TextRange, PositionError>) -> Result<
    (int, int),
    PositionError,
> {
    match r {
        Ok(range) => Ok((range.start as int, range.end as int)),
        Err(e) => Err(e),
    }
}

/// The position in the session's encoding of the byte column `col` on line
/// `line` of `text`.
pub open spec fn position_of(text: Seq<u8>, encoding: PositionEncoding, line: u32, col: u32)
    -> Option<Position> {
    match encoding {
        PositionEncoding::Utf8 => Some(Position { line, character: col }),
        PositionEncoding::Wide(enc) => match wide_column(line_bytes(text, line as nat), enc, col) {
            Some(character) => Some(Position { line, character }),
            None => None,
        },
    }
}

/// A position given in bytes, put into the session's encoding; one that
/// cannot be put into it stays as it is.
pub open spec fn client_position(text: Seq<u8>, encoding: PositionEncoding, position: Position)
    -> Position {
    match position_of(text, encoding, position.line, position.character) {
        Some(found) => found,
        None => position,
    }
}

/// A range given in bytes, both ends put into the session's encoding.
pub open spec fn client_range(text: Seq<u8>, encoding: PositionEncoding, range: Range) -> Range {
    Range {
        start: client_position(text, encoding, range.start),
        end: client_position(text, encoding, range.end),
    }
}

/// A table of the line starts of one text, with the encoding in which
/// positions into that text are counted.
pub struct LineMap {
    index: line_index::LineIndex,
    encoding: PositionEncoding,
}

impl LineMap {
    /// The bytes of the indexed text.
    pub closed spec fn bytes(&self) -> Seq<u8> {
        indexed_text(self.index)
    }

    /// The encoding in which positions into the text are counted.
    pub closed spec fn encoding(&self) -> PositionEncoding {
        self.encoding
    }

    /// Indexes `text`. Offsets are 32 bits wide, so the text is shorter than
    /// `u32::MAX` bytes.
    pub fn new(text: &str, encoding: PositionEncoding) -> (r: LineMap)
        requires
            encode_utf8(text@).len() < u32::MAX,
        ensures
            r.bytes() == encode_utf8(text@),
            r.encoding() == encoding,
    {
        LineMap { index: build_table(text), encoding }
    }

    /// Indexes `text` where it is short enough for 32-bit offsets.
    pub fn try_new(text: &str, encoding: PositionEncoding) -> (r: Option<LineMap>)
        ensures
            r is Some <==> encode_utf8(text@).len() < u32::MAX,
            r matches Some(index) ==> index.bytes() == encode_utf8(text@) && index.encoding()
                == encoding,
    {
        if text.as_bytes().len() < 0xFFFF_FFFFusize {
            Some(LineMap::new(text, encoding))
        } else {
            None
        }
    }
}

/// The byte offset of `position` in the indexed text. A column behind the
/// end of its line is cut down to the end of the line, however far behind
/// it lies; only a line that the text does not have makes it fail.
pub fn offset(line_index: &LineMap, position: Position) -> (r: Result<u32, PositionError>)
    ensures
        widen(r) == offset_of(line_index.bytes(), line_index.encoding(), position),
        position.character == 0 ==> widen(r) == match line_start(
            line_index.bytes(),
            position.line as nat,
        ) {
            Some(start) => Ok(start),
            None => Err(PositionError::InvalidLine),
        },
{
    let col: Option<u32> = match line_index.encoding {
        PositionEncoding::Utf8 => Some(position.character),
        PositionEncoding::Wide(enc) => {
            match table_to_utf8(&line_index.index, enc, position.line, position.character) {
                Some((_, col)) => Some(col),
                None => None,
            }
        },
    };
    let line_range = match table_line(&line_index.index, position.line) {
        Some(range) => range,
        None => {
            return Err(PositionError::InvalidLine);
        },
    };
    proof {
        lemma_line_span_bounds(line_index.bytes(), position.line as nat);
    }
    let len: u32 = line_range.end - line_range.start;
    match col {
        Some(col) => if col <= len {
            Ok(line_range.start + col)
        } else {
            Ok(line_range.end)
        },
        None => Ok(line_range.end),
    }
}

/// The byte range between the two positions of `range` in the indexed text.
pub fn text_range(line_index: &LineMap, range: Range) -> (r: Result<TextRange, PositionError>)
    ensures
        widen_range(r) == text_range_of(line_index.bytes(), line_index.encoding(), range),
{
    let start = match offset(line_index, range.start) {
        Ok(at) => at,
        Err(e) => {
            return Err(e);
        },
    };
    let end = match offset(line_index, range.end) {
        Ok(at) => at,
        Err(e) => {
            return Err(e);
        },
    };
    if end < start {
        Err(PositionError::InvalidRange)
    } else {
        Ok(TextRange { start, end })
    }
}

/// The position in the session's encoding of the byte column `col` on line
/// `line` of the indexed text.
pub fn position(line_index: &LineMap, line: u32, col: u32) -> (r: Option<Position>)
    ensures
        r == position_of(line_index.bytes(), line_index.encoding(), line, col),
{
    match line_index.encoding {
        PositionEncoding::Utf8 => Some(Position { line, character: col }),
        PositionEncoding::Wide(enc) => match table_to_wide(&line_index.index, enc, line, col) {
            Some((line, character)) => Some(Position { line, character }),
            None => None,
        },
    }
}

/// Puts a range given in rows and byte columns into the session's encoding.
/// An end that cannot be put into it stays as it is.
pub fn to_client_range(line_index: &LineMap, range: Range) -> (r: Range)
    ensures
        r == client_range(line_index.bytes(), line_index.encoding(), range),
{
    let start = match position(line_index, range.start.line, range.start.character) {
        Some(found) => found,
        None => range.start,
    };
    let end = match position(line_index, range.end.line, range.end.character) {
        Some(found) => found,
        None => range.end,
    };
    Range { start, end }
}

} // verus!
