use vstd::prelude::*;
use vstd::utf8::{
    decode_utf8_encode_utf8, encode_utf8, encode_utf8_valid_utf8, is_char_boundary,
    length_of_first_scalar, pop_first_scalar, valid_utf8, valid_utf8_concat, valid_utf8_split,
};
use crate::position::{offset_of, text_range_of};
use crate::protocol::{Change, Position, PositionEncoding, Range};
use crate::text::{
    lemma_line_span_bounds, lemma_next_line_start_bounds, line_bytes, line_end, line_span,
    line_start, newline, next_line_start,
};
use crate::util::{apply_changes, apply_range, apply_ranged, can_splice, last_full, splice};

verus! {

/// One change applied to a text: a whole-document change gives its own
/// text, and a ranged change is looked up in the text as it is.
pub open spec fn apply_change(encoding: PositionEncoding, text: Seq<char>, change: Change) -> Seq<
    char,
> {
    match change {
        Change::Full(replacement) => replacement,
        Change::Ranged(range, with) => apply_range(encoding, text, encode_utf8(text), range, with),
    }
}

/// The changes applied one after the other, each to the text that the one
/// before it left.
pub open spec fn apply_in_order(encoding: PositionEncoding, text: Seq<char>, changes: Seq<Change>)
    -> Seq<char>
    decreases changes.len(),
{
    if changes.len() == 0 {
        text
    } else {
        apply_in_order(encoding, apply_change(encoding, text, changes[0]), changes.drop_first())
    }
}

/// Whether no ranged change of the batch starts on a later line than it
/// ends on.
pub open spec fn ordered(changes: Seq<Change>) -> bool {
    forall|i: int|
        0 <= i < changes.len() ==> (#[trigger] changes[i] matches Change::Ranged(range, _)
            ==> range.start.line <= range.end.line)
}

/// Whether two texts have the same first `upto` bytes.
pub open spec fn same_prefix(a: Seq<u8>, b: Seq<u8>, upto: int) -> bool {
    &&& 0 <= upto <= a.len()
    &&& upto <= b.len()
    &&& forall|i: int| 0 <= i < upto ==> a[i] == b[i]
}

/// Whether `indexed` has every line below `valid` where `text` has it, with
/// the same bytes.
pub open spec fn agree_below(text: Seq<u8>, indexed: Seq<u8>, valid: nat) -> bool {
    forall|line: nat|
        line < valid ==> line_span(indexed, line) == #[trigger] line_span(text, line)
            && line_bytes(indexed, line) == line_bytes(text, line)
}

proof fn lemma_next_line_start_prefix(a: Seq<u8>, b: Seq<u8>, upto: int, from: int)
    requires
        same_prefix(a, b, upto),
        next_line_start(a, from) matches Some(next) && next <= upto,
    ensures
        next_line_start(b, from) == next_line_start(a, from),
    decreases a.len() - from,
{
    lemma_next_line_start_bounds(a, from);
    if a[from] != newline() {
        lemma_next_line_start_prefix(a, b, upto, from + 1);
    }
}

pub(crate) proof fn lemma_line_start_monotone(a: Seq<u8>, later: nat, earlier: nat)
    requires
        earlier <= later,
        line_start(a, later) is Some,
    ensures
        line_start(a, earlier) matches Some(start) && 0 <= start <= line_start(a, later).unwrap(),
    decreases later,
{
    if earlier < later {
        let before = line_start(a, (later - 1) as nat).unwrap();
        lemma_next_line_start_bounds(a, before);
        lemma_line_start_monotone(a, (later - 1) as nat, earlier);
    } else {
        lemma_line_span_bounds(a, later);
    }
}

pub(crate) proof fn lemma_line_start_prefix(a: Seq<u8>, b: Seq<u8>, upto: int, line: nat)
    requires
        same_prefix(a, b, upto),
        line_start(a, line) matches Some(start) && start <= upto,
    ensures
        line_start(b, line) == line_start(a, line),
    decreases line,
{
    if line > 0 {
        let before = line_start(a, (line - 1) as nat).unwrap();
        lemma_next_line_start_bounds(a, before);
        lemma_line_start_prefix(a, b, upto, (line - 1) as nat);
        lemma_next_line_start_prefix(a, b, upto, before);
    }
}

/// Two texts that are the same up to the start of a line have the same
/// lines before that line.
pub proof fn lemma_lines_of_same_prefix(a: Seq<u8>, b: Seq<u8>, upto: int, below: nat)
    requires
        same_prefix(a, b, upto),
        line_start(a, below) matches Some(start) && start <= upto,
    ensures
        agree_below(a, b, below),
{
    assert forall|line: nat| line < below implies line_span(b, line) == #[trigger] line_span(
        a,
        line,
    ) && line_bytes(b, line) == line_bytes(a, line) by {
        lemma_line_start_monotone(a, below, line + 1);
        lemma_line_start_monotone(a, line + 1, line);
        lemma_line_start_prefix(a, b, upto, line);
        lemma_line_start_prefix(a, b, upto, line + 1);
        let start = line_start(a, line).unwrap();
        let end = line_start(a, line + 1).unwrap();
        assert(line_start(a, line + 1) == next_line_start(a, start));
        assert(line_start(b, line + 1) == next_line_start(b, start));
        assert(line_end(a, start) == end);
        assert(line_end(b, start) == end);
        assert(a.subrange(start, end) =~= b.subrange(start, end));
    }
}

/// A position on a line that two texts have alike has the same offset in
/// both.
pub proof fn lemma_offset_of_agreeing_line(
    text: Seq<u8>,
    indexed: Seq<u8>,
    valid: nat,
    encoding: PositionEncoding,
    position: Position,
)
    requires
        agree_below(text, indexed, valid),
        position.line < valid,
    ensures
        offset_of(indexed, encoding, position) == offset_of(text, encoding, position),
{
    let line = position.line as nat;
    assert(line_span(indexed, line) == line_span(text, line));
    assert(line_bytes(indexed, line) == line_bytes(text, line));
}

/// An offset that a position has lies at or behind the start of its line.
pub proof fn lemma_offset_behind_line_start(
    text: Seq<u8>,
    encoding: PositionEncoding,
    position: Position,
)
    requires
        offset_of(text, encoding, position) is Ok,
    ensures
        line_start(text, position.line as nat) matches Some(start) && start <= offset_of(
            text,
            encoding,
            position,
        )->Ok_0,
{
    lemma_line_span_bounds(text, position.line as nat);
}

/// What a splice leaves of the bytes of a text: those before the range, the
/// new ones, and those behind the range.
pub proof fn lemma_splice_bytes(text: Seq<char>, start: int, end: int, with: Seq<char>)
    requires
        can_splice(text, start, end),
    ensures
        encode_utf8(splice(text, start, end, with)) == encode_utf8(text).subrange(0, start)
            + encode_utf8(with) + encode_utf8(text).subrange(end, encode_utf8(text).len() as int),
        same_prefix(encode_utf8(text), encode_utf8(splice(text, start, end, with)), start),
{
    let bytes = encode_utf8(text);
    let head = bytes.subrange(0, start);
    let tail = bytes.subrange(end, bytes.len() as int);
    encode_utf8_valid_utf8(text);
    encode_utf8_valid_utf8(with);
    valid_utf8_split(bytes, start);
    valid_utf8_split(bytes, end);
    valid_utf8_concat(head, encode_utf8(with));
    valid_utf8_concat(head + encode_utf8(with), tail);
    decode_utf8_encode_utf8(head + encode_utf8(with) + tail);
}

/// A ranged change leaves every line before the line it starts on as it
/// was.
pub proof fn lemma_change_keeps_lines_above(
    encoding: PositionEncoding,
    text: Seq<char>,
    range: Range,
    with: Seq<char>,
)
    ensures
        agree_below(
            encode_utf8(text),
            encode_utf8(apply_range(encoding, text, encode_utf8(text), range, with)),
            range.start.line as nat,
        ),
{
    let bytes = encode_utf8(text);
    let after = apply_range(encoding, text, bytes, range, with);
    if after != text {
        let (start, end) = text_range_of(bytes, encoding, range)->Ok_0;
        lemma_offset_behind_line_start(bytes, encoding, range.start);
        lemma_splice_bytes(text, start, end, with);
        lemma_lines_of_same_prefix(bytes, encode_utf8(after), start, range.start.line as nat);
    }
}

/// An index that is rebuilt only when a change ends at or behind the line
/// up to which it is known to hold gives what an index rebuilt before every
/// change gives.
pub proof fn lemma_lazy_index(
    encoding: PositionEncoding,
    text: Seq<char>,
    indexed: Seq<u8>,
    valid: u32,
    changes: Seq<Change>,
)
    requires
        agree_below(encode_utf8(text), indexed, valid as nat),
        ordered(changes),
        forall|i: int| 0 <= i < changes.len() ==> #[trigger] changes[i] is Ranged,
    ensures
        apply_ranged(encoding, text, indexed, valid, changes) == apply_in_order(
            encoding,
            text,
            changes,
        ),
    decreases changes.len(),
{
    if changes.len() > 0 {
        let bytes = encode_utf8(text);
        let rest = changes.drop_first();
        assert(changes[0] is Ranged);
        let range = changes[0]->Ranged_0;
        let with = changes[0]->Ranged_1;
        let used = if valid <= range.end.line {
            bytes
        } else {
            indexed
        };
        if valid > range.end.line {
            lemma_offset_of_agreeing_line(bytes, indexed, valid as nat, encoding, range.start);
            lemma_offset_of_agreeing_line(bytes, indexed, valid as nat, encoding, range.end);
        }
        assert(text_range_of(used, encoding, range) == text_range_of(bytes, encoding, range));
        let after = apply_range(encoding, text, used, range, with);
        assert(after == apply_change(encoding, text, changes[0]));
        lemma_change_keeps_lines_above(encoding, text, range, with);
        assert(agree_below(encode_utf8(after), used, range.start.line as nat)) by {
            assert forall|line: nat| line < range.start.line implies line_span(used, line)
                == #[trigger] line_span(encode_utf8(after), line) && line_bytes(used, line)
                == line_bytes(encode_utf8(after), line) by {
                assert(line_span(encode_utf8(after), line) == line_span(bytes, line));
                assert(line_bytes(encode_utf8(after), line) == line_bytes(bytes, line));
                if valid > range.end.line {
                    assert(line_span(indexed, line) == line_span(bytes, line));
                    assert(line_bytes(indexed, line) == line_bytes(bytes, line));
                }
            }
        }
        assert forall|i: int| 0 <= i < rest.len() implies #[trigger] rest[i] is Ranged by {
            assert(rest[i] == changes[i + 1]);
        }
        assert(ordered(rest)) by {
            assert forall|i: int| 0 <= i < rest.len() implies (#[trigger] rest[i] matches Change::Ranged(
                r,
                _,
            ) ==> r.start.line <= r.end.line) by {
                assert(rest[i] == changes[i + 1]);
            }
        }
        lemma_lazy_index(encoding, after, used, range.start.line, rest);
    }
}

/// Applying two batches one behind the other, change by change, is applying
/// the first and then the second.
pub proof fn lemma_in_order_split(
    encoding: PositionEncoding,
    text: Seq<char>,
    first: Seq<Change>,
    second: Seq<Change>,
)
    ensures
        apply_in_order(encoding, text, first + second) == apply_in_order(
            encoding,
            apply_in_order(encoding, text, first),
            second,
        ),
    decreases first.len(),
{
    if first.len() == 0 {
        assert(first + second == second);
    } else {
        assert((first + second)[0] == first[0]);
        assert((first + second).drop_first() == first.drop_first() + second);
        lemma_in_order_split(
            encoding,
            apply_change(encoding, text, first[0]),
            first.drop_first(),
            second,
        );
    }
}

/// Behind the last whole-document change of a batch stand ranged changes
/// only, and a batch without one holds ranged changes only.
pub proof fn lemma_last_full(changes: Seq<Change>)
    ensures
        match last_full(changes) {
            Some(at) => 0 <= at < changes.len() && changes[at] is Full && forall|i: int|
                at < i < changes.len() ==> #[trigger] changes[i] is Ranged,
            None => forall|i: int| 0 <= i < changes.len() ==> #[trigger] changes[i] is Ranged,
        },
    decreases changes.len(),
{
    if changes.len() > 0 && !(changes.last() is Full) {
        lemma_last_full(changes.drop_last());
        let head = changes.drop_last();
        assert forall|i: int| 0 <= i < head.len() implies head[i] == changes[i] by {}
        match last_full(head) {
            Some(at) => {
                assert(changes[at] == head[at]);
                assert forall|i: int| at < i < changes.len() implies #[trigger] changes[i]
                    is Ranged by {
                    if i < head.len() {
                        assert(head[i] is Ranged);
                    }
                }
            },
            None => {
                assert forall|i: int| 0 <= i < changes.len() implies #[trigger] changes[i]
                    is Ranged by {
                    if i < head.len() {
                        assert(head[i] is Ranged);
                    }
                }
            },
        }
    }
}

/// A batch whose ranges are ordered gives what its changes give when they
/// are applied one after the other, each looked up in the text that the one
/// before it left.
pub proof fn lemma_changes_apply_in_order(
    encoding: PositionEncoding,
    document: Seq<char>,
    changes: Seq<Change>,
)
    requires
        ordered(changes),
    ensures
        apply_changes(encoding, document, changes) == apply_in_order(encoding, document, changes),
{
    lemma_last_full(changes);
    let n = changes.len() as int;
    match last_full(changes) {
        Some(at) => {
            let head = changes.subrange(0, at);
            let tail = changes.subrange(at + 1, n);
            let full = seq![changes[at]];
            assert(changes == head + full + tail);
            lemma_in_order_split(encoding, document, head + full, tail);
            lemma_in_order_split(encoding, document, head, full);
            let start = changes[at].text();
            let reached = apply_in_order(encoding, document, head);
            assert(apply_in_order(encoding, reached, full) == start) by {
                assert(full.drop_first().len() == 0);
                assert(apply_change(encoding, reached, full[0]) == start);
                assert(apply_in_order(encoding, start, full.drop_first()) == start);
            }
            assert(ordered(tail)) by {
                assert forall|i: int| 0 <= i < tail.len() implies (#[trigger] tail[i] matches Change::Ranged(
                    r,
                    _,
                ) ==> r.start.line <= r.end.line) by {
                    assert(tail[i] == changes[at + 1 + i]);
                }
            }
            assert forall|i: int| 0 <= i < tail.len() implies #[trigger] tail[i] is Ranged by {
                assert(tail[i] == changes[at + 1 + i]);
            }
            lemma_lazy_index(encoding, start, encode_utf8(start), u32::MAX, tail);
        },
        None => {
            lemma_lazy_index(encoding, document, encode_utf8(document), u32::MAX, changes);
        },
    }
}

/// A batch whose ranges are ordered can be cut in two anywhere: the second
/// part applied to what the first part gave is the whole batch applied at
/// once.
pub proof fn lemma_batch_split(
    encoding: PositionEncoding,
    document: Seq<char>,
    first: Seq<Change>,
    second: Seq<Change>,
)
    requires
        ordered(first + second),
    ensures
        apply_changes(encoding, document, first + second) == apply_changes(
            encoding,
            apply_changes(encoding, document, first),
            second,
        ),
{
    let both = first + second;
    assert(ordered(first)) by {
        assert forall|i: int| 0 <= i < first.len() implies (#[trigger] first[i] matches Change::Ranged(
            r,
            _,
        ) ==> r.start.line <= r.end.line) by {
            assert(first[i] == both[i]);
        }
    }
    assert(ordered(second)) by {
        assert forall|i: int| 0 <= i < second.len() implies (#[trigger] second[i] matches Change::Ranged(
            r,
            _,
        ) ==> r.start.line <= r.end.line) by {
            assert(second[i] == both[first.len() + i]);
        }
    }
    lemma_changes_apply_in_order(encoding, document, both);
    lemma_changes_apply_in_order(encoding, document, first);
    lemma_changes_apply_in_order(encoding, apply_changes(encoding, document, first), second);
    lemma_in_order_split(encoding, document, first, second);
}

/// In a text, the place behind a byte that is a character of its own is a
/// character boundary.
pub proof fn lemma_boundary_behind_ascii(bytes: Seq<u8>, at: int)
    requires
        valid_utf8(bytes),
        0 <= at < bytes.len(),
        bytes[at] <= 0x7f,
    ensures
        is_char_boundary(bytes, at + 1),
    decreases bytes.len(),
{
    let first = length_of_first_scalar(bytes);
    let rest = pop_first_scalar(bytes);
    assert(valid_utf8(rest));
    if at >= first {
        assert(rest[at - first] == bytes[at]);
        lemma_boundary_behind_ascii(rest, at - first);
    } else {
        assert(at == 0);
        assert(is_char_boundary(rest, 0));
    }
}

/// A line start that is found behind `from` stands behind a newline.
pub proof fn lemma_next_line_start_behind_newline(text: Seq<u8>, from: int)
    requires
        next_line_start(text, from) is Some,
    ensures
        ({
            let next = next_line_start(text, from).unwrap();
            0 <= from < next <= text.len() && text[next - 1] == newline()
        }),
    decreases text.len() - from,
{
    if text[from] != newline() {
        lemma_next_line_start_behind_newline(text, from + 1);
    }
}

/// Every line of a text starts on a character boundary.
pub proof fn lemma_line_start_is_boundary(text: Seq<char>, line: nat)
    requires
        line_start(encode_utf8(text), line) is Some,
    ensures
        is_char_boundary(encode_utf8(text), line_start(encode_utf8(text), line).unwrap()),
        0 <= line_start(encode_utf8(text), line).unwrap() <= encode_utf8(text).len(),
{
    let bytes = encode_utf8(text);
    encode_utf8_valid_utf8(text);
    lemma_line_span_bounds(bytes, line);
    if line > 0 {
        let before = line_start(bytes, (line - 1) as nat).unwrap();
        lemma_next_line_start_behind_newline(bytes, before);
        lemma_boundary_behind_ascii(bytes, line_start(bytes, line).unwrap() - 1);
    }
}

/// A change at column 0 of a line, in whatever encoding, puts its text in
/// front of the first byte of the line: what stood before the line and what
/// stands on it and behind it stay as they were, byte for byte.
pub proof fn lemma_insert_at_line_start(
    encoding: PositionEncoding,
    text: Seq<char>,
    line: u32,
    with: Seq<char>,
)
    requires
        line_start(encode_utf8(text), line as nat) is Some,
    ensures
        ({
            let at = line_start(encode_utf8(text), line as nat).unwrap();
            let here = Position { line, character: 0 };
            let after = apply_changes(
                encoding,
                text,
                seq![Change::Ranged(Range { start: here, end: here }, with)],
            );
            &&& after == splice(text, at, at, with)
            &&& encode_utf8(after) == encode_utf8(text).subrange(0, at) + encode_utf8(with)
                + encode_utf8(text).subrange(at, encode_utf8(text).len() as int)
        }),
{
    let bytes = encode_utf8(text);
    let at = line_start(bytes, line as nat).unwrap();
    let here = Position { line, character: 0 };
    let range = Range { start: here, end: here };
    let changes = seq![Change::Ranged(range, with)];
    lemma_line_start_is_boundary(text, line as nat);
    lemma_line_span_bounds(bytes, line as nat);
    assert(offset_of(bytes, encoding, here) == Ok::<int, crate::protocol::PositionError>(at));
    assert(can_splice(text, at, at));
    lemma_splice_bytes(text, at, at, with);
    assert(last_full(changes) is None) by {
        assert(changes.last() is Ranged);
        assert(changes.drop_last().len() == 0);
        assert(last_full(changes.drop_last()) is None);
    }
    let rest = changes.drop_first();
    assert(rest.len() == 0);
    assert(apply_ranged(encoding, splice(text, at, at, with), bytes, line, rest) == splice(
        text,
        at,
        at,
        with,
    ));
}

} // verus!
