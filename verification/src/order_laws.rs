use vstd::prelude::*;
use vstd::utf8::{
    encode_utf8, encode_utf8_valid_utf8, is_char_boundary,
    is_char_boundary_iff_not_is_continuation_byte, is_char_boundary_start_end_of_seq,
};
use crate::batch_laws::{
    apply_change, apply_in_order, lemma_change_keeps_lines_above, lemma_changes_apply_in_order,
    lemma_line_start_monotone, lemma_line_start_prefix, lemma_next_line_start_behind_newline,
    lemma_offset_of_agreeing_line, lemma_splice_bytes, same_prefix,
};
use crate::position::{byte_column, offset_of, text_range_of};
use crate::protocol::{Change, Position, PositionEncoding, Range};
use crate::text::{
    lemma_line_span_bounds, line_bytes, line_end, line_span, line_start, newline, next_line_start,
};
use crate::util::{apply_changes, can_splice, splice};

verus! {

/// The change that puts `with` in at `position` and takes nothing out.
pub open spec fn insertion(position: Position, with: Seq<char>) -> Change {
    Change::Ranged(Range { start: position, end: position }, with)
}

/// Whether `text` holds no newline.
pub open spec fn no_newline(text: Seq<char>) -> bool {
    forall|i: int| 0 <= i < encode_utf8(text).len() ==> encode_utf8(text)[i] != newline()
}

/// Whether `position` names a place on a line of `text` that lies in front
/// of the newline of the line, or at the end of a last line without one, and
/// splits no character.
pub open spec fn on_line(text: Seq<char>, encoding: PositionEncoding, position: Position) -> bool {
    let bytes = encode_utf8(text);
    match (line_span(bytes, position.line as nat), byte_column(bytes, encoding, position)) {
        (Some((start, end)), Some(col)) => {
            &&& 0 <= col
            &&& start + col <= end
            &&& is_char_boundary(bytes, start + col)
            &&& forall|i: int| start <= i < start + col ==> bytes[i] != newline()
        },
        _ => false,
    }
}

/// `found` moved on by `by` bytes.
pub open spec fn moved_on(found: Option<int>, by: int) -> Option<int> {
    match found {
        Some(at) => Some(at + by),
        None => None,
    }
}

/// Whether `after` is `before` with `by` bytes put in at `at`, none of them
/// a newline.
pub open spec fn put_in(before: Seq<u8>, after: Seq<u8>, at: int, by: int) -> bool {
    &&& 0 <= at <= before.len()
    &&& 0 <= by
    &&& after.len() == before.len() + by
    &&& forall|i: int| 0 <= i < at ==> after[i] == before[i]
    &&& forall|i: int| at <= i < at + by ==> after[i] != newline()
    &&& forall|i: int| at <= i < before.len() ==> after[i + by] == before[i]
}

proof fn lemma_next_behind(before: Seq<u8>, after: Seq<u8>, at: int, by: int, from: int)
    requires
        put_in(before, after, at, by),
        at <= from,
    ensures
        next_line_start(after, from + by) == moved_on(next_line_start(before, from), by),
    decreases before.len() - from,
{
    if from < before.len() {
        assert(after[from + by] == before[from]);
        if before[from] != newline() {
            lemma_next_behind(before, after, at, by, from + 1);
        }
    }
}

proof fn lemma_next_inside(before: Seq<u8>, after: Seq<u8>, at: int, by: int, from: int)
    requires
        put_in(before, after, at, by),
        at <= from <= at + by,
    ensures
        next_line_start(after, from) == moved_on(next_line_start(before, at), by),
    decreases at + by - from,
{
    if from == at + by {
        lemma_next_behind(before, after, at, by, at);
    } else {
        assert(after[from] != newline());
        lemma_next_inside(before, after, at, by, from + 1);
    }
}

proof fn lemma_next_before(before: Seq<u8>, after: Seq<u8>, at: int, by: int, from: int)
    requires
        put_in(before, after, at, by),
        0 <= from <= at,
        forall|i: int| from <= i < at ==> before[i] != newline(),
    ensures
        next_line_start(after, from) == moved_on(next_line_start(before, from), by),
        next_line_start(before, from) == next_line_start(before, at),
    decreases at - from,
{
    if from == at {
        lemma_next_inside(before, after, at, by, at);
    } else {
        assert(after[from] == before[from]);
        lemma_next_before(before, after, at, by, from + 1);
    }
}

/// Bytes without a newline that are put in on a line move every later line
/// on by their number, and leave the bytes of every later line as they
/// were.
pub proof fn lemma_later_lines_move_on(
    before: Seq<u8>,
    after: Seq<u8>,
    at: int,
    by: int,
    on: nat,
    later: nat,
)
    requires
        put_in(before, after, at, by),
        line_start(before, on) matches Some(start) && start <= at,
        forall|i: int| line_start(before, on).unwrap() <= i < at ==> before[i] != newline(),
        on < later,
    ensures
        line_start(after, later) == moved_on(line_start(before, later), by),
        line_start(before, later) matches Some(start) ==> at < start,
        line_span(before, later) matches Some((start, end)) ==> line_span(after, later) == Some(
            (start + by, end + by),
        ) && line_bytes(after, later) == line_bytes(before, later),
        line_span(before, later) is None ==> line_span(after, later) is None,
    decreases later,
{
    let start_on = line_start(before, on).unwrap();
    lemma_line_span_bounds(before, on);
    if later == on + 1 {
        assert(same_prefix(before, after, at));
        lemma_line_start_prefix(before, after, at, on);
        lemma_next_before(before, after, at, by, start_on);
        if next_line_start(before, start_on) is Some {
            lemma_next_line_start_behind_newline(before, start_on);
        }
    } else {
        lemma_later_lines_move_on(before, after, at, by, on, (later - 1) as nat);
        match line_start(before, (later - 1) as nat) {
            Some(previous) => {
                lemma_next_behind(before, after, at, by, previous);
                if next_line_start(before, previous) is Some {
                    lemma_next_line_start_behind_newline(before, previous);
                }
            },
            None => {},
        }
    }
    match line_start(before, later) {
        Some(start) => {
            lemma_next_behind(before, after, at, by, start);
            lemma_line_span_bounds(before, later);
            let end = line_end(before, start);
            assert(line_end(after, start + by) == end + by);
            assert(after.subrange(start + by, end + by) =~= before.subrange(start, end));
        },
        None => {},
    }
}

/// The byte offset of a position that has one.
pub open spec fn place(text: Seq<char>, encoding: PositionEncoding, position: Position) -> int {
    offset_of(encode_utf8(text), encoding, position)->Ok_0
}

/// The bytes of `text` with `above` put in at `upper` and `below` at
/// `lower`, where `upper <= lower`.
pub open spec fn both_put_in(
    text: Seq<char>,
    upper: int,
    above: Seq<char>,
    lower: int,
    below: Seq<char>,
) -> Seq<u8> {
    let bytes = encode_utf8(text);
    bytes.subrange(0, upper) + encode_utf8(above) + bytes.subrange(upper, lower) + encode_utf8(
        below,
    ) + bytes.subrange(lower, bytes.len() as int)
}

/// Where two places on different lines lie, and that text can be put in
/// at each.
proof fn lemma_places(
    encoding: PositionEncoding,
    text: Seq<char>,
    upper: Position,
    lower: Position,
)
    requires
        upper.line < lower.line,
        on_line(text, encoding, upper),
        on_line(text, encoding, lower),
    ensures
        offset_of(encode_utf8(text), encoding, upper) is Ok,
        offset_of(encode_utf8(text), encoding, lower) is Ok,
        0 <= place(text, encoding, upper) < place(text, encoding, lower) <= encode_utf8(
            text,
        ).len(),
        can_splice(text, place(text, encoding, upper), place(text, encoding, upper)),
        can_splice(text, place(text, encoding, lower), place(text, encoding, lower)),
        line_start(encode_utf8(text), upper.line as nat) matches Some(start) && start <= place(
            text,
            encoding,
            upper,
        ) && forall|i: int|
            start <= i < place(text, encoding, upper) ==> encode_utf8(text)[i] != newline(),
        line_span(encode_utf8(text), lower.line as nat) matches Some((start, end)) && start
            <= place(text, encoding, lower) <= end && byte_column(
            encode_utf8(text),
            encoding,
            lower,
        ) == Some(place(text, encoding, lower) - start),
{
    let bytes = encode_utf8(text);
    lemma_line_span_bounds(bytes, upper.line as nat);
    lemma_line_span_bounds(bytes, lower.line as nat);
    let start_upper = line_start(bytes, upper.line as nat).unwrap();
    let at_upper = place(text, encoding, upper);
    lemma_line_start_monotone(bytes, lower.line as nat, (upper.line + 1) as nat);
    let next = line_start(bytes, (upper.line + 1) as nat).unwrap();
    assert(line_start(bytes, (upper.line + 1) as nat) == next_line_start(bytes, start_upper));
    lemma_next_line_start_behind_newline(bytes, start_upper);
    assert(at_upper < next) by {
        if at_upper >= next {
            assert(bytes[next - 1] == newline());
        }
    }
}

/// Where the upper place lies once text was put in at the lower place:
/// where it lay, and text can still be put in there.
proof fn lemma_place_stays(
    encoding: PositionEncoding,
    text: Seq<char>,
    upper: Position,
    lower: Position,
    below: Seq<char>,
)
    requires
        upper.line < lower.line,
        on_line(text, encoding, upper),
        on_line(text, encoding, lower),
    ensures
        ({
            let lowered = splice(
                text,
                place(text, encoding, lower),
                place(text, encoding, lower),
                below,
            );
            let here = place(text, encoding, upper);
            &&& apply_change(encoding, text, insertion(lower, below)) == lowered
            &&& offset_of(encode_utf8(lowered), encoding, upper) == Ok::<
                int,
                crate::protocol::PositionError,
            >(here)
            &&& can_splice(lowered, here, here)
        }),
{
    let bytes = encode_utf8(text);
    lemma_places(encoding, text, upper, lower);
    let at_upper = place(text, encoding, upper);
    let at_lower = place(text, encoding, lower);
    encode_utf8_valid_utf8(text);
    let lowered = splice(text, at_lower, at_lower, below);
    assert(apply_change(encoding, text, insertion(lower, below)) == lowered) by {
        assert(text_range_of(bytes, encoding, Range { start: lower, end: lower }) == Ok::<
            (int, int),
            crate::protocol::PositionError,
        >((at_lower, at_lower)));
    }
    lemma_splice_bytes(text, at_lower, at_lower, below);
    let lowered_bytes = encode_utf8(lowered);
    encode_utf8_valid_utf8(lowered);
    lemma_change_keeps_lines_above(encoding, text, Range { start: lower, end: lower }, below);
    lemma_offset_of_agreeing_line(bytes, lowered_bytes, lower.line as nat, encoding, upper);
    assert(is_char_boundary(lowered_bytes, at_upper)) by {
        assert(lowered_bytes[at_upper] == bytes[at_upper]);
        is_char_boundary_iff_not_is_continuation_byte(bytes, at_upper);
        is_char_boundary_iff_not_is_continuation_byte(lowered_bytes, at_upper);
    }
}

/// Bytes put in at a place, and more bytes put in at a place in front of
/// them: both stand in the text, each at its place.
proof fn lemma_put_in_twice_in_front(
    bytes: Seq<u8>,
    above: Seq<u8>,
    below: Seq<u8>,
    upper: int,
    lower: int,
)
    requires
        0 <= upper <= lower <= bytes.len(),
    ensures
        ({
            let lowered = bytes.subrange(0, lower) + below + bytes.subrange(
                lower,
                bytes.len() as int,
            );
            lowered.subrange(0, upper) + above + lowered.subrange(upper, lowered.len() as int)
                == bytes.subrange(0, upper) + above + bytes.subrange(upper, lower) + below
                + bytes.subrange(lower, bytes.len() as int)
        }),
{
    let lowered = bytes.subrange(0, lower) + below + bytes.subrange(lower, bytes.len() as int);
    assert(lowered.subrange(0, upper) + above + lowered.subrange(upper, lowered.len() as int)
        =~= bytes.subrange(0, upper) + above + bytes.subrange(upper, lower) + below
        + bytes.subrange(lower, bytes.len() as int));
}

/// The lower insertion first and the upper one behind it put both texts in.
proof fn lemma_lower_first(
    encoding: PositionEncoding,
    text: Seq<char>,
    upper: Position,
    above: Seq<char>,
    lower: Position,
    below: Seq<char>,
)
    requires
        upper.line < lower.line,
        on_line(text, encoding, upper),
        on_line(text, encoding, lower),
    ensures
        encode_utf8(
            apply_change(
                encoding,
                apply_change(encoding, text, insertion(lower, below)),
                insertion(upper, above),
            ),
        ) == both_put_in(
            text,
            place(text, encoding, upper),
            above,
            place(text, encoding, lower),
            below,
        ),
{
    lemma_places(encoding, text, upper, lower);
    let at_upper = place(text, encoding, upper);
    let at_lower = place(text, encoding, lower);
    let lowered = splice(text, at_lower, at_lower, below);
    lemma_place_stays(encoding, text, upper, lower, below);
    lemma_splice_bytes(text, at_lower, at_lower, below);
    let one = splice(lowered, at_upper, at_upper, above);
    assert(apply_change(encoding, lowered, insertion(upper, above)) == one) by {
        assert(text_range_of(
            encode_utf8(lowered),
            encoding,
            Range { start: upper, end: upper },
        ) == Ok::<(int, int), crate::protocol::PositionError>((at_upper, at_upper)));
    }
    lemma_splice_bytes(lowered, at_upper, at_upper, above);
    lemma_put_in_twice_in_front(
        encode_utf8(text),
        encode_utf8(above),
        encode_utf8(below),
        at_upper,
        at_lower,
    );
}

/// Text without a newline that is put in at a place: what the bytes are
/// then.
proof fn lemma_splice_puts_in(text: Seq<char>, at: int, with: Seq<char>)
    requires
        can_splice(text, at, at),
        no_newline(with),
    ensures
        put_in(
            encode_utf8(text),
            encode_utf8(splice(text, at, at, with)),
            at,
            encode_utf8(with).len() as int,
        ),
{
    lemma_splice_bytes(text, at, at, with);
    let after = encode_utf8(splice(text, at, at, with));
    assert forall|i: int| at <= i < at + encode_utf8(with).len() implies after[i]
        != newline() by {
        assert(after[i] == encode_utf8(with)[i - at]);
    }
}

/// Where the lower place lies once text was put in at the upper place: as
/// far on as that text is long, and text can still be put in there.
proof fn lemma_place_moves_on(
    encoding: PositionEncoding,
    text: Seq<char>,
    upper: Position,
    above: Seq<char>,
    lower: Position,
)
    requires
        upper.line < lower.line,
        on_line(text, encoding, upper),
        on_line(text, encoding, lower),
        no_newline(above),
    ensures
        ({
            let raised = splice(
                text,
                place(text, encoding, upper),
                place(text, encoding, upper),
                above,
            );
            let there = place(text, encoding, lower) + encode_utf8(above).len();
            &&& offset_of(encode_utf8(raised), encoding, lower) == Ok::<
                int,
                crate::protocol::PositionError,
            >(there)
            &&& can_splice(raised, there, there)
        }),
{
    let bytes = encode_utf8(text);
    lemma_places(encoding, text, upper, lower);
    let at_upper = place(text, encoding, upper);
    let at_lower = place(text, encoding, lower);
    let n_above = encode_utf8(above).len() as int;
    encode_utf8_valid_utf8(text);
    let raised = splice(text, at_upper, at_upper, above);
    let raised_bytes = encode_utf8(raised);
    encode_utf8_valid_utf8(raised);
    lemma_splice_puts_in(text, at_upper, above);
    lemma_later_lines_move_on(
        bytes,
        raised_bytes,
        at_upper,
        n_above,
        upper.line as nat,
        lower.line as nat,
    );
    assert(byte_column(raised_bytes, encoding, lower) == byte_column(bytes, encoding, lower));
    assert(is_char_boundary(raised_bytes, at_lower + n_above)) by {
        if at_lower < bytes.len() {
            assert(raised_bytes[at_lower + n_above] == bytes[at_lower]);
            is_char_boundary_iff_not_is_continuation_byte(bytes, at_lower);
            is_char_boundary_iff_not_is_continuation_byte(raised_bytes, at_lower + n_above);
        } else {
            is_char_boundary_start_end_of_seq(raised_bytes);
        }
    }
}

/// Bytes put in at a place, and more bytes put in behind them, as far on as
/// the first are long: both stand in the text, each at its place.
proof fn lemma_put_in_twice(
    bytes: Seq<u8>,
    above: Seq<u8>,
    below: Seq<u8>,
    upper: int,
    lower: int,
)
    requires
        0 <= upper <= lower <= bytes.len(),
    ensures
        ({
            let raised = bytes.subrange(0, upper) + above + bytes.subrange(
                upper,
                bytes.len() as int,
            );
            let there = lower + above.len();
            raised.subrange(0, there) + below + raised.subrange(there, raised.len() as int)
                == bytes.subrange(0, upper) + above + bytes.subrange(upper, lower) + below
                + bytes.subrange(lower, bytes.len() as int)
        }),
{
    let raised = bytes.subrange(0, upper) + above + bytes.subrange(upper, bytes.len() as int);
    let there = lower + above.len();
    assert(raised.subrange(0, there) + below + raised.subrange(there, raised.len() as int)
        =~= bytes.subrange(0, upper) + above + bytes.subrange(upper, lower) + below
        + bytes.subrange(lower, bytes.len() as int));
}

/// The upper insertion first and the lower one behind it put both texts in.
proof fn lemma_upper_first(
    encoding: PositionEncoding,
    text: Seq<char>,
    upper: Position,
    above: Seq<char>,
    lower: Position,
    below: Seq<char>,
)
    requires
        upper.line < lower.line,
        on_line(text, encoding, upper),
        on_line(text, encoding, lower),
        no_newline(above),
    ensures
        encode_utf8(
            apply_change(
                encoding,
                apply_change(encoding, text, insertion(upper, above)),
                insertion(lower, below),
            ),
        ) == both_put_in(
            text,
            place(text, encoding, upper),
            above,
            place(text, encoding, lower),
            below,
        ),
{
    lemma_places(encoding, text, upper, lower);
    let at_upper = place(text, encoding, upper);
    let at_lower = place(text, encoding, lower);
    let there = at_lower + encode_utf8(above).len();
    let raised = splice(text, at_upper, at_upper, above);
    assert(apply_change(encoding, text, insertion(upper, above)) == raised) by {
        assert(text_range_of(
            encode_utf8(text),
            encoding,
            Range { start: upper, end: upper },
        ) == Ok::<(int, int), crate::protocol::PositionError>((at_upper, at_upper)));
    }
    lemma_splice_bytes(text, at_upper, at_upper, above);
    lemma_place_moves_on(encoding, text, upper, above, lower);
    let other = splice(raised, there, there, below);
    assert(apply_change(encoding, raised, insertion(lower, below)) == other) by {
        assert(text_range_of(
            encode_utf8(raised),
            encoding,
            Range { start: lower, end: lower },
        ) == Ok::<(int, int), crate::protocol::PositionError>((there, there)));
    }
    lemma_splice_bytes(raised, there, there, below);
    lemma_put_in_twice(
        encode_utf8(text),
        encode_utf8(above),
        encode_utf8(below),
        at_upper,
        at_lower,
    );
}

/// A batch of two changes, applied change by change.
proof fn lemma_two_in_order(
    encoding: PositionEncoding,
    text: Seq<char>,
    first: Change,
    second: Change,
)
    ensures
        apply_in_order(encoding, text, seq![first, second]) == apply_change(
            encoding,
            apply_change(encoding, text, first),
            second,
        ),
{
    let both = seq![first, second];
    let rest = both.drop_first();
    assert(rest[0] == second);
    assert(rest.drop_first().len() == 0);
    let middle = apply_change(encoding, text, first);
    assert(apply_in_order(encoding, middle, rest) == apply_in_order(
        encoding,
        apply_change(encoding, middle, second),
        rest.drop_first(),
    ));
}

/// Two insertions on different lines give the same text in either order,
/// where the upper one brings no newline and each names a place on its line
/// that splits no character: the text in which both stand at their places,
/// and every byte of the text that was there before stands where it stood
/// among the others.
pub proof fn lemma_insertions_commute(
    encoding: PositionEncoding,
    text: Seq<char>,
    upper: Position,
    above: Seq<char>,
    lower: Position,
    below: Seq<char>,
)
    requires
        upper.line < lower.line,
        on_line(text, encoding, upper),
        on_line(text, encoding, lower),
        no_newline(above),
    ensures
        apply_changes(encoding, text, seq![insertion(lower, below), insertion(upper, above)])
            == apply_changes(
            encoding,
            text,
            seq![insertion(upper, above), insertion(lower, below)],
        ),
        encode_utf8(
            apply_changes(
                encoding,
                text,
                seq![insertion(upper, above), insertion(lower, below)],
            ),
        ) == both_put_in(
            text,
            place(text, encoding, upper),
            above,
            place(text, encoding, lower),
            below,
        ),
        offset_of(encode_utf8(text), encoding, upper) is Ok,
        offset_of(encode_utf8(text), encoding, lower) is Ok,
        0 <= place(text, encoding, upper) < place(text, encoding, lower) <= encode_utf8(
            text,
        ).len(),
{
    lemma_places(encoding, text, upper, lower);
    let first = seq![insertion(lower, below), insertion(upper, above)];
    let second = seq![insertion(upper, above), insertion(lower, below)];
    lemma_changes_apply_in_order(encoding, text, first);
    lemma_changes_apply_in_order(encoding, text, second);
    lemma_two_in_order(encoding, text, insertion(lower, below), insertion(upper, above));
    lemma_two_in_order(encoding, text, insertion(upper, above), insertion(lower, below));
    lemma_lower_first(encoding, text, upper, above, lower, below);
    lemma_upper_first(encoding, text, upper, above, lower, below);
    let one = apply_in_order(encoding, text, first);
    let other = apply_in_order(encoding, text, second);
    vstd::utf8::encode_utf8_decode_utf8(one);
    vstd::utf8::encode_utf8_decode_utf8(other);
}

} // verus!
