use blase::protocol::{ChangeEvent, Position, PositionEncoding, WideEncoding};
use blase::util::{apply_document_changes, batch_fits, try_apply_document_changes};

fn ranged(sl: u32, sc: u32, el: u32, ec: u32, text: &str) -> ChangeEvent {
    ChangeEvent::ranged(
        Position { line: sl, character: sc },
        Position { line: el, character: ec },
        String::from(text),
    )
}

const UTF16: PositionEncoding = PositionEncoding::Wide(WideEncoding::Utf16);

#[test]
fn full_replace_gives_the_new_text() {
    for encoding in [PositionEncoding::Utf8, UTF16, PositionEncoding::Wide(WideEncoding::Utf32)] {
        let text = apply_document_changes(
            encoding,
            "anything\nat all",
            vec![ChangeEvent::full(String::from("new 😀 text"))],
        );
        assert_eq!(text, "new 😀 text");
    }
}

#[test]
fn empty_batch_changes_nothing() {
    let text = apply_document_changes(UTF16, "a\nb😀", vec![]);
    assert_eq!(text, "a\nb😀");
}

#[test]
fn last_full_replace_wins() {
    let text = apply_document_changes(
        UTF16,
        "old",
        vec![
            ranged(0, 0, 0, 0, "x"),
            ChangeEvent::full(String::from("first")),
            ranged(0, 0, 0, 0, "y"),
            ChangeEvent::full(String::from("second")),
            ranged(0, 6, 0, 6, "!"),
        ],
    );
    assert_eq!(text, "second!");
}

#[test]
fn changes_apply_in_order_against_the_changed_text() {
    let batch = vec![ranged(0, 3, 0, 3, " quick"), ranged(0, 0, 0, 4, "")];
    let together = apply_document_changes(UTF16, "the", batch);
    let first = apply_document_changes(UTF16, "the", vec![ranged(0, 3, 0, 3, " quick")]);
    assert_eq!(first, "the quick");
    let second = apply_document_changes(UTF16, &first, vec![ranged(0, 0, 0, 4, "")]);
    assert_eq!(second, "quick");
    assert_eq!(together, second);
}

#[test]
fn reverse_and_forward_order_agree() {
    let before = "the quick foxes\nhave dreams";
    // Lower line first: the second range is given against the text after the first.
    let forward = apply_document_changes(
        UTF16,
        before,
        vec![ranged(0, 0, 0, 0, "ALL "), ranged(1, 0, 1, 0, "they ")],
    );
    // Higher line first.
    let reverse = apply_document_changes(
        UTF16,
        before,
        vec![ranged(1, 0, 1, 0, "they "), ranged(0, 0, 0, 0, "ALL ")],
    );
    assert_eq!(forward, "ALL the quick foxes\nthey have dreams");
    assert_eq!(reverse, forward);
}

#[test]
fn insertion_of_lines_moves_later_ranges() {
    let text = apply_document_changes(
        UTF16,
        "a\nb",
        vec![ranged(0, 0, 0, 0, "x\ny\n"), ranged(3, 0, 3, 1, "B")],
    );
    assert_eq!(text, "x\ny\na\nB");
}

#[test]
fn insert_at_column_zero_lands_before_a_surrogate_pair() {
    let text = apply_document_changes(UTF16, "x\n😀", vec![ranged(1, 0, 1, 0, "a")]);
    assert_eq!(text, "x\na😀");
    let text = apply_document_changes(UTF16, "😀", vec![ranged(0, 2, 0, 2, "a")]);
    assert_eq!(text, "😀a");
}

#[test]
fn range_inside_a_character_is_dropped() {
    // Byte column 1 lies inside the two bytes of 'é'.
    let text = apply_document_changes(
        PositionEncoding::Utf8,
        "é!",
        vec![ranged(0, 1, 0, 1, "x"), ranged(0, 2, 0, 3, "?")],
    );
    assert_eq!(text, "é?");
    // UTF-16 column 1 lies between the two units of the emoji.
    let text = apply_document_changes(UTF16, "😀", vec![ranged(0, 1, 0, 1, "x")]);
    assert_eq!(text, "😀");
}

#[test]
fn invalid_ranges_are_dropped_and_the_batch_goes_on() {
    let text = apply_document_changes(
        UTF16,
        "ab\ncd",
        vec![
            ranged(9, 0, 9, 0, "lost"),
            ranged(1, 1, 0, 1, "lost"),
            ranged(1, 2, 1, 2, "!"),
        ],
    );
    assert_eq!(text, "ab\ncd!");
}

#[test]
fn utf8_and_utf32_columns() {
    let text = apply_document_changes(
        PositionEncoding::Utf8,
        "é😀b",
        vec![ranged(0, 6, 0, 7, "c")],
    );
    assert_eq!(text, "é😀c");
    let text = apply_document_changes(
        PositionEncoding::Wide(WideEncoding::Utf32),
        "é😀b",
        vec![ranged(0, 2, 0, 3, "c")],
    );
    assert_eq!(text, "é😀c");
}

#[test]
fn small_batches_fit() {
    let batch = vec![ranged(0, 0, 0, 0, "abc"), ChangeEvent::full(String::from("xyz"))];
    assert!(batch_fits("some text", &batch));
    assert!(batch_fits("", &vec![]));
}

#[test]
fn try_apply_gives_the_same_text() {
    let text = try_apply_document_changes(UTF16, "the", vec![ranged(0, 3, 0, 3, " quick")]);
    assert_eq!(text, Some(String::from("the quick")));
}

#[test]
fn column_far_behind_the_line_applies_at_the_line_end() {
    for encoding in [PositionEncoding::Utf8, UTF16, PositionEncoding::Wide(WideEncoding::Utf32)] {
        let text = apply_document_changes(
            encoding,
            "é",
            vec![ranged(0, u32::MAX, 0, u32::MAX, "!")],
        );
        assert_eq!(text, "é!");
        let text = apply_document_changes(
            encoding,
            "e\nb",
            vec![ranged(0, 1, 0, u32::MAX, "")],
        );
        assert_eq!(text, "eb");
    }
}

#[test]
fn whole_document_batches_always_fit() {
    assert!(batch_fits("anything", &vec![ChangeEvent::full(String::from("x"))]));
    assert!(batch_fits(
        "anything",
        &vec![ranged(0, 0, 0, 0, "lost"), ChangeEvent::full(String::from("x"))]
    ));
}

#[test]
fn insertions_on_different_lines_commute() {
    for encoding in [PositionEncoding::Utf8, UTF16, PositionEncoding::Wide(WideEncoding::Utf32)] {
        let text = "a😀b\nc😀d\ne";
        let upper = |s: &str| ranged(0, 1, 0, 1, s);
        let lower = |s: &str| ranged(1, 1, 1, 1, s);
        let one = apply_document_changes(encoding, text, vec![lower("X\nY"), upper("é")]);
        let other = apply_document_changes(encoding, text, vec![upper("é"), lower("X\nY")]);
        assert_eq!(one, "aé😀b\ncX\nY😀d\ne");
        assert_eq!(one, other);
    }
}
