use blase::protocol::{ChangeEvent, Position, PositionEncoding, WideEncoding};
use blase::util::apply_document_changes;

fn ranged(sl: u32, sc: u32, el: u32, ec: u32, text: &str) -> ChangeEvent {
    ChangeEvent::ranged(
        Position { line: sl, character: sc },
        Position { line: el, character: ec },
        String::from(text),
    )
}

#[test]
fn test_apply_document_changes() {
    let encoding = PositionEncoding::Wide(WideEncoding::Utf16);
    let text = apply_document_changes(encoding, "", vec![]);
    assert_eq!(text, "");
    let text = apply_document_changes(
        encoding,
        &text,
        vec![ChangeEvent::full(String::from("the"))],
    );
    assert_eq!(text, "the");
    let text = apply_document_changes(encoding, &text, vec![ranged(0, 3, 0, 3, " quick")]);
    assert_eq!(text, "the quick");
    let text = apply_document_changes(
        encoding,
        &text,
        vec![ranged(0, 0, 0, 4, ""), ranged(0, 5, 0, 5, " foxes")],
    );
    assert_eq!(text, "quick foxes");
    let text = apply_document_changes(encoding, &text, vec![ranged(0, 11, 0, 11, "\ndream")]);
    assert_eq!(text, "quick foxes\ndream");
    let text = apply_document_changes(encoding, &text, vec![ranged(1, 0, 1, 0, "have ")]);
    assert_eq!(text, "quick foxes\nhave dream");
    let text = apply_document_changes(
        encoding,
        &text,
        vec![
            ranged(0, 0, 0, 0, "the "),
            ranged(1, 4, 1, 4, " quiet"),
            ranged(1, 16, 1, 16, "s\n"),
        ],
    );
    assert_eq!(text, "the quick foxes\nhave quiet dreams\n");
    let text = apply_document_changes(
        encoding,
        &text,
        vec![ranged(0, 15, 0, 15, "\n"), ranged(2, 17, 2, 17, "\n")],
    );
    assert_eq!(text, "the quick foxes\n\nhave quiet dreams\n\n");
    let text = apply_document_changes(
        encoding,
        &text,
        vec![
            ranged(1, 0, 1, 0, "DREAM"),
            ranged(2, 0, 2, 0, "they "),
            ranged(3, 0, 3, 0, "DON'T THEY?"),
        ],
    );
    assert_eq!(
        text,
        "the quick foxes\nDREAM\nthey have quiet dreams\nDON'T THEY?\n"
    );
    let text = apply_document_changes(
        encoding,
        &text,
        vec![ranged(0, 10, 1, 5, ""), ranged(2, 0, 2, 12, "")],
    );
    assert_eq!(text, "the quick \nthey have quiet dreams\n");

    let text = String::from("❤️");
    let text = apply_document_changes(encoding, &text, vec![ranged(0, 0, 0, 0, "a")]);
    assert_eq!(text, "a❤️");

    let text = String::from("a\nb");
    let text = apply_document_changes(
        encoding,
        &text,
        vec![ranged(0, 1, 1, 0, "\nțc"), ranged(0, 1, 1, 1, "d")],
    );
    assert_eq!(text, "adcb");

    let text = String::from("a\nb");
    let text = apply_document_changes(
        encoding,
        &text,
        vec![ranged(0, 1, 1, 0, "ț\nc"), ranged(0, 2, 0, 2, "c")],
    );
    assert_eq!(text, "ațc\ncb");
}
