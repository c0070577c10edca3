use vstd::prelude::*;
use vstd::utf8::{decode_utf8, encode_utf8, encode_utf8_decode_utf8, is_char_boundary};
use crate::batch_laws::{apply_in_order, lemma_changes_apply_in_order, ordered};
use crate::position::{text_range, text_range_of, LineMap};
use crate::protocol::{Change, ChangeEvent, PositionEncoding};

verus! {

/// `text` with the bytes from `start` to `end` replaced by `with`.
pub open spec fn splice(text: Seq<char>, start: int, end: int, with: Seq<char>) -> Seq<char> {
    let bytes = encode_utf8(text);
    decode_utf8(
        bytes.subrange(0, start) + encode_utf8(with) + bytes.subrange(end, bytes.len() as int),
    )
}

/// Whether the bytes from `start` to `end` can be cut out of `text`: the
/// range lies inside the text, and neither end splits a character.
pub open spec fn can_splice(text: Seq<char>, start: int, end: int) -> bool {
    let bytes = encode_utf8(text);
    &&& 0 <= start <= end <= bytes.len()
    &&& is_char_boundary(bytes, start)
    &&& is_char_boundary(bytes, end)
}

/// One ranged change: the range is looked up in the text `indexed`, and what
/// lies there in `text` gives way to `with`. A range that has no place in
/// `indexed`, or that cannot be cut out of `text`, leaves the text as it is.
pub open spec fn apply_range(
    encoding: PositionEncoding,
    text: Seq<char>,
    indexed: Seq<u8>,
    range: crate::protocol::Range,
    with: Seq<char>,
) -> Seq<char> {
    match text_range_of(indexed, encoding, range) {
        Ok((start, end)) => if can_splice(text, start, end) {
            splice(text, start, end, with)
        } else {
            text
        },
        Err(_) => text,
    }
}

/// The ranged changes of `changes`, applied to `text` one after the other.
/// `indexed` is the text whose lines the index in hand describes, and
/// `valid` the line below which it still describes `text`: a change that
/// ends at or behind that line is looked up in `text` itself. Whole-document
/// changes among `changes` are passed over.
pub open spec fn apply_ranged(
    encoding: PositionEncoding,
    text: Seq<char>,
    indexed: Seq<u8>,
    valid: u32,
    changes: Seq<Change>,
) -> Seq<char>
    decreases changes.len(),
{
    if changes.len() == 0 {
        text
    } else {
        match changes[0] {
            Change::Full(_) => apply_ranged(encoding, text, indexed, valid, changes.drop_first()),
            Change::Ranged(range, with) => {
                let indexed = if valid <= range.end.line {
                    encode_utf8(text)
                } else {
                    indexed
                };
                apply_ranged(
                    encoding,
                    apply_range(encoding, text, indexed, range, with),
                    indexed,
                    range.start.line,
                    changes.drop_first(),
                )
            },
        }
    }
}

/// The place of the last whole-document change in `changes`.
pub open spec fn last_full(changes: Seq<Change>) -> Option<int>
    decreases changes.len(),
{
    if changes.len() == 0 {
        None
    } else if changes.last() is Full {
        Some(changes.len() - 1)
    } else {
        last_full(changes.drop_last())
    }
}

/// The document that a batch of changes makes of `document`: the last
/// whole-document change, if there is one, gives the text to start from, and
/// the ranged changes behind it are applied in their order.
pub open spec fn apply_changes(encoding: PositionEncoding, document: Seq<char>, changes: Seq<Change>)
    -> Seq<char> {
    match last_full(changes) {
        Some(at) => {
            let start = changes[at].text();
            apply_ranged(
                encoding,
                start,
                encode_utf8(start),
                u32::MAX,
                changes.subrange(at + 1, changes.len() as int),
            )
        },
        None => apply_ranged(encoding, document, encode_utf8(document), u32::MAX, changes),
    }
}

/// The number of bytes that the changes bring, all together.
pub open spec fn inserted_bytes(changes: Seq<Change>) -> nat
    decreases changes.len(),
{
    if changes.len() == 0 {
        0
    } else {
        encode_utf8(changes[0].text()).len() + inserted_bytes(changes.drop_first())
    }
}

/// The changes from `from` on bring no more bytes than all of them, and the
/// one at `from` is counted among them.
pub proof fn lemma_inserted_bytes_suffix(changes: Seq<Change>, from: int)
    requires
        0 <= from <= changes.len(),
    ensures
        inserted_bytes(changes.subrange(from, changes.len() as int)) <= inserted_bytes(changes),
        from < changes.len() ==> encode_utf8(changes[from].text()).len() + inserted_bytes(
            changes.subrange(from + 1, changes.len() as int),
        ) == inserted_bytes(changes.subrange(from, changes.len() as int)),
    decreases from,
{
    let n = changes.len() as int;
    if from < n {
        let tail = changes.subrange(from, n);
        assert(tail.drop_first() == changes.subrange(from + 1, n));
    }
    if from == 0 {
        assert(changes.subrange(0, n) == changes);
    } else {
        lemma_inserted_bytes_suffix(changes, from - 1);
        let tail = changes.subrange(from - 1, n);
        assert(tail.drop_first() == changes.subrange(from, n));
    }
}

/// A batch of one whole-document change gives the text of that change,
/// whatever the document held before.
pub proof fn lemma_full_replace(
    encoding: PositionEncoding,
    document: Seq<char>,
    replacement: Seq<char>,
)
    ensures
        apply_changes(encoding, document, seq![Change::Full(replacement)]) == replacement,
        fits(document, seq![Change::Full(replacement)]),
{
    let changes = seq![Change::Full(replacement)];
    assert(changes.last() is Full);
    assert(changes.subrange(1, 1).len() == 0);
}

/// A batch that holds a whole-document change gives the same text whatever
/// the document held before.
pub proof fn lemma_full_replace_forgets(
    encoding: PositionEncoding,
    one: Seq<char>,
    other: Seq<char>,
    changes: Seq<Change>,
)
    requires
        exists|i: int| 0 <= i < changes.len() && #[trigger] changes[i] is Full,
    ensures
        apply_changes(encoding, one, changes) == apply_changes(encoding, other, changes),
{
    lemma_last_full_found(changes);
}

/// A batch that holds a whole-document change has a last one.
pub proof fn lemma_last_full_found(changes: Seq<Change>)
    requires
        exists|i: int| 0 <= i < changes.len() && #[trigger] changes[i] is Full,
    ensures
        last_full(changes) is Some,
    decreases changes.len(),
{
    let i = choose|i: int| 0 <= i < changes.len() && #[trigger] changes[i] is Full;
    if !(changes.last() is Full) {
        assert(changes.drop_last()[i] is Full);
        lemma_last_full_found(changes.drop_last());
    }
}

/// An empty batch leaves the document as it is.
pub proof fn lemma_empty_batch(encoding: PositionEncoding, document: Seq<char>)
    ensures
        apply_changes(encoding, document, Seq::<Change>::empty()) == document,
        fits(document, Seq::<Change>::empty()),
{
}

/// Calls `String::replace_range` on the byte range `start..end`: those bytes
/// leave and the bytes of `with` take their place. The call fails on a range
/// that leaves the text or splits a character, which the precondition
/// leaves out.
#[verifier::external_body]
fn replace_range(text: &mut String, start: usize, end: usize, with: &str)
    requires
        start <= end <= encode_utf8(old(text)@).len(),
        is_char_boundary(encode_utf8(old(text)@), start as int),
        is_char_boundary(encode_utf8(old(text)@), end as int),
    ensures
        encode_utf8(final(text)@) == encode_utf8(old(text)@).subrange(0, start as int)
            + encode_utf8(with@) + encode_utf8(old(text)@).subrange(
            end as int,
            encode_utf8(old(text)@).len() as int,
        ),
{
    text.replace_range(start..end, with)
}

/// The place of the last whole-document change in `changes`.
fn last_full_change(changes: &Vec<ChangeEvent>) -> (r: Option<usize>)
    ensures
        match r {
            Some(at) => last_full(changes.deep_view()) == Some(at as int) && at < changes.len(),
            None => last_full(changes.deep_view()) is None,
        },
{
    let ghost all = changes.deep_view();
    let mut i: usize = changes.len();
    assert(all.subrange(0, i as int) == all);
    while i > 0
        invariant
            i <= changes.len(),
            all == changes.deep_view(),
            last_full(all) == last_full(all.subrange(0, i as int)),
        decreases i,
    {
        let ghost head = all.subrange(0, i as int);
        assert(head.last() == changes@[i - 1]@);
        match &changes[i - 1] {
            ChangeEvent::Full { .. } => {
                return Some(i - 1);
            },
            ChangeEvent::Ranged { .. } => {
                assert(head.drop_last() == all.subrange(0, i - 1));
            },
        }
        i -= 1;
    }
    assert(all.subrange(0, 0).len() == 0);
    None
}

/// The text that a batch starts from: that of its last whole-document
/// change, and the document where it holds none.
pub open spec fn starting_text(document: Seq<char>, changes: Seq<Change>) -> Seq<char> {
    match last_full(changes) {
        Some(at) => changes[at].text(),
        None => document,
    }
}

/// The changes of a batch that are applied to the text it starts from: those
/// behind its last whole-document change, and all where it holds none.
pub open spec fn incremental(changes: Seq<Change>) -> Seq<Change> {
    match last_full(changes) {
        Some(at) => changes.subrange(at + 1, changes.len() as int),
        None => changes,
    }
}

/// Whether every offset fits 32 bits while the batch is applied. A batch
/// that leaves nothing to apply to the text it starts from needs no
/// offsets; for any other, the text it starts from and what the changes
/// behind that bring stay below `u32::MAX` bytes together.
pub open spec fn fits(text: Seq<char>, changes: Seq<Change>) -> bool {
    incremental(changes).len() == 0 || encode_utf8(starting_text(text, changes)).len()
        + inserted_bytes(incremental(changes)) < u32::MAX
}

/// Whether every offset fits 32 bits while `content_changes` is applied to
/// `file_contents`.
pub fn batch_fits(file_contents: &str, content_changes: &Vec<ChangeEvent>) -> (r: bool)
    ensures
        r == fits(file_contents@, content_changes.deep_view()),
{
    let ghost all = content_changes.deep_view();
    let n = content_changes.len();
    let limit: usize = 0xFFFF_FFFF;
    let (base, from): (usize, usize) = match last_full_change(content_changes) {
        Some(at) => {
            assert(all[at as int] == content_changes@[at as int]@);
            match &content_changes[at] {
                ChangeEvent::Full { text } => (text.as_str().as_bytes().len(), at + 1),
                ChangeEvent::Ranged { text, .. } => (text.as_str().as_bytes().len(), at + 1),
            }
        },
        None => {
            assert(all.subrange(0, n as int) == all);
            (file_contents.as_bytes().len(), 0)
        },
    };
    let ghost rest = all.subrange(from as int, n as int);
    assert(rest == incremental(all));
    if from == n {
        return true;
    }
    if base >= limit {
        return false;
    }
    let mut total: usize = base;
    let mut i: usize = n;
    assert(rest.subrange(rest.len() as int, rest.len() as int).len() == 0);
    while i > from
        invariant
            from <= i <= n,
            n == content_changes.len(),
            all == content_changes.deep_view(),
            rest == all.subrange(from as int, n as int),
            rest == incremental(all),
            limit == u32::MAX,
            total < limit,
            base == encode_utf8(starting_text(file_contents@, all)).len(),
            total == base + inserted_bytes(rest.subrange(i - from, rest.len() as int)),
        decreases i,
    {
        proof {
            lemma_inserted_bytes_suffix(rest, i - 1 - from);
            lemma_inserted_bytes_suffix(rest, i - from);
            assert(rest[i - 1 - from] == content_changes@[i - 1]@);
        }
        let added = match &content_changes[i - 1] {
            ChangeEvent::Full { text } => text.as_str().as_bytes().len(),
            ChangeEvent::Ranged { text, .. } => text.as_str().as_bytes().len(),
        };
        if added >= limit - total {
            return false;
        }
        total = total + added;
        i -= 1;
    }
    assert(rest.subrange(0, rest.len() as int) == rest);
    true
}

/// Folds a batch of changes into a document. The last whole-document change
/// of the batch, if it has one, gives the text to start from; the ranged
/// changes behind it are applied in the order given, each against the text
/// that the changes before it left. A range that has no place in the text is
/// dropped, and the rest of the batch goes on.
///
/// The line index is built once and built anew only for a change that ends
/// at or behind the line on which the change before it started. Where every
/// range starts no later than it ends, that gives what an index built anew
/// for every change gives.
///
/// Offsets are 32 bits wide: where the batch leaves changes to apply to the
/// text it starts from, that text and what those changes bring stay below
/// `u32::MAX` bytes together.
pub fn apply_document_changes(
    encoding: PositionEncoding,
    file_contents: &str,
    content_changes: Vec<ChangeEvent>,
) -> (r: String)
    requires
        fits(file_contents@, content_changes.deep_view()),
    ensures
        r@ == apply_changes(encoding, file_contents@, content_changes.deep_view()),
        ordered(content_changes.deep_view()) ==> r@ == apply_in_order(
            encoding,
            file_contents@,
            content_changes.deep_view(),
        ),
{
    let ghost all = content_changes.deep_view();
    proof {
        if ordered(all) {
            lemma_changes_apply_in_order(encoding, file_contents@, all);
        }
    }
    let n = content_changes.len();
    let (mut text, from): (String, usize) = match last_full_change(&content_changes) {
        Some(at) => {
            assert(all[at as int] == content_changes@[at as int]@);
            match &content_changes[at] {
                ChangeEvent::Full { text } => (text.clone(), at + 1),
                ChangeEvent::Ranged { text, .. } => (text.clone(), at + 1),
            }
        },
        None => {
            assert(all.subrange(0, n as int) == all);
            (file_contents.to_owned(), 0)
        },
    };
    assert(all.subrange(from as int, n as int) == incremental(all));
    if from == n {
        assert(all.subrange(n as int, n as int).len() == 0);
        return text;
    }
    let mut line_index = LineMap::new(text.as_str(), encoding);
    let mut index_valid: u32 = u32::MAX;
    let mut k: usize = from;
    while k < n
        invariant
            from <= k <= n,
            n == content_changes.len(),
            all == content_changes.deep_view(),
            line_index.encoding() == encoding,
            encode_utf8(text@).len() + inserted_bytes(all.subrange(k as int, n as int))
                < u32::MAX,
            apply_ranged(
                encoding,
                text@,
                line_index.bytes(),
                index_valid,
                all.subrange(k as int, n as int),
            ) == apply_changes(encoding, file_contents@, all),
        decreases n - k,
    {
        let ghost rest = all.subrange(k as int, n as int);
        proof {
            lemma_inserted_bytes_suffix(all, k as int);
            assert(rest[0] == content_changes@[k as int]@);
            assert(rest.drop_first() == all.subrange(k + 1, n as int));
        }
        match &content_changes[k] {
            ChangeEvent::Ranged { range, text: with } => {
                if index_valid <= range.end.line {
                    line_index = LineMap::new(text.as_str(), encoding);
                }
                index_valid = range.start.line;
                match text_range(&line_index, *range) {
                    Ok(found) => {
                        let start = found.start as usize;
                        let end = found.end as usize;
                        if end <= text.as_str().as_bytes().len() && text.as_str().is_char_boundary(
                            start,
                        ) && text.as_str().is_char_boundary(end) {
                            let ghost before = text@;
                            replace_range(&mut text, start, end, with.as_str());
                            proof {
                                encode_utf8_decode_utf8(text@);
                                assert(text@ == splice(before, start as int, end as int, with@));
                            }
                        }
                    },
                    Err(_) => {},
                }
            },
            ChangeEvent::Full { .. } => {},
        }
        k += 1;
    }
    assert(all.subrange(n as int, n as int).len() == 0);
    text
}

/// Folds a batch of changes into a document as [`apply_document_changes`]
/// does, where the document and the batch are small enough for 32-bit
/// offsets, and gives `None` where they are not.
pub fn try_apply_document_changes(
    encoding: PositionEncoding,
    file_contents: &str,
    content_changes: Vec<ChangeEvent>,
) -> (r: Option<String>)
    ensures
        r is Some <==> fits(file_contents@, content_changes.deep_view()),
        r matches Some(text) ==> text@ == apply_changes(
            encoding,
            file_contents@,
            content_changes.deep_view(),
        ),
{
    if batch_fits(file_contents, &content_changes) {
        Some(apply_document_changes(encoding, file_contents, content_changes))
    } else {
        None
    }
}

} // verus!
