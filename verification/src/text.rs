use vstd::prelude::*;
use vstd::utf8::{encode_utf8, encode_utf8_decode_utf8};

verus! {

/// The byte that ends a line.
pub open spec fn newline() -> u8 {
    0x0Au8
}

/// The offset just behind the first newline at or after `from`, if there is
/// one.
pub open spec fn next_line_start(text: Seq<u8>, from: int) -> Option<int>
    decreases text.len() - from,
{
    if from < 0 || from >= text.len() {
        None
    } else if text[from] == newline() {
        Some(from + 1)
    } else {
        next_line_start(text, from + 1)
    }
}

/// The offset at which line `line` starts: 0 for the first line, and behind
/// the `line`-th newline for the others. `None` where the text has fewer
/// newlines.
pub open spec fn line_start(text: Seq<u8>, line: nat) -> Option<int>
    decreases line,
{
    if line == 0 {
        Some(0)
    } else {
        match line_start(text, (line - 1) as nat) {
            Some(start) => next_line_start(text, start),
            None => None,
        }
    }
}

/// Where the line that starts at `start` ends: behind its newline, or at the
/// end of the text.
pub open spec fn line_end(text: Seq<u8>, start: int) -> int {
    match next_line_start(text, start) {
        Some(end) => end,
        None => text.len() as int,
    }
}

/// The byte range of line `line`, its newline included.
pub open spec fn line_span(text: Seq<u8>, line: nat) -> Option<(int, int)> {
    match line_start(text, line) {
        Some(start) => Some((start, line_end(text, start))),
        None => None,
    }
}

/// The bytes of line `line`, its newline included; empty where the text has
/// no such line.
pub open spec fn line_bytes(text: Seq<u8>, line: nat) -> Seq<u8> {
    match line_span(text, line) {
        Some((start, end)) => text.subrange(start, end),
        None => Seq::empty(),
    }
}

/// The views of a vector that has grown by one element are the views it had,
/// and the view of that element.
pub proof fn lemma_deep_view_push<T: DeepView>(before: Vec<T>, after: Vec<T>, last: T)
    requires
        after@ == before@.push(last),
    ensures
        after.deep_view() == before.deep_view().push(last.deep_view()),
{
    assert(after.deep_view() =~= before.deep_view().push(last.deep_view()));
}

/// Whether two texts are equal, byte for byte.
pub fn same_text(a: &str, b: &str) -> (r: bool)
    ensures
        r == (a@ == b@),
{
    let left = a.as_bytes();
    let right = b.as_bytes();
    proof {
        encode_utf8_decode_utf8(a@);
        encode_utf8_decode_utf8(b@);
    }
    if left.len() != right.len() {
        return false;
    }
    let mut i: usize = 0;
    while i < left.len()
        invariant
            i <= left.len(),
            left.len() == right.len(),
            left@ == encode_utf8(a@),
            right@ == encode_utf8(b@),
            forall|k: int| 0 <= k < i ==> left@[k] == right@[k],
        decreases left.len() - i,
    {
        if left[i] != right[i] {
            return false;
        }
        i += 1;
    }
    assert(left@ =~= right@);
    true
}

/// A line start found from `from` lies behind `from` and inside the text.
pub proof fn lemma_next_line_start_bounds(text: Seq<u8>, from: int)
    ensures
        match next_line_start(text, from) {
            Some(next) => from < next <= text.len() && 0 <= from,
            None => true,
        },
    decreases text.len() - from,
{
    if 0 <= from < text.len() && text[from] != newline() {
        lemma_next_line_start_bounds(text, from + 1);
    }
}

/// Every line lies inside the text, and ends no earlier than it starts.
pub proof fn lemma_line_span_bounds(text: Seq<u8>, line: nat)
    ensures
        match line_span(text, line) {
            Some((start, end)) => 0 <= start <= end <= text.len(),
            None => true,
        },
    decreases line,
{
    if line > 0 {
        lemma_line_span_bounds(text, (line - 1) as nat);
        match line_start(text, (line - 1) as nat) {
            Some(start) => lemma_next_line_start_bounds(text, start),
            None => {},
        }
    }
    match line_start(text, line) {
        Some(start) => lemma_next_line_start_bounds(text, start),
        None => {},
    }
}

} // verus!
