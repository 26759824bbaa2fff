//! The mathematical model of a text: a sequence of UTF-8 bytes, its lines
//! and its scalar boundaries.
//!
//! A line ends with a line feed, alone or after a carriage return; the
//! terminator belongs to the line it ends. A text that ends with a terminator
//! has one more, empty, line after it.

use vstd::prelude::*;
use vstd::utf8::{
    is_char_boundary, is_char_boundary_iff_is_leading_byte,
    is_char_boundary_iff_not_is_continuation_byte, is_char_boundary_start_end_of_seq,
    length_of_first_scalar, pop_first_scalar, valid_first_scalar, valid_utf8, valid_utf8_concat,
    valid_utf8_split,
};

verus! {

/// The byte that ends a line.
pub const LINE_FEED: u8 = 0x0A;

/// The byte that may stand before a line feed and then ends the line with it.
pub const CARRIAGE_RETURN: u8 = 0x0D;

/// The byte of a tab.
pub const TAB: u8 = 0x09;

/// A byte that continues a multi-byte scalar (`10xxxxxx`).
pub open spec fn is_continuation(byte: u8) -> bool {
    0x80 <= byte <= 0xBF
}

/// `i` does not fall inside a multi-byte scalar of `text`.
pub open spec fn scalar_boundary(text: Seq<u8>, i: int) -> bool {
    i == 0 || i == text.len() || (0 < i < text.len() && !is_continuation(text[i]))
}

/// The greatest scalar boundary of `text` that is at most `i`.
pub open spec fn floor_boundary(text: Seq<u8>, i: int) -> int
    decreases i,
{
    if i <= 0 {
        0
    } else if i >= text.len() {
        text.len() as int
    } else if !is_continuation(text[i]) {
        i
    } else {
        floor_boundary(text, i - 1)
    }
}

/// `i` brought into `text` and down to a scalar boundary.
pub open spec fn clamp_index(text: Seq<u8>, i: int) -> int {
    floor_boundary(
        text,
        if i < text.len() {
            i
        } else {
            text.len() as int
        },
    )
}

/// The number of line feeds among the first `i` bytes: the index of the line
/// that holds position `i`.
pub open spec fn line_of(text: Seq<u8>, i: int) -> nat
    decreases i,
{
    if i <= 0 {
        0
    } else {
        line_of(text, i - 1) + if text[i - 1] == LINE_FEED {
            1nat
        } else {
            0nat
        }
    }
}

/// The number of lines of `text`, the empty line after a final terminator
/// included.
pub open spec fn line_count(text: Seq<u8>) -> nat {
    line_of(text, text.len() as int) + 1
}

/// `i` is where a line of `text` begins.
pub open spec fn is_line_start(text: Seq<u8>, i: int) -> bool {
    i == 0 || (0 < i <= text.len() && text[i - 1] == LINE_FEED)
}

/// Where the line that holds position `i` begins.
pub open spec fn line_start(text: Seq<u8>, i: int) -> int
    decreases i,
{
    if i <= 0 {
        0
    } else if text[i - 1] == LINE_FEED {
        i
    } else {
        line_start(text, i - 1)
    }
}

/// The first line feed at or after `i`, or the length of `text` if there is
/// none.
pub open spec fn line_break(text: Seq<u8>, i: int) -> int
    decreases text.len() - i,
{
    if i >= text.len() {
        text.len() as int
    } else if text[i] == LINE_FEED {
        i
    } else {
        line_break(text, i + 1)
    }
}

/// Where the line after the one that holds `i` begins, or the length of
/// `text` if that line is the last.
pub open spec fn next_line_start(text: Seq<u8>, i: int) -> int {
    let b = line_break(text, i);
    if b < text.len() {
        b + 1
    } else {
        b
    }
}

/// Where the visible part of the line that holds `i` ends: just before its
/// terminator, both bytes of a carriage return and line feed excluded, or the
/// length of `text` on the last line.
pub open spec fn end_of_line(text: Seq<u8>, i: int) -> int {
    let b = line_break(text, i);
    if 0 < b < text.len() && text[b - 1] == CARRIAGE_RETURN {
        b - 1
    } else {
        b
    }
}

/// Where line `n` begins; the length of `text` for every `n` past the last
/// line.
pub open spec fn nth_line_start(text: Seq<u8>, n: nat) -> int
    decreases n,
{
    if n == 0 {
        0
    } else {
        next_line_start(text, nth_line_start(text, (n - 1) as nat))
    }
}

/// No line feed stands in `text[from..to]`.
pub open spec fn no_line_feed(text: Seq<u8>, from: int, to: int) -> bool {
    forall|k: int| from <= k < to ==> #[trigger] text[k] != LINE_FEED
}

/// Flooring gives the greatest scalar boundary at or before `i`.
pub proof fn lemma_floor_boundary(text: Seq<u8>, i: int)
    requires
        0 <= i <= text.len(),
    ensures
        0 <= floor_boundary(text, i) <= i,
        scalar_boundary(text, floor_boundary(text, i)),
        scalar_boundary(text, i) ==> floor_boundary(text, i) == i,
        forall|k: int| floor_boundary(text, i) < k <= i ==> !scalar_boundary(text, k),
    decreases i,
{
    if 0 < i < text.len() && is_continuation(text[i]) {
        lemma_floor_boundary(text, i - 1);
    }
}

/// Later positions lie on later lines, and no more lines lie between two
/// positions than bytes do.
pub proof fn lemma_line_of_monotonic(text: Seq<u8>, i: int, j: int)
    requires
        0 <= i <= j,
    ensures
        line_of(text, i) <= line_of(text, j),
        line_of(text, j) - line_of(text, i) <= j - i,
    decreases j - i,
{
    if i < j {
        lemma_line_of_monotonic(text, i, j - 1);
    }
}

/// Positions with no line feed between them lie on one line.
pub proof fn lemma_line_of_without_feeds(text: Seq<u8>, from: int, to: int)
    requires
        0 <= from <= to,
        no_line_feed(text, from, to),
    ensures
        line_of(text, to) == line_of(text, from),
    decreases to - from,
{
    if from < to {
        lemma_line_of_without_feeds(text, from, to - 1);
    }
}

/// The start of a line is a line start at or before every position of the
/// line, with no line feed between.
pub proof fn lemma_line_start(text: Seq<u8>, i: int)
    requires
        0 <= i <= text.len(),
    ensures
        0 <= line_start(text, i) <= i,
        is_line_start(text, line_start(text, i)),
        no_line_feed(text, line_start(text, i), i),
        is_line_start(text, i) ==> line_start(text, i) == i,
        line_of(text, line_start(text, i)) == line_of(text, i),
    decreases i,
{
    if i > 0 && text[i - 1] != LINE_FEED {
        lemma_line_start(text, i - 1);
    }
    lemma_line_of_without_feeds(text, line_start(text, i), i);
}

/// The line break lies at or after the position, with no line feed before
/// it, and the next line begins right after it.
pub proof fn lemma_line_break(text: Seq<u8>, i: int)
    requires
        0 <= i <= text.len(),
    ensures
        i <= line_break(text, i) <= text.len(),
        line_break(text, i) < text.len() ==> text[line_break(text, i)] == LINE_FEED,
        no_line_feed(text, i, line_break(text, i)),
        i <= end_of_line(text, i) + 1,
        end_of_line(text, i) <= line_break(text, i) <= next_line_start(text, i) <= text.len(),
        is_line_start(text, next_line_start(text, i)) || next_line_start(text, i) == text.len(),
    decreases text.len() - i,
{
    if i < text.len() && text[i] != LINE_FEED {
        lemma_line_break(text, i + 1);
    }
}

/// Every position of a line sees the same line break.
pub proof fn lemma_line_break_within(text: Seq<u8>, from: int, to: int)
    requires
        0 <= from <= to <= text.len(),
        no_line_feed(text, from, to),
    ensures
        line_break(text, from) == line_break(text, to),
        next_line_start(text, from) == next_line_start(text, to),
        end_of_line(text, from) == end_of_line(text, to),
    decreases to - from,
{
    if from < to {
        lemma_line_break_within(text, from + 1, to);
    }
}

/// Every position of a line sees the same line start.
pub proof fn lemma_line_start_within(text: Seq<u8>, from: int, to: int)
    requires
        0 <= from <= to <= text.len(),
        no_line_feed(text, from, to),
    ensures
        line_start(text, from) == line_start(text, to),
    decreases to - from,
{
    if from < to {
        lemma_line_start_within(text, from, to - 1);
    }
}

/// A line's start is found again by counting the lines before it.
pub proof fn lemma_nth_line_start_at_start(text: Seq<u8>, j: int)
    requires
        0 <= j <= text.len(),
        is_line_start(text, j),
    ensures
        nth_line_start(text, line_of(text, j)) == j,
    decreases j,
{
    if j > 0 {
        let p = line_start(text, j - 1);
        lemma_line_start(text, j - 1);
        lemma_nth_line_start_at_start(text, p);
        lemma_line_break(text, p);
        lemma_line_break_within(text, p, j - 1);
        assert(line_break(text, j - 1) == j - 1);
    }
}

/// Counting lines and asking for a line's start agree with `line_start` and
/// `next_line_start`.
pub proof fn lemma_nth_line_start(text: Seq<u8>, i: int)
    requires
        0 <= i <= text.len(),
    ensures
        nth_line_start(text, line_of(text, i)) == line_start(text, i),
        nth_line_start(text, line_of(text, i) + 1) == next_line_start(text, i),
        line_of(text, i) + 1 <= line_count(text),
{
    let s = line_start(text, i);
    lemma_line_start(text, i);
    lemma_nth_line_start_at_start(text, s);
    lemma_line_break_within(text, s, i);
    lemma_line_of_monotonic(text, i, text.len() as int);
}

/// The line after the last one starts, like the last one ends, at the length
/// of the text.
pub proof fn lemma_last_line(text: Seq<u8>, i: int)
    requires
        0 <= i <= text.len(),
    ensures
        line_of(text, i) + 1 == line_count(text) <==> line_break(text, i) == text.len(),
    decreases text.len() - i,
{
    lemma_line_break(text, i);
    let b = line_break(text, i);
    lemma_line_of_without_feeds(text, i, b);
    if b < text.len() {
        lemma_line_of_monotonic(text, b + 1, text.len() as int);
    }
}

/// In valid UTF-8 the scalar boundaries are the positions that do not hold
/// a continuation byte.
pub proof fn lemma_scalar_boundary_is_char_boundary(text: Seq<u8>, i: int)
    requires
        valid_utf8(text),
        0 <= i <= text.len(),
    ensures
        scalar_boundary(text, i) <==> is_char_boundary(text, i),
{
    is_char_boundary_start_end_of_seq(text);
    if 0 < i < text.len() {
        is_char_boundary_iff_not_is_continuation_byte(text, i);
    }
}

/// In valid UTF-8 no scalar runs on after an ASCII byte.
pub proof fn lemma_boundary_after_ascii(text: Seq<u8>, i: int)
    requires
        valid_utf8(text),
        0 < i <= text.len(),
        text[i - 1] < 0x80,
    ensures
        scalar_boundary(text, i),
{
    if i < text.len() {
        is_char_boundary_iff_is_leading_byte(text, i - 1);
        valid_utf8_split(text, i - 1);
        let tail = text.subrange(i - 1, text.len() as int);
        assert(valid_first_scalar(tail) && valid_utf8(pop_first_scalar(tail)));
        assert(length_of_first_scalar(tail) == 1);
        let rest = pop_first_scalar(tail);
        assert(rest =~= text.subrange(i, text.len() as int));
        assert(valid_first_scalar(rest));
        assert(rest[0] == text[i]);
    }
}

/// Splicing valid UTF-8 into valid UTF-8 at a scalar boundary leaves valid
/// UTF-8.
pub proof fn lemma_splice_valid(text: Seq<u8>, at: int, inserted: Seq<u8>)
    requires
        valid_utf8(text),
        valid_utf8(inserted),
        0 <= at <= text.len(),
        scalar_boundary(text, at),
    ensures
        valid_utf8(text.subrange(0, at) + inserted + text.subrange(at, text.len() as int)),
{
    lemma_scalar_boundary_is_char_boundary(text, at);
    valid_utf8_split(text, at);
    valid_utf8_concat(text.subrange(0, at), inserted);
    valid_utf8_concat(text.subrange(0, at) + inserted, text.subrange(at, text.len() as int));
}

/// Cutting valid UTF-8 between two scalar boundaries leaves valid UTF-8 on
/// the outside and on the inside.
pub proof fn lemma_cut_valid(text: Seq<u8>, start: int, end: int)
    requires
        valid_utf8(text),
        0 <= start <= end <= text.len(),
        scalar_boundary(text, start),
        scalar_boundary(text, end),
    ensures
        valid_utf8(text.subrange(0, start) + text.subrange(end, text.len() as int)),
        valid_utf8(text.subrange(start, end)),
{
    lemma_scalar_boundary_is_char_boundary(text, start);
    lemma_scalar_boundary_is_char_boundary(text, end);
    valid_utf8_split(text, start);
    valid_utf8_split(text, end);
    valid_utf8_concat(text.subrange(0, start), text.subrange(end, text.len() as int));
    let head = text.subrange(0, end);
    assert(head.subrange(start, end) =~= text.subrange(start, end));
    if start < end {
        is_char_boundary_iff_not_is_continuation_byte(head, start);
        assert(head[start] == text[start]);
    } else {
        is_char_boundary_start_end_of_seq(head);
    }
    is_char_boundary_start_end_of_seq(head);
    valid_utf8_split(head, start);
}

/// Line `n` begins at a line start, and `n` line feeds come before it, for
/// every line that the text has.
pub proof fn lemma_nth_line_is_start(text: Seq<u8>, n: nat)
    requires
        n < line_count(text),
    ensures
        0 <= nth_line_start(text, n) <= text.len(),
        is_line_start(text, nth_line_start(text, n)),
        line_of(text, nth_line_start(text, n)) == n,
    decreases n,
{
    if n > 0 {
        let before = nth_line_start(text, (n - 1) as nat);
        lemma_nth_line_is_start(text, (n - 1) as nat);
        lemma_line_break(text, before);
        let b = line_break(text, before);
        lemma_line_of_without_feeds(text, before, b);
        if b >= text.len() {
            assert(line_of(text, text.len() as int) == n - 1);
        }
    }
}

} // verus!
