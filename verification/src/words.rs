//! Word navigation over a text buffer.
//!
//! Words are sought on the visible part of one line, between the index and
//! the line's end or start. The segmenter cuts that part into segments; a
//! segment of white space alone is no word. Where the part holds no word the
//! move stops at the line's end or start, and from there the next move
//! crosses the terminator.

use crate::buffer::TextBuffer;
use crate::text::{
    end_of_line, floor_boundary, lemma_boundary_after_ascii, lemma_floor_boundary,
    lemma_line_break, lemma_line_start, line_start, next_line_start, scalar_boundary,
};
use unicode_segmentation::UnicodeSegmentation;
use vstd::prelude::*;
use vstd::string::StringSliceAdditionalSpecFns;
use vstd::utf8::valid_utf8;

verus! {

/// The byte offsets at which `UnicodeSegmentation::split_word_bound_indices`
/// starts the segments of `text`, in order.
pub uninterp spec fn word_bound_offsets(text: Seq<u8>) -> Seq<usize>;

/// `bounds` cut a text into segments: none for the empty text, else the
/// first at 0 and each later one after the one before and before the end,
/// all on scalar boundaries.
pub open spec fn segments_cover(text: Seq<u8>, bounds: Seq<usize>) -> bool {
    &&& (text.len() == 0 <==> bounds.len() == 0)
    &&& (bounds.len() > 0 ==> bounds[0] == 0)
    &&& forall|k: int|
        0 <= k < bounds.len() ==> #[trigger] bounds[k] < text.len() && scalar_boundary(
            text,
            bounds[k] as int,
        )
    &&& forall|j: int, k: int|
        0 <= j < k < bounds.len() ==> #[trigger] bounds[j] < #[trigger] bounds[k]
}

/// `UnicodeSegmentation::split_word_bound_indices`, each segment's offset
/// kept: the segments are substrings of `text` that follow one another and
/// together make up `text`, so their offsets begin at 0, grow, and stay
/// inside the text.
#[verifier::external_body]
fn word_bounds(text: &str) -> (bounds: Vec<usize>)
    ensures
        bounds@ == word_bound_offsets(text.spec_bytes()),
        segments_cover(text.spec_bytes(), bounds@),
{
    text.split_word_bound_indices().map(|(offset, _)| offset).collect()
}

/// The width in bytes of the white-space scalar encoded at `text[at..to]`,
/// or 0 if none begins there. White space is U+0009 to U+000D, U+0020,
/// U+0085, U+00A0, U+1680, U+2000 to U+200A, U+2028, U+2029, U+202F, U+205F
/// and U+3000.
pub open spec fn white_space_width(text: Seq<u8>, at: int, to: int) -> int {
    if at < to && (0x09 <= text[at] <= 0x0D || text[at] == 0x20) {
        1
    } else if at + 1 < to && text[at] == 0xC2 && (text[at + 1] == 0x85 || text[at + 1] == 0xA0) {
        2
    } else if at + 2 < to && text[at] == 0xE1 && text[at + 1] == 0x9A && text[at + 2] == 0x80 {
        3
    } else if at + 2 < to && text[at] == 0xE2 && text[at + 1] == 0x80 && (0x80 <= text[at + 2]
        <= 0x8A || text[at + 2] == 0xA8 || text[at + 2] == 0xA9 || text[at + 2] == 0xAF) {
        3
    } else if at + 2 < to && text[at] == 0xE2 && text[at + 1] == 0x81 && text[at + 2] == 0x9F {
        3
    } else if at + 2 < to && text[at] == 0xE3 && text[at + 1] == 0x80 && text[at + 2] == 0x80 {
        3
    } else {
        0
    }
}

/// `text[from..to]` holds nothing but white space.
pub open spec fn blank(text: Seq<u8>, from: int, to: int) -> bool
    decreases to - from,
{
    from >= to || (white_space_width(text, from, to) > 0 && blank(
        text,
        from + white_space_width(text, from, to),
        to,
    ))
}

/// Where segment `k` ends: where the next one begins, or at the end of the
/// text.
pub open spec fn segment_end(text: Seq<u8>, bounds: Seq<usize>, k: int) -> int {
    if k + 1 < bounds.len() {
        bounds[k + 1] as int
    } else {
        text.len() as int
    }
}

/// Segment `k` holds something other than white space.
pub open spec fn is_word(text: Seq<u8>, bounds: Seq<usize>, k: int) -> bool {
    !blank(text, bounds[k] as int, segment_end(text, bounds, k))
}

/// The end of the first word among the segments from `k` on, or the end of
/// the text if there is none.
pub open spec fn first_word_end_from(text: Seq<u8>, bounds: Seq<usize>, k: int) -> int
    decreases bounds.len() - k,
{
    if k < 0 || k >= bounds.len() {
        text.len() as int
    } else if is_word(text, bounds, k) {
        segment_end(text, bounds, k)
    } else {
        first_word_end_from(text, bounds, k + 1)
    }
}

/// The start of the last word among the first `k` segments, or 0 if there is
/// none.
pub open spec fn last_word_start_before(text: Seq<u8>, bounds: Seq<usize>, k: int) -> int
    decreases k,
{
    if k <= 0 || k > bounds.len() {
        0
    } else if is_word(text, bounds, k - 1) {
        bounds[k - 1] as int
    } else {
        last_word_start_before(text, bounds, k - 1)
    }
}

/// The end of the first word of `text` as `bounds` cut it, or the end of
/// `text`; the end of `text` too where `bounds` do not cut it.
pub open spec fn first_word_end(text: Seq<u8>, bounds: Seq<usize>) -> int {
    if segments_cover(text, bounds) {
        first_word_end_from(text, bounds, 0)
    } else {
        text.len() as int
    }
}

/// The start of the last word of `text` as `bounds` cut it, or 0; 0 too
/// where `bounds` do not cut it.
pub open spec fn last_word_start(text: Seq<u8>, bounds: Seq<usize>) -> int {
    if segments_cover(text, bounds) {
        last_word_start_before(text, bounds, bounds.len() as int)
    } else {
        0
    }
}

/// Where a word move forward from the scalar boundary `i` ends: at the end of
/// the first word between `i` and the end of its line, at that end if no
/// word is left, and at the start of the next line if `i` is at that end or
/// in the terminator.
pub open spec fn next_end_of_word(text: Seq<u8>, i: int) -> int {
    let end = end_of_line(text, i);
    if i >= end {
        next_line_start(text, i)
    } else {
        let part = text.subrange(i, end);
        i + first_word_end(part, word_bound_offsets(part))
    }
}

/// Where a word move backward from the scalar boundary `i` ends: at the start
/// of the last word between the start of its line and `i`, at that start if
/// there is no word, and at the end of the line before if `i` is at that
/// start.
pub open spec fn previous_start_of_word(text: Seq<u8>, i: int) -> int {
    let start = line_start(text, i);
    if i <= start {
        if start <= 0 {
            0
        } else {
            end_of_line(text, start - 1)
        }
    } else {
        let part = text.subrange(start, i);
        start + last_word_start(part, word_bound_offsets(part))
    }
}

/// Where `steps` word moves forward from `i` end, each taken from the index
/// brought down to a scalar boundary.
pub open spec fn word_moves(text: Seq<u8>, i: int, steps: nat) -> int
    decreases steps,
{
    if steps == 0 {
        i
    } else {
        word_moves(text, next_end_of_word(text, floor_boundary(text, i)), (steps - 1) as nat)
    }
}

/// The end of the first word lies in the text, on a scalar boundary, past
/// the segment from which it is sought.
pub proof fn lemma_first_word_end(text: Seq<u8>, bounds: Seq<usize>, k: int)
    requires
        segments_cover(text, bounds),
        0 <= k <= bounds.len(),
    ensures
        first_word_end_from(text, bounds, k) <= text.len(),
        text.len() > 0 ==> 0 < first_word_end_from(text, bounds, k),
        k < bounds.len() ==> bounds[k] < first_word_end_from(text, bounds, k),
        scalar_boundary(text, first_word_end_from(text, bounds, k)),
    decreases bounds.len() - k,
{
    if k < bounds.len() {
        if k + 1 < bounds.len() {
            assert(bounds[k] < bounds[k + 1]);
        }
        lemma_first_word_end(text, bounds, k + 1);
    }
}

/// The start of the last word lies in the text, on a scalar boundary.
pub proof fn lemma_last_word_start(text: Seq<u8>, bounds: Seq<usize>, k: int)
    requires
        segments_cover(text, bounds),
        0 <= k <= bounds.len(),
    ensures
        0 <= last_word_start_before(text, bounds, k),
        text.len() > 0 ==> last_word_start_before(text, bounds, k) < text.len(),
        scalar_boundary(text, last_word_start_before(text, bounds, k)),
    decreases k,
{
    if k > 0 {
        lemma_last_word_start(text, bounds, k - 1);
    }
}

/// A word move forward stays in the text, ends on a scalar boundary and
/// moves on unless it starts at the end.
pub proof fn lemma_next_end_of_word(text: Seq<u8>, i: int)
    requires
        valid_utf8(text),
        0 <= i <= text.len(),
    ensures
        i <= next_end_of_word(text, i) <= text.len(),
        i < text.len() ==> i < next_end_of_word(text, i),
        scalar_boundary(text, next_end_of_word(text, i)),
{
    lemma_line_break(text, i);
    let end = end_of_line(text, i);
    if i >= end {
        let next = next_line_start(text, i);
        if 0 < next {
            if next < text.len() {
                lemma_boundary_after_ascii(text, next);
            }
        }
    } else {
        let part = text.subrange(i, end);
        let bounds = word_bound_offsets(part);
        if segments_cover(part, bounds) {
            lemma_first_word_end(part, bounds, 0);
            let r = first_word_end_from(part, bounds, 0);
            if r < part.len() {
                assert(part[r] == text[i + r]);
            }
        }
    }
}

/// A word move backward stays in the text, ends on a scalar boundary and
/// moves on unless it starts at the start.
pub proof fn lemma_previous_start_of_word(text: Seq<u8>, i: int)
    requires
        valid_utf8(text),
        0 <= i <= text.len(),
    ensures
        0 <= previous_start_of_word(text, i) <= i,
        0 < i ==> previous_start_of_word(text, i) < i,
        scalar_boundary(text, previous_start_of_word(text, i)),
{
    lemma_line_start(text, i);
    let start = line_start(text, i);
    if i <= start {
        if start > 0 {
            lemma_line_break(text, start - 1);
        }
    } else {
        if start > 0 {
            lemma_boundary_after_ascii(text, start);
        }
        let part = text.subrange(start, i);
        let bounds = word_bound_offsets(part);
        if segments_cover(part, bounds) {
            lemma_last_word_start(part, bounds, bounds.len() as int);
            let r = last_word_start_before(part, bounds, bounds.len() as int);
            if 0 < r {
                assert(part[r] == text[start + r]);
            }
        }
    }
}

/// Word moves forward, repeated, reach the end of the text: from `i`, after
/// as many moves as there are bytes left, and they stay there.
pub proof fn lemma_word_moves_reach_the_end(text: Seq<u8>, i: int, steps: nat)
    requires
        valid_utf8(text),
        0 <= i <= text.len(),
        steps >= text.len() - i,
    ensures
        word_moves(text, i, steps) == text.len(),
    decreases steps,
{
    if steps > 0 {
        let from = floor_boundary(text, i);
        lemma_floor_boundary(text, i);
        lemma_next_end_of_word(text, from);
        let next = next_end_of_word(text, from);
        assert(i < text.len() ==> i < next);
        lemma_word_moves_reach_the_end(text, next, (steps - 1) as nat);
    }
}

/// Whether `text[from..to]` holds nothing but white space.
pub fn is_blank(text: &[u8], from: usize, to: usize) -> (is_blank: bool)
    requires
        from <= to <= text@.len(),
    ensures
        is_blank == blank(text@, from as int, to as int),
{
    let mut at: usize = from;
    while at < to
        invariant
            from <= at <= to <= text@.len(),
            blank(text@, from as int, to as int) == blank(text@, at as int, to as int),
        decreases to - at,
    {
        let first = text[at];
        let width: usize = if (0x09 <= first && first <= 0x0D) || first == 0x20 {
            1
        } else if to - at >= 2 && first == 0xC2 && (text[at + 1] == 0x85 || text[at + 1] == 0xA0) {
            2
        } else if to - at >= 3 && first == 0xE1 && text[at + 1] == 0x9A && text[at + 2] == 0x80 {
            3
        } else if to - at >= 3 && first == 0xE2 && text[at + 1] == 0x80 && ((0x80 <= text[at + 2]
            && text[at + 2] <= 0x8A) || text[at + 2] == 0xA8 || text[at + 2] == 0xA9 || text[at
            + 2] == 0xAF) {
            3
        } else if to - at >= 3 && first == 0xE2 && text[at + 1] == 0x81 && text[at + 2] == 0x9F {
            3
        } else if to - at >= 3 && first == 0xE3 && text[at + 1] == 0x80 && text[at + 2] == 0x80 {
            3
        } else {
            0
        };
        assert(width == white_space_width(text@, at as int, to as int));
        if width == 0 {
            return false;
        }
        at = at + width;
    }
    true
}

/// The end of the first word of `text` as `bounds` cut it into segments, or
/// the end of `text` if it holds no word.
pub fn end_of_first_word(text: &[u8], bounds: &Vec<usize>) -> (end: usize)
    requires
        segments_cover(text@, bounds@),
    ensures
        end == first_word_end(text@, bounds@),
        end <= text@.len(),
{
    let mut k: usize = 0;
    while k < bounds.len()
        invariant
            k <= bounds.len(),
            segments_cover(text@, bounds@),
            first_word_end_from(text@, bounds@, 0) == first_word_end_from(text@, bounds@, k as int),
        decreases bounds.len() - k,
    {
        let end = if k + 1 < bounds.len() {
            proof {
                assert(bounds@[k as int] < bounds@[k + 1]);
            }
            bounds[k + 1]
        } else {
            text.len()
        };
        if !is_blank(text, bounds[k], end) {
            return end;
        }
        k = k + 1;
    }
    text.len()
}

/// The start of the last word of `text` as `bounds` cut it into segments, or
/// 0 if it holds no word.
pub fn start_of_last_word(text: &[u8], bounds: &Vec<usize>) -> (start: usize)
    requires
        segments_cover(text@, bounds@),
    ensures
        start == last_word_start(text@, bounds@),
        start <= text@.len(),
{
    let mut k: usize = bounds.len();
    while k > 0
        invariant
            k <= bounds.len(),
            segments_cover(text@, bounds@),
            last_word_start_before(text@, bounds@, bounds.len() as int) == last_word_start_before(
                text@,
                bounds@,
                k as int,
            ),
        decreases k,
    {
        let end = if k < bounds.len() {
            proof {
                assert(bounds@[k - 1] < bounds@[k as int]);
            }
            bounds[k]
        } else {
            text.len()
        };
        if !is_blank(text, bounds[k - 1], end) {
            return bounds[k - 1];
        }
        k = k - 1;
    }
    0
}

impl TextBuffer {
    /// Where a word move forward from `index` ends.
    pub fn next_end_of_word(&self, index: usize) -> (end: usize)
        ensures
            end == next_end_of_word(self@, self.spec_clamp(index as int)),
            self.spec_clamp(index as int) <= end <= self@.len(),
            self.spec_clamp(index as int) < self@.len() ==> self.spec_clamp(index as int) < end,
    {
        let i = self.clamp(index);
        proof {
            use_type_invariant(self);
            lemma_next_end_of_word(self@, i as int);
        }
        let line_end = self.visible_end(i);
        if i >= line_end {
            return self.line_span(i).1;
        }
        let part = self.text_between(i, line_end);
        let bounds = word_bounds(part.as_str());
        i + end_of_first_word(part.as_str().as_bytes(), &bounds)
    }

    /// Where a word move backward from `index` ends.
    pub fn previous_start_of_word(&self, index: usize) -> (start: usize)
        ensures
            start == previous_start_of_word(self@, self.spec_clamp(index as int)),
            start <= self.spec_clamp(index as int) <= self@.len(),
            0 < self.spec_clamp(index as int) ==> start < self.spec_clamp(index as int),
    {
        let i = self.clamp(index);
        proof {
            use_type_invariant(self);
            lemma_previous_start_of_word(self@, i as int);
        }
        let line_start = self.line_span(i).0;
        if i <= line_start {
            if line_start == 0 {
                return 0;
            }
            return self.visible_end(line_start - 1);
        }
        let part = self.text_between(line_start, i);
        let bounds = word_bounds(part.as_str());
        line_start + start_of_last_word(part.as_str().as_bytes(), &bounds)
    }
}

/// A stretch of a text is blank if it is blank as a text of its own.
pub proof fn lemma_blank_of_part(text: Seq<u8>, start: int, end: int, from: int)
    requires
        0 <= start <= end <= text.len(),
        0 <= from <= end - start,
    ensures
        blank(text.subrange(start, end), from, end - start) == blank(text, start + from, end),
    decreases end - start - from,
{
    let part = text.subrange(start, end);
    if from < end - start {
        assert(part[from] == text[start + from]);
        if from + 1 < end - start {
            assert(part[from + 1] == text[start + from + 1]);
        }
        if from + 2 < end - start {
            assert(part[from + 2] == text[start + from + 2]);
        }
        let width = white_space_width(part, from, end - start);
        assert(width == white_space_width(text, start + from, end));
        if width > 0 {
            lemma_blank_of_part(text, start, end, from + width);
        }
    }
}

} // verus!
