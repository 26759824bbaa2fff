//! The stretches of a selection, line by line, as the host paints them.

use crate::buffer::TextBuffer;
use crate::text::{lemma_floor_boundary, lemma_line_break, line_of, next_line_start, LINE_FEED};
use vstd::prelude::*;

verus! {

/// The part of a selection that lies on one line.
#[derive(Debug, Clone, Copy, PartialEq, Eq, Structural)]
pub struct Span {
    /// The index of the line.
    pub line: usize,
    /// Where the part begins.
    pub start: usize,
    /// Where the part ends: after the line feed if the selection goes on.
    pub end: usize,
    /// Whether the part ends with a line feed.
    pub ends_line: bool,
}

/// The lesser of two indices.
pub open spec fn lesser(a: int, b: int) -> int {
    if a <= b {
        a
    } else {
        b
    }
}

/// The part of the selection that ends at `right` which begins at `start`
/// and lies on the line of `start`.
pub open spec fn span_at(text: Seq<u8>, start: int, right: int) -> Span {
    let end = lesser(next_line_start(text, start), right);
    Span {
        line: line_of(text, start) as usize,
        start: start as usize,
        end: end as usize,
        ends_line: 0 < end <= text.len() && text[end - 1] == LINE_FEED,
    }
}

/// The parts of the selection from `start` to `right`, one for each line
/// that it touches; none if it is empty.
pub open spec fn spans_from(text: Seq<u8>, start: int, right: int) -> Seq<Span>
    decreases right - start,
{
    let end = lesser(next_line_start(text, start), right);
    if start < 0 || start >= right || end <= start {
        Seq::empty()
    } else {
        seq![span_at(text, start, right)] + spans_from(text, end, right)
    }
}

/// The parts of a selection follow one another from its start to its end,
/// none of them empty, and only the last may end before a line does.
pub proof fn lemma_spans_cover(text: Seq<u8>, start: int, right: int)
    requires
        0 <= start < right <= text.len() <= usize::MAX,
    ensures
        spans_from(text, start, right).len() > 0,
        spans_from(text, start, right).first().start == start,
        spans_from(text, start, right).last().end == right,
        forall|k: int|
            0 <= k < spans_from(text, start, right).len() ==> (#[trigger] spans_from(
                text,
                start,
                right,
            )[k]).start < spans_from(text, start, right)[k].end,
        forall|k: int|
            0 <= k < spans_from(text, start, right).len() - 1 ==> (#[trigger] spans_from(
                text,
                start,
                right,
            )[k]).end == spans_from(text, start, right)[k + 1].start && spans_from(
                text,
                start,
                right,
            )[k].end == next_line_start(text, spans_from(text, start, right)[k].start as int),
    decreases right - start,
{
    lemma_line_break(text, start);
    let end = lesser(next_line_start(text, start), right);
    let rest = spans_from(text, end, right);
    let all = spans_from(text, start, right);
    assert(all == seq![span_at(text, start, right)] + rest);
    assert(all[0] == span_at(text, start, right));
    if end < right {
        lemma_spans_cover(text, end, right);
        assert forall|k: int| 0 <= k < all.len() implies (#[trigger] all[k]).start < all[k].end by {
            if k > 0 {
                assert(all[k] == rest[k - 1]);
            }
        }
        assert forall|k: int| 0 <= k < all.len() - 1 implies (#[trigger] all[k]).end == all[k
            + 1].start && all[k].end == next_line_start(text, all[k].start as int) by {
            assert(all[k + 1] == rest[k]);
            if k > 0 {
                assert(all[k] == rest[k - 1]);
            }
        }
        assert(all.last() == rest.last());
    } else {
        assert(rest.len() == 0);
    }
}

impl TextBuffer {
    /// The parts of the selection between `start` and `end`, in either
    /// order, one for each line that it touches, from the first line on.
    /// The two ends are brought into the buffer and down to scalar
    /// boundaries.
    pub fn selection_spans(&self, start: usize, end: usize) -> (spans: Vec<Span>)
        ensures
            start <= end ==> spans@ == spans_from(
                self@,
                self.spec_clamp(start as int),
                self.spec_clamp(end as int),
            ),
            end <= start ==> spans@ == spans_from(
                self@,
                self.spec_clamp(end as int),
                self.spec_clamp(start as int),
            ),
    {
        let left = self.clamp(
            if start <= end {
                start
            } else {
                end
            },
        );
        let right = self.clamp(
            if start <= end {
                end
            } else {
                start
            },
        );
        let mut spans: Vec<Span> = Vec::new();
        let mut at = left;
        proof {
            lemma_floor_boundary(self@, left as int);
            lemma_floor_boundary(self@, right as int);
        }
        while at < right
            invariant
                left <= at,
                right <= self@.len(),
                spans@ + spans_from(self@, at as int, right as int) == spans_from(
                    self@,
                    left as int,
                    right as int,
                ),
            decreases right - at,
        {
            proof {
                lemma_line_break(self@, at as int);
            }
            let line = self.line_at(at);
            let next = self.line_span(at).1;
            let stop = if next <= right {
                next
            } else {
                right
            };
            let ends_line = self.byte_at(stop - 1) == LINE_FEED;
            let span = Span { line, start: at, end: stop, ends_line };
            proof {
                let before = spans@;
                assert(span == span_at(self@, at as int, right as int));
                assert(before.push(span) + spans_from(self@, stop as int, right as int) == before
                    + spans_from(self@, at as int, right as int));
            }
            spans.push(span);
            at = stop;
        }
        proof {
            assert(spans@ + Seq::<Span>::empty() == spans@);
        }
        spans
    }
}

} // verus!
