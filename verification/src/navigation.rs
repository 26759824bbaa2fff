//! Line and grapheme navigation over a text buffer.
//!
//! Every function first brings its index into the buffer and down to a
//! scalar boundary, so each is total and answers with an index in the buffer.
//!
//! A grapheme cluster never reaches over a line feed, so clusters are sought
//! on the one line that holds them, terminator included.

use crate::buffer::TextBuffer;
use crate::text::{
    end_of_line, lemma_boundary_after_ascii, lemma_last_line, lemma_line_break,
    lemma_line_break_within, lemma_line_start, lemma_line_start_within, lemma_nth_line_start,
    line_break, line_start, next_line_start, no_line_feed, scalar_boundary, CARRIAGE_RETURN,
};
use unicode_segmentation::GraphemeCursor;
use vstd::prelude::*;
use vstd::string::StringSliceAdditionalSpecFns;
use vstd::utf8::valid_utf8;

verus! {

/// Whether `unicode_segmentation::GraphemeCursor::is_boundary`, asked for
/// extended clusters with the whole of `text` at hand, finds a cluster
/// boundary at the scalar boundary `offset` inside `text`.
pub uninterp spec fn grapheme_break(text: Seq<u8>, offset: int) -> bool;

/// A grapheme cluster of `text` begins or ends at `offset`: at either end of
/// the text, and inside it wherever the segmenter breaks.
pub open spec fn grapheme_boundary(text: Seq<u8>, offset: int) -> bool {
    offset == 0 || offset == text.len() || (0 < offset < text.len() && scalar_boundary(
        text,
        offset,
    ) && grapheme_break(text, offset))
}

/// `GraphemeCursor::is_boundary` for extended clusters, on a cursor made at
/// `offset` and given the whole text: whether a cluster boundary is there.
/// With the whole text at hand it asks for no more context; it panics off a
/// scalar boundary.
#[verifier::external_body]
fn boundary_in(text: &str, offset: usize) -> (found: bool)
    requires
        offset <= text.spec_bytes().len(),
        scalar_boundary(text.spec_bytes(), offset as int),
    ensures
        found == (offset == 0 || offset == text.spec_bytes().len() || grapheme_break(
            text.spec_bytes(),
            offset as int,
        )),
{
    let mut cursor = GraphemeCursor::new(offset, text.len(), true);
    cursor.is_boundary(text, 0).unwrap_or(false)
}

/// `GraphemeCursor::next_boundary` for extended clusters, on a cursor made
/// at `offset` and given the whole text: the first cluster boundary after
/// `offset`, none at the end of the text. It steps scalar by scalar and stops
/// where `is_boundary` holds; it panics off a scalar boundary.
#[verifier::external_body]
pub(crate) fn next_boundary_in(text: &str, offset: usize) -> (found: Option<usize>)
    requires
        offset <= text.spec_bytes().len(),
        scalar_boundary(text.spec_bytes(), offset as int),
    ensures
        offset == text.spec_bytes().len() ==> found is None,
        offset < text.spec_bytes().len() ==> found is Some && offset < found->0
            <= text.spec_bytes().len() && grapheme_boundary(text.spec_bytes(), found->0 as int),
        found is Some ==> forall|k: int|
            offset < k < found->0 ==> !grapheme_boundary(text.spec_bytes(), k),
{
    let mut cursor = GraphemeCursor::new(offset, text.len(), true);
    cursor.next_boundary(text, 0).unwrap_or(None)
}

/// `GraphemeCursor::prev_boundary` for extended clusters, on a cursor made
/// at `offset` and given the whole text: the last cluster boundary before
/// `offset`, none at the start of the text. It steps back scalar by scalar
/// and stops where `is_boundary` holds; it panics off a scalar boundary.
#[verifier::external_body]
fn previous_boundary_in(text: &str, offset: usize) -> (found: Option<usize>)
    requires
        offset <= text.spec_bytes().len(),
        scalar_boundary(text.spec_bytes(), offset as int),
    ensures
        offset == 0 ==> found is None,
        offset > 0 ==> found is Some && found->0 < offset && grapheme_boundary(
            text.spec_bytes(),
            found->0 as int,
        ),
        found is Some ==> forall|k: int|
            found->0 < k < offset ==> !grapheme_boundary(text.spec_bytes(), k),
{
    let mut cursor = GraphemeCursor::new(offset, text.len(), true);
    cursor.prev_boundary(text, 0).unwrap_or(None)
}

/// The line that holds position `p`, terminator included.
pub open spec fn line_text(text: Seq<u8>, p: int) -> Seq<u8> {
    text.subrange(line_start(text, p), next_line_start(text, p))
}

/// A grapheme cluster of `text` begins or ends at `p`: `p` is in the text,
/// and a cluster of its line begins or ends there.
pub open spec fn is_grapheme_boundary(text: Seq<u8>, p: int) -> bool {
    0 <= p <= text.len() && grapheme_boundary(line_text(text, p), p - line_start(text, p))
}

/// The first grapheme boundary after `i`, or the length of `text` at its
/// end.
pub open spec fn next_grapheme_boundary(text: Seq<u8>, i: int) -> int
    decreases text.len() - i,
{
    if i >= text.len() {
        text.len() as int
    } else if is_grapheme_boundary(text, i + 1) {
        i + 1
    } else {
        next_grapheme_boundary(text, i + 1)
    }
}

/// The last grapheme boundary before `i`, or 0 at the start of `text`.
pub open spec fn previous_grapheme_boundary(text: Seq<u8>, i: int) -> int
    decreases i,
{
    if i <= 0 {
        0
    } else if is_grapheme_boundary(text, i - 1) {
        i - 1
    } else {
        previous_grapheme_boundary(text, i - 1)
    }
}

/// Both ends of a text are grapheme boundaries.
pub proof fn lemma_ends_are_grapheme_boundaries(text: Seq<u8>)
    ensures
        is_grapheme_boundary(text, 0),
        is_grapheme_boundary(text, text.len() as int),
{
    lemma_line_start(text, text.len() as int);
    lemma_line_break(text, text.len() as int);
}

/// In valid UTF-8 a grapheme boundary is a scalar boundary.
pub proof fn lemma_grapheme_boundary_is_scalar_boundary(text: Seq<u8>, p: int)
    requires
        valid_utf8(text),
        is_grapheme_boundary(text, p),
    ensures
        scalar_boundary(text, p),
{
    lemma_line_start(text, p);
    lemma_line_break(text, p);
    let s = line_start(text, p);
    let line = line_text(text, p);
    if 0 < p - s < line.len() {
        assert(line[p - s] == text[p]);
    } else if p == s && p > 0 {
        lemma_boundary_after_ascii(text, p);
    }
}

/// Every position of one line sees the same line text.
pub proof fn lemma_line_text_within(text: Seq<u8>, from: int, to: int)
    requires
        0 <= from <= to <= text.len(),
        no_line_feed(text, from, to),
    ensures
        line_text(text, from) == line_text(text, to),
        line_start(text, from) == line_start(text, to),
{
    lemma_line_start_within(text, from, to);
    lemma_line_break_within(text, from, to);
}

/// The first grapheme boundary after `i` is `r` if `r` is one and none lies
/// between.
pub proof fn lemma_next_grapheme_boundary_is(text: Seq<u8>, i: int, r: int)
    requires
        0 <= i < r <= text.len(),
        is_grapheme_boundary(text, r),
        forall|k: int| i < k < r ==> !is_grapheme_boundary(text, k),
    ensures
        next_grapheme_boundary(text, i) == r,
    decreases r - i,
{
    if i + 1 < r {
        lemma_next_grapheme_boundary_is(text, i + 1, r);
    }
}

/// The last grapheme boundary before `i` is `r` if `r` is one and none lies
/// between.
pub proof fn lemma_previous_grapheme_boundary_is(text: Seq<u8>, i: int, r: int)
    requires
        0 <= r < i <= text.len(),
        is_grapheme_boundary(text, r),
        forall|k: int| r < k < i ==> !is_grapheme_boundary(text, k),
    ensures
        previous_grapheme_boundary(text, i) == r,
    decreases i - r,
{
    if r < i - 1 {
        lemma_previous_grapheme_boundary_is(text, i - 1, r);
    }
}

/// What `next_grapheme_boundary` finds: a boundary after `i`, with none
/// between.
pub proof fn lemma_next_grapheme_boundary(text: Seq<u8>, i: int)
    requires
        0 <= i < text.len(),
    ensures
        i < next_grapheme_boundary(text, i) <= text.len(),
        is_grapheme_boundary(text, next_grapheme_boundary(text, i)),
        forall|k: int| i < k < next_grapheme_boundary(text, i) ==> !is_grapheme_boundary(text, k),
    decreases text.len() - i,
{
    lemma_ends_are_grapheme_boundaries(text);
    if i + 1 < text.len() && !is_grapheme_boundary(text, i + 1) {
        lemma_next_grapheme_boundary(text, i + 1);
    }
}

/// What `previous_grapheme_boundary` finds: a boundary before `i`, with none
/// between.
pub proof fn lemma_previous_grapheme_boundary(text: Seq<u8>, i: int)
    requires
        0 < i <= text.len(),
    ensures
        0 <= previous_grapheme_boundary(text, i) < i,
        is_grapheme_boundary(text, previous_grapheme_boundary(text, i)),
        forall|k: int|
            previous_grapheme_boundary(text, i) < k < i ==> !is_grapheme_boundary(text, k),
    decreases i,
{
    lemma_ends_are_grapheme_boundaries(text);
    if i - 1 > 0 && !is_grapheme_boundary(text, i - 1) {
        lemma_previous_grapheme_boundary(text, i - 1);
    }
}

/// Stepping forward one grapheme and back again returns to a grapheme
/// boundary that is not the end of the text.
pub proof fn lemma_grapheme_round_trip_forward(text: Seq<u8>, i: int)
    requires
        is_grapheme_boundary(text, i),
        i < text.len(),
    ensures
        previous_grapheme_boundary(text, next_grapheme_boundary(text, i)) == i,
{
    lemma_next_grapheme_boundary(text, i);
    lemma_previous_grapheme_boundary_is(text, next_grapheme_boundary(text, i), i);
}

/// Stepping back one grapheme and forward again returns to a grapheme
/// boundary that is not the start of the text.
pub proof fn lemma_grapheme_round_trip_backward(text: Seq<u8>, i: int)
    requires
        is_grapheme_boundary(text, i),
        0 < i,
    ensures
        next_grapheme_boundary(text, previous_grapheme_boundary(text, i)) == i,
{
    lemma_previous_grapheme_boundary(text, i);
    lemma_next_grapheme_boundary_is(text, previous_grapheme_boundary(text, i), i);
}

impl TextBuffer {
    /// Where the line that holds `index` begins and where the next one does,
    /// for an index that the caller knows to be in the buffer. Both are
    /// scalar boundaries.
    pub(crate) fn line_span(&self, index: usize) -> (span: (usize, usize))
        requires
            index <= self@.len(),
        ensures
            span.0 == line_start(self@, index as int),
            span.1 == next_line_start(self@, index as int),
            span.0 <= index <= span.1 <= self@.len(),
            scalar_boundary(self@, span.0 as int),
            scalar_boundary(self@, span.1 as int),
    {
        proof {
            use_type_invariant(self);
            lemma_nth_line_start(self@, index as int);
            lemma_last_line(self@, index as int);
            lemma_line_start(self@, index as int);
            lemma_line_break(self@, index as int);
        }
        let line = self.line_at(index);
        let lines = self.line_count();
        let start = self.start_of_nth_line(line);
        let end = if line + 1 >= lines {
            self.len()
        } else {
            self.start_of_nth_line(line + 1)
        };
        proof {
            if start > 0 {
                lemma_boundary_after_ascii(self@, start as int);
            }
            if end < self@.len() {
                lemma_boundary_after_ascii(self@, end as int);
            }
        }
        (start, end)
    }

    /// Whether `index`, which the caller knows to be in the buffer, lies on
    /// the last line.
    pub(crate) fn on_last_line(&self, index: usize) -> (last: bool)
        requires
            index <= self@.len(),
        ensures
            last == (line_break(self@, index as int) >= self@.len()),
    {
        proof {
            lemma_nth_line_start(self@, index as int);
            lemma_last_line(self@, index as int);
            lemma_line_break(self@, index as int);
        }
        let line = self.line_at(index);
        let lines = self.line_count();
        line + 1 >= lines
    }

    /// Where the line that holds `index` begins.
    pub fn start_of_line(&self, index: usize) -> (start: usize)
        ensures
            start == line_start(self@, self.spec_clamp(index as int)),
            start <= self@.len(),
    {
        let i = self.clamp(index);
        self.line_span(i).0
    }

    /// Where the visible part of the line that holds `index` ends: before
    /// its terminator, or at the end of the buffer on the last line.
    pub fn end_of_line(&self, index: usize) -> (end: usize)
        ensures
            end == end_of_line(self@, self.spec_clamp(index as int)),
            end <= self@.len(),
    {
        let i = self.clamp(index);
        self.visible_end(i)
    }

    /// `end_of_line` for an index that the caller knows to be in the buffer.
    pub(crate) fn visible_end(&self, index: usize) -> (end: usize)
        requires
            index <= self@.len(),
        ensures
            end == end_of_line(self@, index as int),
            end <= self@.len(),
            scalar_boundary(self@, end as int),
    {
        proof {
            lemma_line_break(self@, index as int);
        }
        if self.on_last_line(index) {
            return self.len();
        }
        let feed = self.line_span(index).1 - 1;
        if feed > 0 && self.byte_at(feed - 1) == CARRIAGE_RETURN {
            feed - 1
        } else {
            feed
        }
    }

    /// Whether a grapheme cluster begins or ends at `index`.
    pub fn is_grapheme_boundary(&self, index: usize) -> (at_boundary: bool)
        ensures
            at_boundary == (is_grapheme_boundary(self@, index as int) && index <= self@.len()),
    {
        if !self.is_boundary(index) {
            proof {
                use_type_invariant(self);
                if index <= self@.len() && is_grapheme_boundary(self@, index as int) {
                    lemma_grapheme_boundary_is_scalar_boundary(self@, index as int);
                }
            }
            return false;
        }
        let (start, end) = self.line_span(index);
        let line = self.text_between(start, end);
        proof {
            if 0 < index - start < end - start {
                assert(self@.subrange(start as int, end as int)[index - start] == self@[index as int]);
            }
        }
        boundary_in(line.as_str(), index - start)
    }

    /// The end of the grapheme cluster that begins at or holds `index`: the
    /// first grapheme boundary after it, or the end of the buffer.
    pub fn next_grapheme(&self, index: usize) -> (next: usize)
        ensures
            next == next_grapheme_boundary(self@, self.spec_clamp(index as int)),
            next <= self@.len(),
    {
        let i = self.clamp(index);
        let len = self.len();
        if i >= len {
            return len;
        }
        let (start, end) = self.line_span(i);
        let line = self.text_between(start, end);
        let ghost text = self@;
        let ghost part = text.subrange(start as int, end as int);
        proof {
            lemma_line_start(text, i as int);
            lemma_line_break(text, i as int);
            assert(part[i - start] == text[i as int]);
        }
        let found = next_boundary_in(line.as_str(), i - start);
        let next = match found {
            Some(offset) => start + offset,
            None => len,
        };
        proof {
            let b = line_break(text, i as int);
            assert(is_grapheme_boundary(text, next as int)) by {
                if next < end {
                    assert(no_line_feed(text, start as int, next as int));
                    lemma_line_text_within(text, start as int, next as int);
                    lemma_line_text_within(text, start as int, i as int);
                } else {
                    lemma_ends_are_grapheme_boundaries(text);
                    lemma_line_start(text, end as int);
                    lemma_line_break(text, end as int);
                }
            }
            assert forall|k: int| i < k < next implies !is_grapheme_boundary(text, k) by {
                assert(no_line_feed(text, start as int, k));
                lemma_line_text_within(text, start as int, k);
                lemma_line_text_within(text, start as int, i as int);
            }
            lemma_next_grapheme_boundary_is(text, i as int, next as int);
        }
        next
    }

    /// The start of the grapheme cluster that ends at or holds `index`: the
    /// last grapheme boundary before it, or 0.
    pub fn previous_grapheme(&self, index: usize) -> (previous: usize)
        ensures
            previous == previous_grapheme_boundary(self@, self.spec_clamp(index as int)),
            previous <= self@.len(),
    {
        let i = self.clamp(index);
        if i == 0 {
            return 0;
        }
        let (start, end) = self.line_span(i - 1);
        let ghost text = self@;
        let ghost part = text.subrange(start as int, end as int);
        proof {
            lemma_line_start(text, i - 1);
            lemma_line_break(text, i - 1);
            if i < end {
                assert(part[i - start] == text[i as int]);
            }
        }
        let line = self.text_between(start, end);
        let found = previous_boundary_in(line.as_str(), i - start);
        let previous = match found {
            Some(offset) => start + offset,
            None => 0,
        };
        proof {
            assert(is_grapheme_boundary(text, previous as int)) by {
                assert(no_line_feed(text, start as int, previous as int));
                assert(no_line_feed(text, previous as int, i - 1));
                lemma_line_text_within(text, start as int, previous as int);
                lemma_line_text_within(text, previous as int, i - 1);
            }
            assert forall|k: int| previous < k < i implies !is_grapheme_boundary(text, k) by {
                assert(no_line_feed(text, start as int, k));
                assert(no_line_feed(text, k, i - 1));
                lemma_line_text_within(text, start as int, k);
                lemma_line_text_within(text, k, i - 1);
            }
            lemma_previous_grapheme_boundary_is(text, i as int, previous as int);
        }
        previous
    }
}

} // verus!
