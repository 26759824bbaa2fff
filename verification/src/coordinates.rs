//! From a place on screen to a byte index.
//!
//! The glyph metrics are the host's: they measure widths and say which
//! grapheme of a shown line lies under a point. What the library decides is
//! which line they must look at, and which byte index their answer stands
//! for once the widened tabs are taken back.

use crate::buffer::TextBuffer;
use crate::navigation::{grapheme_boundary, next_boundary_in};
use crate::tabs::{collapse_tabs, collapse_tabs_to, expand_tabs, replace_tab};
use crate::text::{
    lemma_boundary_after_ascii, lemma_nth_line_is_start, line_break, line_count, line_start,
    next_line_start, nth_line_start, scalar_boundary, CARRIAGE_RETURN, LINE_FEED,
};
use crate::words::{blank, is_blank, lemma_blank_of_part};
use vstd::prelude::*;
use vstd::string::StringSliceAdditionalSpecFns;
use vstd::utf8::encode_utf8;

verus! {

/// The first grapheme boundary of `text` after `i`, or the length of `text`
/// at its end.
pub open spec fn next_boundary(text: Seq<u8>, i: int) -> int
    decreases text.len() - i,
{
    if i >= text.len() {
        text.len() as int
    } else if grapheme_boundary(text, i + 1) {
        i + 1
    } else {
        next_boundary(text, i + 1)
    }
}

/// Where grapheme `n` of `text` begins, counted from 0; the end of the text
/// for the one after the last, and none past that.
pub open spec fn nth_boundary(text: Seq<u8>, n: nat) -> Option<int>
    decreases n,
{
    if n == 0 {
        Some(0)
    } else {
        match nth_boundary(text, (n - 1) as nat) {
            Some(before) => if before < text.len() {
                Some(next_boundary(text, before))
            } else {
                None
            },
            None => None,
        }
    }
}

/// The byte offset in `line` that grapheme `hit` of the line as shown
/// stands for.
pub open spec fn hit_offset(line: Seq<u8>, tab_width: nat, hit: nat) -> Option<int> {
    match nth_boundary(expand_tabs(line, tab_width), hit) {
        Some(target) => collapse_tabs(line, tab_width, target),
        None => None,
    }
}

/// Where a point on screen leads.
#[derive(Debug, Clone, Copy, PartialEq, Eq)]
pub enum HitTarget {
    /// To this index, whatever the glyph metrics say.
    At { index: usize },
    /// Into the line from `start` to `end`, terminator included: the glyph
    /// metrics must say which grapheme of that line, as shown, it meets.
    Line { start: usize, end: usize },
}

/// What a vertical move needs from the glyph metrics.
#[derive(Debug, Clone, Copy, PartialEq, Eq)]
pub struct VerticalQuery {
    /// Where the move leads.
    pub target: HitTarget,
    /// The index whose horizontal offset must be measured, if the remembered
    /// offset is not the one to use.
    pub measure: Option<usize>,
}

/// The line that begins at `start` shows no text: it is past the end, or
/// begins with its terminator, or with a carriage return that ends the text.
pub open spec fn shows_no_text(text: Seq<u8>, start: int) -> bool {
    start >= text.len() || text[start] == LINE_FEED || (text[start] == CARRIAGE_RETURN && (start
        + 1 >= text.len() || text[start + 1] == LINE_FEED))
}

/// Where a vertical move into the line that begins at `start` leads.
pub open spec fn line_target(text: Seq<u8>, start: int) -> HitTarget {
    if shows_no_text(text, start) {
        HitTarget::At { index: start as usize }
    } else {
        HitTarget::Line { start: start as usize, end: next_line_start(text, start) as usize }
    }
}

/// What a move up from the scalar boundary `i` needs: on the first line it
/// leads to the start of the text, where the offset is measured anew; else
/// into the line above, at the remembered offset or at that of `i`.
pub open spec fn index_above(text: Seq<u8>, i: int, has_hint: bool) -> VerticalQuery {
    let start = line_start(text, i);
    if start <= 0 {
        VerticalQuery { target: HitTarget::At { index: 0 }, measure: Some(0) }
    } else {
        VerticalQuery {
            target: line_target(text, line_start(text, start - 1)),
            measure: if has_hint {
                None
            } else {
                Some(i as usize)
            },
        }
    }
}

/// What a move down from the scalar boundary `i` needs: on the last line it
/// leads to the end of the text, where the offset is measured anew; else
/// into the line below, at the remembered offset or at that of `i`.
pub open spec fn index_below(text: Seq<u8>, i: int, has_hint: bool) -> VerticalQuery {
    if line_break(text, i) >= text.len() {
        VerticalQuery {
            target: HitTarget::At { index: text.len() as usize },
            measure: Some(text.len() as usize),
        }
    } else {
        VerticalQuery {
            target: line_target(text, next_line_start(text, i)),
            measure: if has_hint {
                None
            } else {
                Some(i as usize)
            },
        }
    }
}

/// Where a point on line `line` of the text leads: to the end of the text
/// past its last line, to the start of a line of white space, else into the
/// line.
pub open spec fn target_on_line(text: Seq<u8>, line: nat) -> HitTarget {
    let start = nth_line_start(text, line);
    if line >= line_count(text) || start >= text.len() {
        HitTarget::At { index: text.len() as usize }
    } else if blank(text, start, next_line_start(text, start)) {
        HitTarget::At { index: start as usize }
    } else {
        HitTarget::Line { start: start as usize, end: next_line_start(text, start) as usize }
    }
}

/// The index that `target` leads to once the glyph metrics have answered
/// with grapheme `hit` of the shown line, or with none.
pub open spec fn hit_index(text: Seq<u8>, target: HitTarget, tab_width: nat, hit: Option<usize>)
    -> Option<int> {
    match target {
        HitTarget::At { index } => if index <= text.len() {
            Some(index as int)
        } else {
            None
        },
        HitTarget::Line { start, end } => if start <= end <= text.len() && scalar_boundary(
            text,
            start as int,
        ) && scalar_boundary(text, end as int) && hit is Some {
            match hit_offset(text.subrange(start as int, end as int), tab_width, hit->0 as nat) {
                Some(offset) => Some(start + offset),
                None => None,
            }
        } else {
            None
        },
    }
}

/// The first grapheme boundary after `i` is `r` if `r` is one and none lies
/// between.
pub proof fn lemma_next_boundary_is(text: Seq<u8>, i: int, r: int)
    requires
        0 <= i < r <= text.len(),
        grapheme_boundary(text, r),
        forall|k: int| i < k < r ==> !grapheme_boundary(text, k),
    ensures
        next_boundary(text, i) == r,
    decreases r - i,
{
    if i + 1 < r {
        lemma_next_boundary_is(text, i + 1, r);
    }
}

/// Past the last grapheme there is none.
pub proof fn lemma_nth_boundary_ends(text: Seq<u8>, m: nat, n: nat)
    requires
        m <= n,
        nth_boundary(text, m) is None,
    ensures
        nth_boundary(text, n) is None,
    decreases n,
{
    if m < n {
        lemma_nth_boundary_ends(text, m, (n - 1) as nat);
    }
}

/// Where grapheme `count` of `text` begins, counted from 0; the end of
/// `text` for the one after the last, and none past that.
pub fn grapheme_offset(text: &str, count: usize) -> (offset: Option<usize>)
    ensures
        offset is Some <==> nth_boundary(text.spec_bytes(), count as nat) is Some,
        offset is Some ==> offset->0 == nth_boundary(text.spec_bytes(), count as nat)->0,
        offset is Some ==> offset->0 <= text.spec_bytes().len(),
{
    let mut at: usize = 0;
    let mut passed: usize = 0;
    while passed < count
        invariant
            passed <= count,
            at <= text.spec_bytes().len(),
            grapheme_boundary(text.spec_bytes(), at as int),
            nth_boundary(text.spec_bytes(), passed as nat) == Some(at as int),
        decreases count - passed,
    {
        match next_boundary_in(text, at) {
            Some(next) => {
                proof {
                    lemma_next_boundary_is(text.spec_bytes(), at as int, next as int);
                }
                at = next;
                passed = passed + 1;
            },
            None => {
                proof {
                    lemma_nth_boundary_ends(text.spec_bytes(), (passed + 1) as nat, count as nat);
                }
                return None;
            },
        }
    }
    Some(at)
}

/// The byte offset in `line` that grapheme `hit` of the line as shown stands
/// for: the tabs are widened, the grapheme is sought in the widened line, and
/// its column is taken back to a byte offset of `line`.
pub fn hit_byte_index(line: &str, tab_width: u8, hit: usize) -> (offset: Option<usize>)
    ensures
        offset is Some <==> hit_offset(line.spec_bytes(), tab_width as nat, hit as nat) is Some,
        offset is Some ==> offset->0 == hit_offset(
            line.spec_bytes(),
            tab_width as nat,
            hit as nat,
        )->0,
        offset is Some ==> offset->0 <= line.spec_bytes().len(),
{
    let shown = replace_tab(line, tab_width);
    match grapheme_offset(shown.as_str(), hit) {
        Some(target) => collapse_tabs_to(line.as_bytes(), tab_width, target),
        None => None,
    }
}

impl TextBuffer {
    /// Where a vertical move into the line that begins at `start` leads, for
    /// a line start that the caller knows to be in the buffer.
    fn target_in_line(&self, start: usize) -> (target: HitTarget)
        requires
            start <= self@.len(),
            scalar_boundary(self@, start as int),
        ensures
            target == line_target(self@, start as int),
            self.takes(target),
    {
        let len = self.len();
        if start >= len {
            return HitTarget::At { index: start };
        }
        let first = self.byte_at(start);
        if first == LINE_FEED {
            return HitTarget::At { index: start };
        }
        if first == CARRIAGE_RETURN && (start + 1 >= len || self.byte_at(start + 1) == LINE_FEED) {
            return HitTarget::At { index: start };
        }
        let (_, end) = self.line_span(start);
        HitTarget::Line { start, end }
    }

    /// `target` lies in this buffer.
    pub open spec fn takes(&self, target: HitTarget) -> bool {
        match target {
            HitTarget::At { index } => index <= self@.len(),
            HitTarget::Line { start, end } => start <= end <= self@.len() && scalar_boundary(
                self@,
                start as int,
            ) && scalar_boundary(self@, end as int),
        }
    }

    /// What a move up from `index` needs from the glyph metrics, with or
    /// without a remembered offset.
    pub fn find_index_above(&self, index: usize, has_hint: bool) -> (query: VerticalQuery)
        ensures
            query == index_above(self@, self.spec_clamp(index as int), has_hint),
            self.takes(query.target),
            query.measure is Some ==> query.measure->0 <= self@.len(),
    {
        let i = self.clamp(index);
        let (start, _) = self.line_span(i);
        if start == 0 {
            return VerticalQuery { target: HitTarget::At { index: 0 }, measure: Some(0) };
        }
        let (above, _) = self.line_span(start - 1);
        let target = self.target_in_line(above);
        VerticalQuery {
            target,
            measure: if has_hint {
                None
            } else {
                Some(i)
            },
        }
    }

    /// What a move down from `index` needs from the glyph metrics, with or
    /// without a remembered offset.
    pub fn find_index_below(&self, index: usize, has_hint: bool) -> (query: VerticalQuery)
        ensures
            query == index_below(self@, self.spec_clamp(index as int), has_hint),
            self.takes(query.target),
            query.measure is Some ==> query.measure->0 <= self@.len(),
    {
        let i = self.clamp(index);
        if self.on_last_line(i) {
            let len = self.len();
            return VerticalQuery { target: HitTarget::At { index: len }, measure: Some(len) };
        }
        let (_, below) = self.line_span(i);
        let target = self.target_in_line(below);
        VerticalQuery {
            target,
            measure: if has_hint {
                None
            } else {
                Some(i)
            },
        }
    }

    /// Where a point on line `line` leads.
    pub fn index_at_point(&self, line: usize) -> (target: HitTarget)
        ensures
            target == target_on_line(self@, line as nat),
            self.takes(target),
    {
        let len = self.len();
        if line >= self.line_count() {
            return HitTarget::At { index: len };
        }
        let start = self.start_of_nth_line(line);
        if start >= len {
            return HitTarget::At { index: len };
        }
        let (_, end) = self.line_span(start);
        proof {
            use_type_invariant(self);
            lemma_nth_line_is_start(self@, line as nat);
            if start > 0 {
                lemma_boundary_after_ascii(self@, start as int);
            }
            lemma_blank_of_part(self@, start as int, end as int, 0);
        }
        let text = self.text_between(start, end);
        if is_blank(text.as_str().as_bytes(), 0, end - start) {
            HitTarget::At { index: start }
        } else {
            HitTarget::Line { start, end }
        }
    }

    /// The index that `target` leads to once the glyph metrics have answered
    /// with grapheme `hit` of the shown line, or with none: no index where
    /// the target needs an answer and none came, where the answer fits no
    /// grapheme of the line, and where the target lies outside the buffer.
    pub fn index_of_hit(&self, target: HitTarget, tab_width: u8, hit: Option<usize>) -> (index:
        Option<usize>)
        ensures
            index is Some <==> hit_index(self@, target, tab_width as nat, hit) is Some,
            index is Some ==> index->0 == hit_index(self@, target, tab_width as nat, hit)->0,
            index is Some ==> index->0 <= self@.len(),
    {
        match target {
            HitTarget::At { index } => if index <= self.len() {
                Some(index)
            } else {
                None
            },
            HitTarget::Line { start, end } => {
                if start > end || end > self.len() || !self.is_boundary(start) || !self.is_boundary(
                    end,
                ) {
                    return None;
                }
                match hit {
                    Some(grapheme) => {
                        let line = self.text_between(start, end);
                        match hit_byte_index(line.as_str(), tab_width, grapheme) {
                            Some(offset) => Some(start + offset),
                            None => None,
                        }
                    },
                    None => None,
                }
            },
        }
    }

    /// The lines of the buffer as they are shown, each with its terminator
    /// and with `tab_width` spaces in place of every tab. An empty last line
    /// is left out.
    pub fn display(&self, tab_width: u8) -> (lines: Vec<String>)
        ensures
            nth_line_start(self@, lines@.len()) == self@.len(),
            forall|n: int|
                0 <= n < lines@.len() ==> #[trigger] shows_line(
                    self@,
                    tab_width as nat,
                    n,
                    lines@[n]@,
                ),
    {
        let len = self.len();
        let mut lines: Vec<String> = Vec::new();
        let mut start: usize = 0;
        while start < len
            invariant
                start <= len,
                len == self@.len(),
                start == nth_line_start(self@, lines@.len()),
                crate::text::is_line_start(self@, start as int) || start == len,
                forall|n: int|
                    0 <= n < lines@.len() ==> #[trigger] shows_line(
                        self@,
                        tab_width as nat,
                        n,
                        lines@[n]@,
                    ),
            decreases len - start,
        {
            proof {
                crate::text::lemma_line_start(self@, start as int);
                crate::text::lemma_line_break(self@, start as int);
            }
            let (_, end) = self.line_span(start);
            let line = self.text_between(start, end);
            let shown = replace_tab(line.as_str(), tab_width);
            let ghost before = lines@;
            lines.push(shown);
            proof {
                let count = before.len() as int;
                assert(nth_line_start(self@, (count + 1) as nat) == end);
                assert(shows_line(self@, tab_width as nat, count, shown@));
                assert forall|n: int| 0 <= n < lines@.len() implies #[trigger] shows_line(
                    self@,
                    tab_width as nat,
                    n,
                    lines@[n]@,
                ) by {
                    if n < count {
                        assert(lines@[n] == before[n]);
                        assert(shows_line(self@, tab_width as nat, n, before[n]@));
                    }
                }
            }
            start = end;
        }
        lines
    }

    /// The lines of the buffer from line `first` on as they are shown, `count`
    /// of them at most: fewer only where the buffer ends before.
    pub fn display_lines(&self, first: usize, count: usize, tab_width: u8) -> (lines: Vec<String>)
        ensures
            lines@.len() <= count,
            lines@.len() == count || first + lines@.len() >= line_count(self@) || nth_line_start(
                self@,
                (first + lines@.len()) as nat,
            ) == self@.len(),
            forall|n: int|
                0 <= n < lines@.len() ==> #[trigger] shows_line(
                    self@,
                    tab_width as nat,
                    first + n,
                    lines@[n]@,
                ),
    {
        let len = self.len();
        let mut lines: Vec<String> = Vec::new();
        if first >= self.line_count() {
            return lines;
        }
        let mut start: usize = self.start_of_nth_line(first);
        proof {
            lemma_nth_line_is_start(self@, first as nat);
        }
        while start < len && lines.len() < count
            invariant
                start <= len,
                len == self@.len(),
                lines@.len() <= count,
                start == nth_line_start(self@, (first + lines@.len()) as nat),
                crate::text::is_line_start(self@, start as int) || start == len,
                forall|n: int|
                    0 <= n < lines@.len() ==> #[trigger] shows_line(
                        self@,
                        tab_width as nat,
                        first + n,
                        lines@[n]@,
                    ),
            decreases len - start,
        {
            proof {
                crate::text::lemma_line_start(self@, start as int);
                crate::text::lemma_line_break(self@, start as int);
            }
            let (_, end) = self.line_span(start);
            let line = self.text_between(start, end);
            let shown = replace_tab(line.as_str(), tab_width);
            let ghost before = lines@;
            lines.push(shown);
            proof {
                let at = first + before.len();
                assert(nth_line_start(self@, (at + 1) as nat) == end);
                assert(shows_line(self@, tab_width as nat, at, shown@));
                assert forall|n: int| 0 <= n < lines@.len() implies #[trigger] shows_line(
                    self@,
                    tab_width as nat,
                    first + n,
                    lines@[n]@,
                ) by {
                    if n < before.len() {
                        assert(lines@[n] == before[n]);
                        assert(shows_line(self@, tab_width as nat, first + n, before[n]@));
                    }
                }
            }
            start = end;
        }
        lines
    }
}

/// `line` is line `n` of `text` as it is shown: the line is not empty, and
/// `line` holds it with `tab_width` spaces in place of every tab.
pub open spec fn shows_line(text: Seq<u8>, tab_width: nat, n: int, line: Seq<char>) -> bool {
    &&& nth_line_start(text, n as nat) < nth_line_start(text, (n + 1) as nat)
    &&& encode_utf8(line) == expand_tabs(
        text.subrange(nth_line_start(text, n as nat), nth_line_start(text, (n + 1) as nat)),
        tab_width,
    )
}

} // verus!
