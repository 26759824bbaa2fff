//! The cursor: a caret or a selection, and the horizontal offset that
//! vertical moves remember.
//!
//! A cursor stores what it was last told and is read against a buffer: every
//! read and every move first brings the stored indices into the buffer, which
//! may have shrunk since. A selection whose two ends meet is a caret.
//!
//! The remembered offset is the host's: the cursor keeps it and hands it
//! back, and never computes with it.

use crate::buffer::TextBuffer;
use crate::coordinates::{
    hit_index, index_above, index_below, line_target, nth_boundary, shows_no_text, HitTarget,
    VerticalQuery,
};
use crate::navigation::{next_grapheme_boundary, previous_grapheme_boundary};
use crate::tabs::{column, expand_tabs, lemma_first_at_column, lemma_tab_round_trip};
use crate::text::{
    clamp_index, end_of_line, lemma_boundary_after_ascii, lemma_floor_boundary, lemma_line_break,
    lemma_line_break_within, lemma_line_start, lemma_line_start_within, line_break, line_start,
    next_line_start, scalar_boundary,
};
use crate::words::{next_end_of_word, previous_start_of_word};
use vstd::prelude::*;
use vstd::utf8::valid_utf8;

verus! {

/// The state of a [`Cursor`].
#[derive(Debug, Clone, Copy, PartialEq, Eq, Structural)]
pub enum State {
    /// Cursor without a selection
    Index(usize),
    /// Cursor selecting a range of text
    Selection {
        /// The start of the selection: the end that stays
        start: usize,
        /// The end of the selection: the end that moves
        end: usize,
    },
}

/// The four vertical moves.
#[derive(Debug, Clone, Copy, PartialEq, Eq, Structural)]
pub enum Vertical {
    MoveUp,
    MoveDown,
    SelectUp,
    SelectDown,
}

/// The cursor of a text input.
#[derive(Debug, Clone, Copy)]
pub struct Cursor<X> {
    state: State,
    offset_x_hint: Option<X>,
}

/// `i`, or `len` if `i` lies past it.
pub open spec fn at_most(i: usize, len: int) -> usize {
    if i <= len {
        i
    } else {
        len as usize
    }
}

/// A caret at `start` if the two ends meet, else the selection from `start`
/// to `end`.
pub open spec fn ranged(start: usize, end: usize) -> State {
    if start == end {
        State::Index(start)
    } else {
        State::Selection { start, end }
    }
}

/// `raw` as it reads against a text of length `len`: its indices brought
/// into the text, and a caret where the two ends of a selection meet.
pub open spec fn effective(raw: State, len: int) -> State {
    match raw {
        State::Index(index) => State::Index(at_most(index, len)),
        State::Selection { start, end } => ranged(at_most(start, len), at_most(end, len)),
    }
}

/// The end that stays.
pub open spec fn anchor(state: State) -> usize {
    match state {
        State::Index(index) => index,
        State::Selection { start, .. } => start,
    }
}

/// The end that moves.
pub open spec fn head(state: State) -> usize {
    match state {
        State::Index(index) => index,
        State::Selection { end, .. } => end,
    }
}

/// The lesser end.
pub open spec fn low(state: State) -> usize {
    if anchor(state) <= head(state) {
        anchor(state)
    } else {
        head(state)
    }
}

/// The greater end.
pub open spec fn high(state: State) -> usize {
    if anchor(state) <= head(state) {
        head(state)
    } else {
        anchor(state)
    }
}

/// Every index of `state` lies in a text of length `len`, and a selection
/// has two different ends.
pub open spec fn fits(state: State, len: int) -> bool {
    match state {
        State::Index(index) => index <= len,
        State::Selection { start, end } => start <= len && end <= len && start != end,
    }
}

/// A caret one grapheme further right; for a selection, a caret at its
/// greater end.
pub open spec fn moved_right(text: Seq<u8>, raw: State) -> State {
    match effective(raw, text.len() as int) {
        State::Index(index) => State::Index(
            next_grapheme_boundary(text, clamp_index(text, index as int)) as usize,
        ),
        selection => State::Index(high(selection)),
    }
}

/// A caret one grapheme further left; for a selection, a caret at its
/// lesser end.
pub open spec fn moved_left(text: Seq<u8>, raw: State) -> State {
    match effective(raw, text.len() as int) {
        State::Index(index) => State::Index(
            previous_grapheme_boundary(text, clamp_index(text, index as int)) as usize,
        ),
        selection => State::Index(low(selection)),
    }
}

/// A caret `amount` bytes further right, at the end of the text at most; for
/// a selection, a caret at its greater end.
pub open spec fn moved_right_by_bytes(text: Seq<u8>, raw: State, amount: usize) -> State {
    match effective(raw, text.len() as int) {
        State::Index(index) => State::Index(
            if index + amount <= text.len() {
                (index + amount) as usize
            } else {
                text.len() as usize
            },
        ),
        selection => State::Index(high(selection)),
    }
}

/// Where the moving end goes when the selection grows or shrinks to the
/// left by one grapheme; it stays at the start of the text.
pub open spec fn selected_left(text: Seq<u8>, raw: State) -> State {
    let state = effective(raw, text.len() as int);
    if head(state) > 0 {
        ranged(
            anchor(state),
            previous_grapheme_boundary(text, clamp_index(text, head(state) as int)) as usize,
        )
    } else {
        raw
    }
}

/// Where the moving end goes when the selection grows or shrinks to the
/// right by one grapheme; it stays at the end of the text.
pub open spec fn selected_right(text: Seq<u8>, raw: State) -> State {
    let state = effective(raw, text.len() as int);
    if head(state) < text.len() {
        ranged(
            anchor(state),
            next_grapheme_boundary(text, clamp_index(text, head(state) as int)) as usize,
        )
    } else {
        raw
    }
}

/// The index from which a vertical move sets out: for a caret the caret;
/// for a selection its lesser end when moving up, its greater end when
/// moving down, and its moving end when selecting.
pub open spec fn vertical_origin(state: State, movement: Vertical) -> usize {
    match movement {
        Vertical::MoveUp => low(state),
        Vertical::MoveDown => high(state),
        Vertical::SelectUp => head(state),
        Vertical::SelectDown => head(state),
    }
}

/// What a vertical move of the cursor needs from the glyph metrics.
pub open spec fn vertical_query(text: Seq<u8>, raw: State, has_hint: bool, movement: Vertical)
    -> VerticalQuery {
    let origin = clamp_index(
        text,
        vertical_origin(effective(raw, text.len() as int), movement) as int,
    );
    match movement {
        Vertical::MoveUp => index_above(text, origin, has_hint),
        Vertical::SelectUp => index_above(text, origin, has_hint),
        Vertical::MoveDown => index_below(text, origin, has_hint),
        Vertical::SelectDown => index_below(text, origin, has_hint),
    }
}

/// Where a vertical move that ends at `index` leaves the cursor.
pub open spec fn vertical_state(raw: State, len: int, movement: Vertical, index: usize) -> State {
    match movement {
        Vertical::MoveUp => State::Index(index),
        Vertical::MoveDown => State::Index(index),
        Vertical::SelectUp => ranged(anchor(effective(raw, len)), index),
        Vertical::SelectDown => ranged(anchor(effective(raw, len)), index),
    }
}

/// Whether the glyph metrics have given a vertical move all it asked for:
/// the measured offset if one was asked for, and a grapheme that the line
/// holds if a line was to be hit.
pub open spec fn vertical_answered<X>(
    text: Seq<u8>,
    raw: State,
    hint: Option<X>,
    movement: Vertical,
    tab_width: nat,
    measured: Option<X>,
    hit: Option<usize>,
) -> bool {
    let query = vertical_query(text, raw, hint is Some, movement);
    hit_index(text, query.target, tab_width, hit) is Some && (query.measure is Some
        ==> measured is Some)
}

/// The state that an answered vertical move ends in.
pub open spec fn after_vertical(
    text: Seq<u8>,
    raw: State,
    has_hint: bool,
    movement: Vertical,
    tab_width: nat,
    hit: Option<usize>,
) -> State {
    let query = vertical_query(text, raw, has_hint, movement);
    vertical_state(
        raw,
        text.len() as int,
        movement,
        hit_index(text, query.target, tab_width, hit)->0 as usize,
    )
}

/// The offset that an answered vertical move remembers: the measured one if
/// it asked for one, else the one it remembered before.
pub open spec fn hint_after_vertical<X>(
    text: Seq<u8>,
    raw: State,
    hint: Option<X>,
    movement: Vertical,
    measured: Option<X>,
) -> Option<X> {
    if vertical_query(text, raw, hint is Some, movement).measure is Some {
        measured
    } else {
        hint
    }
}

impl<X: Copy> Cursor<X> {
    /// What the cursor stores: the state it was last given, not yet read
    /// against any buffer.
    pub closed spec fn raw(&self) -> State {
        self.state
    }

    /// The horizontal offset that the cursor remembers.
    pub closed spec fn hint(&self) -> Option<X> {
        self.offset_x_hint
    }

    /// A caret at the start, with no offset remembered.
    pub fn new() -> (cursor: Cursor<X>)
        ensures
            cursor.raw() == State::Index(0),
            cursor.hint() is None,
    {
        Cursor { state: State::Index(0), offset_x_hint: None }
    }

    /// Returns the [`State`] of the [`Cursor`], read against `value`.
    pub fn state(&self, value: &TextBuffer) -> (state: State)
        ensures
            state == effective(self.raw(), value@.len() as int),
            fits(state, value@.len() as int),
    {
        let len = value.len();
        match self.state {
            State::Index(index) => State::Index(
                if index <= len {
                    index
                } else {
                    len
                },
            ),
            State::Selection { start, end } => {
                let start = if start <= len {
                    start
                } else {
                    len
                };
                let end = if end <= len {
                    end
                } else {
                    len
                };
                if start == end {
                    State::Index(start)
                } else {
                    State::Selection { start, end }
                }
            },
        }
    }

    /// Returns the current selection of the [`Cursor`], read against
    /// `value`: its lesser and its greater end, or nothing for a caret.
    pub fn selection(&self, value: &TextBuffer) -> (selection: Option<(usize, usize)>)
        ensures
            selection is None <==> effective(self.raw(), value@.len() as int) is Index,
            selection matches Some((lesser, greater)) ==> lesser == low(
                effective(self.raw(), value@.len() as int),
            ) && greater == high(effective(self.raw(), value@.len() as int)) && lesser < greater
                <= value@.len(),
    {
        match self.state(value) {
            State::Selection { start, end } => {
                if start <= end {
                    Some((start, end))
                } else {
                    Some((end, start))
                }
            },
            State::Index(_) => None,
        }
    }

    /// The end that stays, read against `value`.
    pub fn start(&self, value: &TextBuffer) -> (start: usize)
        ensures
            start == at_most(anchor(self.raw()), value@.len() as int),
            start == anchor(effective(self.raw(), value@.len() as int)),
            start <= value@.len(),
    {
        let start = match self.state {
            State::Index(index) => index,
            State::Selection { start, .. } => start,
        };
        let len = value.len();
        if start <= len {
            start
        } else {
            len
        }
    }

    /// The end that moves, read against `value`.
    pub fn end(&self, value: &TextBuffer) -> (end: usize)
        ensures
            end == at_most(head(self.raw()), value@.len() as int),
            end == head(effective(self.raw(), value@.len() as int)),
            end <= value@.len(),
    {
        let end = match self.state {
            State::Index(index) => index,
            State::Selection { end, .. } => end,
        };
        let len = value.len();
        if end <= len {
            end
        } else {
            len
        }
    }

    /// The horizontal offset that vertical moves remember.
    pub fn offset_x_hint(&self) -> (hint: Option<X>)
        ensures
            hint == self.hint(),
    {
        self.offset_x_hint
    }

    /// Puts a caret at `position` and forgets the remembered offset.
    pub fn move_to_byte(&mut self, position: usize)
        ensures
            final(self).raw() == State::Index(position),
            final(self).hint() is None,
    {
        self.state = State::Index(position);
        self.offset_x_hint = None;
    }

    /// Makes a caret of a selection at its greater end; moves a caret one
    /// grapheme to the right.
    pub fn move_right(&mut self, value: &TextBuffer)
        ensures
            final(self).raw() == moved_right(value@, old(self).raw()),
            fits(final(self).raw(), value@.len() as int),
            final(self).hint() is None,
    {
        let position = match self.state(value) {
            State::Selection { start, end } => if start <= end {
                end
            } else {
                start
            },
            State::Index(index) => value.next_grapheme(index),
        };
        self.move_to_byte(position);
    }

    /// Makes a caret of a selection at its lesser end; moves a caret one
    /// grapheme to the left.
    pub fn move_left(&mut self, value: &TextBuffer)
        ensures
            final(self).raw() == moved_left(value@, old(self).raw()),
            fits(final(self).raw(), value@.len() as int),
            final(self).hint() is None,
    {
        let position = match self.state(value) {
            State::Selection { start, end } => if start <= end {
                start
            } else {
                end
            },
            State::Index(index) => value.previous_grapheme(index),
        };
        self.move_to_byte(position);
    }

    /// Puts a caret where a word move forward from the moving end ends.
    pub fn move_right_by_words(&mut self, value: &TextBuffer)
        ensures
            final(self).raw() == State::Index(
                next_end_of_word(
                    value@,
                    clamp_index(value@, head(effective(old(self).raw(), value@.len() as int)) as int),
                ) as usize,
            ),
            fits(final(self).raw(), value@.len() as int),
            final(self).hint() is None,
    {
        let from = self.end(value);
        self.move_to_byte(value.next_end_of_word(from));
    }

    /// Puts a caret where a word move backward from the end that stays ends.
    pub fn move_left_by_words(&mut self, value: &TextBuffer)
        ensures
            final(self).raw() == State::Index(
                previous_start_of_word(
                    value@,
                    clamp_index(
                        value@,
                        anchor(effective(old(self).raw(), value@.len() as int)) as int,
                    ),
                ) as usize,
            ),
            fits(final(self).raw(), value@.len() as int),
            final(self).hint() is None,
    {
        let from = self.start(value);
        self.move_to_byte(value.previous_start_of_word(from));
    }

    /// Puts a caret at the visible end of the line of the moving end.
    pub fn move_right_by_line(&mut self, value: &TextBuffer)
        ensures
            final(self).raw() == State::Index(
                end_of_line(
                    value@,
                    clamp_index(value@, head(effective(old(self).raw(), value@.len() as int)) as int),
                ) as usize,
            ),
            fits(final(self).raw(), value@.len() as int),
            final(self).hint() is None,
    {
        let from = self.end(value);
        self.move_to_byte(find_end_of_line(from, value));
    }

    /// Puts a caret at the start of the line of the end that stays.
    pub fn move_left_by_line(&mut self, value: &TextBuffer)
        ensures
            final(self).raw() == State::Index(
                line_start(
                    value@,
                    clamp_index(
                        value@,
                        anchor(effective(old(self).raw(), value@.len() as int)) as int,
                    ),
                ) as usize,
            ),
            fits(final(self).raw(), value@.len() as int),
            final(self).hint() is None,
    {
        let from = self.start(value);
        self.move_to_byte(value.start_of_line(from));
    }

    /// Moves a caret `amount` bytes to the right, as far as the buffer
    /// reaches; makes a caret of a selection at its greater end.
    pub fn move_right_by_bytes(&mut self, value: &TextBuffer, amount: usize)
        ensures
            final(self).raw() == moved_right_by_bytes(value@, old(self).raw(), amount),
            fits(final(self).raw(), value@.len() as int),
            final(self).hint() is None,
    {
        let len = value.len();
        let position = match self.state(value) {
            State::Index(index) => if amount <= len - index {
                index + amount
            } else {
                len
            },
            State::Selection { start, end } => if start <= end {
                end
            } else {
                start
            },
        };
        self.move_to_byte(position);
    }

    /// Selects from `start` to `end`, or puts a caret where the two meet,
    /// and forgets the remembered offset.
    pub fn select_range(&mut self, start: usize, end: usize)
        ensures
            final(self).raw() == ranged(start, end),
            final(self).hint() is None,
    {
        self.state = if start == end {
            State::Index(start)
        } else {
            State::Selection { start, end }
        };
        self.offset_x_hint = None;
    }

    /// Moves the moving end one grapheme to the left.
    pub fn select_left(&mut self, value: &TextBuffer)
        ensures
            final(self).raw() == selected_left(value@, old(self).raw()),
            final(self).hint() is None,
    {
        let state = self.state(value);
        let (from, to) = match state {
            State::Index(index) => (index, index),
            State::Selection { start, end } => (start, end),
        };
        if to > 0 {
            self.select_range(from, value.previous_grapheme(to));
        } else {
            self.offset_x_hint = None;
        }
    }

    /// Moves the moving end one grapheme to the right.
    pub fn select_right(&mut self, value: &TextBuffer)
        ensures
            final(self).raw() == selected_right(value@, old(self).raw()),
            final(self).hint() is None,
    {
        let state = self.state(value);
        let (from, to) = match state {
            State::Index(index) => (index, index),
            State::Selection { start, end } => (start, end),
        };
        if to < value.len() {
            self.select_range(from, value.next_grapheme(to));
        } else {
            self.offset_x_hint = None;
        }
    }

    /// Moves the moving end to where a word move backward from it ends.
    pub fn select_left_by_words(&mut self, value: &TextBuffer)
        ensures
            final(self).raw() == ranged(
                anchor(effective(old(self).raw(), value@.len() as int)),
                previous_start_of_word(
                    value@,
                    clamp_index(value@, head(effective(old(self).raw(), value@.len() as int)) as int),
                ) as usize,
            ),
            fits(final(self).raw(), value@.len() as int),
            final(self).hint() is None,
    {
        let from = self.start(value);
        let to = self.end(value);
        self.select_range(from, value.previous_start_of_word(to));
    }

    /// Moves the moving end to where a word move forward from it ends.
    pub fn select_right_by_words(&mut self, value: &TextBuffer)
        ensures
            final(self).raw() == ranged(
                anchor(effective(old(self).raw(), value@.len() as int)),
                next_end_of_word(
                    value@,
                    clamp_index(value@, head(effective(old(self).raw(), value@.len() as int)) as int),
                ) as usize,
            ),
            fits(final(self).raw(), value@.len() as int),
            final(self).hint() is None,
    {
        let from = self.start(value);
        let to = self.end(value);
        self.select_range(from, value.next_end_of_word(to));
    }

    /// Moves the moving end to the start of its line.
    pub fn select_left_by_line(&mut self, value: &TextBuffer)
        ensures
            final(self).raw() == ranged(
                anchor(effective(old(self).raw(), value@.len() as int)),
                line_start(
                    value@,
                    clamp_index(value@, head(effective(old(self).raw(), value@.len() as int)) as int),
                ) as usize,
            ),
            fits(final(self).raw(), value@.len() as int),
            final(self).hint() is None,
    {
        let from = self.start(value);
        let to = self.end(value);
        self.select_range(from, value.start_of_line(to));
    }

    /// Moves the moving end to the visible end of its line.
    pub fn select_right_by_line(&mut self, value: &TextBuffer)
        ensures
            final(self).raw() == ranged(
                anchor(effective(old(self).raw(), value@.len() as int)),
                end_of_line(
                    value@,
                    clamp_index(value@, head(effective(old(self).raw(), value@.len() as int)) as int),
                ) as usize,
            ),
            fits(final(self).raw(), value@.len() as int),
            final(self).hint() is None,
    {
        let from = self.start(value);
        let to = self.end(value);
        self.select_range(from, find_end_of_line(to, value));
    }

    /// Selects the whole of `value`, or puts a caret at 0 if it is empty.
    pub fn select_all(&mut self, value: &TextBuffer)
        ensures
            final(self).raw() == ranged(0, value@.len() as usize),
            fits(final(self).raw(), value@.len() as int),
            final(self).hint() is None,
    {
        self.select_range(0, value.len());
    }

    /// What the vertical move `movement` needs from the glyph metrics before
    /// it can be made.
    pub fn vertical_query(&self, value: &TextBuffer, movement: Vertical) -> (query: VerticalQuery)
        ensures
            query == vertical_query(value@, self.raw(), self.hint() is Some, movement),
            value.takes(query.target),
            query.measure is Some ==> query.measure->0 <= value@.len(),
    {
        let state = self.state(value);
        let (from, to) = match state {
            State::Index(index) => (index, index),
            State::Selection { start, end } => (start, end),
        };
        let has_hint = self.offset_x_hint.is_some();
        match movement {
            Vertical::MoveUp => value.find_index_above(
                if from <= to {
                    from
                } else {
                    to
                },
                has_hint,
            ),
            Vertical::MoveDown => value.find_index_below(
                if from <= to {
                    to
                } else {
                    from
                },
                has_hint,
            ),
            Vertical::SelectUp => value.find_index_above(to, has_hint),
            Vertical::SelectDown => value.find_index_below(to, has_hint),
        }
    }

    /// Makes the vertical move `movement` with what the glyph metrics
    /// answered: `measured`, the horizontal offset of the index that the
    /// query asked to measure, and `hit`, the grapheme of the shown line
    /// that lies at the offset to keep. Where an answer that the query asked
    /// for is missing, or fits no grapheme of the line, the cursor stays as
    /// it is and the result is `false`.
    pub fn move_vertically(
        &mut self,
        value: &TextBuffer,
        movement: Vertical,
        tab_width: u8,
        measured: Option<X>,
        hit: Option<usize>,
    ) -> (moved: bool)
        ensures
            moved == vertical_answered(
                value@,
                old(self).raw(),
                old(self).hint(),
                movement,
                tab_width as nat,
                measured,
                hit,
            ),
            moved ==> final(self).raw() == after_vertical(
                value@,
                old(self).raw(),
                old(self).hint() is Some,
                movement,
                tab_width as nat,
                hit,
            ),
            moved ==> fits(final(self).raw(), value@.len() as int),
            moved ==> final(self).hint() is Some && final(self).hint() == hint_after_vertical(
                value@,
                old(self).raw(),
                old(self).hint(),
                movement,
                measured,
            ),
            !moved ==> final(self).raw() == old(self).raw() && final(self).hint() == old(
                self,
            ).hint(),
    {
        let query = self.vertical_query(value, movement);
        let hint = match query.measure {
            Some(_) => measured,
            None => self.offset_x_hint,
        };
        if hint.is_none() {
            return false;
        }
        let index = match value.index_of_hit(query.target, tab_width, hit) {
            Some(index) => index,
            None => {
                return false;
            },
        };
        let from = self.start(value);
        self.state = match movement {
            Vertical::MoveUp => State::Index(index),
            Vertical::MoveDown => State::Index(index),
            Vertical::SelectUp => if from == index {
                State::Index(from)
            } else {
                State::Selection { start: from, end: index }
            },
            Vertical::SelectDown => if from == index {
                State::Index(from)
            } else {
                State::Selection { start: from, end: index }
            },
        };
        self.offset_x_hint = hint;
        true
    }

    /// Moves the caret, or the lesser end of a selection, one line up.
    pub fn move_up(
        &mut self,
        value: &TextBuffer,
        tab_width: u8,
        measured: Option<X>,
        hit: Option<usize>,
    ) -> (moved: bool)
        ensures
            moved == vertical_answered(
                value@,
                old(self).raw(),
                old(self).hint(),
                Vertical::MoveUp,
                tab_width as nat,
                measured,
                hit,
            ),
            moved ==> final(self).raw() == after_vertical(
                value@,
                old(self).raw(),
                old(self).hint() is Some,
                Vertical::MoveUp,
                tab_width as nat,
                hit,
            ),
            moved ==> final(self).hint() is Some && final(self).hint() == hint_after_vertical(
                value@,
                old(self).raw(),
                old(self).hint(),
                Vertical::MoveUp,
                measured,
            ),
            !moved ==> final(self).raw() == old(self).raw() && final(self).hint() == old(
                self,
            ).hint(),
    {
        self.move_vertically(value, Vertical::MoveUp, tab_width, measured, hit)
    }

    /// Moves the caret, or the greater end of a selection, one line down.
    pub fn move_down(
        &mut self,
        value: &TextBuffer,
        tab_width: u8,
        measured: Option<X>,
        hit: Option<usize>,
    ) -> (moved: bool)
        ensures
            moved == vertical_answered(
                value@,
                old(self).raw(),
                old(self).hint(),
                Vertical::MoveDown,
                tab_width as nat,
                measured,
                hit,
            ),
            moved ==> final(self).raw() == after_vertical(
                value@,
                old(self).raw(),
                old(self).hint() is Some,
                Vertical::MoveDown,
                tab_width as nat,
                hit,
            ),
            moved ==> final(self).hint() is Some && final(self).hint() == hint_after_vertical(
                value@,
                old(self).raw(),
                old(self).hint(),
                Vertical::MoveDown,
                measured,
            ),
            !moved ==> final(self).raw() == old(self).raw() && final(self).hint() == old(
                self,
            ).hint(),
    {
        self.move_vertically(value, Vertical::MoveDown, tab_width, measured, hit)
    }

    /// Moves the moving end one line up.
    pub fn select_up(
        &mut self,
        value: &TextBuffer,
        tab_width: u8,
        measured: Option<X>,
        hit: Option<usize>,
    ) -> (moved: bool)
        ensures
            moved == vertical_answered(
                value@,
                old(self).raw(),
                old(self).hint(),
                Vertical::SelectUp,
                tab_width as nat,
                measured,
                hit,
            ),
            moved ==> final(self).raw() == after_vertical(
                value@,
                old(self).raw(),
                old(self).hint() is Some,
                Vertical::SelectUp,
                tab_width as nat,
                hit,
            ),
            moved ==> final(self).hint() is Some && final(self).hint() == hint_after_vertical(
                value@,
                old(self).raw(),
                old(self).hint(),
                Vertical::SelectUp,
                measured,
            ),
            !moved ==> final(self).raw() == old(self).raw() && final(self).hint() == old(
                self,
            ).hint(),
    {
        self.move_vertically(value, Vertical::SelectUp, tab_width, measured, hit)
    }

    /// Moves the moving end one line down.
    pub fn select_down(
        &mut self,
        value: &TextBuffer,
        tab_width: u8,
        measured: Option<X>,
        hit: Option<usize>,
    ) -> (moved: bool)
        ensures
            moved == vertical_answered(
                value@,
                old(self).raw(),
                old(self).hint(),
                Vertical::SelectDown,
                tab_width as nat,
                measured,
                hit,
            ),
            moved ==> final(self).raw() == after_vertical(
                value@,
                old(self).raw(),
                old(self).hint() is Some,
                Vertical::SelectDown,
                tab_width as nat,
                hit,
            ),
            moved ==> final(self).hint() is Some && final(self).hint() == hint_after_vertical(
                value@,
                old(self).raw(),
                old(self).hint(),
                Vertical::SelectDown,
                measured,
            ),
            !moved ==> final(self).raw() == old(self).raw() && final(self).hint() == old(
                self,
            ).hint(),
    {
        self.move_vertically(value, Vertical::SelectDown, tab_width, measured, hit)
    }
}

/// Where the visible part of the line that holds `index` ends: before its
/// terminator, or at the end of the buffer on the last line.
pub fn find_end_of_line(index: usize, value: &TextBuffer) -> (end: usize)
    ensures
        end == end_of_line(value@, value.spec_clamp(index as int)),
        end <= value@.len(),
{
    value.end_of_line(index)
}

/// After a move to any position the cursor reads inside the buffer: neither
/// of its ends lies past the length of the text.
pub proof fn lemma_move_to_is_clamped(position: usize, len: nat)
    ensures
        anchor(effective(State::Index(position), len as int)) <= len,
        head(effective(State::Index(position), len as int)) <= len,
        effective(State::Index(position), len as int) is Index,
{
}

/// Read against any text, a cursor has its lesser end before its greater
/// end and both in the text; the two meet if and only if it is a caret, and
/// then the caret stands where they meet.
pub proof fn lemma_selection_is_normalized(raw: State, len: nat)
    ensures
        low(effective(raw, len as int)) <= high(effective(raw, len as int)) <= len,
        low(effective(raw, len as int)) == high(effective(raw, len as int)) <==> effective(
            raw,
            len as int,
        ) is Index,
        effective(raw, len as int) is Index ==> effective(raw, len as int) == State::Index(
            low(effective(raw, len as int)),
        ),
        fits(effective(raw, len as int), len as int),
{
}

/// In valid UTF-8, bringing an index down to a scalar boundary keeps it on
/// its line.
pub proof fn lemma_clamp_keeps_line(text: Seq<u8>, index: int)
    requires
        valid_utf8(text),
        0 <= index <= text.len(),
    ensures
        line_start(text, clamp_index(text, index)) == line_start(text, index),
        line_start(text, index) <= clamp_index(text, index) <= index,
{
    let start = line_start(text, index);
    lemma_line_start(text, index);
    lemma_floor_boundary(text, index);
    if start > 0 {
        lemma_boundary_after_ascii(text, start);
    }
    let floor = clamp_index(text, index);
    assert(start <= floor);
    lemma_line_start_within(text, start, floor);
    lemma_line_start(text, start);
}

/// A move down and then up keeps the offset that was measured where the
/// cursor set out, and leads back into the line it set out from; it leads
/// back to the very index if the glyph metrics answer the move up with the
/// grapheme shown at that index's column and tabs have any width.
///
/// The cursor sets out as a caret on a scalar boundary of a line that is
/// not the last, with no offset remembered, and the move down ends on the
/// line below.
pub proof fn lemma_down_then_up<X>(
    text: Seq<u8>,
    index: usize,
    tab_width: nat,
    measured: X,
    hit_down: Option<usize>,
    hit_up: Option<usize>,
)
    requires
        valid_utf8(text),
        index <= text.len(),
        scalar_boundary(text, index as int),
        line_break(text, index as int) < text.len(),
        vertical_answered(
            text,
            State::Index(index),
            None::<X>,
            Vertical::MoveDown,
            tab_width,
            Some(measured),
            hit_down,
        ),
        line_start(
            text,
            head(
                after_vertical(
                    text,
                    State::Index(index),
                    false,
                    Vertical::MoveDown,
                    tab_width,
                    hit_down,
                ),
            ) as int,
        ) == next_line_start(text, index as int),
    ensures
        hint_after_vertical(
            text,
            State::Index(index),
            None::<X>,
            Vertical::MoveDown,
            Some(measured),
        ) == Some(measured),
        hint_after_vertical(
            text,
            after_vertical(text, State::Index(index), false, Vertical::MoveDown, tab_width, hit_down),
            Some(measured),
            Vertical::MoveUp,
            None::<X>,
        ) == Some(measured),
        vertical_query(
            text,
            after_vertical(text, State::Index(index), false, Vertical::MoveDown, tab_width, hit_down),
            true,
            Vertical::MoveUp,
        ).target == line_target(text, line_start(text, index as int)),
        tab_width >= 1 && !shows_no_text(text, line_start(text, index as int)) && hit_up is Some
            && nth_boundary(
            expand_tabs(
                text.subrange(line_start(text, index as int), next_line_start(text, index as int)),
                tab_width,
            ),
            hit_up->0 as nat,
        ) == Some(
            column(
                text.subrange(line_start(text, index as int), next_line_start(text, index as int)),
                tab_width,
                index - line_start(text, index as int),
            ),
        ) ==> after_vertical(
            text,
            after_vertical(text, State::Index(index), false, Vertical::MoveDown, tab_width, hit_down),
            true,
            Vertical::MoveUp,
            tab_width,
            hit_up,
        ) == State::Index(index),
{
    let len = text.len() as int;
    let start = line_start(text, index as int);
    let below = next_line_start(text, index as int);
    let feed = line_break(text, index as int);
    lemma_floor_boundary(text, index as int);
    lemma_line_start(text, index as int);
    lemma_line_break(text, index as int);
    let middle = after_vertical(
        text,
        State::Index(index),
        false,
        Vertical::MoveDown,
        tab_width,
        hit_down,
    );
    let m = head(middle);
    assert(middle == State::Index(m));
    match line_target(text, below) {
        HitTarget::At { index } => {},
        HitTarget::Line { start: from, end: to } => {
            lemma_first_at_column(
                text.subrange(from as int, to as int),
                tab_width,
                nth_boundary(
                    expand_tabs(text.subrange(from as int, to as int), tab_width),
                    hit_down->0 as nat,
                )->0,
                0,
            );
        },
    }
    assert(m <= len);
    assert(effective(middle, len) == middle);
    lemma_clamp_keeps_line(text, m as int);
    // The line above the line below is the line of `index`.
    lemma_line_start_within(text, index as int, feed);
    assert(line_start(text, below - 1) == start);
    if start > 0 {
        lemma_boundary_after_ascii(text, start);
    }
    lemma_boundary_after_ascii(text, below);
    if tab_width >= 1 && !shows_no_text(text, start) && hit_up is Some {
        let line = text.subrange(start, below);
        lemma_tab_round_trip(line, tab_width, index - start);
        lemma_line_break_within(text, start, index as int);
    }
}

} // verus!
