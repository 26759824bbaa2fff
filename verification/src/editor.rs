//! The editor: insert, paste, backspace and delete, each of which changes
//! the buffer and the cursor together and leaves the cursor inside the
//! buffer, on a scalar boundary.

use crate::buffer::TextBuffer;
use crate::cursor::{effective, fits, high, low, Cursor, State};
use crate::navigation::{next_grapheme_boundary, previous_grapheme_boundary};
use crate::text::{clamp_index, lemma_floor_boundary, scalar_boundary};
use vstd::prelude::*;
use vstd::string::StringSliceAdditionalSpecFns;
use vstd::utf8::encode_utf8;

verus! {

/// `text` without what `raw` selects; `text` itself for a caret.
pub open spec fn without_selection(text: Seq<u8>, raw: State) -> Seq<u8> {
    let state = effective(raw, text.len() as int);
    if state is Index {
        text
    } else {
        text.subrange(0, clamp_index(text, low(state) as int)) + text.subrange(
            clamp_index(text, high(state) as int),
            text.len() as int,
        )
    }
}

/// Where the caret stands once what `raw` selects is gone: at the lesser
/// end of a selection, at the caret itself otherwise, brought down to a
/// scalar boundary.
pub open spec fn caret(text: Seq<u8>, raw: State) -> int {
    clamp_index(text, low(effective(raw, text.len() as int)) as int)
}

/// `text` with `inserted` in place of what `raw` selects, or at the caret.
pub open spec fn with_inserted(text: Seq<u8>, raw: State, inserted: Seq<u8>) -> Seq<u8> {
    let rest = without_selection(text, raw);
    let at = caret(text, raw);
    rest.subrange(0, at) + inserted + rest.subrange(at, rest.len() as int)
}

/// `text` after a backspace: without the selection, or without the grapheme
/// before the caret.
pub open spec fn after_backspace(text: Seq<u8>, raw: State) -> Seq<u8> {
    let at = caret(text, raw);
    if effective(raw, text.len() as int) is Index {
        text.subrange(0, previous_grapheme_boundary(text, at)) + text.subrange(
            at,
            text.len() as int,
        )
    } else {
        without_selection(text, raw)
    }
}

/// Where the caret stands after a backspace.
pub open spec fn caret_after_backspace(text: Seq<u8>, raw: State) -> int {
    let at = caret(text, raw);
    if effective(raw, text.len() as int) is Index {
        previous_grapheme_boundary(text, at)
    } else {
        at
    }
}

/// `text` after a delete: without the selection, or without the grapheme
/// after the caret.
pub open spec fn after_delete(text: Seq<u8>, raw: State) -> Seq<u8> {
    let at = caret(text, raw);
    if effective(raw, text.len() as int) is Index {
        text.subrange(0, at) + text.subrange(
            next_grapheme_boundary(text, at),
            text.len() as int,
        )
    } else {
        without_selection(text, raw)
    }
}

/// Cutting a text between two scalar boundaries leaves the cut on a scalar
/// boundary.
pub proof fn lemma_cut_keeps_boundary(text: Seq<u8>, start: int, end: int)
    requires
        0 <= start <= end <= text.len(),
        scalar_boundary(text, start),
        scalar_boundary(text, end),
    ensures
        scalar_boundary(
            text.subrange(0, start) + text.subrange(end, text.len() as int),
            start,
        ),
{
    let rest = text.subrange(0, start) + text.subrange(end, text.len() as int);
    if 0 < start < rest.len() {
        assert(rest[start] == text[end]);
    }
}

/// Takes what `cursor` selects out of `value` and leaves a caret where it
/// was; brings a caret into the buffer and down to a scalar boundary.
/// Returns where the caret stands.
pub fn delete_selection<X: Copy>(value: &mut TextBuffer, cursor: &mut Cursor<X>) -> (at: usize)
    ensures
        final(value)@ == without_selection(old(value)@, old(cursor).raw()),
        at == caret(old(value)@, old(cursor).raw()),
        at <= final(value)@.len(),
        scalar_boundary(final(value)@, at as int),
        final(cursor).raw() == State::Index(at),
        final(cursor).hint() is None,
{
    let ghost text = value@;
    match cursor.selection(value) {
        Some((lesser, greater)) => {
            let start = value.clamp(lesser);
            let end = value.clamp(greater);
            proof {
                crate::buffer::lemma_floor_monotonic(text, lesser as int, greater as int);
                lemma_cut_keeps_boundary(text, start as int, end as int);
            }
            value.cut_out(start, end);
            cursor.move_to_byte(start);
            start
        },
        None => {
            let at = value.clamp(cursor.end(value));
            cursor.move_to_byte(at);
            at
        },
    }
}

/// Puts `character` in place of the selection, or at the caret, and the
/// caret one grapheme further. Returns the new contents.
pub fn insert<X: Copy>(value: &mut TextBuffer, cursor: &mut Cursor<X>, character: char) -> (contents:
    String)
    ensures
        final(value)@ == with_inserted(
            old(value)@,
            old(cursor).raw(),
            encode_utf8(seq![character]),
        ),
        final(cursor).raw() == State::Index(
            next_grapheme_boundary(final(value)@, caret(old(value)@, old(cursor).raw())) as usize,
        ),
        fits(final(cursor).raw(), final(value)@.len() as int),
        final(cursor).hint() is None,
        encode_utf8(contents@) == final(value)@,
{
    let at = delete_selection(value, cursor);
    let ghost rest = value@;
    proof {
        use_type_invariant(&*value);
        vstd::utf8::encode_utf8_valid_utf8(seq![character]);
        lemma_insert_keeps_boundary(rest, at as int, encode_utf8(seq![character]));
    }
    value.splice_in_char(at, character);
    proof {
        lemma_floor_boundary(value@, at as int);
    }
    cursor.move_right(value);
    value.contents()
}

/// Splicing valid UTF-8 into valid UTF-8 at a scalar boundary leaves scalar
/// boundaries before and after what was spliced in.
pub proof fn lemma_insert_keeps_boundary(text: Seq<u8>, at: int, inserted: Seq<u8>)
    requires
        0 <= at <= text.len(),
        scalar_boundary(text, at),
        vstd::utf8::valid_utf8(text),
        vstd::utf8::valid_utf8(inserted),
    ensures
        scalar_boundary(
            text.subrange(0, at) + inserted + text.subrange(at, text.len() as int),
            at,
        ),
        scalar_boundary(
            text.subrange(0, at) + inserted + text.subrange(at, text.len() as int),
            at + inserted.len(),
        ),
{
    let joined = text.subrange(0, at) + inserted + text.subrange(at, text.len() as int);
    assert(joined.len() == text.len() + inserted.len());
    if at < text.len() {
        assert(joined[at + inserted.len()] == text[at]);
        if at == 0 {
            assert(vstd::utf8::valid_first_scalar(text));
        }
    }
    if inserted.len() > 0 {
        assert(joined[at] == inserted[0]);
        assert(vstd::utf8::valid_first_scalar(inserted));
    }
}

/// Puts `content` in place of the selection, or at the caret, and the caret
/// after it. Returns the new contents.
pub fn paste<X: Copy>(value: &mut TextBuffer, cursor: &mut Cursor<X>, content: &str) -> (contents:
    String)
    ensures
        final(value)@ == with_inserted(old(value)@, old(cursor).raw(), content.spec_bytes()),
        final(cursor).raw() == State::Index(
            (caret(old(value)@, old(cursor).raw()) + content.spec_bytes().len()) as usize,
        ),
        fits(final(cursor).raw(), final(value)@.len() as int),
        final(cursor).hint() is None,
        encode_utf8(contents@) == final(value)@,
{
    let at = delete_selection(value, cursor);
    let ghost rest = value@;
    value.splice_in(at, content);
    let total = value.len();
    proof {
        assert(total == rest.len() + content.spec_bytes().len());
    }
    cursor.move_right_by_bytes(value, content.len());
    value.contents()
}

/// Takes the selection out, or the grapheme before the caret, and leaves
/// the caret where the gap is. Returns the new contents.
pub fn backspace<X: Copy>(value: &mut TextBuffer, cursor: &mut Cursor<X>) -> (contents: String)
    ensures
        final(value)@ == after_backspace(old(value)@, old(cursor).raw()),
        final(cursor).raw() == State::Index(
            caret_after_backspace(old(value)@, old(cursor).raw()) as usize,
        ),
        fits(final(cursor).raw(), final(value)@.len() as int),
        final(cursor).hint() is None,
        encode_utf8(contents@) == final(value)@,
{
    let ghost text = value@;
    if cursor.selection(value).is_some() {
        let _ = delete_selection(value, cursor);
    } else {
        let at = value.clamp(cursor.end(value));
        let before = value.previous_grapheme(at);
        proof {
            use_type_invariant(&*value);
            lemma_floor_boundary(text, at as int);
            crate::navigation::lemma_ends_are_grapheme_boundaries(text);
            if at > 0 {
                crate::navigation::lemma_previous_grapheme_boundary(text, at as int);
                crate::navigation::lemma_grapheme_boundary_is_scalar_boundary(
                    text,
                    before as int,
                );
            }
            assert(text.subrange(0, at as int) + text.subrange(at as int, text.len() as int)
                =~= text);
        }
        value.cut_out(before, at);
        cursor.move_to_byte(before);
    }
    value.contents()
}

/// Takes the selection out, or the grapheme after the caret; the caret
/// stays. Returns the new contents.
pub fn delete<X: Copy>(value: &mut TextBuffer, cursor: &mut Cursor<X>) -> (contents: String)
    ensures
        final(value)@ == after_delete(old(value)@, old(cursor).raw()),
        final(cursor).raw() == State::Index(caret(old(value)@, old(cursor).raw()) as usize),
        fits(final(cursor).raw(), final(value)@.len() as int),
        final(cursor).hint() is None,
        encode_utf8(contents@) == final(value)@,
{
    let ghost text = value@;
    if cursor.selection(value).is_some() {
        let _ = delete_selection(value, cursor);
    } else {
        let at = value.clamp(cursor.end(value));
        let after = value.next_grapheme(at);
        proof {
            use_type_invariant(&*value);
            lemma_floor_boundary(text, at as int);
            crate::navigation::lemma_ends_are_grapheme_boundaries(text);
            if at < text.len() {
                crate::navigation::lemma_next_grapheme_boundary(text, at as int);
                crate::navigation::lemma_grapheme_boundary_is_scalar_boundary(
                    text,
                    after as int,
                );
            }
            assert(text.subrange(0, at as int) + text.subrange(at as int, text.len() as int)
                =~= text);
        }
        value.cut_out(at, after);
        cursor.move_to_byte(at);
    }
    value.contents()
}

/// A buffer and its cursor, borrowed together for editing: every edit
/// changes both and leaves the cursor inside the buffer.
pub struct Editor<'a, X> {
    /// The buffer that is edited.
    pub value: &'a mut TextBuffer,
    /// The cursor at which it is edited.
    pub cursor: &'a mut Cursor<X>,
}

impl<'a, X: Copy> Editor<'a, X> {
    /// The text under the editor.
    pub open spec fn text(&self) -> Seq<u8> {
        (*self.value)@
    }

    /// What the cursor under the editor stores.
    pub open spec fn raw(&self) -> State {
        (*self.cursor).raw()
    }

    /// The offset that the cursor under the editor remembers.
    pub open spec fn hint(&self) -> Option<X> {
        (*self.cursor).hint()
    }

    /// An editor over `value` and `cursor`. What it does to them is what
    /// their owner finds when the editor is gone.
    pub fn new(value: &'a mut TextBuffer, cursor: &'a mut Cursor<X>) -> (editor: Editor<'a, X>)
        ensures
            *editor.value == *old(value),
            *editor.cursor == *old(cursor),
            *final(editor.value) == *final(value),
            *final(editor.cursor) == *final(cursor),
    {
        Editor { value, cursor }
    }

    /// The whole text.
    pub fn contents(&self) -> (text: String)
        ensures
            encode_utf8(text@) == self.text(),
    {
        self.value.contents()
    }

    /// Puts `character` in place of the selection, or at the caret, and the
    /// caret one grapheme further.
    pub fn insert(&mut self, character: char)
        ensures
            final(self).text() == with_inserted(
                old(self).text(),
                old(self).raw(),
                encode_utf8(seq![character]),
            ),
            final(self).raw() == State::Index(
                next_grapheme_boundary(final(self).text(), caret(old(self).text(), old(self).raw())) as usize,
            ),
            fits(final(self).raw(), final(self).text().len() as int),
            final(self).hint() is None,
            *final(final(self).value) == *final(old(self).value),
            *final(final(self).cursor) == *final(old(self).cursor),
    {
        let _ = insert(self.value, self.cursor, character);
    }

    /// Puts `content` in place of the selection, or at the caret, and the
    /// caret after it.
    pub fn paste(&mut self, content: &str)
        ensures
            final(self).text() == with_inserted(
                old(self).text(),
                old(self).raw(),
                content.spec_bytes(),
            ),
            final(self).raw() == State::Index(
                (caret(old(self).text(), old(self).raw()) + content.spec_bytes().len()) as usize,
            ),
            fits(final(self).raw(), final(self).text().len() as int),
            final(self).hint() is None,
            *final(final(self).value) == *final(old(self).value),
            *final(final(self).cursor) == *final(old(self).cursor),
    {
        let _ = paste(self.value, self.cursor, content);
    }

    /// Takes the selection out, or the grapheme before the caret, and leaves
    /// the caret where the gap is.
    pub fn backspace(&mut self)
        ensures
            final(self).text() == after_backspace(old(self).text(), old(self).raw()),
            final(self).raw() == State::Index(
                caret_after_backspace(old(self).text(), old(self).raw()) as usize,
            ),
            fits(final(self).raw(), final(self).text().len() as int),
            final(self).hint() is None,
            *final(final(self).value) == *final(old(self).value),
            *final(final(self).cursor) == *final(old(self).cursor),
    {
        let _ = backspace(self.value, self.cursor);
    }

    /// Takes the selection out, or the grapheme after the caret; the caret
    /// stays.
    pub fn delete(&mut self)
        ensures
            final(self).text() == after_delete(old(self).text(), old(self).raw()),
            final(self).raw() == State::Index(caret(old(self).text(), old(self).raw()) as usize),
            fits(final(self).raw(), final(self).text().len() as int),
            final(self).hint() is None,
            *final(final(self).value) == *final(old(self).value),
            *final(final(self).cursor) == *final(old(self).cursor),
    {
        let _ = delete(self.value, self.cursor);
    }
}

} // verus!
