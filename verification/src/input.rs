//! What keys, typed characters and clicks do to a text input.
//!
//! The host receives the events and owns the clipboard and the glyph
//! metrics. It names the key and the modifiers that are held, and is told
//! which command that is; the commands that need nothing from the host are
//! carried out here, on the buffer and the cursor.

use crate::buffer::{lemma_floor_monotonic, TextBuffer};
use crate::cursor::{
    anchor, effective, fits, head, high, low, moved_left, moved_right, ranged, selected_left,
    selected_right, Cursor, State, Vertical,
};
use crate::editor::{
    after_backspace, after_delete, backspace, caret, caret_after_backspace, delete, insert,
    with_inserted, without_selection,
};
use crate::navigation::next_grapheme_boundary;
use crate::text::{clamp_index, end_of_line, lemma_floor_boundary, line_start};
use crate::words::{next_end_of_word, previous_start_of_word};
use vstd::prelude::*;
use vstd::std_specs::iter::IteratorSpec;
use vstd::string::{axiom_spec_iter, next_postcondition};
use vstd::utf8::encode_utf8;

verus! {

/// The keys that a text input listens to.
#[derive(Debug, Clone, Copy, PartialEq, Eq, Structural)]
pub enum Key {
    Enter,
    Backspace,
    Delete,
    Left,
    Right,
    Up,
    Down,
    Home,
    End,
    C,
    X,
    V,
    A,
    Escape,
    Tab,
    /// Any other key.
    Other,
}

/// The modifiers that are held while a key is pressed.
#[derive(Debug, Clone, Copy, PartialEq, Eq, Structural)]
pub struct Modifiers {
    pub shift: bool,
    pub control: bool,
    /// The modifier that makes a move go by words, and Home and End go to
    /// the ends of the text.
    pub jump: bool,
    /// The modifier of the clipboard shortcuts.
    pub command: bool,
}

/// The moves of the cursor that need no glyph metrics.
#[derive(Debug, Clone, Copy, PartialEq, Eq, Structural)]
pub enum Motion {
    Left,
    Right,
    WordLeft,
    WordRight,
    LineStart,
    LineEnd,
    TextStart,
    TextEnd,
}

/// What a key asks for.
#[derive(Debug, Clone, Copy, PartialEq, Eq, Structural)]
pub enum Command {
    /// Hand the text in.
    Submit,
    /// Take out the selection, or what lies before the caret: a grapheme,
    /// or as far as a word move goes.
    EraseBackward { by_word: bool },
    /// Take out the selection, or what lies after the caret.
    EraseForward { by_word: bool },
    /// Move the cursor, or only the moving end of the selection.
    Move { motion: Motion, select: bool },
    /// Move the cursor a line up or down.
    Vertical { movement: Vertical },
    /// Put the selected text on the clipboard.
    Copy,
    /// Put the selected text on the clipboard and take it out.
    Cut,
    /// Put the text of the clipboard in.
    Paste,
    /// Forget what was last pasted.
    EndPaste,
    SelectAll,
    /// Let go of a drag and of a paste, and forget the modifiers.
    Release,
    /// The key is not for the text input: leave it to others.
    Pass,
    Nothing,
}

/// The move that an arrow key, Home or End asks for.
pub open spec fn horizontal(plain: Motion, jumping: Motion, modifiers: Modifiers) -> Command {
    Command::Move {
        motion: if modifiers.jump {
            jumping
        } else {
            plain
        },
        select: modifiers.shift,
    }
}

/// A clipboard command if its modifier is held, else `otherwise`.
pub open spec fn shortcut(command: Command, otherwise: Command, modifiers: Modifiers) -> Command {
    if modifiers.command {
        command
    } else {
        otherwise
    }
}

/// What pressing `key` asks for while `modifiers` are held.
pub open spec fn command_for(key: Key, modifiers: Modifiers) -> Command {
    match key {
        Key::Enter => if modifiers.control {
            Command::Nothing
        } else {
            Command::Submit
        },
        Key::Backspace => Command::EraseBackward { by_word: modifiers.jump },
        Key::Delete => Command::EraseForward { by_word: modifiers.jump },
        Key::Left => horizontal(Motion::Left, Motion::WordLeft, modifiers),
        Key::Right => horizontal(Motion::Right, Motion::WordRight, modifiers),
        Key::Home => horizontal(Motion::LineStart, Motion::TextStart, modifiers),
        Key::End => horizontal(Motion::LineEnd, Motion::TextEnd, modifiers),
        Key::Up => Command::Vertical {
            movement: if modifiers.shift {
                Vertical::SelectUp
            } else {
                Vertical::MoveUp
            },
        },
        Key::Down => Command::Vertical {
            movement: if modifiers.shift {
                Vertical::SelectDown
            } else {
                Vertical::MoveDown
            },
        },
        Key::C => shortcut(Command::Copy, Command::Nothing, modifiers),
        Key::X => shortcut(Command::Cut, Command::Nothing, modifiers),
        Key::V => shortcut(Command::Paste, Command::EndPaste, modifiers),
        Key::A => shortcut(Command::SelectAll, Command::Nothing, modifiers),
        Key::Escape => Command::Release,
        Key::Tab => Command::Pass,
        Key::Other => Command::Nothing,
    }
}

/// What pressing `key` asks for while `modifiers` are held.
pub fn key_command(key: Key, modifiers: Modifiers) -> (command: Command)
    ensures
        command == command_for(key, modifiers),
{
    let select = modifiers.shift;
    match key {
        Key::Enter => if modifiers.control {
            Command::Nothing
        } else {
            Command::Submit
        },
        Key::Backspace => Command::EraseBackward { by_word: modifiers.jump },
        Key::Delete => Command::EraseForward { by_word: modifiers.jump },
        Key::Left => if modifiers.jump {
            Command::Move { motion: Motion::WordLeft, select }
        } else {
            Command::Move { motion: Motion::Left, select }
        },
        Key::Right => if modifiers.jump {
            Command::Move { motion: Motion::WordRight, select }
        } else {
            Command::Move { motion: Motion::Right, select }
        },
        Key::Home => if modifiers.jump {
            Command::Move { motion: Motion::TextStart, select }
        } else {
            Command::Move { motion: Motion::LineStart, select }
        },
        Key::End => if modifiers.jump {
            Command::Move { motion: Motion::TextEnd, select }
        } else {
            Command::Move { motion: Motion::LineEnd, select }
        },
        Key::Up => if select {
            Command::Vertical { movement: Vertical::SelectUp }
        } else {
            Command::Vertical { movement: Vertical::MoveUp }
        },
        Key::Down => if select {
            Command::Vertical { movement: Vertical::SelectDown }
        } else {
            Command::Vertical { movement: Vertical::MoveDown }
        },
        Key::Escape => Command::Release,
        Key::Tab => Command::Pass,
        Key::Other => Command::Nothing,
        Key::V => if modifiers.command {
            Command::Paste
        } else {
            Command::EndPaste
        },
        _ => if !modifiers.command {
            Command::Nothing
        } else {
            match key {
                Key::C => Command::Copy,
                Key::X => Command::Cut,
                _ => Command::SelectAll,
            }
        },
    }
}

/// What letting go of `key` asks for: the paste is over with its key, and
/// Tab and the vertical arrows are left to others.
pub fn release_command(key: Key) -> (command: Command)
    ensures
        command == match key {
            Key::V => Command::EndPaste,
            Key::Tab => Command::Pass,
            Key::Up => Command::Pass,
            Key::Down => Command::Pass,
            _ => Command::Nothing,
        },
{
    match key {
        Key::V => Command::EndPaste,
        Key::Tab | Key::Up | Key::Down => Command::Pass,
        _ => Command::Nothing,
    }
}

/// Where `motion` leaves a cursor that reads `raw` against `text`: a caret
/// where it moves, and the selection up to where its moving end goes where
/// it selects.
pub open spec fn after_motion(text: Seq<u8>, raw: State, motion: Motion, select: bool) -> State {
    let len = text.len() as int;
    let state = effective(raw, len);
    let from = clamp_index(text, head(state) as int);
    let back = clamp_index(text, anchor(state) as int);
    match motion {
        Motion::Left => if select {
            selected_left(text, raw)
        } else {
            moved_left(text, raw)
        },
        Motion::Right => if select {
            selected_right(text, raw)
        } else {
            moved_right(text, raw)
        },
        Motion::WordLeft => if select {
            ranged(anchor(state), previous_start_of_word(text, from) as usize)
        } else {
            State::Index(previous_start_of_word(text, back) as usize)
        },
        Motion::WordRight => if select {
            ranged(anchor(state), next_end_of_word(text, from) as usize)
        } else {
            State::Index(next_end_of_word(text, from) as usize)
        },
        Motion::LineStart => if select {
            ranged(anchor(state), line_start(text, from) as usize)
        } else {
            State::Index(line_start(text, back) as usize)
        },
        Motion::LineEnd => if select {
            ranged(anchor(state), end_of_line(text, from) as usize)
        } else {
            State::Index(end_of_line(text, from) as usize)
        },
        Motion::TextStart => if select {
            ranged(anchor(state), 0)
        } else {
            State::Index(0)
        },
        Motion::TextEnd => if select {
            ranged(anchor(state), len as usize)
        } else {
            State::Index(len as usize)
        },
    }
}

/// Moves the cursor as `motion` says, or only its moving end if `select`
/// is set, and forgets the remembered offset.
pub fn apply_motion<X: Copy>(
    cursor: &mut Cursor<X>,
    value: &TextBuffer,
    motion: Motion,
    select: bool,
)
    ensures
        final(cursor).raw() == after_motion(value@, old(cursor).raw(), motion, select),
        final(cursor).hint() is None,
{
    match motion {
        Motion::Left => if select {
            cursor.select_left(value)
        } else {
            cursor.move_left(value)
        },
        Motion::Right => if select {
            cursor.select_right(value)
        } else {
            cursor.move_right(value)
        },
        Motion::WordLeft => if select {
            cursor.select_left_by_words(value)
        } else {
            cursor.move_left_by_words(value)
        },
        Motion::WordRight => if select {
            cursor.select_right_by_words(value)
        } else {
            cursor.move_right_by_words(value)
        },
        Motion::LineStart => if select {
            cursor.select_left_by_line(value)
        } else {
            cursor.move_left_by_line(value)
        },
        Motion::LineEnd => if select {
            cursor.select_right_by_line(value)
        } else {
            cursor.move_right_by_line(value)
        },
        Motion::TextStart => if select {
            let from = cursor.start(value);
            cursor.select_range(from, 0)
        } else {
            cursor.move_to_byte(0)
        },
        Motion::TextEnd => if select {
            let from = cursor.start(value);
            cursor.select_range(from, value.len())
        } else {
            cursor.move_to_byte(value.len())
        },
    }
}

/// What an erasing key takes out: what `raw` selects; for a caret and an
/// erasure by words, the stretch from the caret to where a word move from it
/// ends; else nothing yet.
pub open spec fn reach(text: Seq<u8>, raw: State, by_word: bool, forward: bool) -> State {
    let state = effective(raw, text.len() as int);
    if by_word && state is Index {
        after_motion(
            text,
            raw,
            if forward {
                Motion::WordRight
            } else {
                Motion::WordLeft
            },
            true,
        )
    } else {
        raw
    }
}

/// Takes out the selection, or what lies before the caret: one grapheme, or
/// as far as a word move backward goes if `by_word` is set. Returns the new
/// contents.
pub fn erase_backward<X: Copy>(value: &mut TextBuffer, cursor: &mut Cursor<X>, by_word: bool) -> (contents:
    String)
    ensures
        final(value)@ == after_backspace(
            old(value)@,
            reach(old(value)@, old(cursor).raw(), by_word, false),
        ),
        final(cursor).raw() == State::Index(
            caret_after_backspace(
                old(value)@,
                reach(old(value)@, old(cursor).raw(), by_word, false),
            ) as usize,
        ),
        fits(final(cursor).raw(), final(value)@.len() as int),
        final(cursor).hint() is None,
        encode_utf8(contents@) == final(value)@,
{
    if by_word && cursor.selection(value).is_none() {
        cursor.select_left_by_words(value);
    }
    backspace(value, cursor)
}

/// Takes out the selection, or what lies after the caret: one grapheme, or
/// as far as a word move forward goes if `by_word` is set. Returns the new
/// contents.
pub fn erase_forward<X: Copy>(value: &mut TextBuffer, cursor: &mut Cursor<X>, by_word: bool) -> (contents:
    String)
    ensures
        final(value)@ == after_delete(
            old(value)@,
            reach(old(value)@, old(cursor).raw(), by_word, true),
        ),
        final(cursor).raw() == State::Index(
            caret(old(value)@, reach(old(value)@, old(cursor).raw(), by_word, true)) as usize,
        ),
        fits(final(cursor).raw(), final(value)@.len() as int),
        final(cursor).hint() is None,
        encode_utf8(contents@) == final(value)@,
{
    if by_word && cursor.selection(value).is_none() {
        cursor.select_right_by_words(value);
    }
    delete(value, cursor)
}

/// What `raw` selects in `text`, its ends brought down to scalar
/// boundaries; nothing for a caret.
pub open spec fn selected(text: Seq<u8>, raw: State) -> Option<Seq<u8>> {
    let state = effective(raw, text.len() as int);
    if state is Index {
        None
    } else {
        Some(
            text.subrange(
                clamp_index(text, low(state) as int),
                clamp_index(text, high(state) as int),
            ),
        )
    }
}

/// The selected text, for the clipboard; nothing for a caret.
pub fn selected_text<X: Copy>(value: &TextBuffer, cursor: &Cursor<X>) -> (text: Option<String>)
    ensures
        text is Some <==> selected(value@, cursor.raw()) is Some,
        text is Some ==> encode_utf8(text->0@) == selected(value@, cursor.raw())->0,
{
    match cursor.selection(value) {
        Some((lesser, greater)) => {
            let start = value.clamp(lesser);
            let end = value.clamp(greater);
            proof {
                lemma_floor_monotonic(value@, lesser as int, greater as int);
                lemma_floor_boundary(value@, lesser as int);
                lemma_floor_boundary(value@, greater as int);
            }
            Some(value.text_between(start, end))
        },
        None => None,
    }
}

/// Takes the selected text out and returns it, for the clipboard, with the
/// new contents; does nothing for a caret.
pub fn cut<X: Copy>(value: &mut TextBuffer, cursor: &mut Cursor<X>) -> (taken: Option<
    (String, String),
>)
    ensures
        taken is Some <==> selected(old(value)@, old(cursor).raw()) is Some,
        taken matches Some((text, contents)) ==> encode_utf8(text@) == selected(
            old(value)@,
            old(cursor).raw(),
        )->0 && encode_utf8(contents@) == final(value)@,
        taken is Some ==> final(value)@ == without_selection(old(value)@, old(cursor).raw())
            && final(cursor).raw() == State::Index(
            caret(old(value)@, old(cursor).raw()) as usize,
        ) && final(cursor).hint() is None,
        taken is None ==> final(value)@ == old(value)@ && final(cursor).raw() == old(cursor).raw()
            && final(cursor).hint() == old(cursor).hint(),
{
    match selected_text(value, cursor) {
        Some(text) => {
            let contents = delete(value, cursor);
            Some((text, contents))
        },
        None => None,
    }
}

/// The kinds of click.
#[derive(Debug, Clone, Copy, PartialEq, Eq, Structural)]
pub enum Click {
    Single,
    Double,
    Triple,
}

/// The index that a click or a drag leads to: the one found under the
/// pointer, or the start of the text if none was found.
pub open spec fn pointed(position: Option<usize>) -> usize {
    match position {
        Some(index) => index,
        None => 0,
    }
}

/// Where a click leaves the cursor: a single click puts a caret under the
/// pointer, a double click selects the word around it, a triple click
/// selects everything.
pub open spec fn after_click(text: Seq<u8>, kind: Click, position: Option<usize>) -> State {
    let at = clamp_index(text, pointed(position) as int);
    match kind {
        Click::Single => State::Index(pointed(position)),
        Click::Double => ranged(
            previous_start_of_word(text, at) as usize,
            next_end_of_word(text, at) as usize,
        ),
        Click::Triple => ranged(0, text.len() as usize),
    }
}

/// Puts the cursor where a click of kind `kind` at `position` leads.
/// Returns whether a drag begins with it.
pub fn click<X: Copy>(
    cursor: &mut Cursor<X>,
    value: &TextBuffer,
    kind: Click,
    position: Option<usize>,
) -> (dragging: bool)
    ensures
        final(cursor).raw() == after_click(value@, kind, position),
        final(cursor).hint() is None,
        dragging == (kind is Single),
{
    let at = match position {
        Some(index) => index,
        None => 0,
    };
    match kind {
        Click::Single => {
            cursor.move_to_byte(at);
            true
        },
        Click::Double => {
            cursor.select_range(value.previous_start_of_word(at), value.next_end_of_word(at));
            false
        },
        Click::Triple => {
            cursor.select_all(value);
            false
        },
    }
}

/// Moves the moving end of the selection to where a drag leads.
pub fn drag<X: Copy>(cursor: &mut Cursor<X>, value: &TextBuffer, position: Option<usize>)
    ensures
        final(cursor).raw() == ranged(
            anchor(effective(old(cursor).raw(), value@.len() as int)),
            pointed(position),
        ),
        final(cursor).hint() is None,
{
    let from = cursor.start(value);
    let to = match position {
        Some(index) => index,
        None => 0,
    };
    cursor.select_range(from, to);
}

/// A control code: U+0000 to U+001F and U+007F to U+009F.
pub open spec fn is_control(c: char) -> bool {
    c as u32 <= 0x1F || 0x7F <= c as u32 <= 0x9F
}

/// A character that may be typed or pasted: no control code but a tab, a
/// line feed or a carriage return.
pub open spec fn accepts(c: char) -> bool {
    !is_control(c) || c == '\n' || c == '\r' || c == '\t'
}

/// Whether `c` may be typed or pasted.
pub fn is_accepted(c: char) -> (accepted: bool)
    ensures
        accepted == accepts(c),
{
    let code = c as u32;
    !(code <= 0x1F || (0x7F <= code && code <= 0x9F)) || c == '\n' || c == '\r' || c == '\t'
}

/// Whether a typed character goes into the text: the input has the focus,
/// no paste is under way, no clipboard shortcut is being typed, and the
/// character is one that may be typed.
pub fn takes_character(focused: bool, pasting: bool, modifiers: Modifiers, c: char) -> (taken: bool)
    ensures
        taken == (focused && !pasting && !modifiers.command && accepts(c)),
{
    focused && !pasting && !modifiers.command && is_accepted(c)
}

/// The text and the cursor after `c` was put in place of the selection, or
/// at the caret, and the caret one grapheme further.
pub open spec fn after_insert(text: Seq<u8>, raw: State, c: char) -> (Seq<u8>, State) {
    let next = with_inserted(text, raw, encode_utf8(seq![c]));
    (next, State::Index(next_grapheme_boundary(next, caret(text, raw)) as usize))
}

/// The text and the cursor after `c` was typed: a line feed follows a
/// carriage return of itself.
pub open spec fn after_typing(text: Seq<u8>, raw: State, c: char) -> (Seq<u8>, State) {
    let first = after_insert(text, raw, c);
    if c == '\r' {
        after_insert(first.0, first.1, '\n')
    } else {
        first
    }
}

/// Types `c`: puts it in place of the selection, or at the caret, and a
/// line feed after it if it is a carriage return. Returns the new contents.
pub fn type_character<X: Copy>(value: &mut TextBuffer, cursor: &mut Cursor<X>, c: char) -> (contents:
    String)
    ensures
        (final(value)@, final(cursor).raw()) == after_typing(old(value)@, old(cursor).raw(), c),
        fits(final(cursor).raw(), final(value)@.len() as int),
        final(cursor).hint() is None,
        encode_utf8(contents@) == final(value)@,
{
    let contents = insert(value, cursor, c);
    if c == '\r' {
        insert(value, cursor, '\n')
    } else {
        contents
    }
}

/// The characters of `chars` that may be pasted, in their order.
pub open spec fn pasted(chars: Seq<char>) -> Seq<char>
    decreases chars.len(),
{
    if chars.len() == 0 {
        Seq::empty()
    } else if accepts(chars[0]) {
        seq![chars[0]] + pasted(chars.drop_first())
    } else {
        pasted(chars.drop_first())
    }
}

/// `String::push`: `c` goes to the end of `text`.
#[verifier::external_body]
pub(crate) fn push_char(text: &mut String, c: char)
    ensures
        final(text)@ == old(text)@.push(c),
{
    text.push(c)
}

/// What is pasted of `content`: its control codes are left out, but for
/// tabs, line feeds and carriage returns.
pub fn filter_pasted(content: &str) -> (kept: String)
    ensures
        kept@ == pasted(content@),
{
    broadcast use {axiom_spec_iter, next_postcondition};

    let mut kept = String::new();
    let mut rest = content.chars();
    loop
        invariant
            rest.decrease() is Some,
            kept@ + pasted(rest.remaining()) == pasted(content@),
        ensures
            kept@ == pasted(content@),
        decreases rest.decrease()->0,
    {
        let ghost before = rest.remaining();
        let ghost so_far = kept@;
        match rest.next() {
            Some(c) => {
                if is_accepted(c) {
                    push_char(&mut kept, c);
                }
                proof {
                    assert(before.drop_first() == rest.remaining());
                    assert((so_far + seq![c]) + pasted(rest.remaining()) == so_far + (seq![c]
                        + pasted(rest.remaining())));
                    assert(so_far.push(c) == so_far + seq![c]);
                }
            },
            None => {
                proof {
                    assert(before.len() == 0);
                    assert(so_far + Seq::<char>::empty() == so_far);
                }
                break ;
            },
        }
    }
    kept
}

} // verus!
