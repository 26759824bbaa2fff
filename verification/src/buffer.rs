//! The text buffer: editable UTF-8 text held in a rope and addressed by byte
//! offset.
//!
//! The checked operations reject an index past the end with an error. An
//! index that falls inside a multi-byte scalar is taken to mean that scalar's
//! first byte.

use crate::text::{
    clamp_index, floor_boundary, is_continuation, lemma_cut_valid, lemma_floor_boundary, lemma_splice_valid,
    line_count, line_of, nth_line_start, scalar_boundary,
};
use ropey::Rope;
use vstd::prelude::*;
use vstd::string::StringSliceAdditionalSpecFns;
use vstd::utf8::{encode_utf8, encode_utf8_valid_utf8, valid_utf8};

verus! {

/// `ropey::Rope`, carried as an opaque value: what it holds is named by
/// [`rope_text`].
#[verifier::external_type_specification]
#[verifier::external_body]
pub struct ExRope(ropey::Rope);

/// The bytes that a rope holds, in order.
pub uninterp spec fn rope_text(rope: Rope) -> Seq<u8>;

/// `ropey::Rope::new`: the rope it makes holds no text.
#[verifier::external_body]
fn rope_new() -> (rope: Rope)
    ensures
        rope_text(rope) == Seq::<u8>::empty(),
{
    Rope::new()
}

/// `ropey::Rope::from_str`: the rope it makes holds the bytes of `text`.
#[verifier::external_body]
fn rope_from_str(text: &str) -> (rope: Rope)
    ensures
        rope_text(rope) == text.spec_bytes(),
{
    Rope::from_str(text)
}

/// `ropey::Rope::len_bytes`: the number of bytes held.
#[verifier::external_body]
fn rope_len_bytes(rope: &Rope) -> (len: usize)
    ensures
        len == rope_text(*rope).len(),
{
    rope.len_bytes()
}

/// `ropey::Rope::len_lines`, built to break lines at line feeds only: one
/// more than the number of line feeds held.
#[verifier::external_body]
fn rope_len_lines(rope: &Rope) -> (lines: usize)
    ensures
        lines == line_count(rope_text(*rope)),
{
    rope.len_lines()
}

/// `ropey::Rope::byte`: the byte at `index`. It panics at or past the end.
#[verifier::external_body]
fn rope_byte(rope: &Rope, index: usize) -> (byte: u8)
    requires
        index < rope_text(*rope).len(),
    ensures
        byte == rope_text(*rope)[index as int],
{
    rope.byte(index)
}

/// `ropey::Rope::byte_to_line`: the number of line breaks before `index`. It
/// panics past the end.
#[verifier::external_body]
fn rope_byte_to_line(rope: &Rope, index: usize) -> (line: usize)
    requires
        index <= rope_text(*rope).len(),
    ensures
        line == line_of(rope_text(*rope), index as int),
{
    rope.byte_to_line(index)
}

/// `ropey::Rope::line_to_byte`: where line `line` starts, the length of the
/// text for the line after the last. It panics for a greater `line`.
#[verifier::external_body]
fn rope_line_to_byte(rope: &Rope, line: usize) -> (index: usize)
    requires
        line <= line_count(rope_text(*rope)),
    ensures
        index == nth_line_start(rope_text(*rope), line as nat),
{
    rope.line_to_byte(line)
}

/// `ropey::Rope::insert`, at the scalar that starts at byte `at`
/// (`byte_to_char` finds it): `text` is spliced in at `at`. Both panic past
/// the end.
#[verifier::external_body]
fn rope_insert(rope: &mut Rope, at: usize, text: &str)
    requires
        at <= rope_text(*old(rope)).len(),
        scalar_boundary(rope_text(*old(rope)), at as int),
    ensures
        rope_text(*final(rope)) == rope_text(*old(rope)).subrange(0, at as int) + text.spec_bytes()
            + rope_text(*old(rope)).subrange(at as int, rope_text(*old(rope)).len() as int),
    no_unwind
{
    let scalar_index = rope.byte_to_char(at);
    rope.insert(scalar_index, text)
}

/// `ropey::Rope::insert_char`, at the scalar that starts at byte `at`
/// (`byte_to_char` finds it): the encoding of `ch` is spliced in at `at`.
/// Both panic past the end.
#[verifier::external_body]
fn rope_insert_char(rope: &mut Rope, at: usize, ch: char)
    requires
        at <= rope_text(*old(rope)).len(),
        scalar_boundary(rope_text(*old(rope)), at as int),
    ensures
        rope_text(*final(rope)) == rope_text(*old(rope)).subrange(0, at as int) + encode_utf8(
            seq![ch],
        ) + rope_text(*old(rope)).subrange(at as int, rope_text(*old(rope)).len() as int),
    no_unwind
{
    let scalar_index = rope.byte_to_char(at);
    rope.insert_char(scalar_index, ch)
}

/// `ropey::Rope::remove`, between the scalars that start at bytes `start`
/// and `end` (`byte_to_char` finds them): the bytes in between leave. It
/// panics on a range that is inverted or reaches past the end.
#[verifier::external_body]
fn rope_remove(rope: &mut Rope, start: usize, end: usize)
    requires
        start <= end <= rope_text(*old(rope)).len(),
        scalar_boundary(rope_text(*old(rope)), start as int),
        scalar_boundary(rope_text(*old(rope)), end as int),
    ensures
        rope_text(*final(rope)) == rope_text(*old(rope)).subrange(0, start as int) + rope_text(
            *old(rope),
        ).subrange(end as int, rope_text(*old(rope)).len() as int),
    no_unwind
{
    let first = rope.byte_to_char(start);
    let last = rope.byte_to_char(end);
    rope.remove(first..last)
}

/// `ropey::Rope::byte_slice`, turned into a `String`: the bytes from `start`
/// to `end`. It panics on a range that is inverted, reaches past the end or
/// cuts a scalar.
#[verifier::external_body]
fn rope_slice(rope: &Rope, start: usize, end: usize) -> (slice: String)
    requires
        start <= end <= rope_text(*rope).len(),
        scalar_boundary(rope_text(*rope), start as int),
        scalar_boundary(rope_text(*rope), end as int),
    ensures
        encode_utf8(slice@) == rope_text(*rope).subrange(start as int, end as int),
{
    String::from(rope.byte_slice(start..end))
}

/// Why a checked buffer operation did nothing.
#[derive(Debug, Clone, Copy, PartialEq, Eq, Structural)]
pub enum BufferError {
    /// The index lies past `limit`, the greatest index the operation takes.
    OutOfRange { index: usize, limit: usize },
    /// The range starts after it ends.
    InvertedRange { start: usize, end: usize },
}

/// Editable text, addressed by byte offset.
pub struct TextBuffer {
    rope: Rope,
}

impl View for TextBuffer {
    type V = Seq<u8>;

    closed spec fn view(&self) -> Seq<u8> {
        rope_text(self.rope)
    }
}

impl TextBuffer {
    /// What every buffer holds is valid UTF-8.
    #[verifier::type_invariant]
    pub open spec fn well_formed(&self) -> bool {
        valid_utf8(self@)
    }

    /// `index`, brought into the buffer and down to a scalar boundary.
    pub open spec fn spec_clamp(&self, index: int) -> int {
        clamp_index(self@, index)
    }

    /// An empty buffer.
    pub fn new() -> (buffer: TextBuffer)
        ensures
            buffer@ == Seq::<u8>::empty(),
    {
        TextBuffer { rope: rope_new() }
    }

    /// A buffer that holds `text`.
    pub fn from_str(text: &str) -> (buffer: TextBuffer)
        ensures
            buffer@ == text.spec_bytes(),
    {
        proof {
            encode_utf8_valid_utf8(text@);
        }
        TextBuffer { rope: rope_from_str(text) }
    }

    /// The length in bytes.
    pub fn len(&self) -> (len: usize)
        ensures
            len == self@.len(),
    {
        rope_len_bytes(&self.rope)
    }

    /// Whether the buffer holds no text.
    pub fn is_empty(&self) -> (empty: bool)
        ensures
            empty == (self@.len() == 0),
    {
        rope_len_bytes(&self.rope) == 0
    }

    /// The number of lines: one more than the number of line feeds.
    pub fn line_count(&self) -> (lines: usize)
        ensures
            lines == line_count(self@),
    {
        rope_len_lines(&self.rope)
    }

    /// The byte at `index`.
    pub fn byte(&self, index: usize) -> (result: Result<u8, BufferError>)
        ensures
            index < self@.len() ==> result == Ok::<u8, BufferError>(self@[index as int]),
            index >= self@.len() ==> result == Err::<u8, BufferError>(
                BufferError::OutOfRange { index, limit: self@.len() as usize },
            ),
    {
        let len = self.len();
        if index < len {
            Ok(rope_byte(&self.rope, index))
        } else {
            Err(BufferError::OutOfRange { index, limit: len })
        }
    }

    /// The index of the line that holds `index`: the number of line feeds
    /// before it.
    pub fn byte_to_line(&self, index: usize) -> (result: Result<usize, BufferError>)
        ensures
            index <= self@.len() ==> result == Ok::<usize, BufferError>(
                line_of(self@, index as int) as usize,
            ),
            index > self@.len() ==> result == Err::<usize, BufferError>(
                BufferError::OutOfRange { index, limit: self@.len() as usize },
            ),
    {
        let len = self.len();
        if index <= len {
            Ok(rope_byte_to_line(&self.rope, index))
        } else {
            Err(BufferError::OutOfRange { index, limit: len })
        }
    }

    /// Where line `line` begins; the length of the buffer for the line one
    /// past the last.
    pub fn line_to_byte(&self, line: usize) -> (result: Result<usize, BufferError>)
        ensures
            line <= line_count(self@) ==> result == Ok::<usize, BufferError>(
                nth_line_start(self@, line as nat) as usize,
            ),
            line > line_count(self@) ==> result == Err::<usize, BufferError>(
                BufferError::OutOfRange { index: line, limit: line_count(self@) as usize },
            ),
    {
        let lines = self.line_count();
        if line <= lines {
            Ok(rope_line_to_byte(&self.rope, line))
        } else {
            Err(BufferError::OutOfRange { index: line, limit: lines })
        }
    }

    /// `index` brought into the buffer and down to a scalar boundary.
    pub fn clamp(&self, index: usize) -> (clamped: usize)
        ensures
            clamped == self.spec_clamp(index as int),
            clamped <= index,
            clamped <= self@.len(),
            scalar_boundary(self@, clamped as int),
    {
        let len = self.len();
        let start: usize = if index < len {
            index
        } else {
            len
        };
        let mut i: usize = start;
        while 0 < i && i < len && continues_scalar(rope_byte(&self.rope, i))
            invariant
                i <= start <= len,
                len == self@.len(),
                floor_boundary(self@, i as int) == floor_boundary(self@, start as int),
            decreases i,
        {
            i = i - 1;
        }
        proof {
            lemma_floor_boundary(self@, start as int);
        }
        i
    }

    /// Whether `index` is in the buffer and on a scalar boundary.
    pub fn is_boundary(&self, index: usize) -> (at_boundary: bool)
        ensures
            at_boundary == (index <= self@.len() && scalar_boundary(self@, index as int)),
    {
        let len = self.len();
        if index == 0 || index == len {
            true
        } else if index > len {
            false
        } else {
            !continues_scalar(rope_byte(&self.rope, index))
        }
    }

    /// Splices `text` in at `index`.
    pub fn insert(&mut self, index: usize, text: &str) -> (result: Result<(), BufferError>)
        ensures
            index <= old(self)@.len() ==> result is Ok && final(self)@ == old(self)@.subrange(
                0,
                old(self).spec_clamp(index as int),
            ) + text.spec_bytes() + old(self)@.subrange(
                old(self).spec_clamp(index as int),
                old(self)@.len() as int,
            ),
            index > old(self)@.len() ==> final(self)@ == old(self)@ && result == Err::<
                (),
                BufferError,
            >(BufferError::OutOfRange { index, limit: old(self)@.len() as usize }),
    {
        let len = self.len();
        if index > len {
            return Err(BufferError::OutOfRange { index, limit: len });
        }
        let at = self.clamp(index);
        proof {
            use_type_invariant(&*self);
            encode_utf8_valid_utf8(text@);
            lemma_splice_valid(self@, at as int, text.spec_bytes());
        }
        rope_insert(&mut self.rope, at, text);
        Ok(())
    }

    /// Splices the encoding of `ch` in at `index`.
    pub fn insert_char(&mut self, index: usize, ch: char) -> (result: Result<(), BufferError>)
        ensures
            index <= old(self)@.len() ==> result is Ok && final(self)@ == old(self)@.subrange(
                0,
                old(self).spec_clamp(index as int),
            ) + encode_utf8(seq![ch]) + old(self)@.subrange(
                old(self).spec_clamp(index as int),
                old(self)@.len() as int,
            ),
            index > old(self)@.len() ==> final(self)@ == old(self)@ && result == Err::<
                (),
                BufferError,
            >(BufferError::OutOfRange { index, limit: old(self)@.len() as usize }),
    {
        let len = self.len();
        if index > len {
            return Err(BufferError::OutOfRange { index, limit: len });
        }
        let at = self.clamp(index);
        proof {
            use_type_invariant(&*self);
            encode_utf8_valid_utf8(seq![ch]);
            lemma_splice_valid(self@, at as int, encode_utf8(seq![ch]));
        }
        rope_insert_char(&mut self.rope, at, ch);
        Ok(())
    }

    /// Takes the bytes from `start` to `end` out.
    pub fn remove(&mut self, start: usize, end: usize) -> (result: Result<(), BufferError>)
        ensures
            start <= end <= old(self)@.len() ==> result is Ok && final(self)@ == old(
                self,
            )@.subrange(0, old(self).spec_clamp(start as int)) + old(self)@.subrange(
                old(self).spec_clamp(end as int),
                old(self)@.len() as int,
            ),
            !(start <= end <= old(self)@.len()) ==> final(self)@ == old(self)@,
            end > old(self)@.len() ==> result == Err::<(), BufferError>(
                BufferError::OutOfRange { index: end, limit: old(self)@.len() as usize },
            ),
            start > end && end <= old(self)@.len() ==> result == Err::<(), BufferError>(
                BufferError::InvertedRange { start, end },
            ),
    {
        let len = self.len();
        if end > len {
            return Err(BufferError::OutOfRange { index: end, limit: len });
        }
        if start > end {
            return Err(BufferError::InvertedRange { start, end });
        }
        let first = self.clamp(start);
        let last = self.clamp(end);
        proof {
            use_type_invariant(&*self);
            lemma_floor_monotonic(self@, start as int, end as int);
            lemma_cut_valid(self@, first as int, last as int);
        }
        rope_remove(&mut self.rope, first, last);
        Ok(())
    }

    /// The text from `start` to `end`.
    pub fn slice(&self, start: usize, end: usize) -> (result: Result<String, BufferError>)
        ensures
            start <= end <= self@.len() ==> result is Ok && encode_utf8(result->Ok_0@)
                == self@.subrange(self.spec_clamp(start as int), self.spec_clamp(end as int)),
            end > self@.len() ==> result == Err::<String, BufferError>(
                BufferError::OutOfRange { index: end, limit: self@.len() as usize },
            ),
            start > end && end <= self@.len() ==> result == Err::<String, BufferError>(
                BufferError::InvertedRange { start, end },
            ),
    {
        let len = self.len();
        if end > len {
            return Err(BufferError::OutOfRange { index: end, limit: len });
        }
        if start > end {
            return Err(BufferError::InvertedRange { start, end });
        }
        let first = self.clamp(start);
        let last = self.clamp(end);
        proof {
            lemma_floor_monotonic(self@, start as int, end as int);
        }
        Ok(rope_slice(&self.rope, first, last))
    }

    /// The whole text.
    pub fn contents(&self) -> (text: String)
        ensures
            encode_utf8(text@) == self@,
    {
        let len = self.len();
        let text = rope_slice(&self.rope, 0, len);
        assert(self@.subrange(0, len as int) == self@);
        text
    }

    /// The byte at `index`, which the caller knows to be in the buffer.
    pub(crate) fn byte_at(&self, index: usize) -> (byte: u8)
        requires
            index < self@.len(),
        ensures
            byte == self@[index as int],
    {
        rope_byte(&self.rope, index)
    }

    /// The index of the line that holds `index`, which the caller knows to be
    /// in the buffer.
    pub(crate) fn line_at(&self, index: usize) -> (line: usize)
        requires
            index <= self@.len(),
        ensures
            line == line_of(self@, index as int),
    {
        rope_byte_to_line(&self.rope, index)
    }

    /// Where line `line` begins, for a line that the caller knows to exist,
    /// or the one after the last.
    pub(crate) fn start_of_nth_line(&self, line: usize) -> (index: usize)
        requires
            line <= line_count(self@),
        ensures
            index == nth_line_start(self@, line as nat),
    {
        rope_line_to_byte(&self.rope, line)
    }

    /// The text between two scalar boundaries that the caller knows to be in
    /// the buffer and in order.
    pub(crate) fn text_between(&self, start: usize, end: usize) -> (text: String)
        requires
            start <= end <= self@.len(),
            scalar_boundary(self@, start as int),
            scalar_boundary(self@, end as int),
        ensures
            encode_utf8(text@) == self@.subrange(start as int, end as int),
    {
        rope_slice(&self.rope, start, end)
    }

    /// Splices `text` in at a scalar boundary that the caller knows to be in
    /// the buffer.
    pub(crate) fn splice_in(&mut self, at: usize, text: &str)
        requires
            at <= old(self)@.len(),
            scalar_boundary(old(self)@, at as int),
        ensures
            final(self)@ == old(self)@.subrange(0, at as int) + text.spec_bytes() + old(
                self,
            )@.subrange(at as int, old(self)@.len() as int),
    {
        proof {
            use_type_invariant(&*self);
            encode_utf8_valid_utf8(text@);
            lemma_splice_valid(self@, at as int, text.spec_bytes());
        }
        rope_insert(&mut self.rope, at, text);
    }

    /// Splices the encoding of `ch` in at a scalar boundary that the caller
    /// knows to be in the buffer.
    pub(crate) fn splice_in_char(&mut self, at: usize, ch: char)
        requires
            at <= old(self)@.len(),
            scalar_boundary(old(self)@, at as int),
        ensures
            final(self)@ == old(self)@.subrange(0, at as int) + encode_utf8(seq![ch]) + old(
                self,
            )@.subrange(at as int, old(self)@.len() as int),
    {
        proof {
            use_type_invariant(&*self);
            encode_utf8_valid_utf8(seq![ch]);
            lemma_splice_valid(self@, at as int, encode_utf8(seq![ch]));
        }
        rope_insert_char(&mut self.rope, at, ch);
    }

    /// Takes the bytes between two scalar boundaries out, which the caller
    /// knows to be in the buffer and in order.
    pub(crate) fn cut_out(&mut self, start: usize, end: usize)
        requires
            start <= end <= old(self)@.len(),
            scalar_boundary(old(self)@, start as int),
            scalar_boundary(old(self)@, end as int),
        ensures
            final(self)@ == old(self)@.subrange(0, start as int) + old(self)@.subrange(
                end as int,
                old(self)@.len() as int,
            ),
    {
        proof {
            use_type_invariant(&*self);
            lemma_cut_valid(self@, start as int, end as int);
        }
        rope_remove(&mut self.rope, start, end);
    }
}

/// Whether `byte` continues a multi-byte scalar.
pub fn continues_scalar(byte: u8) -> (continues: bool)
    ensures
        continues == is_continuation(byte),
{
    0x80 <= byte && byte <= 0xBF
}

/// Flooring to a scalar boundary keeps the order of two indices.
pub proof fn lemma_floor_monotonic(text: Seq<u8>, i: int, j: int)
    requires
        0 <= i <= j <= text.len(),
    ensures
        floor_boundary(text, i) <= floor_boundary(text, j),
{
    lemma_floor_boundary(text, i);
    lemma_floor_boundary(text, j);
}

} // verus!
