use evalvana_editor::buffer::{BufferError, TextBuffer};

#[test]
fn new_buffer_is_empty() {
    let buffer = TextBuffer::new();
    assert_eq!(buffer.len(), 0);
    assert!(buffer.is_empty());
    assert_eq!(buffer.line_count(), 1);
    assert_eq!(buffer.contents(), "");
}

#[test]
fn from_str_holds_the_text() {
    let buffer = TextBuffer::from_str("hello\nworld");
    assert_eq!(buffer.len(), 11);
    assert_eq!(buffer.line_count(), 2);
    assert_eq!(buffer.contents(), "hello\nworld");
    assert_eq!(buffer.byte(5), Ok(b'\n'));
}

#[test]
fn byte_past_the_end_is_out_of_range() {
    let buffer = TextBuffer::from_str("abc");
    assert_eq!(buffer.byte(2), Ok(b'c'));
    assert_eq!(buffer.byte(3), Err(BufferError::OutOfRange { index: 3, limit: 3 }));
}

#[test]
fn byte_to_line_counts_line_feeds() {
    let buffer = TextBuffer::from_str("a\r\nb\n");
    assert_eq!(buffer.byte_to_line(0), Ok(0));
    assert_eq!(buffer.byte_to_line(2), Ok(0));
    assert_eq!(buffer.byte_to_line(3), Ok(1));
    assert_eq!(buffer.byte_to_line(5), Ok(2));
    assert_eq!(buffer.byte_to_line(6), Err(BufferError::OutOfRange { index: 6, limit: 5 }));
}

#[test]
fn carriage_return_alone_breaks_no_line() {
    let buffer = TextBuffer::from_str("a\rb\u{2028}c\u{0085}d");
    assert_eq!(buffer.line_count(), 1);
    assert_eq!(buffer.byte_to_line(buffer.len()), Ok(0));
}

#[test]
fn line_to_byte_gives_line_starts() {
    let buffer = TextBuffer::from_str("ab\ncd\n");
    assert_eq!(buffer.line_count(), 3);
    assert_eq!(buffer.line_to_byte(0), Ok(0));
    assert_eq!(buffer.line_to_byte(1), Ok(3));
    assert_eq!(buffer.line_to_byte(2), Ok(6));
    assert_eq!(buffer.line_to_byte(3), Ok(6));
    assert_eq!(buffer.line_to_byte(4), Err(BufferError::OutOfRange { index: 4, limit: 3 }));
}

#[test]
fn insert_splices_text_in() {
    let mut buffer = TextBuffer::from_str("held");
    assert_eq!(buffer.insert(3, "lo wor"), Ok(()));
    assert_eq!(buffer.contents(), "hello word");
    assert_eq!(buffer.insert(11, "x"), Err(BufferError::OutOfRange { index: 11, limit: 10 }));
    assert_eq!(buffer.contents(), "hello word");
}

#[test]
fn insert_inside_a_scalar_goes_before_it() {
    let mut buffer = TextBuffer::from_str("a\u{1F494}b");
    assert_eq!(buffer.insert(3, "-"), Ok(()));
    assert_eq!(buffer.contents(), "a-\u{1F494}b");
}

#[test]
fn insert_char_splices_its_encoding_in() {
    let mut buffer = TextBuffer::from_str("ab");
    assert_eq!(buffer.insert_char(1, '\u{1F494}'), Ok(()));
    assert_eq!(buffer.contents(), "a\u{1F494}b");
    assert_eq!(buffer.len(), 6);
    assert_eq!(buffer.insert_char(7, 'x'), Err(BufferError::OutOfRange { index: 7, limit: 6 }));
}

#[test]
fn remove_takes_a_range_out() {
    let mut buffer = TextBuffer::from_str("hello world");
    assert_eq!(buffer.remove(5, 11), Ok(()));
    assert_eq!(buffer.contents(), "hello");
    assert_eq!(buffer.remove(2, 6), Err(BufferError::OutOfRange { index: 6, limit: 5 }));
    assert_eq!(buffer.remove(3, 2), Err(BufferError::InvertedRange { start: 3, end: 2 }));
    assert_eq!(buffer.contents(), "hello");
}

#[test]
fn slice_copies_a_range() {
    let buffer = TextBuffer::from_str("bye \u{1F494} :(");
    assert_eq!(buffer.slice(4, 8), Ok(String::from("\u{1F494}")));
    assert_eq!(buffer.slice(5, 9), Ok(String::from("\u{1F494} ")));
    assert_eq!(buffer.slice(0, 12), Err(BufferError::OutOfRange { index: 12, limit: 11 }));
    assert_eq!(buffer.slice(4, 3), Err(BufferError::InvertedRange { start: 4, end: 3 }));
}

#[test]
fn clamp_brings_an_index_to_a_scalar_boundary() {
    let buffer = TextBuffer::from_str("a\u{1F494}b");
    assert_eq!(buffer.clamp(0), 0);
    assert_eq!(buffer.clamp(1), 1);
    assert_eq!(buffer.clamp(2), 1);
    assert_eq!(buffer.clamp(4), 1);
    assert_eq!(buffer.clamp(5), 5);
    assert_eq!(buffer.clamp(6), 6);
    assert_eq!(buffer.clamp(100), 6);
    assert!(buffer.is_boundary(5));
    assert!(!buffer.is_boundary(3));
    assert!(!buffer.is_boundary(7));
}
