use evalvana_editor::buffer::TextBuffer;

#[test]
fn next_grapheme() {
    let rope = TextBuffer::from_str("bye 💔 :(");
    assert_eq!(rope.next_grapheme(0), 1);
    assert_eq!(rope.next_grapheme(1), 2);
    assert_eq!(rope.next_grapheme(4), 8);
    assert_eq!(rope.next_grapheme(10), 11);
    assert_eq!(rope.next_grapheme(11), 11);
}

#[test]
fn previous_grapheme() {
    let rope = TextBuffer::from_str("bye 💔 :(");
    assert_eq!(rope.previous_grapheme(11), 10);
    assert_eq!(rope.previous_grapheme(9), 8);
    assert_eq!(rope.previous_grapheme(8), 4);
    assert_eq!(rope.previous_grapheme(4), 3);
    assert_eq!(rope.previous_grapheme(0), 0);
}

#[test]
fn the_broken_heart_takes_four_bytes() {
    let rope = TextBuffer::from_str("bye 💔 :(");
    assert_eq!(rope.len(), 11);
    assert!(rope.is_grapheme_boundary(4));
    assert!(!rope.is_grapheme_boundary(5));
    assert!(!rope.is_grapheme_boundary(6));
    assert!(!rope.is_grapheme_boundary(7));
    assert!(rope.is_grapheme_boundary(8));
}

#[test]
fn an_index_inside_a_scalar_is_taken_from_its_start() {
    let rope = TextBuffer::from_str("bye 💔 :(");
    assert_eq!(rope.next_grapheme(6), 8);
    assert_eq!(rope.previous_grapheme(6), 3);
}

#[test]
fn an_index_past_the_end_is_taken_from_the_end() {
    let rope = TextBuffer::from_str("abc");
    assert_eq!(rope.next_grapheme(100), 3);
    assert_eq!(rope.previous_grapheme(100), 2);
    assert_eq!(rope.start_of_line(100), 0);
    assert_eq!(rope.end_of_line(100), 3);
}

#[test]
fn forward_then_backward_comes_back() {
    let rope = TextBuffer::from_str("e\u{301}a\u{1F1E9}\u{1F1EA}z\r\nnext");
    let mut index = 0;
    while index < rope.len() {
        let next = rope.next_grapheme(index);
        assert!(next > index);
        assert_eq!(rope.previous_grapheme(next), index);
        index = next;
    }
    assert_eq!(index, rope.len());
}

#[test]
fn backward_then_forward_comes_back() {
    let rope = TextBuffer::from_str("e\u{301}a\u{1F1E9}\u{1F1EA}z\r\nnext");
    let mut index = rope.len();
    while index > 0 {
        let previous = rope.previous_grapheme(index);
        assert!(previous < index);
        assert_eq!(rope.next_grapheme(previous), index);
        index = previous;
    }
}

#[test]
fn a_combining_mark_stays_with_its_base() {
    let rope = TextBuffer::from_str("e\u{301}x");
    assert_eq!(rope.next_grapheme(0), 3);
    assert_eq!(rope.previous_grapheme(3), 0);
    assert!(!rope.is_grapheme_boundary(1));
}

#[test]
fn carriage_return_and_line_feed_are_one_grapheme() {
    let rope = TextBuffer::from_str("ab\r\ncd");
    assert_eq!(rope.next_grapheme(2), 4);
    assert_eq!(rope.previous_grapheme(4), 2);
    assert!(!rope.is_grapheme_boundary(3));
}

#[test]
fn graphemes_of_an_empty_buffer() {
    let rope = TextBuffer::new();
    assert_eq!(rope.next_grapheme(0), 0);
    assert_eq!(rope.previous_grapheme(0), 0);
    assert!(rope.is_grapheme_boundary(0));
}

#[test]
fn start_of_line_is_after_the_line_feed_before() {
    let rope = TextBuffer::from_str("hello\nworld\n");
    assert_eq!(rope.start_of_line(0), 0);
    assert_eq!(rope.start_of_line(5), 0);
    assert_eq!(rope.start_of_line(6), 6);
    assert_eq!(rope.start_of_line(9), 6);
    assert_eq!(rope.start_of_line(11), 6);
    assert_eq!(rope.start_of_line(12), 12);
}

#[test]
fn end_of_line_is_before_the_terminator() {
    let rope = TextBuffer::from_str("hello\nworld");
    assert_eq!(rope.end_of_line(0), 5);
    assert_eq!(rope.end_of_line(5), 5);
    assert_eq!(rope.end_of_line(6), 11);
    assert_eq!(rope.end_of_line(11), 11);
}

#[test]
fn end_of_line_is_before_a_carriage_return_and_line_feed() {
    let rope = TextBuffer::from_str("ab\r\ncd\r");
    assert_eq!(rope.end_of_line(0), 2);
    assert_eq!(rope.end_of_line(2), 2);
    assert_eq!(rope.end_of_line(4), 7);
}

#[test]
fn line_moves_never_cross_a_line_feed() {
    let text = "one\n\ntwo three\nfour";
    let rope = TextBuffer::from_str(text);
    for index in 0..=text.len() {
        let start = rope.start_of_line(index);
        let end = rope.end_of_line(index);
        assert!(start <= index && index <= end);
        assert!(!text.as_bytes()[start..end].contains(&b'\n'));
    }
}
