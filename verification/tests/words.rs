use evalvana_editor::buffer::TextBuffer;
use evalvana_editor::words::{end_of_first_word, is_blank, start_of_last_word};

#[test]
fn next_end_of_word_stops_after_each_word() {
    let buffer = TextBuffer::from_str("hello world");
    assert_eq!(buffer.next_end_of_word(0), 5);
    assert_eq!(buffer.next_end_of_word(2), 5);
    assert_eq!(buffer.next_end_of_word(5), 11);
    assert_eq!(buffer.next_end_of_word(6), 11);
    assert_eq!(buffer.next_end_of_word(11), 11);
}

#[test]
fn previous_start_of_word_stops_before_each_word() {
    let buffer = TextBuffer::from_str("hello world");
    assert_eq!(buffer.previous_start_of_word(11), 6);
    assert_eq!(buffer.previous_start_of_word(8), 6);
    assert_eq!(buffer.previous_start_of_word(6), 0);
    assert_eq!(buffer.previous_start_of_word(5), 0);
    assert_eq!(buffer.previous_start_of_word(0), 0);
}

#[test]
fn white_space_in_a_row_is_passed_as_one() {
    let buffer = TextBuffer::from_str("one  \t  two");
    assert_eq!(buffer.next_end_of_word(3), 11);
    assert_eq!(buffer.previous_start_of_word(8), 0);
}

#[test]
fn punctuation_is_a_word_of_its_own() {
    let buffer = TextBuffer::from_str("a, b");
    assert_eq!(buffer.next_end_of_word(0), 1);
    assert_eq!(buffer.next_end_of_word(1), 2);
    assert_eq!(buffer.next_end_of_word(2), 4);
    assert_eq!(buffer.previous_start_of_word(4), 3);
    assert_eq!(buffer.previous_start_of_word(3), 1);
}

#[test]
fn a_word_move_forward_stops_at_the_end_of_the_line() {
    let buffer = TextBuffer::from_str("ab  \ncd");
    assert_eq!(buffer.next_end_of_word(0), 2);
    assert_eq!(buffer.next_end_of_word(2), 4);
    assert_eq!(buffer.next_end_of_word(4), 5);
    assert_eq!(buffer.next_end_of_word(5), 7);
}

#[test]
fn a_word_move_backward_stops_at_the_start_of_the_line() {
    let buffer = TextBuffer::from_str("ab\n  cd");
    assert_eq!(buffer.previous_start_of_word(7), 5);
    assert_eq!(buffer.previous_start_of_word(5), 3);
    assert_eq!(buffer.previous_start_of_word(3), 2);
    assert_eq!(buffer.previous_start_of_word(2), 0);
}

#[test]
fn word_moves_leave_a_carriage_return_with_its_line_feed() {
    let buffer = TextBuffer::from_str("ab\r\ncd");
    assert_eq!(buffer.next_end_of_word(0), 2);
    assert_eq!(buffer.next_end_of_word(2), 4);
    assert_eq!(buffer.next_end_of_word(3), 4);
    assert_eq!(buffer.previous_start_of_word(4), 2);
}

#[test]
fn word_moves_count_bytes() {
    let buffer = TextBuffer::from_str("caf\u{e9} \u{1F494}x");
    assert_eq!(buffer.next_end_of_word(0), 5);
    assert_eq!(buffer.previous_start_of_word(5), 0);
    assert_eq!(buffer.next_end_of_word(5), 10);
    assert_eq!(buffer.next_end_of_word(10), 11);
}

#[test]
fn word_moves_on_an_empty_buffer() {
    let buffer = TextBuffer::new();
    assert_eq!(buffer.next_end_of_word(0), 0);
    assert_eq!(buffer.previous_start_of_word(0), 0);
    assert_eq!(buffer.next_end_of_word(9), 0);
}

#[test]
fn word_moves_reach_the_end_in_no_more_steps_than_bytes() {
    let text = "hello\n\n\n\nworld, and  more\r\n\tx";
    let buffer = TextBuffer::from_str(text);
    for from in 0..=text.len() {
        let mut index = from;
        let mut steps = 0;
        while index < buffer.len() {
            let next = buffer.next_end_of_word(index);
            assert!(next > index);
            index = next;
            steps += 1;
        }
        assert_eq!(index, buffer.len());
        assert!(steps <= text.len() - from);
    }
}

#[test]
fn empty_lines_take_a_move_each() {
    let buffer = TextBuffer::from_str("hello\n\n\n\nworld");
    let mut index = 0;
    let mut stops = Vec::new();
    while index < buffer.len() {
        index = buffer.next_end_of_word(index);
        stops.push(index);
    }
    assert_eq!(stops, [5, 6, 7, 8, 9, 14]);
}

#[test]
fn is_blank_knows_white_space() {
    assert!(is_blank(b"", 0, 0));
    assert!(is_blank(b" \t\r\n\x0b\x0c", 0, 6));
    assert!(!is_blank(b"  a ", 0, 4));
    assert!(is_blank(b"  a ", 0, 2));
    assert!(is_blank(b"  a ", 3, 4));
    assert!(is_blank(b"abc", 1, 1));
    let wide = "\u{85}\u{a0}\u{1680}\u{2000}\u{200a}\u{2028}\u{2029}\u{202f}\u{205f}\u{3000}";
    assert!(is_blank(wide.as_bytes(), 0, wide.len()));
    for scalar in ["\u{200b}", "\u{180e}", "\u{feff}", "\u{2060}", "\u{84}", "\u{a1}", "\u{1F494}"] {
        assert!(!is_blank(scalar.as_bytes(), 0, scalar.len()));
    }
}

#[test]
fn is_blank_agrees_with_char_is_whitespace() {
    for code in 0..0x3100u32 {
        if let Some(scalar) = char::from_u32(code) {
            let mut bytes = [0u8; 4];
            let text = scalar.encode_utf8(&mut bytes);
            assert_eq!(is_blank(text.as_bytes(), 0, text.len()), scalar.is_whitespace(), "{code:x}");
        }
    }
}

#[test]
fn end_of_first_word_passes_leading_white_space() {
    let text = b"  hello world";
    let bounds = vec![0, 2, 7, 8];
    assert_eq!(end_of_first_word(text, &bounds), 7);
    assert_eq!(start_of_last_word(text, &bounds), 8);
}

#[test]
fn a_text_without_a_word_has_its_ends_for_word_edges() {
    let text = b" \t ";
    let bounds = vec![0];
    assert_eq!(end_of_first_word(text, &bounds), 3);
    assert_eq!(start_of_last_word(text, &bounds), 0);
    let none: Vec<usize> = Vec::new();
    assert_eq!(end_of_first_word(b"", &none), 0);
    assert_eq!(start_of_last_word(b"", &none), 0);
}

#[test]
fn the_last_segment_ends_with_the_text() {
    let text = b"ab cd";
    let bounds = vec![0, 2, 3];
    assert_eq!(end_of_first_word(text, &bounds), 2);
    assert_eq!(start_of_last_word(text, &bounds), 3);
    let one = vec![0];
    assert_eq!(end_of_first_word(b"word", &one), 4);
    assert_eq!(start_of_last_word(b"word", &one), 0);
}
