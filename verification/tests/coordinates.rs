use evalvana_editor::buffer::TextBuffer;
use evalvana_editor::coordinates::{grapheme_offset, hit_byte_index, HitTarget, VerticalQuery};

#[test]
fn grapheme_offset_counts_clusters() {
    let text = "bye 💔 :(";
    assert_eq!(grapheme_offset(text, 0), Some(0));
    assert_eq!(grapheme_offset(text, 4), Some(4));
    assert_eq!(grapheme_offset(text, 5), Some(8));
    assert_eq!(grapheme_offset(text, 8), Some(11));
    assert_eq!(grapheme_offset(text, 9), None);
    assert_eq!(grapheme_offset(text, 100), None);
}

#[test]
fn grapheme_offset_of_an_empty_text() {
    assert_eq!(grapheme_offset("", 0), Some(0));
    assert_eq!(grapheme_offset("", 1), None);
}

#[test]
fn a_hit_without_tabs_is_the_offset_of_its_grapheme() {
    assert_eq!(hit_byte_index("hello", 4, 0), Some(0));
    assert_eq!(hit_byte_index("hello", 4, 3), Some(3));
    assert_eq!(hit_byte_index("hello", 4, 5), Some(5));
    assert_eq!(hit_byte_index("hello", 4, 6), None);
    assert_eq!(hit_byte_index("bye 💔 :(", 4, 5), Some(8));
}

#[test]
fn a_hit_after_tabs_takes_the_widened_columns_back() {
    assert_eq!(hit_byte_index("\t\thello", 4, 8), Some(2));
    assert_eq!(hit_byte_index("\t\thello", 4, 13), Some(7));
    assert_eq!(hit_byte_index("\t\thello", 4, 14), None);
    assert_eq!(hit_byte_index("a\tb\tc", 2, 4), Some(3));
    assert_eq!(hit_byte_index("a\tb\tc", 2, 7), Some(5));
}

#[test]
fn a_hit_inside_a_tab_goes_to_the_nearer_side() {
    assert_eq!(hit_byte_index("\thello", 4, 1), Some(0));
    assert_eq!(hit_byte_index("\thello", 4, 2), Some(0));
    assert_eq!(hit_byte_index("\thello", 4, 3), Some(1));
    assert_eq!(hit_byte_index("\thello", 4, 4), Some(1));
    assert_eq!(hit_byte_index("\thello", 3, 1), Some(0));
    assert_eq!(hit_byte_index("\thello", 3, 2), Some(1));
}

#[test]
fn a_hit_counts_graphemes_and_gives_bytes() {
    assert_eq!(hit_byte_index("\t💔\tx", 2, 2), Some(1));
    assert_eq!(hit_byte_index("\t💔\tx", 2, 3), Some(5));
    assert_eq!(hit_byte_index("\t💔\tx", 2, 5), Some(6));
    assert_eq!(hit_byte_index("\t💔\tx", 2, 6), Some(7));
}

#[test]
fn above_the_first_line_is_the_start() {
    let buffer = TextBuffer::from_str("hello\nworld");
    let query = VerticalQuery { target: HitTarget::At { index: 0 }, measure: Some(0) };
    assert_eq!(buffer.find_index_above(3, false), query);
    assert_eq!(buffer.find_index_above(3, true), query);
    assert_eq!(buffer.find_index_above(0, false), query);
}

#[test]
fn below_the_last_line_is_the_end() {
    let buffer = TextBuffer::from_str("hello\nworld");
    let query = VerticalQuery { target: HitTarget::At { index: 11 }, measure: Some(11) };
    assert_eq!(buffer.find_index_below(8, false), query);
    assert_eq!(buffer.find_index_below(8, true), query);
    assert_eq!(buffer.find_index_below(11, false), query);
    assert_eq!(buffer.find_index_below(500, false), query);
}

#[test]
fn a_move_between_lines_asks_for_the_line() {
    let buffer = TextBuffer::from_str("hello\nworld\nagain");
    assert_eq!(
        buffer.find_index_below(2, false),
        VerticalQuery { target: HitTarget::Line { start: 6, end: 12 }, measure: Some(2) }
    );
    assert_eq!(
        buffer.find_index_below(8, true),
        VerticalQuery { target: HitTarget::Line { start: 12, end: 17 }, measure: None }
    );
    assert_eq!(
        buffer.find_index_above(8, false),
        VerticalQuery { target: HitTarget::Line { start: 0, end: 6 }, measure: Some(8) }
    );
    assert_eq!(
        buffer.find_index_above(17, true),
        VerticalQuery { target: HitTarget::Line { start: 6, end: 12 }, measure: None }
    );
}

#[test]
fn a_move_into_an_empty_line_needs_no_hit() {
    let buffer = TextBuffer::from_str("hello\n\nworld\r\n\r\nlast\n");
    assert_eq!(
        buffer.find_index_below(3, false),
        VerticalQuery { target: HitTarget::At { index: 6 }, measure: Some(3) }
    );
    assert_eq!(
        buffer.find_index_above(9, true),
        VerticalQuery { target: HitTarget::At { index: 6 }, measure: None }
    );
    assert_eq!(
        buffer.find_index_below(9, true),
        VerticalQuery { target: HitTarget::At { index: 14 }, measure: None }
    );
    assert_eq!(
        buffer.find_index_below(18, true),
        VerticalQuery { target: HitTarget::At { index: 21 }, measure: None }
    );
}

#[test]
fn a_point_past_the_last_line_leads_to_the_end() {
    let buffer = TextBuffer::from_str("hello\nworld");
    assert_eq!(buffer.index_at_point(2), HitTarget::At { index: 11 });
    assert_eq!(buffer.index_at_point(usize::MAX), HitTarget::At { index: 11 });
    let ended = TextBuffer::from_str("hello\n");
    assert_eq!(ended.index_at_point(1), HitTarget::At { index: 6 });
    let empty = TextBuffer::new();
    assert_eq!(empty.index_at_point(0), HitTarget::At { index: 0 });
}

#[test]
fn a_point_on_a_line_of_white_space_leads_to_its_start() {
    let buffer = TextBuffer::from_str("hello\n \t \nworld\n\n");
    assert_eq!(buffer.index_at_point(1), HitTarget::At { index: 6 });
    assert_eq!(buffer.index_at_point(3), HitTarget::At { index: 16 });
}

#[test]
fn a_point_on_a_line_of_text_leads_into_it() {
    let buffer = TextBuffer::from_str("hello\nworld\n");
    assert_eq!(buffer.index_at_point(0), HitTarget::Line { start: 0, end: 6 });
    assert_eq!(buffer.index_at_point(1), HitTarget::Line { start: 6, end: 12 });
}

#[test]
fn an_index_target_needs_no_hit() {
    let buffer = TextBuffer::from_str("hello");
    assert_eq!(buffer.index_of_hit(HitTarget::At { index: 3 }, 4, None), Some(3));
    assert_eq!(buffer.index_of_hit(HitTarget::At { index: 3 }, 4, Some(1)), Some(3));
    assert_eq!(buffer.index_of_hit(HitTarget::At { index: 5 }, 4, None), Some(5));
    assert_eq!(buffer.index_of_hit(HitTarget::At { index: 6 }, 4, None), None);
}

#[test]
fn a_line_target_needs_a_hit() {
    let buffer = TextBuffer::from_str("hello\n\tworld");
    let first = HitTarget::Line { start: 0, end: 6 };
    let second = HitTarget::Line { start: 6, end: 12 };
    assert_eq!(buffer.index_of_hit(first, 4, None), None);
    assert_eq!(buffer.index_of_hit(first, 4, Some(2)), Some(2));
    assert_eq!(buffer.index_of_hit(first, 4, Some(5)), Some(5));
    assert_eq!(buffer.index_of_hit(first, 4, Some(7)), None);
    assert_eq!(buffer.index_of_hit(second, 4, Some(0)), Some(6));
    assert_eq!(buffer.index_of_hit(second, 4, Some(2)), Some(6));
    assert_eq!(buffer.index_of_hit(second, 4, Some(3)), Some(7));
    assert_eq!(buffer.index_of_hit(second, 4, Some(6)), Some(9));
    assert_eq!(buffer.index_of_hit(second, 4, Some(9)), Some(12));
    assert_eq!(buffer.index_of_hit(second, 4, Some(10)), None);
}

#[test]
fn a_line_target_outside_the_buffer_leads_nowhere() {
    let buffer = TextBuffer::from_str("a💔b");
    assert_eq!(buffer.index_of_hit(HitTarget::Line { start: 0, end: 7 }, 4, Some(0)), None);
    assert_eq!(buffer.index_of_hit(HitTarget::Line { start: 4, end: 2 }, 4, Some(0)), None);
    assert_eq!(buffer.index_of_hit(HitTarget::Line { start: 2, end: 6 }, 4, Some(0)), None);
    assert_eq!(buffer.index_of_hit(HitTarget::Line { start: 0, end: 3 }, 4, Some(0)), None);
    assert_eq!(buffer.index_of_hit(HitTarget::Line { start: 1, end: 5 }, 4, Some(1)), Some(5));
}
