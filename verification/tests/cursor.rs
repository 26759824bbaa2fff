use evalvana_editor::buffer::TextBuffer;
use evalvana_editor::coordinates::HitTarget;
use evalvana_editor::cursor::{find_end_of_line, Cursor, State, Vertical};
use evalvana_editor::tabs::replace_tab;

const SIZE: f32 = 10.0;

/// The width of the line of `index` up to `index`, every scalar as wide as
/// it is high and every tab as wide as `tab_width` spaces.
fn offset_x_of_index(buffer: &TextBuffer, index: usize, tab_width: u8) -> f32 {
    let start = buffer.start_of_line(index);
    let text = buffer.slice(start, index).unwrap();
    replace_tab(&text, tab_width).chars().count() as f32 * SIZE
}

/// The grapheme of the shown line that lies nearest to `x`.
fn hit_test(buffer: &TextBuffer, target: HitTarget, tab_width: u8, x: f32) -> Option<usize> {
    match target {
        HitTarget::At { .. } => None,
        HitTarget::Line { start, end } => {
            let line = buffer.slice(start, end).unwrap();
            let shown = replace_tab(line.trim_end_matches(['\r', '\n']), tab_width);
            Some(((x / SIZE).round() as usize).min(shown.chars().count()))
        }
    }
}

/// Makes a vertical move as a host does: asks what is needed, measures, and
/// hands the answers over.
fn step(cursor: &mut Cursor<f32>, buffer: &TextBuffer, movement: Vertical, tab_width: u8) -> bool {
    let query = cursor.vertical_query(buffer, movement);
    let measured = query.measure.map(|index| offset_x_of_index(buffer, index, tab_width));
    let x = measured.or(cursor.offset_x_hint()).unwrap();
    let hit = hit_test(buffer, query.target, tab_width, x);
    cursor.move_vertically(buffer, movement, tab_width, measured, hit)
}

fn caret(position: usize) -> Cursor<f32> {
    let mut cursor = Cursor::new();
    cursor.move_to_byte(position);
    cursor
}

fn selection(start: usize, end: usize) -> Cursor<f32> {
    let mut cursor = Cursor::new();
    cursor.select_range(start, end);
    cursor
}

#[test]
fn a_new_cursor_is_a_caret_at_the_start() {
    let buffer = TextBuffer::from_str("hello");
    let cursor: Cursor<f32> = Cursor::new();
    assert_eq!(cursor.state(&buffer), State::Index(0));
    assert_eq!(cursor.selection(&buffer), None);
    assert_eq!(cursor.start(&buffer), 0);
    assert_eq!(cursor.end(&buffer), 0);
    assert_eq!(cursor.offset_x_hint(), None);
}

#[test]
fn a_move_to_any_position_stays_in_the_buffer() {
    let buffer = TextBuffer::from_str("hello");
    for position in [0, 3, 5, 6, 1000, usize::MAX] {
        let cursor = caret(position);
        assert_eq!(cursor.state(&buffer), State::Index(position.min(5)));
        assert!(cursor.start(&buffer) <= buffer.len());
        assert!(cursor.end(&buffer) <= buffer.len());
        assert_eq!(cursor.selection(&buffer), None);
    }
}

#[test]
fn a_cursor_is_read_against_the_buffer_as_it_is_now() {
    let mut buffer = TextBuffer::from_str("hello world");
    let cursor = selection(2, 9);
    assert_eq!(cursor.state(&buffer), State::Selection { start: 2, end: 9 });
    buffer.remove(5, 11).unwrap();
    assert_eq!(cursor.state(&buffer), State::Selection { start: 2, end: 5 });
    buffer.remove(1, 5).unwrap();
    assert_eq!(cursor.state(&buffer), State::Index(1));
    assert_eq!(cursor.selection(&buffer), None);
}

#[test]
fn a_selection_has_its_lesser_end_first() {
    let buffer = TextBuffer::from_str("0123456789");
    let cursor = selection(5, 2);
    assert_eq!(cursor.state(&buffer), State::Selection { start: 5, end: 2 });
    assert_eq!(cursor.selection(&buffer), Some((2, 5)));
    assert_eq!(cursor.start(&buffer), 5);
    assert_eq!(cursor.end(&buffer), 2);
    let forward = selection(2, 5);
    assert_eq!(forward.selection(&buffer), Some((2, 5)));
}

#[test]
fn a_selection_of_nothing_is_a_caret() {
    let buffer = TextBuffer::from_str("0123456789");
    assert_eq!(selection(4, 4).state(&buffer), State::Index(4));
    assert_eq!(selection(12, 40).state(&buffer), State::Index(10));
    assert_eq!(selection(12, 40).selection(&buffer), None);
    for start in 0..14 {
        for end in 0..14 {
            let cursor = selection(start, end);
            match cursor.selection(&buffer) {
                Some((low, high)) => {
                    assert!(low < high && high <= 10);
                    assert!(matches!(cursor.state(&buffer), State::Selection { .. }));
                }
                None => assert_eq!(cursor.state(&buffer), State::Index(start.min(10))),
            }
        }
    }
}

#[test]
fn select_all_on_an_empty_buffer_is_a_caret() {
    let buffer = TextBuffer::new();
    let mut cursor: Cursor<f32> = Cursor::new();
    cursor.select_all(&buffer);
    assert_eq!(cursor.state(&buffer), State::Index(0));
    assert_eq!(cursor.selection(&buffer), None);
}

#[test]
fn select_all_takes_the_whole_buffer() {
    let buffer = TextBuffer::from_str("hello\nworld");
    let mut cursor = caret(4);
    cursor.select_all(&buffer);
    assert_eq!(cursor.state(&buffer), State::Selection { start: 0, end: 11 });
    assert_eq!(cursor.selection(&buffer), Some((0, 11)));
}

#[test]
fn move_right_and_left_go_by_graphemes() {
    let buffer = TextBuffer::from_str("bye 💔 :(");
    let mut cursor = caret(3);
    cursor.move_right(&buffer);
    assert_eq!(cursor.state(&buffer), State::Index(4));
    cursor.move_right(&buffer);
    assert_eq!(cursor.state(&buffer), State::Index(8));
    cursor.move_left(&buffer);
    assert_eq!(cursor.state(&buffer), State::Index(4));
    cursor.move_left(&buffer);
    assert_eq!(cursor.state(&buffer), State::Index(3));
}

#[test]
fn move_right_and_left_stop_at_the_ends() {
    let buffer = TextBuffer::from_str("ab");
    let mut cursor = caret(2);
    cursor.move_right(&buffer);
    assert_eq!(cursor.state(&buffer), State::Index(2));
    cursor.move_to_byte(0);
    cursor.move_left(&buffer);
    assert_eq!(cursor.state(&buffer), State::Index(0));
}

#[test]
fn move_right_and_left_make_a_caret_of_a_selection() {
    let buffer = TextBuffer::from_str("0123456789");
    for (start, end) in [(2, 5), (5, 2)] {
        let mut cursor = selection(start, end);
        cursor.move_right(&buffer);
        assert_eq!(cursor.state(&buffer), State::Index(5));
        let mut cursor = selection(start, end);
        cursor.move_left(&buffer);
        assert_eq!(cursor.state(&buffer), State::Index(2));
    }
}

#[test]
fn moves_by_words() {
    let buffer = TextBuffer::from_str("one two\nthree");
    let mut cursor = caret(0);
    cursor.move_right_by_words(&buffer);
    assert_eq!(cursor.state(&buffer), State::Index(3));
    cursor.move_right_by_words(&buffer);
    assert_eq!(cursor.state(&buffer), State::Index(7));
    cursor.move_right_by_words(&buffer);
    assert_eq!(cursor.state(&buffer), State::Index(8));
    cursor.move_right_by_words(&buffer);
    assert_eq!(cursor.state(&buffer), State::Index(13));
    cursor.move_right_by_words(&buffer);
    assert_eq!(cursor.state(&buffer), State::Index(13));
    cursor.move_left_by_words(&buffer);
    assert_eq!(cursor.state(&buffer), State::Index(8));
    cursor.move_left_by_words(&buffer);
    assert_eq!(cursor.state(&buffer), State::Index(7));
    cursor.move_left_by_words(&buffer);
    assert_eq!(cursor.state(&buffer), State::Index(4));
    cursor.move_left_by_words(&buffer);
    assert_eq!(cursor.state(&buffer), State::Index(0));
}

#[test]
fn moves_by_words_set_out_from_the_ends_of_a_selection() {
    let buffer = TextBuffer::from_str("one two three");
    let mut cursor = selection(5, 9);
    cursor.move_right_by_words(&buffer);
    assert_eq!(cursor.state(&buffer), State::Index(13));
    let mut cursor = selection(5, 9);
    cursor.move_left_by_words(&buffer);
    assert_eq!(cursor.state(&buffer), State::Index(4));
}

#[test]
fn moves_by_line() {
    let buffer = TextBuffer::from_str("one\r\ntwo three\nfour");
    let mut cursor = caret(8);
    cursor.move_right_by_line(&buffer);
    assert_eq!(cursor.state(&buffer), State::Index(14));
    cursor.move_left_by_line(&buffer);
    assert_eq!(cursor.state(&buffer), State::Index(5));
    cursor.move_to_byte(1);
    cursor.move_right_by_line(&buffer);
    assert_eq!(cursor.state(&buffer), State::Index(3));
    cursor.move_to_byte(17);
    cursor.move_right_by_line(&buffer);
    assert_eq!(cursor.state(&buffer), State::Index(19));
}

#[test]
fn move_right_by_bytes_stops_at_the_end() {
    let buffer = TextBuffer::from_str("hello");
    let mut cursor = caret(1);
    cursor.move_right_by_bytes(&buffer, 3);
    assert_eq!(cursor.state(&buffer), State::Index(4));
    cursor.move_right_by_bytes(&buffer, 3);
    assert_eq!(cursor.state(&buffer), State::Index(5));
    cursor.move_to_byte(2);
    cursor.move_right_by_bytes(&buffer, usize::MAX);
    assert_eq!(cursor.state(&buffer), State::Index(5));
    let mut cursor = selection(4, 1);
    cursor.move_right_by_bytes(&buffer, 2);
    assert_eq!(cursor.state(&buffer), State::Index(4));
}

#[test]
fn select_right_and_left_move_one_end() {
    let buffer = TextBuffer::from_str("bye 💔 :(");
    let mut cursor = caret(4);
    cursor.select_right(&buffer);
    assert_eq!(cursor.state(&buffer), State::Selection { start: 4, end: 8 });
    cursor.select_right(&buffer);
    assert_eq!(cursor.state(&buffer), State::Selection { start: 4, end: 9 });
    cursor.select_left(&buffer);
    cursor.select_left(&buffer);
    assert_eq!(cursor.state(&buffer), State::Index(4));
    cursor.select_left(&buffer);
    assert_eq!(cursor.state(&buffer), State::Selection { start: 4, end: 3 });
    assert_eq!(cursor.selection(&buffer), Some((3, 4)));
}

#[test]
fn select_right_and_left_stop_at_the_ends() {
    let buffer = TextBuffer::from_str("ab");
    let mut cursor = selection(1, 2);
    cursor.select_right(&buffer);
    assert_eq!(cursor.state(&buffer), State::Selection { start: 1, end: 2 });
    let mut cursor = selection(1, 0);
    cursor.select_left(&buffer);
    assert_eq!(cursor.state(&buffer), State::Selection { start: 1, end: 0 });
    let mut cursor = caret(0);
    cursor.select_left(&buffer);
    assert_eq!(cursor.state(&buffer), State::Index(0));
}

#[test]
fn selects_by_words_and_by_line() {
    let buffer = TextBuffer::from_str("one two\nthree four");
    let mut cursor = caret(10);
    cursor.select_right_by_words(&buffer);
    assert_eq!(cursor.state(&buffer), State::Selection { start: 10, end: 13 });
    cursor.select_right_by_line(&buffer);
    assert_eq!(cursor.state(&buffer), State::Selection { start: 10, end: 18 });
    cursor.select_left_by_words(&buffer);
    assert_eq!(cursor.state(&buffer), State::Selection { start: 10, end: 14 });
    cursor.select_left_by_words(&buffer);
    assert_eq!(cursor.state(&buffer), State::Selection { start: 10, end: 8 });
    cursor.select_left_by_line(&buffer);
    assert_eq!(cursor.state(&buffer), State::Selection { start: 10, end: 8 });
    cursor.select_left_by_words(&buffer);
    assert_eq!(cursor.state(&buffer), State::Selection { start: 10, end: 7 });
    cursor.select_right_by_line(&buffer);
    assert_eq!(cursor.state(&buffer), State::Selection { start: 10, end: 7 });
    cursor.select_right_by_words(&buffer);
    cursor.select_right_by_words(&buffer);
    assert_eq!(cursor.state(&buffer), State::Selection { start: 10, end: 13 });
}

#[test]
fn a_selection_that_comes_back_to_its_start_is_a_caret() {
    let buffer = TextBuffer::from_str("one two");
    let mut cursor = caret(4);
    cursor.select_right_by_line(&buffer);
    assert_eq!(cursor.state(&buffer), State::Selection { start: 4, end: 7 });
    cursor.select_left_by_words(&buffer);
    assert_eq!(cursor.state(&buffer), State::Index(4));
}

#[test]
fn move_down_keeps_the_column() {
    let buffer = TextBuffer::from_str("hello\nworld");
    let mut cursor = caret(2);
    assert!(step(&mut cursor, &buffer, Vertical::MoveDown, 4));
    assert_eq!(cursor.state(&buffer), State::Index(8));
    assert_eq!(cursor.offset_x_hint(), Some(20.0));
}

#[test]
fn move_down_by_its_own_name() {
    let buffer = TextBuffer::from_str("hello\nworld");
    let mut cursor: Cursor<f32> = caret(2);
    assert!(cursor.move_down(&buffer, 4, Some(20.0), Some(2)));
    assert_eq!(cursor.state(&buffer), State::Index(8));
    assert!(cursor.move_up(&buffer, 4, None, Some(2)));
    assert_eq!(cursor.state(&buffer), State::Index(2));
    assert!(cursor.select_down(&buffer, 4, None, Some(2)));
    assert_eq!(cursor.state(&buffer), State::Selection { start: 2, end: 8 });
    assert!(cursor.select_up(&buffer, 4, None, Some(2)));
    assert_eq!(cursor.state(&buffer), State::Index(2));
    assert_eq!(cursor.offset_x_hint(), Some(20.0));
}

#[test]
fn down_then_up_comes_back() {
    let text = "hello world\nab\n\n\tindented line\r\nlast";
    let buffer = TextBuffer::from_str(text);
    for index in 0..=text.len() {
        if !buffer.is_grapheme_boundary(index) || buffer.end_of_line(index) == buffer.len() {
            continue;
        }
        let mut cursor = caret(index);
        assert!(step(&mut cursor, &buffer, Vertical::MoveDown, 4));
        let hint = cursor.offset_x_hint();
        assert_eq!(hint, Some(offset_x_of_index(&buffer, index, 4)));
        assert!(step(&mut cursor, &buffer, Vertical::MoveUp, 4));
        assert_eq!(cursor.state(&buffer), State::Index(index));
        assert_eq!(cursor.offset_x_hint(), hint);
    }
}

#[test]
fn the_column_is_kept_over_a_shorter_line() {
    let buffer = TextBuffer::from_str("hello world\nab\nhello world");
    let mut cursor = caret(9);
    assert!(step(&mut cursor, &buffer, Vertical::MoveDown, 4));
    assert_eq!(cursor.state(&buffer), State::Index(14));
    assert!(step(&mut cursor, &buffer, Vertical::MoveDown, 4));
    assert_eq!(cursor.state(&buffer), State::Index(24));
    assert!(step(&mut cursor, &buffer, Vertical::MoveUp, 4));
    assert!(step(&mut cursor, &buffer, Vertical::MoveUp, 4));
    assert_eq!(cursor.state(&buffer), State::Index(9));
    assert_eq!(cursor.offset_x_hint(), Some(90.0));
}

#[test]
fn a_horizontal_move_forgets_the_column() {
    let buffer = TextBuffer::from_str("hello world\nab\nhello world");
    let mut cursor = caret(9);
    assert!(step(&mut cursor, &buffer, Vertical::MoveDown, 4));
    assert_eq!(cursor.offset_x_hint(), Some(90.0));
    cursor.move_left(&buffer);
    assert_eq!(cursor.offset_x_hint(), None);
    assert!(step(&mut cursor, &buffer, Vertical::MoveDown, 4));
    assert_eq!(cursor.state(&buffer), State::Index(16));
    assert_eq!(cursor.offset_x_hint(), Some(10.0));
}

#[test]
fn move_up_on_the_first_line_goes_to_the_start() {
    let buffer = TextBuffer::from_str("hello\nworld");
    let mut cursor = caret(3);
    assert!(step(&mut cursor, &buffer, Vertical::MoveUp, 4));
    assert_eq!(cursor.state(&buffer), State::Index(0));
    assert_eq!(cursor.offset_x_hint(), Some(0.0));
}

#[test]
fn move_down_on_the_last_line_goes_to_the_end() {
    let buffer = TextBuffer::from_str("hello\nworld");
    let mut cursor = caret(8);
    assert!(step(&mut cursor, &buffer, Vertical::MoveDown, 4));
    assert_eq!(cursor.state(&buffer), State::Index(11));
    assert_eq!(cursor.offset_x_hint(), Some(50.0));
}

#[test]
fn vertical_moves_set_out_from_the_end_in_their_direction() {
    let buffer = TextBuffer::from_str("hello\nworld\nagain");
    for (start, end) in [(7, 10), (10, 7)] {
        let mut cursor = selection(start, end);
        assert!(step(&mut cursor, &buffer, Vertical::MoveUp, 4));
        assert_eq!(cursor.state(&buffer), State::Index(1));
        let mut cursor = selection(start, end);
        assert!(step(&mut cursor, &buffer, Vertical::MoveDown, 4));
        assert_eq!(cursor.state(&buffer), State::Index(16));
    }
}

#[test]
fn select_up_and_down_move_the_moving_end() {
    let buffer = TextBuffer::from_str("hello\nworld\nagain");
    let mut cursor = caret(8);
    assert!(step(&mut cursor, &buffer, Vertical::SelectDown, 4));
    assert_eq!(cursor.state(&buffer), State::Selection { start: 8, end: 14 });
    assert!(step(&mut cursor, &buffer, Vertical::SelectUp, 4));
    assert_eq!(cursor.state(&buffer), State::Index(8));
    assert!(step(&mut cursor, &buffer, Vertical::SelectUp, 4));
    assert_eq!(cursor.state(&buffer), State::Selection { start: 8, end: 2 });
    assert!(step(&mut cursor, &buffer, Vertical::SelectUp, 4));
    assert_eq!(cursor.state(&buffer), State::Selection { start: 8, end: 0 });
    assert_eq!(cursor.selection(&buffer), Some((0, 8)));
}

#[test]
fn a_vertical_move_over_tabs_keeps_the_column() {
    let buffer = TextBuffer::from_str("\t\thello\n0123456789ab");
    let mut cursor = caret(4);
    assert!(step(&mut cursor, &buffer, Vertical::MoveDown, 4));
    assert_eq!(cursor.state(&buffer), State::Index(18));
    assert!(step(&mut cursor, &buffer, Vertical::MoveUp, 4));
    assert_eq!(cursor.state(&buffer), State::Index(4));
    cursor.move_to_byte(10);
    assert!(step(&mut cursor, &buffer, Vertical::MoveUp, 4));
    assert_eq!(cursor.state(&buffer), State::Index(0));
    cursor.move_to_byte(11);
    assert!(step(&mut cursor, &buffer, Vertical::MoveUp, 4));
    assert_eq!(cursor.state(&buffer), State::Index(1));
}

#[test]
fn an_unanswered_vertical_move_changes_nothing() {
    let buffer = TextBuffer::from_str("hello\nworld");
    let mut cursor: Cursor<f32> = selection(4, 2);
    assert!(!cursor.move_vertically(&buffer, Vertical::MoveDown, 4, None, Some(2)));
    assert!(!cursor.move_vertically(&buffer, Vertical::MoveDown, 4, Some(40.0), None));
    assert!(!cursor.move_vertically(&buffer, Vertical::MoveDown, 4, Some(40.0), Some(7)));
    assert!(!cursor.move_down(&buffer, 4, None, None));
    assert!(!cursor.select_down(&buffer, 4, Some(20.0), None));
    assert_eq!(cursor.state(&buffer), State::Selection { start: 4, end: 2 });
    assert_eq!(cursor.offset_x_hint(), None);
    assert!(cursor.move_vertically(&buffer, Vertical::MoveDown, 4, Some(40.0), Some(4)));
    assert_eq!(cursor.state(&buffer), State::Index(10));
    assert_eq!(cursor.offset_x_hint(), Some(40.0));
}

#[test]
fn a_vertical_query_says_what_to_measure() {
    let buffer = TextBuffer::from_str("hello\nworld");
    let mut cursor: Cursor<f32> = caret(2);
    let query = cursor.vertical_query(&buffer, Vertical::MoveDown);
    assert_eq!(query.target, HitTarget::Line { start: 6, end: 11 });
    assert_eq!(query.measure, Some(2));
    assert!(cursor.move_down(&buffer, 4, Some(20.0), Some(2)));
    let query = cursor.vertical_query(&buffer, Vertical::MoveUp);
    assert_eq!(query.target, HitTarget::Line { start: 0, end: 6 });
    assert_eq!(query.measure, None);
    let query = cursor.vertical_query(&buffer, Vertical::SelectDown);
    assert_eq!(query.target, HitTarget::At { index: 11 });
    assert_eq!(query.measure, Some(11));
}

#[test]
fn the_end_of_a_line_is_found_before_its_terminator() {
    let buffer = TextBuffer::from_str("one\r\ntwo\nthree");
    assert_eq!(find_end_of_line(0, &buffer), 3);
    assert_eq!(find_end_of_line(3, &buffer), 3);
    assert_eq!(find_end_of_line(4, &buffer), 3);
    assert_eq!(find_end_of_line(5, &buffer), 8);
    assert_eq!(find_end_of_line(9, &buffer), 14);
    assert_eq!(find_end_of_line(14, &buffer), 14);
    assert_eq!(find_end_of_line(99, &buffer), 14);
}
