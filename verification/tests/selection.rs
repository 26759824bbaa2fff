use evalvana_editor::buffer::TextBuffer;
use evalvana_editor::selection::Span;

fn span(line: usize, start: usize, end: usize, ends_line: bool) -> Span {
    Span { line, start, end, ends_line }
}

#[test]
fn a_selection_on_one_line_is_one_span() {
    let buffer = TextBuffer::from_str("hello\nworld");
    assert_eq!(buffer.selection_spans(1, 4), [span(0, 1, 4, false)]);
    assert_eq!(buffer.selection_spans(4, 1), [span(0, 1, 4, false)]);
    assert_eq!(buffer.selection_spans(7, 11), [span(1, 7, 11, false)]);
    assert_eq!(buffer.selection_spans(0, 5), [span(0, 0, 5, false)]);
}

#[test]
fn a_selection_up_to_the_next_line_takes_the_line_feed() {
    let buffer = TextBuffer::from_str("hello\nworld");
    assert_eq!(buffer.selection_spans(2, 6), [span(0, 2, 6, true)]);
    assert_eq!(buffer.selection_spans(5, 6), [span(0, 5, 6, true)]);
}

#[test]
fn a_selection_over_lines_has_a_span_for_each() {
    let buffer = TextBuffer::from_str("one\n\ntwo three\r\nfour");
    assert_eq!(
        buffer.selection_spans(2, 18),
        [
            span(0, 2, 4, true),
            span(1, 4, 5, true),
            span(2, 5, 16, true),
            span(3, 16, 18, false),
        ]
    );
    assert_eq!(buffer.selection_spans(20, 0).len(), 4);
    assert_eq!(buffer.selection_spans(400, 0).last(), Some(&span(3, 16, 20, false)));
}

#[test]
fn an_empty_selection_has_no_span() {
    let buffer = TextBuffer::from_str("hello\nworld");
    assert!(buffer.selection_spans(3, 3).is_empty());
    assert!(buffer.selection_spans(11, 50).is_empty());
    assert!(TextBuffer::new().selection_spans(0, 9).is_empty());
}

#[test]
fn the_ends_of_a_span_are_scalar_boundaries() {
    let buffer = TextBuffer::from_str("a💔\nb");
    assert_eq!(buffer.selection_spans(3, 7), [span(0, 1, 6, true), span(1, 6, 7, false)]);
    assert!(buffer.selection_spans(2, 4).is_empty());
}

#[test]
fn spans_follow_one_another() {
    let text = "one\n\ntwo three\r\nfour\n";
    let buffer = TextBuffer::from_str(text);
    for start in 0..=text.len() {
        for end in start + 1..=text.len() {
            let spans = buffer.selection_spans(start, end);
            assert_eq!(spans.first().unwrap().start, start);
            assert_eq!(spans.last().unwrap().end, end);
            for pair in spans.windows(2) {
                assert_eq!(pair[0].end, pair[1].start);
                assert_eq!(pair[0].line + 1, pair[1].line);
                assert!(pair[0].ends_line);
            }
            for part in &spans {
                assert!(part.start < part.end);
                assert!(!text.as_bytes()[part.start..part.end - 1].contains(&b'\n'));
                assert_eq!(part.ends_line, text.as_bytes()[part.end - 1] == b'\n');
            }
        }
    }
}
