use editor::buffer::{Cursor, CursorMovement, EditorError, TextBuffer};
use editor::terminal_ui::Rectangle;

fn chars(s: &str) -> Vec<char> {
    s.chars().collect()
}

fn text(v: &[char]) -> String {
    v.iter().collect()
}

fn buffer_of(content: &str, width: usize, height: usize) -> TextBuffer {
    TextBuffer::from_content(&chars(content), width, height)
}

fn lines_of(buffer: &TextBuffer) -> Vec<String> {
    let mut lines = Vec::new();
    let mut i: usize = 0;
    while i < buffer.line_count() {
        lines.push(text(buffer.line(i)));
        i += 1;
    }
    lines
}

#[test]
fn create_empty_has_one_empty_line_and_origin_cursor() {
    let buffer = TextBuffer::create_empty(10, 5);
    assert_eq!(lines_of(&buffer), vec![String::new()]);
    assert_eq!(buffer.cursor(), Cursor { x: 0, y: 0 });
    assert_eq!(buffer.viewport(), Rectangle { x: 0, y: 0, width: 10, height: 5 });
    assert!(!buffer.has_path());
}

#[test]
fn from_content_splits_on_newlines() {
    let buffer = buffer_of("abc\nde", 80, 24);
    assert_eq!(lines_of(&buffer), vec!["abc".to_string(), "de".to_string()]);
    assert_eq!(buffer.cursor(), Cursor { x: 0, y: 0 });
}

#[test]
fn up_and_down_clamp_to_rows_and_columns() {
    let mut buffer = buffer_of("long line\nab\nlonger line", 80, 24);
    buffer.handle_movement(CursorMovement::Up);
    assert_eq!(buffer.cursor(), Cursor { x: 0, y: 0 });
    buffer.handle_movement(CursorMovement::LineEnd);
    assert_eq!(buffer.cursor(), Cursor { x: 9, y: 0 });
    buffer.handle_movement(CursorMovement::Down);
    assert_eq!(buffer.cursor(), Cursor { x: 2, y: 1 });
    buffer.handle_movement(CursorMovement::Down);
    assert_eq!(buffer.cursor(), Cursor { x: 2, y: 2 });
    buffer.handle_movement(CursorMovement::Down);
    assert_eq!(buffer.cursor(), Cursor { x: 2, y: 2 });
}

#[test]
fn left_at_line_start_joins_previous_line_end() {
    let mut buffer = buffer_of("abc\nde", 80, 24);
    buffer.handle_movement(CursorMovement::Down);
    buffer.handle_movement(CursorMovement::Left);
    assert_eq!(buffer.cursor(), Cursor { x: 3, y: 0 });
}

#[test]
fn left_is_a_no_op_at_the_origin() {
    let mut buffer = buffer_of("abc", 80, 24);
    buffer.handle_movement(CursorMovement::Left);
    assert_eq!(buffer.cursor(), Cursor { x: 0, y: 0 });
}

#[test]
fn right_at_line_end_moves_to_next_line_start() {
    let mut buffer = buffer_of("ab\ncd", 80, 24);
    buffer.handle_movement(CursorMovement::LineEnd);
    buffer.handle_movement(CursorMovement::Right);
    assert_eq!(buffer.cursor(), Cursor { x: 0, y: 1 });
}

#[test]
fn right_is_a_no_op_at_the_end_of_the_last_line() {
    let mut buffer = buffer_of("ab", 80, 24);
    buffer.handle_movement(CursorMovement::LineEnd);
    buffer.handle_movement(CursorMovement::Right);
    assert_eq!(buffer.cursor(), Cursor { x: 2, y: 0 });
}

#[test]
fn left_then_right_returns_to_a_non_boundary_position() {
    let mut buffer = buffer_of("abcdef", 80, 24);
    buffer.handle_movement(CursorMovement::Right);
    buffer.handle_movement(CursorMovement::Right);
    buffer.handle_movement(CursorMovement::Right);
    let start = buffer.cursor();
    buffer.handle_movement(CursorMovement::Left);
    buffer.handle_movement(CursorMovement::Right);
    assert_eq!(buffer.cursor(), start);
}

#[test]
fn right_across_a_join_then_left_returns_to_the_line_end() {
    let mut buffer = buffer_of("abc\nde", 80, 24);
    buffer.handle_movement(CursorMovement::LineEnd);
    let end_of_first = buffer.cursor();
    buffer.handle_movement(CursorMovement::Right);
    buffer.handle_movement(CursorMovement::Left);
    assert_eq!(buffer.cursor(), end_of_first);
}

#[test]
fn line_start_and_line_end_set_the_column() {
    let mut buffer = buffer_of("hello", 80, 24);
    buffer.handle_movement(CursorMovement::LineEnd);
    assert_eq!(buffer.cursor(), Cursor { x: 5, y: 0 });
    buffer.handle_movement(CursorMovement::LineStart);
    assert_eq!(buffer.cursor(), Cursor { x: 0, y: 0 });
}

#[test]
fn text_start_finds_first_non_whitespace_column() {
    let mut buffer = buffer_of("  \tindented", 80, 24);
    buffer.handle_movement(CursorMovement::TextStart);
    assert_eq!(buffer.cursor(), Cursor { x: 3, y: 0 });
}

#[test]
fn text_start_on_blank_line_goes_to_column_zero() {
    let mut buffer = buffer_of("   ", 80, 24);
    buffer.handle_movement(CursorMovement::LineEnd);
    buffer.handle_movement(CursorMovement::TextStart);
    assert_eq!(buffer.cursor(), Cursor { x: 0, y: 0 });
}

#[test]
fn first_line_and_last_line_jump_to_column_zero() {
    let mut buffer = buffer_of("a\nb\nc", 80, 24);
    buffer.handle_movement(CursorMovement::LastLine);
    assert_eq!(buffer.cursor(), Cursor { x: 0, y: 2 });
    buffer.handle_movement(CursorMovement::FirstLine);
    assert_eq!(buffer.cursor(), Cursor { x: 0, y: 0 });
}

#[test]
fn to_line_clamps_an_out_of_range_row() {
    let mut buffer = buffer_of("a\nb\nc\nd\ne", 80, 24);
    buffer.handle_movement(CursorMovement::ToLine(100));
    assert_eq!(buffer.cursor(), Cursor { x: 0, y: 4 });
}

#[test]
fn to_line_reaches_an_in_range_row() {
    let mut buffer = buffer_of("a\nb\nc\nd\ne", 80, 24);
    buffer.handle_movement(CursorMovement::ToLine(2));
    assert_eq!(buffer.cursor(), Cursor { x: 0, y: 2 });
}

#[test]
fn insert_char_advances_the_cursor() {
    let mut buffer = buffer_of("abc", 80, 24);
    buffer.handle_movement(CursorMovement::Right);
    buffer.insert_char('x');
    assert_eq!(lines_of(&buffer), vec!["axbc".to_string()]);
    assert_eq!(buffer.cursor(), Cursor { x: 2, y: 0 });
}

#[test]
fn insert_char_at_line_end_appends() {
    let mut buffer = buffer_of("ab", 80, 24);
    buffer.handle_movement(CursorMovement::LineEnd);
    buffer.insert_char('c');
    assert_eq!(lines_of(&buffer), vec!["abc".to_string()]);
    assert_eq!(buffer.cursor(), Cursor { x: 3, y: 0 });
}

#[test]
fn insert_string_is_one_undivided_insert() {
    let mut buffer = buffer_of("ad", 80, 24);
    buffer.handle_movement(CursorMovement::Right);
    buffer.insert_string("bc");
    assert_eq!(lines_of(&buffer), vec!["abcd".to_string()]);
    assert_eq!(buffer.cursor(), Cursor { x: 3, y: 0 });
}

#[test]
fn remove_char_deletes_under_the_cursor_without_moving_it() {
    let mut buffer = buffer_of("abc", 80, 24);
    buffer.handle_movement(CursorMovement::Right);
    buffer.remove_char();
    assert_eq!(lines_of(&buffer), vec!["ac".to_string()]);
    assert_eq!(buffer.cursor(), Cursor { x: 1, y: 0 });
}

#[test]
fn remove_char_at_line_end_merges_with_the_next_line() {
    let mut buffer = buffer_of("abc\nde", 80, 24);
    buffer.handle_movement(CursorMovement::LineEnd);
    assert_eq!(buffer.cursor(), Cursor { x: 3, y: 0 });
    buffer.remove_char();
    assert_eq!(lines_of(&buffer), vec!["abcde".to_string()]);
    assert_eq!(buffer.cursor(), Cursor { x: 3, y: 0 });
}

#[test]
fn remove_char_at_the_very_end_is_a_no_op() {
    let mut buffer = buffer_of("ab", 80, 24);
    buffer.handle_movement(CursorMovement::LineEnd);
    buffer.remove_char();
    assert_eq!(lines_of(&buffer), vec!["ab".to_string()]);
    assert_eq!(buffer.cursor(), Cursor { x: 2, y: 0 });
}

#[test]
fn insert_line_splits_at_the_cursor() {
    let mut buffer = buffer_of("abc", 80, 24);
    buffer.handle_movement(CursorMovement::Right);
    buffer.insert_line();
    assert_eq!(lines_of(&buffer), vec!["a".to_string(), "bc".to_string()]);
    assert_eq!(buffer.cursor(), Cursor { x: 0, y: 1 });
}

#[test]
fn insert_line_at_line_end_opens_an_empty_row() {
    let mut buffer = buffer_of("ab", 80, 24);
    buffer.handle_movement(CursorMovement::LineEnd);
    buffer.insert_line();
    assert_eq!(lines_of(&buffer), vec!["ab".to_string(), String::new()]);
    assert_eq!(buffer.cursor(), Cursor { x: 0, y: 1 });
}

#[test]
fn remove_line_keeps_the_buffer_non_empty() {
    let mut buffer = buffer_of("only", 80, 24);
    buffer.remove_line();
    assert_eq!(buffer.line_count(), 1);
    assert_eq!(lines_of(&buffer), vec![String::new()]);
    assert_eq!(buffer.cursor(), Cursor { x: 0, y: 0 });
}

#[test]
fn remove_last_line_moves_the_cursor_up() {
    let mut buffer = buffer_of("a\nb", 80, 24);
    buffer.handle_movement(CursorMovement::Down);
    buffer.remove_line();
    assert_eq!(lines_of(&buffer), vec!["a".to_string()]);
    assert_eq!(buffer.cursor(), Cursor { x: 0, y: 0 });
}

#[test]
fn remove_middle_line_keeps_the_row_index() {
    let mut buffer = buffer_of("a\nb\nc", 80, 24);
    buffer.handle_movement(CursorMovement::Down);
    buffer.remove_line();
    assert_eq!(lines_of(&buffer), vec!["a".to_string(), "c".to_string()]);
    assert_eq!(buffer.cursor(), Cursor { x: 0, y: 1 });
}

#[test]
fn join_lines_concatenates_a_closed_range() {
    let mut buffer = buffer_of("ab\ncd\nef", 80, 24);
    buffer.join_lines(0, 2);
    assert_eq!(lines_of(&buffer), vec!["abcdef".to_string()]);
}

#[test]
fn save_path_without_association_is_an_error() {
    let buffer = TextBuffer::create_empty(80, 24);
    assert_eq!(buffer.save_path(), Err(EditorError::NoAssociatedPath));
}

#[test]
fn save_path_returns_the_recorded_path() {
    let mut buffer = TextBuffer::create_empty(80, 24);
    buffer.set_path("notes.txt".to_string());
    assert!(buffer.has_path());
    assert_eq!(buffer.save_path(), Ok("notes.txt".to_string()));
}

#[test]
fn content_round_trips_a_loaded_file() {
    let original = "first\nsecond\n";
    let buffer = buffer_of(original, 80, 24);
    assert_eq!(text(&buffer.content()), original);
}

#[test]
fn content_reflects_edits() {
    let mut buffer = buffer_of("ab", 80, 24);
    buffer.handle_movement(CursorMovement::Right);
    buffer.insert_line();
    assert_eq!(text(&buffer.content()), "a\nb");
}

#[test]
fn saving_and_reloading_reproduces_the_lines() {
    let mut buffer = buffer_of("alpha\nbeta", 80, 24);
    buffer.handle_movement(CursorMovement::Down);
    buffer.handle_movement(CursorMovement::LineEnd);
    buffer.insert_string(" edited");
    let written = buffer.content();
    let reloaded = TextBuffer::from_content(&written, 80, 24);
    assert_eq!(lines_of(&reloaded), lines_of(&buffer));
    assert_eq!(reloaded.content(), written);
}

#[test]
fn viewport_scrolls_down_minimally_and_back_up() {
    let mut buffer = buffer_of("a\nb\nc\nd\ne", 10, 2);
    assert_eq!(buffer.viewport(), Rectangle { x: 0, y: 0, width: 10, height: 2 });
    buffer.handle_movement(CursorMovement::Down);
    assert_eq!(buffer.viewport(), Rectangle { x: 0, y: 0, width: 10, height: 2 });
    buffer.handle_movement(CursorMovement::Down);
    assert_eq!(buffer.viewport(), Rectangle { x: 0, y: 1, width: 10, height: 2 });
    buffer.handle_movement(CursorMovement::FirstLine);
    assert_eq!(buffer.viewport(), Rectangle { x: 0, y: 0, width: 10, height: 2 });
}

#[test]
fn viewport_scrolls_right_by_exactly_the_overshoot() {
    let mut buffer = buffer_of("abcdefgh", 3, 2);
    buffer.handle_movement(CursorMovement::LineEnd);
    assert_eq!(buffer.cursor(), Cursor { x: 8, y: 0 });
    assert_eq!(buffer.viewport(), Rectangle { x: 6, y: 0, width: 3, height: 2 });
    buffer.handle_movement(CursorMovement::LineStart);
    assert_eq!(buffer.viewport(), Rectangle { x: 0, y: 0, width: 3, height: 2 });
}

#[test]
fn jump_to_a_far_line_scrolls_by_the_overshoot() {
    let mut buffer = buffer_of("a\nb\nc\nd\ne\nf", 10, 3);
    buffer.handle_movement(CursorMovement::ToLine(5));
    assert_eq!(buffer.cursor(), Cursor { x: 0, y: 5 });
    assert_eq!(buffer.viewport(), Rectangle { x: 0, y: 3, width: 10, height: 3 });
}
