use editor::buffer::{Cursor, CursorMovement, TextBuffer};
use editor::terminal_ui::{Position, Rectangle, Style, Surface};

fn chars(s: &str) -> Vec<char> {
    s.chars().collect()
}

fn text(v: &[char]) -> String {
    v.iter().collect()
}

fn screen_rows(buffer: &TextBuffer) -> Vec<String> {
    buffer.display().lines.iter().map(|row| row.iter().collect()).collect()
}

fn surface_text(surface: &Surface) -> String {
    surface.glyphs().iter().collect()
}

#[test]
fn display_pads_to_exactly_the_viewport_height() {
    let buffer = TextBuffer::from_content(&chars("ab\ncd"), 10, 3);
    let screen = buffer.display();
    assert_eq!(screen.height, 3);
    assert_eq!(screen.lines.len(), 3);
    assert_eq!(screen_rows(&buffer), vec!["ab".to_string(), "cd".to_string(), String::new()]);
}

#[test]
fn display_crops_to_the_viewport_columns() {
    let mut buffer = TextBuffer::from_content(&chars("abcdefgh\nij"), 3, 2);
    buffer.handle_movement(CursorMovement::LineEnd);
    let screen = buffer.display();
    assert_eq!(screen_rows(&buffer), vec!["gh".to_string(), String::new()]);
    assert_eq!(screen.cursor, Cursor { x: 2, y: 0 });
}

#[test]
fn display_translates_the_cursor_into_viewport_coordinates() {
    let mut buffer = TextBuffer::from_content(&chars("a\nb\nc\nd"), 10, 2);
    buffer.handle_movement(CursorMovement::ToLine(3));
    let screen = buffer.display();
    assert_eq!(screen.cursor, Cursor { x: 0, y: 1 });
    assert_eq!(screen_rows(&buffer), vec!["c".to_string(), "d".to_string()]);
}

#[test]
fn screen_paints_onto_a_blank_padded_surface() {
    let buffer = TextBuffer::from_content(&chars("ab"), 4, 2);
    let surface = buffer.display().display();
    assert_eq!(surface.rect(), Rectangle { x: 0, y: 0, width: 4, height: 2 });
    assert_eq!(surface_text(&surface), "ab      ");
}

#[test]
fn surface_empty_is_all_spaces() {
    let surface = Surface::empty(Rectangle { x: 0, y: 0, width: 3, height: 2 });
    assert_eq!(surface_text(&surface), "      ");
}

#[test]
fn put_string_writes_at_the_given_position() {
    let mut surface = Surface::empty(Rectangle { x: 0, y: 0, width: 4, height: 2 });
    surface.put_string("hi", Style::default(), Position(1, 1));
    assert_eq!(surface_text(&surface), "     hi ");
}

#[test]
fn put_string_clips_at_the_end_of_the_row() {
    let mut surface = Surface::empty(Rectangle { x: 0, y: 0, width: 4, height: 2 });
    surface.put_string("overflow", Style::default(), Position(2, 0));
    assert_eq!(surface_text(&surface), "  ov    ");
}

#[test]
fn rectangle_bounds_are_inclusive() {
    let rect = Rectangle { x: 2, y: 3, width: 4, height: 2 };
    assert_eq!(rect.left(), 2);
    assert_eq!(rect.right(), 5);
    assert_eq!(rect.top(), 3);
    assert_eq!(rect.bottom(), 4);
}

#[test]
fn rectangle_bounds_saturate_on_zero_extent() {
    let rect = Rectangle { x: 2, y: 3, width: 0, height: 0 };
    assert_eq!(rect.right(), 2);
    assert_eq!(rect.bottom(), 3);
}

#[test]
fn rectangle_contains_its_corners_only() {
    let rect = Rectangle { x: 1, y: 1, width: 2, height: 2 };
    assert!(rect.contains(Position(1, 1)));
    assert!(rect.contains(Position(2, 2)));
    assert!(!rect.contains(Position(0, 1)));
    assert!(!rect.contains(Position(3, 2)));
    assert!(!rect.contains(Position(2, 3)));
}

#[test]
fn rectangle_from_dimensions_is_full_screen() {
    let rect = Rectangle::from((80u16, 24u16));
    assert_eq!(rect, Rectangle { x: 0, y: 0, width: 80, height: 24 });
}

#[test]
fn position_from_coordinates_keeps_the_order() {
    assert_eq!(Position::from((3usize, 7usize)), Position(3, 7));
}

#[test]
fn default_style_is_white_on_black() {
    let style = Style::default();
    assert_eq!(style.fg.r, 255);
    assert_eq!(style.fg.g, 255);
    assert_eq!(style.fg.b, 255);
    assert_eq!(style.bg.r, 0);
    assert_eq!(style.bg.g, 0);
    assert_eq!(style.bg.b, 0);
}

#[test]
fn text_written_to_a_buffer_reaches_the_rendered_surface() {
    let mut buffer = TextBuffer::create_empty(8, 2);
    buffer.insert_string("hey");
    let surface = buffer.display().display();
    assert_eq!(surface_text(&surface), "hey             ");
}
