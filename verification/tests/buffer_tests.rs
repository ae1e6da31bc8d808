use revo::buffer::save_path_ok;
use revo::buffer::BufferData;
use revo::buffer::Line;

fn lines_of(b: &BufferData) -> Vec<(usize, usize)> {
    b.lines.iter().map(|l| (l.start, l.end)).collect()
}

#[test]
fn empty_document_has_one_empty_line() {
    let b = BufferData::new();
    assert_eq!(b.line_count(), 1);
    assert_eq!(lines_of(&b), vec![(0, 0)]);
    assert_eq!(b.cursor, 0);
    assert_eq!(b.data, Vec::<char>::new());
}

#[test]
fn insert_into_empty_document() {
    // Empty document; inserting 'x' yields cursor 1, sequence "x", one line.
    let mut b = BufferData::new();
    b.insert_ch('x');
    b.recalculate_lines();
    assert_eq!(b.cursor, 1);
    assert_eq!(b.to_string(), "x");
    assert_eq!(b.line_count(), 1);
    assert_eq!(lines_of(&b), vec![(0, 0)]);
}

#[test]
fn line_index_structure() {
    let b = BufferData::from(String::from("ab\ncd\n"));
    // Two terminated lines plus the empty trailing line.
    assert_eq!(lines_of(&b), vec![(0, 2), (3, 5), (6, 6)]);
    let b2 = BufferData::from(String::from("ab\ncd"));
    assert_eq!(lines_of(&b2), vec![(0, 2), (3, 4)]);
}

#[test]
fn carriage_returns_are_stripped() {
    let b = BufferData::from(String::from("a\r\nb\r\n"));
    assert_eq!(b.to_string(), "a\nb\n");
}

#[test]
fn recalculate_lines_is_idempotent() {
    let mut b = BufferData::from(String::from("one\ntwo\nthree"));
    let first = lines_of(&b);
    b.recalculate_lines();
    assert_eq!(lines_of(&b), first);
}

#[test]
fn insert_then_backspace_round_trip() {
    let mut b = BufferData::from(String::from("hello"));
    b.move_cursor_right(2);
    let data_before = b.to_string();
    let cursor_before = b.cursor;
    b.insert_ch('Z');
    b.backspace();
    assert_eq!(b.to_string(), data_before);
    assert_eq!(b.cursor, cursor_before);
}

#[test]
fn delete_removes_at_cursor() {
    let mut b = BufferData::from(String::from("abc"));
    b.move_cursor_right(1);
    b.delete();
    b.recalculate_lines();
    assert_eq!(b.to_string(), "ac");
    assert_eq!(b.cursor, 1);
}

#[test]
fn boundary_moves_are_no_ops() {
    let mut b = BufferData::from(String::from("ab\ncd"));
    // move_left at cursor 0
    b.move_cursor_left(1);
    assert_eq!(b.cursor, 0);
    // move_up at line 0
    b.move_cursor_up(1);
    assert_eq!(b.cursor, 0);
    // move_right at len
    b.move_cursor_right(5);
    assert_eq!(b.cursor, 5);
    b.move_cursor_right(1);
    assert_eq!(b.cursor, 5);
    // move_down at the last line
    let before = b.cursor;
    b.move_cursor_down(1);
    assert_eq!(b.cursor, before);
}

#[test]
fn vertical_move_lands_on_same_column() {
    // Document "ab\ncd", cursor at offset 1; down lands on 'd' (offset 4).
    let mut b = BufferData::from(String::from("ab\ncd"));
    b.move_cursor_right(1);
    assert_eq!(b.cursor, 1);
    b.move_cursor_down(1);
    assert_eq!(b.cursor, 4);
    assert_eq!(b.current_line(), 1);
}

#[test]
fn sticky_column_survives_short_lines() {
    // Lines of length 10, 2, 10 (cells, terminator included for the first two).
    let mut b = BufferData::from(String::from("aaaaaaaaaa\nbb\ncccccccccc"));
    b.move_cursor_right(7);
    assert_eq!(b.cursor, 7);
    b.move_cursor_down(1);
    b.move_cursor_down(1);
    b.move_cursor_down(1);
    b.move_cursor_up(1);
    b.move_cursor_up(1);
    assert_eq!(b.current_line(), 0);
    assert_eq!(b.cursor, 7);
}

#[test]
fn sticky_column_cleared_by_horizontal_move() {
    let mut b = BufferData::from(String::from("aaaaaaaaaa\nbb\ncccccccccc"));
    b.move_cursor_right(7);
    b.move_cursor_down(1);
    // Now on the short line; a horizontal move forgets column 7.
    b.move_cursor_left(1);
    let col = b.cursor - b.lines[b.current_line()].start;
    b.move_cursor_down(1);
    let col_after = b.cursor - b.lines[b.current_line()].start;
    assert_eq!(col_after, col);
}

#[test]
fn current_line_at_end_of_document() {
    let b = {
        let mut b = BufferData::from(String::from("ab\ncd"));
        b.move_cursor_right(5);
        b
    };
    assert_eq!(b.current_line(), 1);
    let b2 = {
        let mut b2 = BufferData::from(String::from("ab\n"));
        b2.move_cursor_right(3);
        b2
    };
    // The trailing empty line is current.
    assert_eq!(b2.current_line(), 1);
}

#[test]
fn digits_in_line_num_counts_digits_plus_gap() {
    let one_line = BufferData::from(String::from("x"));
    assert_eq!(one_line.digits_in_line_num(), 2);
    let ten_lines = BufferData::from(String::from("a\na\na\na\na\na\na\na\na\na"));
    assert_eq!(ten_lines.line_count(), 10);
    assert_eq!(ten_lines.digits_in_line_num(), 3);
}

#[test]
fn save_path_rule() {
    // A fresh file name and an existing file are fine; a nameless path or
    // one that exists as something other than a file are not.
    assert!(save_path_ok(true, false, false));
    assert!(save_path_ok(true, true, true));
    assert!(!save_path_ok(false, false, false));
    assert!(!save_path_ok(true, true, false));
}

#[test]
fn line_len_is_inclusive() {
    let l = Line { start: 3, end: 5 };
    assert_eq!(l.len(), 3);
}
