use revo::buffer::Buffer;
use revo::buffer::BufferLogic;
use revo::buffer::InputEvent;
use revo::buffer::KeyCode;
use revo::buffer::Modifiers;
use revo::editor::BufferEvent;

fn no_mods() -> Modifiers {
    Modifiers { ctrl: false, alt: false, shift: false, other: false }
}

fn key(code: KeyCode, modifiers: Modifiers) -> InputEvent {
    InputEvent::KeyPress { code, modifiers }
}

fn editor_surface(text: &str, width: u16, height: u16) -> Buffer {
    Buffer::new(
        Some(String::from(text)),
        String::from("dir/file.txt"),
        0,
        0,
        width,
        height,
        false,
        false,
        BufferLogic::Editor,
        "",
    )
}

#[test]
fn render_row_bordered_with_line_numbers() {
    // Width 10, bordered, line numbers: border, right-aligned number, gap,
    // content, padding, border; exactly 10 cells.
    let b = Buffer::new(
        Some(String::from("hi")),
        String::from("f"),
        0,
        0,
        10,
        5,
        false,
        true,
        BufferLogic::Editor,
        "t",
    );
    let row = b.get_row(0).unwrap();
    let cells: Vec<char> = row.chars().collect();
    assert_eq!(cells.len(), 10);
    assert_eq!(cells, vec!['\u{2502}', '1', ' ', 'h', 'i', ' ', ' ', ' ', ' ', '\u{2502}']);
    assert!(b.get_row(1).is_none());
}

#[test]
fn render_row_zero_pads_line_numbers() {
    // Ten lines need two digits, so the single-digit rows pad the number
    // with a zero, not a blank.
    let b = editor_surface("a\na\na\na\na\na\na\na\na\na", 8, 12);
    assert_eq!(b.get_row(0).unwrap(), "01 a    ");
    assert_eq!(b.get_row(9).unwrap(), "10 a    ");
}

#[test]
fn render_row_filters_terminator_and_scrolls() {
    let mut b = editor_surface("abcdef\nxyz", 4, 5);
    b.line_numbers = false;
    b.scroll_x = 2;
    let row = b.get_row(0).unwrap();
    // Window of 4 cells starting at column 2, terminator dropped.
    assert_eq!(row, "cdef");
    let row1 = b.get_row(1).unwrap();
    assert_eq!(row1, "z   ");
}

#[test]
fn borders_are_built_from_title_and_width() {
    let b = Buffer::new(
        None,
        String::from("f"),
        0,
        0,
        8,
        4,
        false,
        true,
        BufferLogic::InputBox,
        "Go",
    );
    let top: Vec<char> = b.top_border.chars().collect();
    assert_eq!(
        top,
        vec!['\u{256d}', 'G', 'o', '\u{2500}', '\u{2500}', '\u{2500}', '\u{2500}', '\u{256e}']
    );
    let bottom: Vec<char> = b.bottom_border.chars().collect();
    assert_eq!(bottom.len(), 8);
    assert_eq!(bottom[0], '\u{2570}');
    assert_eq!(bottom[7], '\u{256f}');
}

#[test]
fn padding_counts_decorations() {
    let b = Buffer::new(
        Some(String::from("hi")),
        String::from("f"),
        0,
        0,
        10,
        5,
        true,
        true,
        BufferLogic::Editor,
        "t",
    );
    let p = b.get_padding();
    assert_eq!(p.top, 1);
    assert_eq!(p.right, 1);
    // border + status line
    assert_eq!(p.bottom, 2);
    // border + digits gutter (1 digit + 1 gap)
    assert_eq!(p.left, 3);
}

#[test]
fn scroll_moves_by_exact_deficit() {
    // 10 terminated lines; view of 4 rows, no decorations. Cursor on
    // content row 6 sits 3 rows below the bottom visible row (3), so the
    // scroll offset grows by exactly 3.
    let mut b = Buffer::new(
        Some(String::from("aa\naa\naa\naa\naa\naa\naa\naa\naa\naa\n")),
        String::from("f"),
        0,
        0,
        10,
        4,
        false,
        false,
        BufferLogic::InputBox,
        "",
    );
    b.data.cursor = 18;
    assert_eq!(b.data.current_line(), 6);
    assert_eq!(b.scroll_y, 0);
    b.scroll();
    assert_eq!(b.scroll_y, 3);
    assert_eq!(b.scroll_x, 0);
    // Scrolling again moves nothing: the cursor is already visible.
    b.scroll();
    assert_eq!(b.scroll_y, 3);
}

#[test]
fn scroll_up_restores_cursor_row() {
    let mut b = Buffer::new(
        Some(String::from("aa\naa\naa\naa\naa\n")),
        String::from("f"),
        0,
        0,
        10,
        2,
        false,
        false,
        BufferLogic::InputBox,
        "",
    );
    b.scroll_y = 4;
    b.data.cursor = 3; // row 1, above the window
    b.scroll();
    assert_eq!(b.scroll_y, 1);
}

#[test]
fn cursor_positions_relative_and_absolute() {
    let mut b = editor_surface("ab\ncd", 20, 10);
    b.x = 5;
    b.y = 2;
    b.data.cursor = 4;
    assert_eq!(b.cursor_xy_relative(), (1, 1));
    let left = b.get_padding().left;
    let (sx, sy) = b.cursor_xy();
    assert_eq!(sx, 5 + left as isize + 1);
    assert_eq!(sy, 2 + 1);
}

#[test]
fn status_line_shows_name_and_position() {
    let mut b = editor_surface("hello", 30, 10);
    b.data.cursor = 2;
    let line = b.get_status_line();
    assert_eq!(line.chars().count(), 30);
    assert_eq!(line, " file.txt              (3, 1) ");
}

#[test]
fn status_line_without_path_shows_placeholder() {
    let mut b = editor_surface("x", 30, 10);
    b.file_path = None;
    let line = b.get_status_line();
    assert_eq!(line, " NO NAME               (1, 1) ");
}

#[test]
fn editor_logic_inserts_characters() {
    let mut b = editor_surface("", 10, 5);
    let out = b.editor_logic(key(KeyCode::Char('h'), no_mods()));
    assert!(out.is_empty());
    let out = b.editor_logic(key(
        KeyCode::Char('i'),
        Modifiers { ctrl: false, alt: false, shift: true, other: false },
    ));
    assert!(out.is_empty());
    assert_eq!(b.data.to_string(), "hI");
    assert_eq!(b.data.cursor, 2);
}

#[test]
fn editor_logic_emits_save_requests() {
    let mut b = editor_surface("x", 10, 5);
    b.id = 7;
    let before = b.data.to_string();
    let out = b.editor_logic(key(
        KeyCode::Char('s'),
        Modifiers { ctrl: true, alt: false, shift: false, other: false },
    ));
    assert_eq!(out.len(), 1);
    assert!(matches!(out[0], BufferEvent::Save { id: 7 }));
    let out = b.editor_logic(key(
        KeyCode::Char('S'),
        Modifiers { ctrl: true, alt: false, shift: true, other: false },
    ));
    assert_eq!(out.len(), 1);
    assert!(matches!(out[0], BufferEvent::SaveAs { id: 7 }));
    assert_eq!(b.data.to_string(), before);
}

#[test]
fn editor_logic_handles_arrows_enter_and_deletions() {
    let mut b = editor_surface("ab", 10, 5);
    let _ = b.editor_logic(key(KeyCode::Right, no_mods()));
    assert_eq!(b.data.cursor, 1);
    let _ = b.editor_logic(key(KeyCode::Enter, no_mods()));
    assert_eq!(b.data.to_string(), "a\nb");
    let _ = b.editor_logic(key(KeyCode::Backspace, no_mods()));
    assert_eq!(b.data.to_string(), "ab");
    let _ = b.editor_logic(key(KeyCode::Delete, no_mods()));
    assert_eq!(b.data.to_string(), "a");
    let _ = b.editor_logic(key(KeyCode::Left, no_mods()));
    assert_eq!(b.data.cursor, 0);
    let _ = b.editor_logic(key(KeyCode::Down, no_mods()));
    assert_eq!(b.data.cursor, 0);
}

#[test]
fn editor_logic_ignores_unbound_keys_and_read_only() {
    let mut b = editor_surface("ab", 10, 5);
    let out = b.editor_logic(key(
        KeyCode::Char('q'),
        Modifiers { ctrl: false, alt: true, shift: false, other: false },
    ));
    assert!(out.is_empty());
    assert_eq!(b.data.to_string(), "ab");
    b.read_only = true;
    let out = b.editor_logic(key(KeyCode::Char('z'), no_mods()));
    assert!(out.is_empty());
    assert_eq!(b.data.to_string(), "ab");
}

#[test]
fn input_box_enter_resolves_request_with_text() {
    let mut b = Buffer::new(
        None,
        String::from("Save As:"),
        0,
        0,
        32,
        3,
        false,
        true,
        BufferLogic::InputBox,
        "Save As",
    );
    b.id = 11;
    b.is_overlay = true;
    b.set_paused_event_id(42);
    for c in ['n', 'a', 'm', 'e'] {
        let _ = b.input_box_logic(key(KeyCode::Char(c), no_mods()));
    }
    let out = b.input_box_logic(key(KeyCode::Enter, no_mods()));
    assert_eq!(out.len(), 2);
    match &out[0] {
        BufferEvent::ResumeEvent { paused_event_id, result } => {
            assert_eq!(*paused_event_id, 42);
            assert_eq!(result, "name");
        }
        other => panic!("unexpected event: {:?}", event_tag(other)),
    }
    assert!(matches!(out[1], BufferEvent::Close { id: 11, is_overlay: true }));
}

#[test]
fn input_box_escape_cancels_request() {
    let mut b = Buffer::new(
        None,
        String::from("Save As:"),
        0,
        0,
        32,
        3,
        false,
        true,
        BufferLogic::InputBox,
        "Save As",
    );
    b.id = 11;
    b.is_overlay = true;
    b.set_paused_event_id(42);
    let out = b.input_box_logic(key(KeyCode::Esc, no_mods()));
    assert_eq!(out.len(), 2);
    assert!(matches!(out[0], BufferEvent::CancelEvent { paused_event_id: 42 }));
    assert!(matches!(out[1], BufferEvent::Close { id: 11, is_overlay: true }));
}

#[test]
fn parse_input_routes_by_mode() {
    let mut ed = editor_surface("", 10, 5);
    let _ = ed.parse_input(key(KeyCode::Char('e'), no_mods()));
    assert_eq!(ed.data.to_string(), "e");
    let mut ib = Buffer::new(
        None,
        String::from("f"),
        0,
        0,
        10,
        3,
        false,
        false,
        BufferLogic::InputBox,
        "",
    );
    let _ = ib.parse_input(key(KeyCode::Char('i'), no_mods()));
    assert_eq!(ib.data.to_string(), "i");
}

#[test]
fn typing_past_the_right_edge_scrolls() {
    // Width 3 with a 2-cell gutter leaves one visible content column, so the
    // first typed character already pushes the view one cell right.
    let mut b = editor_surface("", 3, 2);
    let out = b.editor_logic(key(KeyCode::Char('a'), no_mods()));
    assert!(out.is_empty());
    assert_eq!(b.scroll_x, 1);
    assert_eq!(b.scroll_y, 0);
}

#[test]
fn setters_update_geometry_and_path() {
    let mut b = editor_surface("", 10, 5);
    b.move_to(3, 4);
    assert_eq!((b.x, b.y), (3, 4));
    b.resize(40, 12);
    assert_eq!((b.width, b.height), (40, 12));
    b.set_path(String::from("other.txt"));
    assert_eq!(b.file_path.as_deref(), Some("other.txt"));
}

fn event_tag(e: &BufferEvent) -> &'static str {
    match e {
        BufferEvent::Save { .. } => "Save",
        BufferEvent::SaveAs { .. } => "SaveAs",
        BufferEvent::Close { .. } => "Close",
        BufferEvent::ResumeEvent { .. } => "ResumeEvent",
        BufferEvent::CancelEvent { .. } => "CancelEvent",
    }
}
