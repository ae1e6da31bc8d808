use revo::buffer::Buffer;
use revo::buffer::BufferLogic;
use revo::settings::default_settings_schema;
use revo::status_line::StatusLine;
use revo::terminal::BrushEvent;
use revo::terminal::DrawCommand;
use revo::terminal::Terminal;
use revo::theme::Rgb;
use revo::theme::Theme;
use revo::vec_ext::VecExt;

fn row_string(t: &Terminal, i: usize) -> String {
    t.buffer[i].iter().collect()
}

#[test]
fn hex_to_rgb_decodes_channels() {
    assert_eq!(Theme::hex_to_rgb("#FFA07A"), (255, 160, 122));
    assert_eq!(Theme::hex_to_rgb("112233"), (17, 34, 51));
    assert_eq!(Theme::hex_to_rgb("##1a1d23"), (26, 29, 35));
}

#[test]
fn default_theme_palette() {
    let t = Theme::default();
    assert_eq!(t.ui.base_bg, "#1a1d23");
    assert_eq!(t.ui.base_text, "#e0e0e0");
    assert_eq!(t.editor.current_line, "#333b47");
    assert_eq!(t.overlay.text, "#f8f8f2");
    assert_eq!(t.status_line.bg, "#3b4048");
}

#[test]
fn default_settings_name_the_default_theme() {
    let s = default_settings_schema();
    assert_eq!(s.active_theme, "default");
}

#[test]
fn new_terminal_is_blank_and_idle() {
    let t = Terminal::new(4, 2);
    assert_eq!(t.width, 4);
    assert_eq!(t.height, 2);
    assert!(!t.framing);
    assert_eq!(row_string(&t, 0), "    ");
    assert_eq!(row_string(&t, 1), "    ");
    assert!(t.brushes[0].is_empty());
}

#[test]
fn begin_draw_resets_rows_and_base_colors() {
    let theme = Theme::default();
    let mut t = Terminal::new(3, 2);
    t.begin_draw(&theme);
    assert!(t.framing);
    assert_eq!(row_string(&t, 0), "   ");
    assert_eq!(t.brushes[0].len(), 2);
    assert!(matches!(
        t.brushes[0][0],
        (0, BrushEvent::SetBG(Rgb { r: 26, g: 29, b: 35 }))
    ));
    assert!(matches!(
        t.brushes[0][1],
        (0, BrushEvent::SetFG(Rgb { r: 224, g: 224, b: 224 }))
    ));
}

#[test]
fn end_draw_emits_run_length_commands() {
    let theme = Theme::default();
    let mut t = Terminal::new(3, 1);
    t.begin_draw(&theme);
    let cmds = t.end_draw();
    assert!(!t.framing);
    // Base background, base foreground, then the whole blank row.
    assert_eq!(cmds.len(), 8);
    assert!(matches!(cmds[0], DrawCommand::MoveTo { x: 0, y: 0 }));
    assert!(matches!(&cmds[1], DrawCommand::Print { text } if text.is_empty()));
    assert!(matches!(
        cmds[2],
        DrawCommand::SetBackground { color: Rgb { r: 26, g: 29, b: 35 } }
    ));
    assert!(matches!(cmds[3], DrawCommand::MoveTo { x: 0, y: 0 }));
    assert!(matches!(&cmds[4], DrawCommand::Print { text } if text.is_empty()));
    assert!(matches!(
        cmds[5],
        DrawCommand::SetForeground { color: Rgb { r: 224, g: 224, b: 224 } }
    ));
    assert!(matches!(cmds[6], DrawCommand::MoveTo { x: 0, y: 0 }));
    assert!(matches!(&cmds[7], DrawCommand::Print { text } if text == &vec![' ', ' ', ' ']));
}

#[test]
fn end_draw_sorts_spans_by_column() {
    let theme = Theme::default();
    let mut t = Terminal::new(6, 1);
    t.begin_draw(&theme);
    let b = Buffer::new(
        None,
        String::from("f"),
        1,
        0,
        4,
        1,
        false,
        false,
        BufferLogic::InputBox,
        "",
    );
    t.draw_buffer(&b, &theme);
    let cmds = t.end_draw();
    // The painted row's events are sorted by column afterwards.
    let cols: Vec<usize> = t.brushes[0].iter().map(|e| e.0).collect();
    let mut sorted = cols.clone();
    sorted.sort();
    assert_eq!(cols, sorted);
    assert!(!cmds.is_empty());
}

#[test]
fn draw_buffer_writes_rows_and_paints_spans() {
    let theme = Theme::default();
    let mut t = Terminal::new(6, 3);
    t.begin_draw(&theme);
    let b = Buffer::new(
        Some(String::from("ab")),
        String::from("f"),
        0,
        0,
        4,
        1,
        false,
        false,
        BufferLogic::InputBox,
        "",
    );
    t.draw_buffer(&b, &theme);
    assert_eq!(row_string(&t, 0), "ab    ");
    assert_eq!(row_string(&t, 1), "      ");
    // Base pair plus one background span and one foreground span.
    assert_eq!(t.brushes[0].len(), 6);
    assert!(matches!(t.brushes[0][2], (0, BrushEvent::SetBG(_))));
    assert!(matches!(t.brushes[0][3], (4, BrushEvent::PreviousBG)));
    assert!(matches!(t.brushes[0][4], (0, BrushEvent::SetFG(_))));
    assert!(matches!(t.brushes[0][5], (4, BrushEvent::PreviousFG)));
    assert_eq!(t.brushes[1].len(), 2);
}

#[test]
fn draw_buffer_highlights_current_line_and_borders() {
    let theme = Theme::default();
    let mut t = Terminal::new(12, 6);
    t.begin_draw(&theme);
    let b = Buffer::new(
        Some(String::from("hi\nyo")),
        String::from("f"),
        1,
        1,
        10,
        4,
        false,
        true,
        BufferLogic::Editor,
        "t",
    );
    t.draw_buffer(&b, &theme);
    // Top border at the surface's y, bottom border after the content rows.
    let top = row_string(&t, 1);
    assert_eq!(&top[..], " \u{256d}t\u{2500}\u{2500}\u{2500}\u{2500}\u{2500}\u{2500}\u{2500}\u{256e} ");
    let content = row_string(&t, 2);
    assert!(content.starts_with(" \u{2502}1 hi"));
    let bottom = row_string(&t, 4);
    assert!(bottom.starts_with(" \u{2570}"));
    // Current line (line 0) painted with the highlight color.
    let highlight = Theme::hex_to_rgb("#333b47");
    let has_highlight = t.brushes[2].iter().any(|e| {
        matches!(e.1, BrushEvent::SetBG(c) if (c.r, c.g, c.b) == highlight)
    });
    assert!(has_highlight);
    let other_row_plain = t.brushes[3].iter().all(|e| {
        !matches!(e.1, BrushEvent::SetBG(c) if (c.r, c.g, c.b) == highlight)
    });
    assert!(other_row_plain);
}

#[test]
fn draw_status_line_writes_bottom_row() {
    let theme = Theme::default();
    let mut t = Terminal::new(20, 2);
    t.begin_draw(&theme);
    let mut sl = StatusLine::new();
    sl.update_cursor_pos((0, 0));
    t.draw_status_line(&sl, &theme);
    assert_eq!(row_string(&t, 1), " NO NAME     (1, 1) ");
    assert_eq!(t.brushes[1].len(), 6);
}

#[test]
fn end_draw_restores_the_previous_color_after_a_span() {
    let theme = Theme::default();
    let mut t = Terminal::new(20, 1);
    t.begin_draw(&theme);
    let mut sl = StatusLine::new();
    sl.update_cursor_pos((0, 0));
    t.draw_status_line(&sl, &theme);
    let cmds = t.end_draw();
    // The status line span covers the whole row; the text is printed in one
    // run and the base background comes back right after it.
    let full = " NO NAME     (1, 1) ".chars().collect::<Vec<char>>();
    let i = cmds
        .iter()
        .position(|c| matches!(c, DrawCommand::Print { text } if text.len() == 20))
        .unwrap();
    assert!(matches!(&cmds[i], DrawCommand::Print { text } if *text == full));
    assert!(matches!(
        cmds[i + 1],
        DrawCommand::SetBackground { color: Rgb { r: 26, g: 29, b: 35 } }
    ));
}

#[test]
fn clear_emits_one_blank_line_per_row() {
    let t = Terminal::new(3, 2);
    let cmds = t.clear();
    assert_eq!(cmds.len(), 4);
    assert!(matches!(cmds[0], DrawCommand::MoveTo { x: 0, y: 0 }));
    assert!(matches!(&cmds[1], DrawCommand::Print { text } if text.len() == 3));
    assert!(matches!(cmds[2], DrawCommand::MoveTo { x: 0, y: 1 }));
}

#[test]
fn show_cursor_only_inside_the_surface() {
    let t = Terminal::new(40, 10);
    let mut b = Buffer::new(
        Some(String::from("ab")),
        String::from("f"),
        2,
        3,
        10,
        4,
        false,
        false,
        BufferLogic::InputBox,
        "",
    );
    assert_eq!(t.show_cursor(&b), Some((2, 3)));
    b.data.cursor = 2;
    assert_eq!(t.show_cursor(&b), Some((4, 3)));
    // Scrolled far to the left, the cursor leaves the rectangle.
    b.scroll_x = 5;
    b.data.cursor = 0;
    assert_eq!(t.show_cursor(&b), None);
}

#[test]
fn resize_rebuilds_the_grid() {
    let mut t = Terminal::new(3, 1);
    t.resize(5, 2);
    assert_eq!((t.width, t.height), (5, 2));
    assert_eq!(row_string(&t, 1), "     ");
    assert!(t.brushes[1].is_empty());
}

#[test]
fn replace_from_overwrites_without_growing() {
    let mut v: Vec<char> = vec!['a', 'b', 'c', 'd', 'e', 'f'];
    v.replace_from(2, "XY");
    assert_eq!(v, vec!['a', 'b', 'X', 'Y', 'e', 'f']);
    v.replace_from(4, "LONG");
    assert_eq!(v, vec!['a', 'b', 'X', 'Y', 'L', 'O']);
    v.replace_from(9, "zzz");
    assert_eq!(v.len(), 6);
}

#[test]
fn vec_fill_to_capacity_fills_spare_room() {
    let mut v: Vec<char> = Vec::with_capacity(5);
    v.push('x');
    v.fill_to_capacity('.');
    assert_eq!(v.len(), v.capacity());
    assert_eq!(v[0], 'x');
    assert!(v[1..].iter().all(|c| *c == '.'));
}
