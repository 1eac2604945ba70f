use bruto_ide::callstack_window::CallStackPanel;
use bruto_ide::desktop::{
    find_editor_with_path, focused_editor, focused_window, source_window, window_named,
    DesktopWindow,
};
use bruto_ide::draw::{text_row, PanelRow};
use bruto_ide::geometry::{MouseEvent, Point, Rect};
use bruto_ide::gutter::{BreakpointGutter, GutterMark, GUTTER_WIDTH};
use bruto_ide::layout::{
    build_layout, centered_dialog_bounds, interior, screen_layout, set_value_layout, vertical_bar,
};
use bruto_ide::variable::VarType;
use bruto_ide::watch_window::WatchPanel;
use std::collections::HashSet;

fn press(x: i16, y: i16) -> MouseEvent {
    MouseEvent { down: true, buttons: 1, double_click: false, pos: Point { x, y } }
}

fn double(x: i16, y: i16) -> MouseEvent {
    MouseEvent { double_click: true, ..press(x, y) }
}

fn text(row: &PanelRow) -> String {
    row.line.data.iter().map(|c| c.ch).collect()
}

fn attrs(row: &PanelRow) -> Vec<u8> {
    row.line.data.iter().map(|c| c.attr.to_u8()).collect()
}

#[test]
fn rectangles() {
    let r = Rect::new(2, 3, 10, 5);
    assert_eq!((r.width(), r.height()), (8, 2));
    assert_eq!((r.width_clamped(), r.height_clamped()), (8, 2));
    let swapped = Rect::new(5, 5, 2, 2);
    assert_eq!((swapped.width(), swapped.width_clamped()), (-3, 0));
    assert!(r.holds(Point { x: 2, y: 4 }));
    assert!(!r.holds(Point { x: 10, y: 4 }));
    assert!(!r.holds(Point { x: 2, y: 5 }));
}

#[test]
fn gutter_toggles_on_clicks() {
    assert_eq!(GUTTER_WIDTH, 1);
    let mut g = BreakpointGutter::new(Rect::new(4, 2, 5, 7));
    g.set_top_line(10);
    assert!(g.handle_event(&press(4, 3)));
    assert!(g.has_breakpoint(12));
    assert_eq!(g.breakpoint_lines(), vec![12]);
    assert_eq!(g.breakpoints().len(), 1);
    assert!(g.handle_event(&press(4, 3)));
    assert!(!g.has_breakpoint(12));
    assert!(!g.handle_event(&press(5, 3)));
    assert!(!g.handle_event(&press(4, 7)));
    assert!(!g.handle_event(&MouseEvent { down: false, ..press(4, 3) }));
    assert!(!g.handle_event(&MouseEvent { buttons: 2, ..press(4, 3) }));
}

#[test]
fn gutter_toggle_twice_restores() {
    let mut g = BreakpointGutter::new(Rect::new(0, 0, 1, 5));
    g.toggle_breakpoint(3);
    g.toggle_breakpoint(5);
    g.toggle_breakpoint(3);
    assert_eq!(g.breakpoint_lines(), vec![5]);
    g.clear_breakpoints();
    assert!(g.breakpoint_lines().is_empty());
}

#[test]
fn gutter_draws_marks() {
    let mut g = BreakpointGutter::new(Rect::new(4, 2, 5, 6));
    g.set_top_line(1);
    g.toggle_breakpoint(2);
    g.toggle_breakpoint(4);
    g.set_current_exec_line(Some(3));
    let cells = g.draw_cells();
    let marks: Vec<GutterMark> = cells.iter().map(|c| c.mark).collect();
    assert_eq!(
        marks,
        vec![GutterMark::Breakpoint, GutterMark::Execution, GutterMark::Breakpoint]
    );
    assert_eq!((cells[1].x, cells[1].y), (4, 3));
    assert_eq!(GutterMark::Breakpoint.glyph(), '\u{25A0}');
    assert_eq!(GutterMark::Execution.glyph(), '\u{25BA}');
    assert_eq!(g.current_exec_line(), Some(3));
    g.set_current_exec_line(Some(2));
    assert_eq!(g.draw_cells()[0].mark, GutterMark::Breakpoint);
    g.set_bounds(Rect::new(0, 0, 1, 2));
    assert_eq!(g.draw_cells().len(), 1);
    assert_eq!(g.bounds(), Rect::new(0, 0, 1, 2));
    g.set_state(5);
    assert_eq!(g.state(), 5);
}

#[test]
fn gutter_leaves_rows_without_marks() {
    let mut g = BreakpointGutter::new(Rect::new(4, 2, 5, 8));
    assert!(g.draw_cells().is_empty());
    assert!(g.lines_in_range());
    g.set_top_line(usize::MAX - 6);
    assert!(g.lines_in_range());
    g.set_top_line(usize::MAX - 5);
    assert!(!g.lines_in_range());
    g.set_top_line(0);
    g.toggle_breakpoint(6);
    g.set_current_exec_line(Some(3));
    let cells: Vec<(u16, u16, GutterMark)> =
        g.draw_cells().iter().map(|c| (c.x, c.y, c.mark)).collect();
    assert_eq!(cells, vec![(4, 4, GutterMark::Execution), (4, 7, GutterMark::Breakpoint)]);
    g.set_top_line(3);
    let cells: Vec<(u16, GutterMark)> = g.draw_cells().iter().map(|c| (c.y, c.mark)).collect();
    assert_eq!(cells, vec![(4, GutterMark::Breakpoint)]);
}

#[test]
fn breakpoints_snap_forward() {
    let valid: HashSet<usize> = [2usize, 5, 9].into_iter().collect();
    let mut g = BreakpointGutter::new(Rect::new(0, 0, 1, 5));
    for line in [1usize, 2, 3, 6, 10] {
        g.toggle_breakpoint(line);
    }
    g.snap_breakpoints(&valid, 8);
    let mut lines = g.breakpoint_lines();
    lines.sort();
    assert_eq!(lines, vec![2, 5]);
    g.snap_breakpoints(&valid, 8);
    let mut again = g.breakpoint_lines();
    again.sort();
    assert_eq!(again, vec![2, 5]);
    let mut g = BreakpointGutter::new(Rect::new(0, 0, 1, 5));
    g.toggle_breakpoint(6);
    g.toggle_breakpoint(usize::MAX);
    g.snap_breakpoints(&valid, 9);
    assert_eq!(g.breakpoint_lines(), vec![9]);
}

#[test]
fn watch_rows() {
    let mut w = WatchPanel::new(Rect::new(3, 1, 13, 4));
    w.set_variables(vec![
        ("x".to_string(), "42".to_string(), VarType::Integer),
        ("long_name".to_string(), "1".to_string(), VarType::Integer),
    ]);
    let rows = w.draw_rows();
    assert_eq!(rows.len(), 3);
    assert_eq!(text(&rows[0]), "x = 42    ");
    assert_eq!(
        attrs(&rows[0]),
        vec![0x70, 0x70, 0x70, 0x70, 0x71, 0x71, 0x70, 0x70, 0x70, 0x70]
    );
    assert_eq!(text(&rows[1]), "long_name ");
    assert_eq!(text(&rows[2]), "          ");
    assert_eq!((rows[2].x, rows[2].y), (3, 3));
    assert_eq!(w.variable_at(1).map(|v| v.0.as_str()), Some("long_name"));
    assert!(w.variable_at(2).is_none());
    w.clear();
    assert!(w.variable_at(0).is_none());
}

#[test]
fn watch_rows_with_wide_characters() {
    let mut w = WatchPanel::new(Rect::new(0, 0, 8, 1));
    w.set_variables(vec![("a".to_string(), "\u{6f22}b".to_string(), VarType::String)]);
    assert_eq!(text(&w.draw_rows()[0]), "a = \u{6f22}\0b ");
}

#[test]
fn watch_rows_place_values_by_bytes() {
    let mut w = WatchPanel::new(Rect::new(0, 0, 8, 1));
    w.set_variables(vec![("\u{e9}".to_string(), "1".to_string(), VarType::Integer)]);
    assert_eq!(text(&w.draw_rows()[0]), "\u{e9}  = 1  ");
}

#[test]
fn watch_double_click_asks_for_an_edit() {
    let mut w = WatchPanel::new(Rect::new(3, 1, 13, 4));
    w.set_variables(vec![("x".to_string(), "42".to_string(), VarType::Integer)]);
    assert!(!w.handle_event(&press(4, 1)));
    assert_eq!(w.take_pending_edit(), None);
    assert!(!w.handle_event(&double(4, 2)));
    assert!(!w.handle_event(&double(2, 1)));
    assert!(w.handle_event(&double(4, 1)));
    assert_eq!(w.take_pending_edit(), Some(0));
    assert_eq!(w.take_pending_edit(), None);
    w.set_bounds(Rect::new(0, 0, 1, 1));
    assert_eq!(w.bounds(), Rect::new(0, 0, 1, 1));
    w.set_state(3);
    assert_eq!(w.state(), 3);
}

#[test]
fn callstack_rows() {
    let mut c = CallStackPanel::new(Rect::new(0, 5, 10, 8));
    c.set_frames(vec![(0, "main".to_string()), (12, "start".to_string())]);
    c.set_current_idx(Some(12));
    let rows = c.draw_rows();
    assert_eq!(text(&rows[0]), "#0 main   ");
    assert_eq!(
        attrs(&rows[0]),
        vec![0x71, 0x71, 0x71, 0x70, 0x70, 0x70, 0x70, 0x70, 0x70, 0x70]
    );
    assert_eq!(text(&rows[1]), "#12 start ");
    assert_eq!(
        attrs(&rows[1]),
        vec![0x21, 0x21, 0x21, 0x21, 0x20, 0x20, 0x20, 0x20, 0x20, 0x20]
    );
    assert_eq!(attrs(&rows[2]), vec![0x70; 10]);
    assert_eq!(rows[2].y, 7);
    assert_eq!(c.frame_at(1), Some(&(12, "start".to_string())));
    c.clear();
    assert!(c.frame_at(0).is_none());
    assert_eq!(attrs(&c.draw_rows()[1]), vec![0x70; 10]);
}

#[test]
fn callstack_click_asks_for_a_jump() {
    let mut c = CallStackPanel::new(Rect::new(0, 5, 10, 8));
    c.set_frames(vec![(0, "main".to_string())]);
    assert!(!c.handle_event(&press(1, 6)));
    assert_eq!(c.take_pending_jump(), None);
    assert!(c.handle_event(&press(1, 5)));
    assert_eq!(c.take_pending_jump(), Some(0));
    assert_eq!(c.take_pending_jump(), None);
    c.set_bounds(Rect::new(0, 0, 1, 1));
    assert_eq!(c.bounds(), Rect::new(0, 0, 1, 1));
    c.set_state(3);
    assert_eq!(c.state(), 3);
}

#[test]
fn one_row_of_text() {
    let row = text_row(&Rect::new(2, 2, 10, 3), "Linking", 0x1F);
    assert_eq!(text(&row), "Linking ");
    assert_eq!(attrs(&row), vec![0x1F; 8]);
    assert_eq!((row.x, row.y), (2, 2));
}

#[test]
fn colours_are_those_of_a_dialog() {
    let gray = turbo_vision::core::palette::TvColor::LightGray;
    let green = turbo_vision::core::palette::TvColor::Green;
    let black = turbo_vision::core::palette::TvColor::Black;
    let blue = turbo_vision::core::palette::TvColor::Blue;
    for (byte, fg, bg) in [
        (bruto_ide::draw::TEXT_ATTR, black, gray),
        (bruto_ide::draw::VALUE_ATTR, blue, gray),
        (bruto_ide::draw::HIGHLIGHT_TEXT_ATTR, black, green),
        (bruto_ide::draw::HIGHLIGHT_INDEX_ATTR, blue, green),
    ] {
        assert_eq!(
            turbo_vision::core::palette::Attr::from_u8(byte),
            turbo_vision::core::palette::Attr::new(fg, bg)
        );
    }
}

#[test]
fn windows_tile_the_desktop() {
    let s = screen_layout(80, 25);
    assert_eq!(s.editor, Rect::new(0, 0, 54, 18));
    assert_eq!(s.watch, Rect::new(54, 0, 80, 18));
    assert_eq!(s.output, Rect::new(0, 18, 80, 24));
    assert_eq!(s.callstack, Rect::new(54, 9, 80, 18));
    for x in 0..80i16 {
        for y in 0..24i16 {
            let p = Point { x, y };
            let n = [s.editor, s.watch, s.output].iter().filter(|r| r.holds(p)).count();
            assert_eq!(n, 1);
        }
    }
    let small = screen_layout(80, 10);
    assert_eq!(small.output, Rect::new(0, 4, 80, 9));
    assert_eq!(screen_layout(0, 0).editor, Rect::new(0, 0, -26, -6));
    assert_eq!(screen_layout(0, 0).callstack, Rect::new(-26, -3, 0, -6));
}

#[test]
fn dialogs_are_centered() {
    assert_eq!(centered_dialog_bounds(80, 25), Rect::new(8, 3, 72, 21));
    assert_eq!(centered_dialog_bounds(40, 12), Rect::new(2, 2, 38, 10));
    let b = build_layout(80, 25);
    assert_eq!(b.bounds, Rect::new(15, 9, 65, 16));
    assert_eq!(b.text, Rect::new(2, 2, 48, 3));
    assert_eq!(b.cancel, Rect::new(19, 3, 31, 5));
    let v = set_value_layout(80, 25);
    assert_eq!(v.bounds, Rect::new(15, 8, 65, 17));
    assert_eq!(v.label, Rect::new(2, 2, 12, 3));
    assert_eq!(v.input, Rect::new(12, 2, 46, 3));
    assert_eq!(v.ok, Rect::new(26, 5, 36, 7));
    assert_eq!(v.cancel, Rect::new(38, 5, 48, 7));
    assert_eq!(set_value_layout(30, 4).bounds, Rect::new(2, -2, 28, 7));
}

#[test]
fn frames_of_windows() {
    assert_eq!(interior(&Rect::new(5, 5, 25, 15)), Rect::new(0, 0, 18, 8));
    assert_eq!(vertical_bar(&Rect::new(5, 5, 25, 15)), Some(Rect::new(24, 6, 25, 13)));
    assert_eq!(vertical_bar(&Rect::new(5, 5, 7, 15)), None);
    assert_eq!(vertical_bar(&Rect::new(5, 5, 25, 8)), None);
}

fn window(focused: bool, editor: Option<usize>, path: Option<&str>) -> DesktopWindow {
    DesktopWindow { focused, editor, path: path.map(|p| p.to_string()) }
}

#[test]
fn focus_on_the_desktop() {
    let windows = vec![
        window(false, Some(4), None),
        window(true, None, None),
        window(true, Some(7), Some("/a/demo.pas")),
        window(true, Some(8), None),
    ];
    assert_eq!(focused_editor(&windows), Some(7));
    assert_eq!(focused_window(&windows), Some(1));
    assert_eq!(focused_editor(&vec![window(true, None, None)]), None);
    assert_eq!(focused_window(&vec![window(false, Some(1), None)]), None);
}

#[test]
fn files_on_the_desktop() {
    let windows = vec![
        window(false, None, None),
        window(false, Some(1), None),
        window(false, Some(2), Some("/a/unit.pas")),
        window(false, Some(3), Some("/b/unit.pas")),
    ];
    assert_eq!(find_editor_with_path(&windows, "/b/unit.pas"), Some(3));
    assert_eq!(find_editor_with_path(&windows, "/c/unit.pas"), None);
    assert_eq!(find_editor_with_path(&windows, "/b//./unit.pas/"), Some(3));
    assert_eq!(find_editor_with_path(&windows, "b/unit.pas"), None);
    let here = vec![window(false, Some(1), Some("./unit.pas"))];
    assert_eq!(find_editor_with_path(&here, "unit.pas"), None);
    assert_eq!(source_window(&windows, "unit.pas"), Some(2));
    assert_eq!(source_window(&windows, "other.pas"), None);
    let names = vec![None, None, Some("x".to_string()), Some("y".to_string())];
    assert_eq!(window_named(&windows, &names, "y"), Some(3));
}
