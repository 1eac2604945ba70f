use bruto_ide::commands::{CM_CANCEL, CM_CLOSE, CM_CLOSE_EDITOR, CM_NO, CM_SAVE, CM_YES};
use bruto_ide::geometry::Rect;
use bruto_ide::ide_editor::{
    exec_highlight, focus_state, frame_child_positions, new_frame, resized_interior,
    translate_command, without_shadow, ExternalState, HighlightRow, IdeEditorWindow, SF_FOCUSED,
    SF_SHADOW,
};
use bruto_ide::ide_file_editor::IdeFileEditor;
use bruto_ide::paths::display_name;
use bruto_ide::prompts::{
    external_action, is_yes, may_overwrite, modified_prompt, open_failed, overwrite_prompt,
    reload_prompt, save_failed, save_mode, stop_debugging_prompt, CloseCandidate, ClosePhase,
    CloseWalk, ExternalAction, SaveMode,
};

fn editor() -> IdeEditorWindow {
    IdeEditorWindow::new(Rect::new(0, 0, 54, 18), "Untitled.pas", "*.pas")
}

#[test]
fn new_editor_has_no_file() {
    let e = editor();
    assert_eq!(e.file_path(), None);
    assert_eq!(e.last_known_mtime(), None);
    assert_eq!(e.save_wildcard(), "*.pas");
    assert_eq!(e.gutter().bounds(), Rect::new(0, 0, 1, 16));
    assert!(e.build_error().is_none());
    assert_eq!(e.save_target(), Err("no filename set; use save_as".to_string()));
    assert_eq!(e.reload_target(), Err("no filename to reload".to_string()));
    assert_eq!(e.poll_external_changes(Some(1)), ExternalState::NoFile);
}

#[test]
fn title_follows_the_file() {
    let mut e = editor();
    assert_eq!(e.sync_title_from_file_path(), None);
    e.set_file_path(Some("/src/demo.pas".to_string()));
    assert_eq!(e.sync_title_from_file_path(), Some("demo.pas".to_string()));
    assert_eq!(e.sync_title_from_file_path(), None);
    e.set_file_path(None);
    assert_eq!(e.sync_title_from_file_path(), Some("Untitled.pas".to_string()));
    e.set_file_path(Some("/src/x".to_string()));
    assert_eq!(e.sync_title_named(None), Some("Untitled.pas".to_string()));
    e.set_file_path(Some("/src/y".to_string()));
    assert_eq!(e.sync_title_named(Some("z")), Some("z".to_string()));
}

#[test]
fn external_changes_are_found() {
    let mut e = editor();
    e.loaded("/src/demo.pas".to_string(), Some(100));
    assert_eq!(e.poll_external_changes(Some(100)), ExternalState::Unchanged);
    assert_eq!(e.poll_external_changes(Some(101)), ExternalState::Modified);
    assert_eq!(e.poll_external_changes(None), ExternalState::Deleted);
    e.reloaded(Some(101));
    assert_eq!(e.poll_external_changes(Some(101)), ExternalState::Unchanged);
    e.saved(None);
    assert_eq!(e.poll_external_changes(Some(101)), ExternalState::Modified);
    e.saved_as("/src/other.pas".to_string(), Some(7));
    assert_eq!(e.file_path(), Some("/src/other.pas"));
    assert_eq!(e.poll_external_changes(Some(7)), ExternalState::Unchanged);
    assert_eq!(e.save_target(), Ok("/src/other.pas".to_string()));
    let mut gone = editor();
    gone.loaded("/src/demo.pas".to_string(), Some(1));
    gone.toggle_breakpoint(2);
    gone.file_deleted();
    assert_eq!((gone.file_path(), gone.last_known_mtime()), (None, None));
    assert_eq!(gone.breakpoint_lines(), vec![2]);
    assert_eq!(gone.poll_external_changes(Some(1)), ExternalState::NoFile);
    assert_eq!(e.reload_target(), Ok("/src/other.pas".to_string()));
}

#[test]
fn breakpoints_follow_the_file() {
    let mut e = editor();
    e.toggle_breakpoint(3);
    e.saved_as("/a".to_string(), Some(1));
    e.saved(Some(2));
    assert_eq!(e.breakpoint_lines(), vec![3]);
    e.loaded("/b".to_string(), Some(1));
    assert!(e.breakpoint_lines().is_empty());
    e.toggle_breakpoint(4);
    e.new_buffer();
    assert!(e.breakpoint_lines().is_empty());
    assert_eq!(e.file_path(), None);
    assert_eq!(e.last_known_mtime(), None);
}

#[test]
fn marks_of_an_editor() {
    let mut e = editor();
    e.toggle_breakpoint(3);
    e.toggle_breakpoint(20);
    e.snap_breakpoints(&[5, 5, 9], 10);
    assert_eq!(e.breakpoint_lines(), vec![5]);
    e.set_current_exec_line(Some(5));
    assert_eq!(e.current_exec_line(), Some(5));
    e.clear_breakpoints();
    assert!(e.breakpoint_lines().is_empty());
    e.sync_gutter_scroll(-4);
    e.gutter_mut().toggle_breakpoint(1);
    assert!(e.gutter().has_breakpoint(1));
    e.sync_gutter_scroll(6);
    e.set_build_error(Some((4, "bad".to_string())));
    assert_eq!(e.build_error(), &Some((4, "bad".to_string())));
}

#[test]
fn parts_of_the_frame() {
    let f = new_frame(&Rect::new(10, 10, 64, 28));
    assert_eq!(f.gutter, Rect::new(0, 0, 1, 16));
    assert_eq!(f.editor, Rect::new(1, 0, 52, 16));
    assert_eq!(f.h_bar, Rect::new(18, 17, 52, 18));
    assert_eq!(f.v_bar, Rect::new(53, 1, 54, 16));
    assert_eq!(f.indicator, Rect::new(2, 17, 16, 18));
    let p = frame_child_positions(&Rect::new(10, 10, 64, 28));
    assert_eq!(p.h_bar, Some(Rect::new(28, 27, 62, 28)));
    assert_eq!(p.v_bar, Some(Rect::new(63, 11, 64, 26)));
    assert_eq!(p.indicator, Some(Rect::new(12, 27, 26, 28)));
    let narrow = frame_child_positions(&Rect::new(10, 10, 20, 13));
    assert_eq!(narrow.h_bar, Some(Rect::new(18, 12, 18, 13)));
    assert_eq!(narrow.v_bar, None);
    assert_eq!(narrow.indicator, Some(Rect::new(12, 12, 18, 13)));
    assert_eq!(frame_child_positions(&Rect::new(10, 10, 20, 12)).h_bar, None);
}

#[test]
fn gutter_keeps_its_width() {
    let (gutter, text) = resized_interior(&Rect::new(10, 10, 40, 20)).unwrap();
    assert_eq!(gutter, Rect::new(11, 11, 12, 19));
    assert_eq!(text, Rect::new(12, 11, 39, 19));
    assert_eq!(resized_interior(&Rect::new(10, 10, 12, 20)), None);
    assert_eq!(resized_interior(&Rect::new(10, 10, 40, 12)), None);
}

#[test]
fn execution_line_is_highlighted_where_it_is_seen() {
    let bounds = Rect::new(10, 10, 40, 20);
    assert_eq!(
        exec_highlight(&bounds, Some(8), 5),
        Some(HighlightRow { y: 13, gutter: 11, from: 12, to: 39 })
    );
    assert_eq!(exec_highlight(&bounds, Some(5), 5), None);
    assert_eq!(exec_highlight(&bounds, Some(65536 + 8), 5), exec_highlight(&bounds, Some(8), 5));
    assert_eq!(exec_highlight(&bounds, Some(32768 + 6), 5), None);
    assert_eq!(exec_highlight(&bounds, Some(13), 5).map(|h| h.y), Some(18));
    assert_eq!(exec_highlight(&bounds, Some(14), 5), None);
    assert_eq!(exec_highlight(&bounds, Some(70000), 0), None);
    assert_eq!(exec_highlight(&bounds, Some(1), -3).map(|h| h.y), Some(11));
    assert_eq!(exec_highlight(&bounds, None, 0), None);
}

#[test]
fn closing_and_focus() {
    assert_eq!(translate_command(CM_CLOSE), CM_CLOSE_EDITOR);
    assert_eq!(translate_command(CM_SAVE), CM_SAVE);
    assert_eq!(focus_state(0x0101, true), 0x0141);
    assert_eq!(focus_state(0x0141, false), 0x0101);
    assert_eq!(without_shadow(0x000F), 0x0007);
    assert_eq!(SF_FOCUSED, turbo_vision::core::state::SF_FOCUSED);
    assert_eq!(SF_SHADOW, turbo_vision::core::state::SF_SHADOW);
}

#[test]
fn names_are_parts_of_paths() {
    for path in ["C:\\src\\demo.pas", "C:demo.pas", "//host/share/demo.pas", "a\\b/c:d"] {
        let name = display_name(Some(path), "");
        assert!(!name.is_empty());
        assert!(path.contains(&name));
    }
}

#[test]
fn prompts_name_the_file() {
    assert_eq!(display_name(Some("/src/demo.pas"), "Untitled"), "demo.pas");
    assert_eq!(display_name(None, "Untitled"), "Untitled");
    for (path, name) in [
        ("/", "file"),
        ("", "file"),
        ("demo.pas", "demo.pas"),
        ("/src/", "src"),
        ("a//b", "b"),
        ("a/./b/.", "b"),
        ("./b", "b"),
        (".", "file"),
        ("a/..", "file"),
        ("../a", "a"),
    ] {
        assert_eq!(display_name(Some(path), "file"), name);
    }
    assert_eq!(modified_prompt("a"), "a has been modified.\n\nSave changes?");
    assert_eq!(overwrite_prompt("a"), "a already exists.\n\nOverwrite?");
    assert_eq!(reload_prompt("a"), "a changed on disk.\n\nReload and lose unsaved changes?");
    assert_eq!(
        stop_debugging_prompt(),
        "Closing this window will stop debugging.\n\nDo you want to close it?"
    );
    assert_eq!(save_failed("e"), "Save failed:\ne");
    assert_eq!(open_failed("e"), "Cannot open file:\ne");
}

#[test]
fn decisions_on_files() {
    assert_eq!(save_mode(true), SaveMode::File);
    assert_eq!(save_mode(false), SaveMode::Ask);
    assert!(may_overwrite(false, CM_NO));
    assert!(may_overwrite(true, CM_YES));
    assert!(!may_overwrite(true, CM_NO));
    assert!(is_yes(CM_YES) && !is_yes(CM_CANCEL));
    assert_eq!(external_action(ExternalState::Unchanged, true), ExternalAction::Nothing);
    assert_eq!(external_action(ExternalState::NoFile, true), ExternalAction::Nothing);
    assert_eq!(external_action(ExternalState::Modified, false), ExternalAction::Reload);
    assert_eq!(external_action(ExternalState::Modified, true), ExternalAction::Ask);
    assert_eq!(external_action(ExternalState::Deleted, true), ExternalAction::Forget);
}

fn candidate(dirty: bool, has_path: bool) -> CloseCandidate {
    CloseCandidate { dirty, has_path }
}

#[test]
fn close_asks_about_each_change() {
    let mut w = CloseWalk::new(vec![
        candidate(false, true),
        candidate(true, true),
        candidate(true, false),
        candidate(true, true),
    ]);
    assert_eq!(w.phase(), ClosePhase::Ask(1));
    w.answered(CM_YES);
    assert_eq!(w.phase(), ClosePhase::Save(1));
    w.saved(true);
    assert_eq!(w.phase(), ClosePhase::Ask(2));
    w.answered(CM_YES);
    assert_eq!(w.phase(), ClosePhase::SaveAs(2));
    w.saved(true);
    assert_eq!(w.phase(), ClosePhase::Ask(3));
    w.answered(CM_NO);
    assert_eq!(w.phase(), ClosePhase::Done(true));
}

#[test]
fn close_is_called_off() {
    let mut w = CloseWalk::new(vec![candidate(true, true)]);
    w.answered(CM_CANCEL);
    assert_eq!(w.phase(), ClosePhase::Done(false));
    let mut w = CloseWalk::new(vec![candidate(true, true), candidate(true, true)]);
    w.answered(CM_YES);
    w.saved(false);
    assert_eq!(w.phase(), ClosePhase::Done(false));
    assert_eq!(CloseWalk::new(vec![]).phase(), ClosePhase::Done(true));
    assert_eq!(CloseWalk::new(vec![candidate(false, false)]).phase(), ClosePhase::Done(true));
}
