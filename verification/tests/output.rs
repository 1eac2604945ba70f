use bruto_ide::output::{
    run_report, run_start, stderr_line, OutputStyle, OutputTail, RunStatus,
};
use bruto_ide::output_panel::{black_palette, scroll_maximum, window_palette};
use bruto_ide::trace_log::{is_enabled, LogState};

#[test]
fn tail_cuts_lines() {
    let mut tail = OutputTail::new();
    assert_eq!(tail.unread(0), None);
    assert_eq!(tail.unread(5), Some((0, 5)));
    assert_eq!(tail.feed(b"one\ntw"), vec!["one"]);
    assert_eq!(tail.unread(6), None);
    assert_eq!(tail.unread(10), Some((6, 4)));
    assert_eq!(tail.feed(b"o\n\nx"), vec!["two", ""]);
    assert_eq!(tail.finish(), Some("x".to_string()));
    assert_eq!(OutputTail::new().finish(), None);
}

#[test]
fn tail_in_pieces() {
    let text = "a\nbc\n\u{e9}d\n\ne";
    let mut whole = OutputTail::new();
    let all = whole.take_text(text);
    for cut in [0usize, 1, 2, 4, 5, 7, 9] {
        let mut parts = OutputTail::new();
        let mut got = parts.take_text(&text[..cut]);
        got.extend(parts.take_text(&text[cut..]));
        assert_eq!(got, all);
        assert_eq!(parts.finish(), Some("e".to_string()));
    }
    assert_eq!(format!("{}\n{}", all.join("\n"), whole.finish().unwrap()), text);
}

#[test]
fn tail_reads_what_is_no_utf8() {
    let mut tail = OutputTail::new();
    assert_eq!(tail.feed(b"a\xffb\n"), vec!["a\u{fffd}b"]);
    let mut tail = OutputTail::new();
    assert_eq!(tail.feed("h\u{e9}\n".as_bytes()), vec!["h\u{e9}"]);
}

#[test]
fn reports_on_runs() {
    let start = run_start("/tmp/prog");
    assert_eq!(start.text, "Running /tmp/prog...");
    assert_eq!(start.style, OutputStyle::Info);
    let ok = run_report(Some("a\r\nb"), &RunStatus::Exited(Some(0)));
    let texts: Vec<&str> = ok.iter().map(|l| l.text.as_str()).collect();
    assert_eq!(texts, vec!["a", "b", "Exit code: 0"]);
    assert_eq!(ok[0].style, OutputStyle::Text);
    assert_eq!(ok[2].style, OutputStyle::Success);
    let killed = run_report(None, &RunStatus::Exited(None));
    assert_eq!(killed.len(), 1);
    assert_eq!(killed[0].text, "Exit code: -1");
    assert_eq!(killed[0].style, OutputStyle::Failure);
    let failed = run_report(None, &RunStatus::Failed("no such file".to_string()));
    assert_eq!(failed[0].text, "Failed to run: no such file");
    assert_eq!(failed[0].style, OutputStyle::Failure);
}

#[test]
fn styles_are_colours() {
    let pairs = [
        (OutputStyle::Text, turbo_vision::core::palette::TvColor::LightGray),
        (OutputStyle::Info, turbo_vision::core::palette::TvColor::Yellow),
        (OutputStyle::Success, turbo_vision::core::palette::TvColor::LightGreen),
        (OutputStyle::Failure, turbo_vision::core::palette::TvColor::LightRed),
    ];
    for (style, colour) in pairs {
        assert_eq!(turbo_vision::core::palette::Attr::from_u8(style.attr()), turbo_vision::core::palette::Attr::new(colour, turbo_vision::core::palette::TvColor::Black));
    }
}

#[test]
fn error_output_is_marked() {
    assert_eq!(stderr_line("oops"), "[stderr] oops");
}

#[test]
fn black_palette_is_set_once() {
    let short = black_palette(vec![1, 2]);
    assert_eq!(short.len(), 71);
    assert_eq!(&short[..3], &[1, 2, 0]);
    assert_eq!(&short[63..], &[0x07, 0x0F, 0x0A, 0x08, 0x08, 0x07, 0x0F, 0x00]);
    assert_eq!(black_palette(short.clone()), short);
    let long = black_palette(vec![9; 80]);
    assert_eq!(long.len(), 80);
    assert_eq!(long[62], 9);
    assert_eq!(long[63], 0x07);
    assert_eq!(long[71], 9);
    assert_eq!(window_palette(), vec![64, 65, 66, 67, 68, 69, 70, 71]);
}

#[test]
fn scroll_bar_range() {
    assert_eq!(scroll_maximum(100, 20), 80);
    assert_eq!(scroll_maximum(10, 20), 0);
    assert_eq!(scroll_maximum(i32::MAX, -1), i32::MAX);
}

#[test]
fn log_settings() {
    let off = LogState::from_settings(None, None);
    assert!(!is_enabled(&off));
    assert_eq!(off.path(), "/tmp/bruto-ide-trace.log");
    assert_eq!(off.banner(7), None);
    assert_eq!(off.event_line("   1.000", "x"), None);
    assert!(!is_enabled(&LogState::from_settings(Some(""), None)));
    assert!(is_enabled(&LogState::from_settings(Some("yes"), None)));
    let on = LogState::from_settings(Some("1"), Some("/x"));
    assert!(is_enabled(&on));
    assert_eq!(on.path(), "/x");
    assert_eq!(on.banner(42), Some("=== bruto-ide trace start (pid 42) ===".to_string()));
    assert_eq!(on.event_line("   1.500", "opened"), Some("[   1.500] opened".to_string()));
}
