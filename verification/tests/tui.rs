use modkei_core::lang::Language;
use modkei_core::tui::{aggregate, table_rows, App, LangStats};
use modkei_core::walker::FileResult;

fn file(language: Language, lines: u64, code: u64, comments: u64) -> FileResult {
    FileResult {
        path: "x".to_string(),
        rel_path: "x".to_string(),
        language,
        lines,
        code,
        comments,
        blanks: lines - code - comments,
    }
}

fn stats(files: usize, lines: u64, code: u64, comments: u64, blanks: u64) -> LangStats {
    LangStats { files, lines, code, comments, blanks }
}

#[test]
fn recording_files_adds_to_their_language() {
    let mut app = App::new();
    app.record_file(&file(Language::Python, 10, 6, 2));
    app.record_file(&file(Language::Rust, 5, 5, 0));
    app.record_file(&file(Language::Python, 4, 1, 1));
    assert_eq!(app.scanned_files, 3);
    assert_eq!(
        app.stats,
        vec![
            (Language::Rust, stats(1, 5, 5, 0, 0)),
            (Language::Python, stats(2, 14, 7, 3, 4)),
        ]
    );
    assert_eq!(app.totals(), stats(3, 19, 12, 3, 4));
}

#[test]
fn a_scan_ends_once() {
    let mut app = App::new();
    assert!(!app.done);
    assert!(app.finish());
    assert!(!app.finish());
    assert!(app.done);
    app.set_output("r.html".to_string());
    app.set_opened();
    app.set_error("boom".to_string());
    assert_eq!(app.output().map(|s| s.as_str()), Some("r.html"));
    assert!(app.opened());
    assert_eq!(app.error().map(|s| s.as_str()), Some("boom"));
    assert!(app.graph().is_none());
}

#[test]
fn the_summary_lists_languages_by_lines_then_files() {
    let files = vec![
        file(Language::Go, 10, 10, 0),
        file(Language::Rust, 3, 3, 0),
        file(Language::Python, 10, 10, 0),
        file(Language::Python, 0, 0, 0),
        file(Language::C, 20, 20, 0),
    ];
    let rows = aggregate(&files);
    assert_eq!(
        rows.iter().map(|(l, _)| *l).collect::<Vec<_>>(),
        vec![Language::Rust, Language::Python, Language::Go, Language::C]
    );
    let ordered = table_rows(&rows);
    assert_eq!(
        ordered.iter().map(|(l, _)| *l).collect::<Vec<_>>(),
        vec![Language::C, Language::Python, Language::Go, Language::Rust]
    );
    assert_eq!(ordered[1].1, stats(2, 10, 10, 0, 0));
}

#[test]
fn defaults_are_empty() {
    assert_eq!(LangStats::default(), stats(0, 0, 0, 0, 0));
    let app = App::default();
    assert!(app.stats.is_empty());
    assert_eq!((app.scanned_files, app.total_files, app.done), (0, 0, false));
    assert!(modkei_core::tui::languages_fit(&[file(Language::Go, 1, 1, 0)]));
}
