use ghostpad_core::search::{locate_matches, splice_all_matches, splice_match};
use ghostpad_core::ui::{
    build_find_options, encoding_label, indent_label, line_ending_label, next_untitled_title, parse_encoding,
    parse_indent_type, parse_line_ending, to_local_path,
};
use ghostpad_core::watch::{dedupe_events, process_event};
use ghostpad_core::{
    autosave_path_for, default_welcome_context, ChangeKind, FileEvent, FindOptions, IndentType, LineEnding,
    TextEncoding, WatchedPaths,
};

#[test]
fn encodings_are_read_from_their_names() {
    assert_eq!(parse_encoding("UTF-8"), Some(TextEncoding::Utf8));
    assert_eq!(parse_encoding("UTF-16 LE"), Some(TextEncoding::Utf16Le));
    assert_eq!(parse_encoding("Utf16Be"), Some(TextEncoding::Utf16Be));
    assert_eq!(parse_encoding("Latin1"), Some(TextEncoding::Iso8859_1));
    assert_eq!(parse_encoding("utf-8"), None);
    for enc in [TextEncoding::Utf8, TextEncoding::Utf16Le, TextEncoding::Utf16Be, TextEncoding::Iso8859_1] {
        assert_eq!(parse_encoding(encoding_label(enc)), Some(enc));
    }
    assert_eq!(encoding_label(TextEncoding::Iso8859_1), "Iso8859_1");
}

#[test]
fn line_endings_are_read_from_their_names() {
    assert_eq!(parse_line_ending("LF"), Some(LineEnding::Lf));
    assert_eq!(parse_line_ending("Crlf"), Some(LineEnding::Crlf));
    assert_eq!(parse_line_ending("cr"), None);
    assert_eq!(parse_line_ending(line_ending_label(LineEnding::Crlf)), Some(LineEnding::Crlf));
}

#[test]
fn indentation_names() {
    assert_eq!(parse_indent_type("Tabs"), IndentType::Tabs);
    assert_eq!(parse_indent_type("TABS"), IndentType::Tabs);
    assert_eq!(parse_indent_type("spaces"), IndentType::Spaces);
    assert_eq!(parse_indent_type("anything"), IndentType::Spaces);
    assert_eq!(indent_label(IndentType::Tabs), "tabs");
}

#[test]
fn find_options_from_switches() {
    let o = build_find_options(true, false, true);
    assert_eq!(o, FindOptions { case_sensitive: true, whole_word: false, use_regex: true });
}

#[test]
fn file_urls_become_paths() {
    assert_eq!(to_local_path("file:///home/a.txt", false), "/home/a.txt");
    assert_eq!(to_local_path("file:///C:/a.txt", true), "C:/a.txt");
    assert_eq!(to_local_path("/plain/path", true), "/plain/path");
    assert_eq!(to_local_path("file:/", false), "file:/");
}

#[test]
fn untitled_titles_skip_those_in_use() {
    assert_eq!(next_untitled_title(&vec![]), "Untitled");
    assert_eq!(next_untitled_title(&vec!["Untitled".to_string()]), "Untitled 2");
    let titles = vec!["Untitled 2".to_string(), "Untitled".to_string(), "Untitled 3".to_string()];
    assert_eq!(next_untitled_title(&titles), "Untitled 4");
    assert_eq!(next_untitled_title(&vec!["Untitled 2".to_string()]), "Untitled");
    let many: Vec<String> = (1..=11).map(|i| if i == 1 { "Untitled".to_string() } else { format!("Untitled {i}") }).collect();
    assert_eq!(next_untitled_title(&many), "Untitled 12");
}

#[test]
fn welcome_context_text() {
    let c = default_welcome_context();
    assert_eq!(c.headline, "Let’s get writing");
    assert_eq!(c.tagline, "GhostPad brings Windows 11 calm to Plasma’s power.");
}

#[test]
fn autosave_file_sits_beside_the_configuration() {
    assert_eq!(autosave_path_for("/home/u/.config/ghostpad/config.json"), "/home/u/.config/ghostpad/config.autosave.json");
    assert_eq!(autosave_path_for("settings"), "settings.autosave.json");
}

#[test]
fn watched_paths_track_documents() {
    let mut w = WatchedPaths::new();
    assert!(!w.contains("/a"));
    w.insert("/a", 1);
    w.insert("/b", 2);
    w.insert("/a", 3);
    assert_eq!(w.doc_id_for_path("/a"), Some(1));
    assert_eq!(w.doc_id_for_path("/b"), Some(2));
    assert!(w.remove("/a"));
    assert!(!w.remove("/a"));
    assert_eq!(w.doc_id_for_path("/a"), None);
    assert_eq!(w.doc_id_for_path("/b"), Some(2));
}

#[test]
fn change_kinds_become_document_events() {
    let mut w = WatchedPaths::new();
    w.insert("/a", 5);
    let paths = vec!["/a".to_string()];
    assert!(matches!(process_event(&w, &paths, ChangeKind::ModifyData), Some((5, FileEvent::Modified(ref p))) if p == "/a"));
    assert!(matches!(process_event(&w, &paths, ChangeKind::RemoveAny), Some((5, FileEvent::Deleted(_)))));
    assert!(process_event(&w, &paths, ChangeKind::Other).is_none());
    assert!(process_event(&w, &vec!["/other".to_string()], ChangeKind::ModifyAny).is_none());
    assert!(process_event(&w, &vec![], ChangeKind::ModifyAny).is_none());
}

#[test]
fn deletion_wins_when_events_are_merged() {
    let events = vec![
        (1, FileEvent::Modified("m1".to_string())),
        (2, FileEvent::Modified("m2".to_string())),
        (1, FileEvent::Deleted("d1".to_string())),
        (1, FileEvent::Modified("m3".to_string())),
        (2, FileEvent::Modified("m4".to_string())),
    ];
    let out = dedupe_events(events);
    assert_eq!(out.len(), 2);
    let first = out.iter().find(|(id, _)| *id == 1).unwrap();
    assert!(matches!(first.1, FileEvent::Deleted(ref p) if p == "d1"));
    let second = out.iter().find(|(id, _)| *id == 2).unwrap();
    assert!(matches!(second.1, FileEvent::Modified(ref p) if p == "m2"));
}

#[test]
fn given_spans_are_located_and_spliced() {
    let text = "é-x-é";
    let m = locate_matches(text, &vec![(0, 2), (3, 4)]);
    assert_eq!(m.len(), 2);
    assert_eq!((m[0].char_start, m[0].char_end), (0, 1));
    assert_eq!((m[1].byte_start, m[1].char_start, m[1].char_end), (3, 2, 3));
    let expansions = vec![(0usize, 2usize, "E".to_string()), (3, 4, "X".to_string())];
    assert_eq!(splice_all_matches(text, &expansions, "_", true), ("E-X-é".to_string(), 2));
    assert_eq!(splice_all_matches(text, &expansions, "_", false), ("_-_-é".to_string(), 2));
    assert_eq!(splice_match(text, &expansions, "_", true, 1), ("é-X-é".to_string(), true));
    assert_eq!(splice_match(text, &expansions, "_", true, 2), (text.to_string(), false));
}

#[test]
fn watched_paths_compare_as_paths() {
    let mut w = WatchedPaths::new();
    w.insert("/tmp//a.txt", 4);
    assert_eq!(w.doc_id_for_path("/tmp/a.txt"), Some(4));
    w.insert("/tmp/a.txt", 9);
    assert_eq!(w.doc_id_for_path("/tmp//a.txt"), Some(4));
    assert!(w.remove("/tmp/a.txt"));
    assert!(!w.contains("/tmp//a.txt"));
}
