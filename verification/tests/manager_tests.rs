use ghostpad_core::{
    AutosaveDocument, AutosaveSnapshot, DiskFingerprint, DiskObservation, DocumentError, DocumentManager, FileEvent,
    FindOptions, LineEnding, ManagerConfig, OpenStart, TextEncoding, ThemeMode, MAX_FILE_SIZE_BYTES,
};
use std::time::{Duration, UNIX_EPOCH};

fn manager() -> DocumentManager {
    DocumentManager::with_config(ManagerConfig::default())
}

fn open_bytes(manager: &mut DocumentManager, path: &str, bytes: &[u8], observed: DiskObservation) -> u64 {
    match manager.begin_open(path, Some(bytes.len() as u64)).unwrap() {
        OpenStart::AlreadyOpen(summary) => summary.id,
        OpenStart::ReadFile => manager.open_document(path, Ok(bytes.to_vec()), observed, 100).unwrap().id,
    }
}

#[test]
fn create_and_open_document() {
    let mut manager = manager();
    let doc_path = "/tmp/ghostpad_manager_file.txt";
    let start = manager.begin_open(doc_path, Some(11)).unwrap();
    assert!(matches!(start, OpenStart::ReadFile));
    let summary = manager
        .open_document(doc_path, Ok(b"hello world".to_vec()), DiskObservation::Unavailable, 100)
        .unwrap();
    assert_eq!(summary.title, "ghostpad_manager_file.txt");
    assert!(summary.path.is_some());

    let recents = manager.recent_documents();
    assert_eq!(recents.len(), 1);
    assert_eq!(recents[0].path, doc_path);
}

#[test]
fn closing_dirty_document_requires_force() {
    let mut manager = manager();
    let summary = manager.new_document("Scratch");

    manager.update_text(summary.id, "data").unwrap();
    let result = manager.close_document(summary.id, false);
    assert!(matches!(result, Err(DocumentError::DocumentDirty(_))));

    manager.close_document(summary.id, true).unwrap();
    assert!(manager.documents().is_empty());
}

#[test]
fn save_document_updates_recent_list() {
    let mut manager = manager();
    let path = "/tmp/content.txt";
    let id = open_bytes(&mut manager, path, b"hello\n", DiskObservation::Unavailable);
    manager.update_text(id, "goodbye").unwrap();

    let target = manager.save_target(id).unwrap();
    assert_eq!(target, path);
    let bytes = manager.document_bytes(id).unwrap();
    assert_eq!(bytes, b"goodbye".to_vec());
    let fingerprint = DiskFingerprint { modified: UNIX_EPOCH + Duration::from_secs(5), size: 7, read_only: false };
    let saved = manager.save_document(id, DiskObservation::Fingerprint(fingerprint), 200).unwrap();
    assert!(!saved.dirty);

    let recents = manager.recent_documents();
    assert_eq!(recents[0].title, "content.txt");
    assert_eq!(recents[0].last_opened_epoch, 200);
    assert_eq!(recents.len(), 1);
}

#[test]
fn read_only_documents_require_override_for_edits() {
    let mut manager = manager();
    let path = "/tmp/locked.txt";
    let id = open_bytes(&mut manager, path, b"locked", DiskObservation::ReadOnly(true));
    let summary = manager.document_summary(id).unwrap();
    assert!(summary.read_only);
    assert!(summary.editing_locked);

    let err = manager.update_text(summary.id, "changes");
    assert!(matches!(err, Err(DocumentError::ReadOnlyDocument(_))));

    manager.set_read_only_override(summary.id, true).unwrap();
    let updated = manager.update_text(summary.id, "changes").unwrap();
    assert!(!updated.editing_locked);
}

#[test]
fn autosave_snapshot_records_document_state() {
    let mut manager = manager();
    let summary = manager.new_document("Scratch");
    manager.update_text(summary.id, "hello world").unwrap();

    let snapshot = manager.autosave(1234).expect("autosave snapshot missing");
    assert_eq!(snapshot.documents.len(), 1);
    assert_eq!(snapshot.documents[0].text, "hello world");
    assert_eq!(snapshot.timestamp_epoch, 1234);
}

#[test]
fn restore_autosave_rehydrates_documents() {
    let snapshot = {
        let mut manager = manager();
        let summary = manager.new_document("Draft");
        manager.update_text(summary.id, "draft text").unwrap();
        manager.autosave(10).unwrap()
    };

    let mut manager = manager();
    manager.restore_autosave(&snapshot, &Vec::new());
    let documents = manager.documents();
    assert_eq!(documents.len(), 1);
    let doc = &documents[0];
    assert_eq!(doc.title, "Draft");
    let text = manager.document_text(doc.id).unwrap();
    assert_eq!(text, "draft text");
    assert_eq!(snapshot.timestamp_epoch, 10);
}

#[test]
fn convert_line_endings_updates_buffer() {
    let mut manager = manager();
    let summary = manager.new_document("LineTest");
    manager.update_text(summary.id, "alpha\nbeta").unwrap();

    let updated = manager.set_document_line_ending(summary.id, LineEnding::Crlf).unwrap();
    assert_eq!(updated.line_ending, LineEnding::Crlf);
    let text = manager.document_text(summary.id).unwrap();
    assert_eq!(text, "alpha\r\nbeta");
}

#[test]
fn reload_document_with_forced_encoding() {
    let mut manager = manager();
    let path = "/tmp/latin1.txt";
    let bytes = [0x63_u8, 0x61, 0x66, 0xE9]; // café in ISO-8859-1
    let id = open_bytes(&mut manager, path, &bytes, DiskObservation::Unavailable);
    let summary = manager.document_summary(id).unwrap();
    assert_eq!(summary.encoding, TextEncoding::Iso8859_1);

    manager.set_document_encoding(summary.id, TextEncoding::Utf8).unwrap();
    let reloaded = manager
        .reload_document_with_encoding(summary.id, TextEncoding::Iso8859_1, &bytes, DiskObservation::Unavailable, 300)
        .unwrap();
    assert_eq!(reloaded.encoding, TextEncoding::Iso8859_1);
    assert!(!reloaded.dirty);
    let text = manager.document_text(summary.id).unwrap();
    assert_eq!(text, "café");
}

#[test]
fn large_files_are_rejected() {
    let mut manager = manager();
    let big_path = "/tmp/big.txt";
    let result = manager.begin_open(big_path, Some(MAX_FILE_SIZE_BYTES + 1));
    assert!(matches!(
        result,
        Err(DocumentError::FileTooLarge { path, size, limit })
        if path == big_path && size == (MAX_FILE_SIZE_BYTES + 1) && limit == MAX_FILE_SIZE_BYTES
    ));
    assert!(matches!(manager.begin_open(big_path, Some(MAX_FILE_SIZE_BYTES)), Ok(OpenStart::ReadFile)));
    assert!(matches!(manager.begin_open(big_path, None), Ok(OpenStart::ReadFile)));
}

#[test]
fn find_update_and_navigation_behave_as_expected() {
    let mut manager = manager();
    let summary = manager.new_document("FindNav");
    manager.update_text(summary.id, "one two one two").unwrap();

    let snapshot = manager.find_update(summary.id, "one", FindOptions::default()).unwrap();
    assert_eq!(snapshot.matches.len(), 2);
    assert_eq!(snapshot.current_index, Some(0));

    let next = manager.find_step(summary.id, false, false).unwrap();
    assert_eq!(next.current_index, Some(1));
    assert!(next.message.is_none());

    let end = manager.find_step(summary.id, false, false).unwrap();
    assert_eq!(end.current_index, Some(1));
    assert_eq!(end.message.as_deref(), Some("Reached end of document"));

    manager.clear_find_state(summary.id);
}

#[test]
fn replace_current_and_all_update_document_text() {
    let mut manager = manager();
    let summary = manager.new_document("ReplaceOps");
    manager.update_text(summary.id, "red red blue").unwrap();

    manager.find_update(summary.id, "red", FindOptions::default()).unwrap();

    let (replace_once, changed) = manager.replace_current(summary.id, "green", false, false).unwrap();
    assert!(changed);
    assert_eq!(manager.document_text(summary.id).unwrap(), "green red blue");
    assert_eq!(replace_once.current_index, Some(0));
    assert!(replace_once.message.as_deref().unwrap().contains("Replaced 1 occurrence"));

    let (replace_all_snapshot, _) = manager.replace_all(summary.id, "yellow").unwrap();
    assert_eq!(manager.document_text(summary.id).unwrap(), "green yellow blue");
    assert!(replace_all_snapshot.message.as_deref().unwrap().contains("Replaced 1 occurrence"));
    assert!(replace_all_snapshot.matches.is_empty());
}

#[test]
fn theme_mode_from_str_lenient_defaults_to_system() {
    assert_eq!(ThemeMode::from_str_lenient("bogus"), ThemeMode::System);
    assert_eq!(ThemeMode::from_str_lenient("  Dark "), ThemeMode::Dark);
}

#[test]
fn theme_names_read_back() {
    for mode in [
        ThemeMode::Light,
        ThemeMode::Dark,
        ThemeMode::System,
        ThemeMode::TokyoNight,
        ThemeMode::TokyoNightStorm,
        ThemeMode::TokyoNightMoon,
    ] {
        assert_eq!(ThemeMode::from_str_lenient(mode.as_str()), mode);
    }
    assert_eq!(ThemeMode::TokyoNightStorm.as_str(), "tokyo_night_storm");
    assert_eq!(ThemeMode::from_str_lenient("TOKYO_NIGHT\t"), ThemeMode::TokyoNight);
}

#[test]
fn replace_all_counts_every_occurrence() {
    let mut manager = manager();
    let summary = manager.new_document("Count");
    manager.update_text(summary.id, "a-a-a").unwrap();
    manager.find_update(summary.id, "a", FindOptions::default()).unwrap();
    let (snapshot, changed) = manager.replace_all(summary.id, "bb").unwrap();
    assert!(changed);
    assert_eq!(manager.document_text(summary.id).unwrap(), "bb-bb-bb");
    assert_eq!(snapshot.message.as_deref(), Some("Replaced 3 occurrences"));
    assert!(snapshot.matches.is_empty());
}

#[test]
fn replace_all_with_regex_expands_captures() {
    let mut manager = manager();
    let summary = manager.new_document("Regex");
    manager.update_text(summary.id, "x=1, y=22").unwrap();
    let options = FindOptions { use_regex: true, ..Default::default() };
    manager.find_update(summary.id, r"(\w)=(\d+)", options).unwrap();
    let (snapshot, changed) = manager.replace_all(summary.id, "$2:$1").unwrap();
    assert!(changed);
    assert_eq!(manager.document_text(summary.id).unwrap(), "1:x, 22:y");
    assert_eq!(snapshot.message.as_deref(), Some("Replaced 2 occurrences"));
}

#[test]
fn find_without_session_or_matches() {
    let mut manager = manager();
    let summary = manager.new_document("Empty");
    manager.update_text(summary.id, "abc").unwrap();
    let none = manager.find_step(summary.id, true, false).unwrap();
    assert!(none.matches.is_empty());
    assert!(none.message.is_none());
    assert!(manager.find_snapshot(summary.id).is_none());

    let missing = manager.find_update(summary.id, "zzz", FindOptions::default()).unwrap();
    assert_eq!(missing.message.as_deref(), Some("No matches found"));
    assert_eq!(missing.current_index, None);
    let (replaced, changed) = manager.replace_current(summary.id, "q", true, false).unwrap();
    assert!(!changed);
    assert_eq!(replaced.message.as_deref(), Some("No matches found"));

    let cleared = manager.find_update(summary.id, "", FindOptions::default()).unwrap();
    assert!(cleared.query.is_empty());
    assert!(manager.find_snapshot(summary.id).is_none());
}

#[test]
fn find_wraps_around_both_ways() {
    let mut manager = manager();
    let summary = manager.new_document("Wrap");
    manager.update_text(summary.id, "x x x").unwrap();
    manager.find_update(summary.id, "x", FindOptions::default()).unwrap();
    let back = manager.find_step(summary.id, true, true).unwrap();
    assert_eq!(back.current_index, Some(2));
    assert_eq!(back.message.as_deref(), Some("Wrapped to bottom"));
    let fwd = manager.find_step(summary.id, true, false).unwrap();
    assert_eq!(fwd.current_index, Some(0));
    assert_eq!(fwd.message.as_deref(), Some("Wrapped to top"));
    let stop = manager.find_step(summary.id, false, true).unwrap();
    assert_eq!(stop.current_index, Some(0));
    assert_eq!(stop.message.as_deref(), Some("Reached start of document"));
    // Forward then back returns to the same match.
    manager.find_step(summary.id, false, false).unwrap();
    let again = manager.find_step(summary.id, false, true).unwrap();
    assert_eq!(again.current_index, Some(0));
    assert!(manager.active_find_snapshot().is_some());
}

#[test]
fn find_session_follows_text_changes() {
    let mut manager = manager();
    let summary = manager.new_document("Follow");
    manager.update_text(summary.id, "ab ab ab").unwrap();
    manager.find_update(summary.id, "ab", FindOptions::default()).unwrap();
    manager.find_step(summary.id, false, false).unwrap();
    manager.find_step(summary.id, false, false).unwrap();
    manager.update_text(summary.id, "ab").unwrap();
    let snap = manager.find_snapshot(summary.id).unwrap();
    assert_eq!(snap.matches.len(), 1);
    assert_eq!(snap.current_index, Some(0));
}

#[test]
fn replace_current_reports_a_miss_at_the_cursor() {
    let mut manager = manager();
    let summary = manager.new_document("Miss");
    manager.update_text(summary.id, "dog dog").unwrap();
    manager.find_update(summary.id, "dog", FindOptions::default()).unwrap();
    let (snap, changed) = manager.replace_current(summary.id, "cat", true, false).unwrap();
    assert!(changed);
    assert_eq!(manager.document_text(summary.id).unwrap(), "cat dog");
    assert_eq!(snap.current_index, Some(0));
    assert_eq!(snap.message.as_deref(), Some("Replaced 1 occurrence — Wrapped to top"));
}

#[test]
fn invalid_search_pattern_is_reported() {
    let mut manager = manager();
    let summary = manager.new_document("Bad");
    let options = FindOptions { use_regex: true, ..Default::default() };
    let err = manager.find_update(summary.id, "[", options);
    assert!(matches!(err, Err(DocumentError::InvalidSearchPattern(_))));
    assert!(manager.find_snapshot(summary.id).is_none());
}

#[test]
fn unknown_documents_are_reported() {
    let mut manager = manager();
    assert!(matches!(manager.update_text(7, "x"), Err(DocumentError::DocumentNotFound(7))));
    assert!(matches!(manager.set_active_document(7), Err(DocumentError::DocumentNotFound(7))));
    assert!(matches!(manager.close_document(7, true), Err(DocumentError::DocumentNotFound(7))));
    assert!(matches!(manager.document_text(7), Err(DocumentError::DocumentNotFound(7))));
    assert!(matches!(manager.save_target(7), Err(DocumentError::DocumentNotFound(7))));
    assert!(matches!(manager.find_update(7, "x", FindOptions::default()), Err(DocumentError::DocumentNotFound(7))));
}

#[test]
fn saving_needs_a_path_and_a_representable_text() {
    let mut manager = manager();
    let summary = manager.new_document("Unsaved");
    assert!(matches!(manager.save_target(summary.id), Err(DocumentError::MissingPath)));
    assert!(matches!(manager.reload_path(summary.id), Err(DocumentError::MissingPath)));
    manager.update_text(summary.id, "€").unwrap();
    manager.set_document_encoding(summary.id, TextEncoding::Iso8859_1).unwrap();
    assert!(matches!(manager.document_bytes(summary.id), Err(DocumentError::UnsupportedEncoding(_))));
}

#[test]
fn saving_a_locked_document_is_refused() {
    let mut manager = manager();
    let id = open_bytes(&mut manager, "/tmp/ro.txt", b"x", DiskObservation::ReadOnly(true));
    assert!(matches!(manager.save_target(id), Err(DocumentError::ReadOnlyDocument(ref t)) if t == "ro.txt"));
}

#[test]
fn open_errors_use_up_an_identifier() {
    let mut manager = manager();
    let err = manager.open_document(
        "/tmp/missing.txt",
        Err(std::io::Error::new(std::io::ErrorKind::NotFound, "gone")),
        DiskObservation::Unavailable,
        1,
    );
    assert!(matches!(err, Err(DocumentError::Io(_))));
    let bad = manager.open_document("/tmp/bad.txt", Ok(vec![0xFF, 0xFE, 0x41]), DiskObservation::Unavailable, 1);
    assert!(matches!(bad, Err(DocumentError::InvalidData(_))));
    let next = manager.new_document("After");
    assert_eq!(next.id, 3);
    assert!(manager.recent_documents().is_empty());
}

#[test]
fn opening_an_open_path_activates_it() {
    let mut manager = manager();
    let first = open_bytes(&mut manager, "/tmp/a.txt", b"a", DiskObservation::Unavailable);
    manager.new_document("Other");
    assert_ne!(manager.active_document_id(), Some(first));
    let again = manager.begin_open("/tmp/a.txt", Some(1)).unwrap();
    assert!(matches!(again, OpenStart::AlreadyOpen(ref s) if s.id == first));
    assert_eq!(manager.active_document_id(), Some(first));
    assert_eq!(manager.documents().len(), 2);
}

#[test]
fn closing_the_active_document_activates_the_last() {
    let mut manager = manager();
    let a = manager.new_document("A").id;
    let b = manager.new_document("B").id;
    let c = manager.new_document("C").id;
    manager.set_active_document(b).unwrap();
    manager.close_document(b, false).unwrap();
    assert_eq!(manager.active_document_id(), Some(c));
    manager.close_document(a, false).unwrap();
    assert_eq!(manager.active_document_id(), Some(c));
    manager.close_document(c, false).unwrap();
    assert_eq!(manager.active_document_id(), None);
    assert!(manager.active_document().is_none());
}

#[test]
fn open_from_bytes_does_not_activate() {
    let mut manager = manager();
    let s = manager.open_from_bytes("/tmp/bytes.txt", &[0xFE, 0xFF, 0x00, 0x41], 9).unwrap();
    assert_eq!(s.title, "bytes.txt");
    assert_eq!(s.encoding, TextEncoding::Utf16Be);
    assert!(!s.dirty);
    assert_eq!(manager.active_document_id(), None);
    assert_eq!(manager.document_text(s.id).unwrap(), "A");
    assert_eq!(manager.recent_documents()[0].last_opened_epoch, 9);
}

#[test]
fn recent_list_keeps_one_entry_per_path_and_at_most_ten() {
    let mut manager = manager();
    for i in 0..12 {
        let path = format!("/tmp/r{i}.txt");
        manager.open_from_bytes(&path, b"x", i).unwrap();
    }
    let recents = manager.recent_documents();
    assert_eq!(recents.len(), 10);
    assert_eq!(recents[0].path, "/tmp/r11.txt");
    manager.open_from_bytes("/tmp/r5.txt", b"y", 50).unwrap();
    let recents = manager.recent_documents();
    assert_eq!(recents.len(), 10);
    assert_eq!(recents[0].path, "/tmp/r5.txt");
    assert_eq!(recents.iter().filter(|r| r.path == "/tmp/r5.txt").count(), 1);
}

#[test]
fn restore_picks_active_and_next_identifier() {
    let doc = |id: u64, path: Option<&str>| AutosaveDocument {
        id,
        title: format!("T{id}"),
        text: "one\r\ntwo".to_string(),
        path: path.map(|p| p.to_string()),
        encoding: TextEncoding::Utf8,
        line_ending: LineEnding::Crlf,
        dirty: false,
        read_only: true,
        edit_override: true,
    };
    let snapshot = AutosaveSnapshot {
        documents: vec![doc(4, None), doc(9, Some("/tmp/p.txt"))],
        active_id: Some(77),
        next_id: 2,
        timestamp_epoch: 0,
    };
    let mut manager = manager();
    manager.new_document("Gone");
    manager.restore_autosave(&snapshot, &vec![DiskObservation::Unavailable, DiskObservation::ReadOnly(true)]);
    let docs = manager.documents();
    assert_eq!(docs.len(), 2);
    assert_eq!(docs[0].title, "T4");
    assert!(!docs[0].read_only);
    assert_eq!(docs[1].title, "p.txt");
    assert!(docs[1].read_only);
    assert!(!docs[1].editing_locked);
    assert!(!docs[1].dirty);
    assert_eq!(docs[1].line_ending, LineEnding::Crlf);
    assert_eq!(manager.active_document_id(), Some(9));
    assert_eq!(manager.new_document("New").id, 10);
}

#[test]
fn autosave_is_empty_without_documents() {
    let manager = manager();
    assert!(manager.autosave(1).is_none());
}

#[test]
fn file_events_flag_open_documents() {
    let mut manager = manager();
    let a = manager.new_document("A").id;
    let b = manager.new_document("B").id;
    let events = vec![
        (a, FileEvent::Modified("/tmp/a".to_string())),
        (99, FileEvent::Deleted("/tmp/z".to_string())),
        (b, FileEvent::Deleted("/tmp/b".to_string())),
    ];
    let affected = manager.poll_file_events(&events);
    assert_eq!(affected, vec![a, b]);
    let docs = manager.documents();
    assert!(docs[0].externally_modified);
    assert!(!docs[0].externally_deleted);
    assert!(docs[1].externally_deleted);
    let cleared = manager.acknowledge_external_change(a).unwrap();
    assert!(!cleared.externally_modified);
}

#[test]
fn reload_clears_external_flags() {
    let mut manager = manager();
    let id = open_bytes(&mut manager, "/tmp/ext.txt", b"v1", DiskObservation::Unavailable);
    manager.poll_file_events(&vec![(id, FileEvent::Modified("/tmp/ext.txt".to_string()))]);
    let s = manager.reload_document(id, b"v2", DiskObservation::Unavailable).unwrap();
    assert!(!s.externally_modified);
    assert_eq!(manager.document_text(id).unwrap(), "v2");
    let bad = manager.reload_document(id, b"\xff\xfe\x00", DiskObservation::Unavailable);
    assert!(matches!(bad, Err(DocumentError::InvalidData(_))));
    assert_eq!(manager.document_text(id).unwrap(), "v2");
}

#[test]
fn settings_are_replaced() {
    let mut manager = manager();
    assert!(manager.ui_settings().shadow_enabled);
    assert_eq!(manager.window_state().width, 960);
    assert_eq!(manager.editor_settings().font_family, "monospace");
    assert!(manager.find_defaults().wrap_around);
    let mut ui = manager.ui_settings().clone();
    ui.theme = ThemeMode::Dark;
    manager.update_ui_settings(ui);
    assert_eq!(manager.ui_settings().theme, ThemeMode::Dark);
    let mut window = *manager.window_state();
    window.x = Some(3);
    manager.update_window_state(window);
    assert_eq!(manager.config().window.x, Some(3));
}

#[test]
fn save_as_moves_the_document_to_a_new_path() {
    let mut manager = manager();
    let s = manager.new_document("Draft");
    manager.update_text(s.id, "x").unwrap();
    assert!(matches!(manager.save_document(s.id, DiskObservation::Unavailable, 5), Err(DocumentError::MissingPath)));
    let saved = manager.save_document_as(s.id, "/tmp/new_name.txt", DiskObservation::Unavailable, 5).unwrap();
    assert_eq!(saved.title, "new_name.txt");
    assert_eq!(saved.path.as_deref(), Some("/tmp/new_name.txt"));
    assert!(!saved.dirty);
    assert_eq!(manager.recent_documents()[0].path, "/tmp/new_name.txt");
    assert!(matches!(
        manager.save_document_as(99, "/tmp/x", DiskObservation::Unavailable, 5),
        Err(DocumentError::DocumentNotFound(99))
    ));
}

#[test]
fn equal_paths_written_differently_are_the_same_document() {
    let mut manager = manager();
    let first = open_bytes(&mut manager, "/tmp/same.txt", b"a", DiskObservation::Unavailable);
    let again = manager.begin_open("/tmp//same.txt", Some(1)).unwrap();
    assert!(matches!(again, OpenStart::AlreadyOpen(ref s) if s.id == first));
    assert_eq!(manager.documents().len(), 1);
}

#[test]
fn theme_mode_string_round_trip_matches_serde() {
    // The persisted (snake_case) identifiers of the settings reference.
    let all = [
        (ThemeMode::Light, "light"),
        (ThemeMode::Dark, "dark"),
        (ThemeMode::System, "system"),
        (ThemeMode::TokyoNight, "tokyo_night"),
        (ThemeMode::TokyoNightStorm, "tokyo_night_storm"),
        (ThemeMode::TokyoNightMoon, "tokyo_night_moon"),
    ];
    for (mode, name) in all {
        assert_eq!(mode.as_str(), name);
        assert_eq!(ThemeMode::from_str_lenient(mode.as_str()), mode);
    }
}

#[test]
fn recent_list_treats_equal_paths_as_one() {
    let mut manager = manager();
    let s = manager.open_from_bytes("/tmp/a.txt", b"x", 1).unwrap();
    manager.close_document(s.id, true).unwrap();
    manager.open_from_bytes("/tmp//a.txt", b"x", 2).unwrap();
    let recents = manager.recent_documents();
    assert_eq!(recents.len(), 1);
    assert_eq!(recents[0].path, "/tmp//a.txt");
}
