use ghostpad_core::encoding::{convert_line_endings, decode_bytes, decode_bytes_with_encoding, detect_line_ending, encode_text};
use ghostpad_core::{
    DiskFingerprint, DiskObservation, Document, DocumentError, DocumentSummary, FindOptions, LineEnding,
    TextEncoding,
};
use std::time::{Duration, SystemTime, UNIX_EPOCH};

fn some_time() -> SystemTime {
    UNIX_EPOCH + Duration::from_secs(1_700_000_000)
}

#[test]
fn new_document_defaults() {
    let doc = Document::new_empty(42, "Untitled");
    assert_eq!(doc.id(), 42);
    assert_eq!(doc.title(), "Untitled");
    assert_eq!(doc.text(), "");
    assert!(doc.path().is_none());
    assert_eq!(doc.encoding(), TextEncoding::Utf8);
    assert_eq!(doc.line_ending(), LineEnding::Lf);
    assert!(!doc.is_dirty());
    assert!(doc.last_modified().is_none());
}

#[test]
fn set_text_marks_dirty_and_updates_line_ending() {
    let mut doc = Document::new_empty(1, "Doc");
    doc.set_text("a\r\nb");
    assert!(doc.is_dirty());
    assert_eq!(doc.line_ending(), LineEnding::Crlf);
}

#[test]
fn mark_clean_clears_dirty_flag() {
    let mut doc = Document::new_empty(1, "Doc");
    doc.set_text("hello");
    assert!(doc.is_dirty());
    doc.mark_clean();
    assert!(!doc.is_dirty());
}

#[test]
fn save_requires_path() {
    let doc = Document::new_empty(1, "Doc");
    let err = doc.save().unwrap_err();
    assert!(matches!(err, DocumentError::MissingPath));
}

#[test]
fn save_as_writes_file_and_updates_state() {
    let mut doc = Document::new_empty(1, "Doc");
    doc.set_text("hello world");
    let path = "/tmp/ghostpad_save.txt";

    let bytes = doc.encoded_text().unwrap();
    assert_eq!(bytes, b"hello world".to_vec());
    let fingerprint = DiskFingerprint { modified: some_time(), size: 11, read_only: false };
    doc.save_as(path, DiskObservation::Fingerprint(fingerprint));

    assert_eq!(doc.path(), Some(path));
    assert_eq!(doc.title(), "ghostpad_save.txt");
    assert!(!doc.is_dirty());
    assert!(doc.last_modified().is_some());
}

#[test]
fn open_reads_utf8_file() {
    let doc = Document::open(7, "/tmp/open_utf8", b"hello", DiskObservation::Unavailable).unwrap();
    assert_eq!(doc.text(), "hello");
    assert_eq!(doc.encoding(), TextEncoding::Utf8);
    assert!(!doc.is_dirty());
}

#[test]
fn open_reads_utf16le_file() {
    let bytes = encode_text("hello", TextEncoding::Utf16Le).unwrap();
    let doc = Document::open(7, "/tmp/open_utf16le", &bytes, DiskObservation::Unavailable).unwrap();
    assert_eq!(doc.text(), "hello");
    assert_eq!(doc.encoding(), TextEncoding::Utf16Le);
}

#[test]
fn open_respects_filesystem_read_only() {
    let doc = Document::open(42, "/tmp/readonly", b"locked", DiskObservation::ReadOnly(true)).unwrap();
    assert!(doc.read_only());
    assert!(doc.editing_locked());
}

#[test]
fn detect_line_ending_variants() {
    assert_eq!(detect_line_ending("foo\nbar"), LineEnding::Lf);
    assert_eq!(detect_line_ending("foo\r\nbar"), LineEnding::Crlf);
}

#[test]
fn roundtrip_utf16be_encoding() {
    let text = "Hello 💖";
    let encoded = encode_text(text, TextEncoding::Utf16Be).unwrap();
    let (encoding, decoded) = decode_bytes(&encoded).unwrap();
    assert_eq!(encoding, TextEncoding::Utf16Be);
    assert_eq!(decoded, text);
}

#[test]
fn decode_iso8859_after_utf8_failure() {
    let bytes = vec![0xC4, 0xE4, 0xF6];
    let (encoding, decoded) = decode_bytes(&bytes).unwrap();
    assert_eq!(encoding, TextEncoding::Iso8859_1);
    assert_eq!(decoded, "Ääö");
}

#[test]
fn iso8859_rejects_extended_chars() {
    let text = "€";
    let result = encode_text(text, TextEncoding::Iso8859_1);
    assert!(matches!(result, Err(DocumentError::UnsupportedEncoding(_))));
}

#[test]
fn summary_reflects_document_state() {
    let mut doc = Document::new_empty(9, "Doc");
    doc.set_text("body");
    doc.set_path("/tmp/demo.txt");
    let summary = doc.summary();
    assert_eq!(summary.id, 9);
    assert_eq!(summary.title, "demo.txt");
    assert_eq!(summary.path.unwrap(), "/tmp/demo.txt".to_string());
    assert!(summary.dirty);
    assert!(!summary.read_only);
    assert!(!summary.editing_locked);
}

#[test]
fn compile_find_literal_case_insensitive() {
    let mut doc = Document::new_empty(1, "Doc");
    doc.set_text("Foo\nfoo\nFOO");
    let options = FindOptions {
        case_sensitive: false,
        ..Default::default()
    };
    let compiled = doc.compile_find("foo", &options).unwrap();
    assert_eq!(compiled.matches.len(), 3);
    assert_eq!(compiled.matches[0].char_start, 0);
    assert_eq!(compiled.matches[2].char_start, 8);
}

#[test]
fn compile_find_respects_whole_word_and_regex() {
    let mut doc = Document::new_empty(1, "Doc");
    doc.set_text("cat scatter catalog\ncat");

    let options = FindOptions {
        case_sensitive: true,
        whole_word: true,
        ..Default::default()
    };
    let compiled = doc.compile_find("cat", &options).unwrap();
    assert_eq!(compiled.matches.len(), 2);
    assert_eq!(compiled.matches[0].char_start, 0);
    assert_eq!(compiled.matches[1].char_start, 20);

    let regex_options = FindOptions {
        use_regex: true,
        ..Default::default()
    };
    let compiled_regex = doc.compile_find("c.t", &regex_options).unwrap();
    assert!(compiled_regex.matches.len() >= 3);
}

#[test]
fn compile_find_reports_char_positions_after_multibyte_text() {
    let mut doc = Document::new_empty(1, "Doc");
    doc.set_text("ä x ä x");
    let compiled = doc.compile_find("x", &FindOptions::default()).unwrap();
    assert_eq!(compiled.matches.len(), 2);
    assert_eq!(compiled.matches[0].byte_start, 3);
    assert_eq!(compiled.matches[0].char_start, 2);
    assert_eq!(compiled.matches[0].char_end, 3);
    assert_eq!(compiled.matches[1].char_start, 6);
}

#[test]
fn compile_find_rejects_empty_and_malformed_patterns() {
    let doc = Document::new_empty(1, "Doc");
    let empty = doc.compile_find("", &FindOptions::default());
    assert!(matches!(empty, Err(DocumentError::InvalidSearchPattern(ref m)) if m == "query cannot be empty"));
    let regex_options = FindOptions { use_regex: true, ..Default::default() };
    let malformed = doc.compile_find("(", &regex_options);
    assert!(matches!(malformed, Err(DocumentError::InvalidSearchPattern(_))));
    // A literal query is escaped, so the same text is a valid search.
    assert!(doc.compile_find("(", &FindOptions::default()).is_ok());
}

#[test]
fn set_line_ending_converts_text_and_marks_dirty() {
    let mut doc = Document::new_empty(1, "Doc");
    doc.set_text("a\nb\r\nc");
    doc.mark_clean();
    assert_eq!(doc.line_ending(), LineEnding::Crlf);
    doc.set_line_ending(LineEnding::Lf);
    assert_eq!(doc.text(), "a\nb\nc");
    assert!(doc.is_dirty());
    doc.mark_clean();
    doc.set_line_ending(LineEnding::Lf);
    assert!(!doc.is_dirty());
    doc.set_line_ending(LineEnding::Crlf);
    assert_eq!(doc.text(), "a\r\nb\r\nc");
}

#[test]
fn set_encoding_marks_dirty_only_on_change() {
    let mut doc = Document::new_empty(1, "Doc");
    doc.set_encoding(TextEncoding::Utf8);
    assert!(!doc.is_dirty());
    doc.set_encoding(TextEncoding::Utf16Be);
    assert!(doc.is_dirty());
    assert_eq!(doc.encoding(), TextEncoding::Utf16Be);
}

#[test]
fn edit_override_only_holds_on_read_only_documents() {
    let mut doc = Document::new_empty(1, "Doc");
    doc.set_edit_override(true);
    assert!(!doc.edit_override());
    doc.update_read_only_flag(true);
    assert!(doc.editing_locked());
    doc.set_edit_override(true);
    assert!(doc.edit_override());
    assert!(!doc.editing_locked());
    // Becoming writable drops the override.
    doc.update_read_only_flag(false);
    assert!(!doc.edit_override());
}

#[test]
fn fingerprint_is_cached_and_reported() {
    let mut doc = Document::new_empty(1, "Doc");
    assert!(doc.disk_fingerprint().is_none());
    let fp = DiskFingerprint { modified: some_time(), size: 5, read_only: true };
    doc.apply_fingerprint(&fp);
    assert_eq!(doc.disk_fingerprint(), Some(fp));
    assert!(doc.read_only());
    assert_eq!(doc.last_modified(), Some(some_time()));
}

#[test]
fn refresh_read_only_needs_a_path() {
    let mut doc = Document::new_empty(1, "Doc");
    doc.refresh_read_only(DiskObservation::ReadOnly(true));
    assert!(!doc.read_only());
    doc.set_path("/tmp/x.txt");
    doc.refresh_read_only(DiskObservation::ReadOnly(true));
    assert!(doc.read_only());
}

#[test]
fn save_as_without_metadata_forgets_cache() {
    let mut doc = Document::new_empty(1, "Doc");
    let fp = DiskFingerprint { modified: some_time(), size: 5, read_only: true };
    doc.apply_fingerprint(&fp);
    doc.save_as("/tmp/out.txt", DiskObservation::Unavailable);
    assert!(doc.last_modified().is_none());
    assert!(!doc.read_only());
    assert_eq!(doc.title(), "out.txt");
}

#[test]
fn reload_with_encoding_replaces_text_and_cleans() {
    let mut doc = Document::new_empty(1, "Doc");
    doc.set_path("/tmp/r.txt");
    doc.set_text("old");
    doc.reload_with_encoding(b"caf\xe9", TextEncoding::Iso8859_1, DiskObservation::Unavailable).unwrap();
    assert_eq!(doc.text(), "café");
    assert_eq!(doc.encoding(), TextEncoding::Iso8859_1);
    assert!(!doc.is_dirty());
    let bad = doc.reload_with_encoding(b"\xff", TextEncoding::Utf8, DiskObservation::Unavailable);
    assert!(matches!(bad, Err(DocumentError::InvalidData(_))));
    assert_eq!(doc.text(), "café");
}

#[test]
fn decoding_errors_are_reported() {
    let odd = decode_bytes_with_encoding(&[0x00, 0x41, 0x00], TextEncoding::Utf16Be);
    assert!(matches!(odd, Err(DocumentError::InvalidData(ref m)) if m == "utf-16 payload had an odd number of bytes"));
    let lone = decode_bytes_with_encoding(&[0x00, 0xD8], TextEncoding::Utf16Le);
    assert!(matches!(lone, Err(DocumentError::InvalidData(ref m)) if m == "invalid utf-16: lone surrogate found"));
    let bad_bom = decode_bytes(&[0xEF, 0xBB, 0xBF, 0xFF]);
    assert!(matches!(bad_bom, Err(DocumentError::InvalidData(ref m)) if m == "invalid utf-8 sequence of 1 bytes from index 0"));
    let forced = decode_bytes_with_encoding(&[0x41, 0xC3], TextEncoding::Utf8);
    assert!(matches!(forced, Err(DocumentError::InvalidData(ref m)) if m == "incomplete utf-8 byte sequence from index 1"));
}

#[test]
fn encodings_write_their_byte_order_marks() {
    assert_eq!(encode_text("A", TextEncoding::Utf16Le).unwrap(), vec![0xFF, 0xFE, 0x41, 0x00]);
    assert_eq!(encode_text("A", TextEncoding::Utf16Be).unwrap(), vec![0xFE, 0xFF, 0x00, 0x41]);
    assert_eq!(encode_text("é", TextEncoding::Iso8859_1).unwrap(), vec![0xE9]);
    assert_eq!(encode_text("é", TextEncoding::Utf8).unwrap(), vec![0xC3, 0xA9]);
    let (enc, text) = decode_bytes(&[0xEF, 0xBB, 0xBF, 0x41]).unwrap();
    assert_eq!(enc, TextEncoding::Utf8);
    assert_eq!(text, "A");
}

#[test]
fn encoding_round_trips() {
    for enc in [TextEncoding::Utf8, TextEncoding::Utf16Le, TextEncoding::Utf16Be, TextEncoding::Iso8859_1] {
        let bytes = encode_text("Grüße", enc).unwrap();
        let (found, text) = decode_bytes(&bytes).unwrap();
        assert_eq!(text, "Grüße");
        assert_eq!(found, enc);
    }
}

#[test]
fn line_ending_conversions() {
    assert_eq!(convert_line_endings("a\r\nb\nc", LineEnding::Lf), "a\nb\nc");
    assert_eq!(convert_line_endings("a\r\nb\nc", LineEnding::Crlf), "a\r\nb\r\nc");
    // Converting to CRLF twice is the same as converting once.
    let once = convert_line_endings("x\ny\r\n", LineEnding::Crlf);
    assert_eq!(convert_line_endings(&once, LineEnding::Crlf), once);
    // LF then CRLF then LF gives back LF text.
    assert_eq!(convert_line_endings(&convert_line_endings("p\nq", LineEnding::Crlf), LineEnding::Lf), "p\nq");
}

#[test]
fn external_flags_are_set_and_cleared() {
    let mut doc = Document::new_empty(1, "Doc");
    doc.set_externally_modified(true);
    doc.set_externally_deleted(true);
    assert!(doc.is_externally_modified());
    assert!(doc.is_externally_deleted());
    doc.clear_external_flags();
    assert!(!doc.is_externally_modified());
    assert!(!doc.is_externally_deleted());
}

#[test]
fn title_falls_back_to_the_whole_path() {
    assert_eq!(ghostpad_core::document::document_title_from_path("/"), "/");
    assert_eq!(ghostpad_core::document::document_title_from_path("dir/name.txt"), "name.txt");
}

#[test]
fn characters_are_counted_not_bytes() {
    assert_eq!(ghostpad_core::text::count_chars("héllo 💖"), 7);
    assert_eq!(ghostpad_core::text::count_chars(""), 0);
}

#[test]
fn reload_needs_a_path() {
    let mut doc = Document::new_empty(1, "Untitled");
    doc.set_text("keep");
    let r = doc.reload_with_encoding(b"x", TextEncoding::Utf8, DiskObservation::Unavailable);
    assert!(matches!(r, Err(DocumentError::MissingPath)));
    assert_eq!(doc.text(), "keep");
    assert!(doc.is_dirty());
}

#[test]
fn literal_queries_escape_meta_characters() {
    let mut doc = Document::new_empty(1, "Doc");
    doc.set_text("a.b axb a.b");
    let compiled = doc.compile_find("a.b", &FindOptions::default()).unwrap();
    assert_eq!(compiled.matches.len(), 2);
    assert_eq!(compiled.matches[1].char_start, 8);
}

#[test]
fn error_messages() {
    assert_eq!(DocumentError::MissingPath.message("").as_deref(), Some("no file path associated with the document"));
    assert_eq!(DocumentError::DocumentNotFound(42).message("").as_deref(), Some("no document with id 42"));
    assert_eq!(DocumentError::ReadOnlyDocument("a.txt".to_string()).message("").as_deref(), Some("document 'a.txt' is read-only; enable editing to proceed"));
    assert_eq!(DocumentError::InvalidSearchPattern("bad".to_string()).message("").as_deref(), Some("invalid search pattern: bad"));
    assert_eq!(DocumentError::InvalidData("x".to_string()).message("").as_deref(), Some("invalid data: x"));
    assert_eq!(DocumentError::UnsupportedEncoding("enc").message("").as_deref(), Some("unsupported encoding: enc"));
    let io = std::io::Error::new(std::io::ErrorKind::Other, "boom");
    assert_eq!(DocumentError::Io(io).message("boom").as_deref(), Some("io error: boom"));
    let summary = DocumentSummary {
        id: 1,
        title: "Draft".to_string(),
        path: None,
        encoding: TextEncoding::Utf8,
        line_ending: LineEnding::Lf,
        dirty: true,
        read_only: false,
        editing_locked: false,
        externally_modified: false,
        externally_deleted: false,
    };
    assert_eq!(DocumentError::DocumentDirty(summary).message("").as_deref(), Some("document 'Draft' has unsaved changes"));
    let big = DocumentError::FileTooLarge { path: "/a".to_string(), size: 2, limit: 1 };
    assert!(big.message("").is_none());
}
