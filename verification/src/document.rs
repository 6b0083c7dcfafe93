//! The document model: a text buffer with its file path, encoding, line
//! ending, dirty flag and read-only state.
use vstd::prelude::*;
use crate::encoding::{
    converted_line_endings, convert_line_endings, decode_bytes, decode_bytes_with_encoding,
    decode_error_message, decoded_bytes, decoded_with_encoding, detect_error_message, detect_line_ending, encode_text,
    encoded_bytes, latin1_encode, latin1_representable, law_latin1_round_trip, law_utf16_round_trip,
    law_utf8_detected_round_trip, line_ending_of, starts_with, bom_utf16be, bom_utf16le, bom_utf8, LineEnding,
    TextEncoding,
};
use vstd::utf8::valid_utf8;
use crate::platform::{file_name_of, path_file_name};
use crate::search::{compile_find, find_pattern_error, find_pattern_model, matches_well_placed, pattern_matches, CompiledFind, FindOptions};
use crate::text::{copy_string, decimal, push_decimal_u64, push_str};

verus! {

/// High level data exposed to UI listings.
#[derive(Debug, Clone, PartialEq, Eq)]
pub struct DocumentSummary {
    pub id: u64,
    pub title: String,
    pub path: Option<String>,
    pub encoding: TextEncoding,
    pub line_ending: LineEnding,
    pub dirty: bool,
    pub read_only: bool,
    pub editing_locked: bool,
    pub externally_modified: bool,
    pub externally_deleted: bool,
}

/// Errors that can occur when working with a document.
#[derive(Debug)]
pub enum DocumentError {
    /// Underlying IO error.
    Io(std::io::Error),
    /// The document encoding is not supported yet.
    UnsupportedEncoding(&'static str),
    /// The document data could not be decoded.
    InvalidData(String),
    /// Saving requires a file path.
    MissingPath,
    /// Requested document could not be located.
    DocumentNotFound(u64),
    /// Attempted to close a document that still has unsaved changes.
    DocumentDirty(DocumentSummary),
    /// Refused to open a document that exceeds the configured size guard.
    FileTooLarge { path: String, size: u64, limit: u64 },
    /// The supplied search pattern could not be parsed.
    InvalidSearchPattern(String),
    /// Attempted to modify a document that is locked for editing.
    ReadOnlyDocument(String),
}

/// The message shown for an error, given the text of the operating-system
/// error behind an `Io` error. `None` for `FileTooLarge`: its message gives
/// the sizes in MiB to one decimal, which is floating-point formatting and is
/// left to the caller.
pub open spec fn error_text(e: DocumentError, io_text: Seq<char>) -> Option<Seq<char>> {
    match e {
        DocumentError::Io(_) => Some("io error: "@ + io_text),
        DocumentError::UnsupportedEncoding(enc) => Some("unsupported encoding: "@ + enc@),
        DocumentError::InvalidData(reason) => Some("invalid data: "@ + reason@),
        DocumentError::MissingPath => Some("no file path associated with the document"@),
        DocumentError::DocumentNotFound(id) => Some("no document with id "@ + decimal(id as nat)),
        DocumentError::DocumentDirty(summary) => Some("document '"@ + summary.title@ + "' has unsaved changes"@),
        DocumentError::FileTooLarge { .. } => None,
        DocumentError::InvalidSearchPattern(reason) => Some("invalid search pattern: "@ + reason@),
        DocumentError::ReadOnlyDocument(title) => Some(
            "document '"@ + title@ + "' is read-only; enable editing to proceed"@,
        ),
    }
}

impl DocumentError {
    /// The message shown for this error (see `error_text`); `io_text` is the
    /// text of the operating-system error behind an `Io` error.
    pub fn message(&self, io_text: &str) -> (m: Option<String>)
        ensures
            m.deep_view() == error_text(*self, io_text@),
    {
        proof {
            reveal_strlit("");
        }
        match self {
            DocumentError::Io(_) => {
                assert("io error: "@ + io_text@ + ""@ =~= "io error: "@ + io_text@);
                Some(joined("io error: ", io_text, ""))
            },
            DocumentError::UnsupportedEncoding(enc) => {
                assert("unsupported encoding: "@ + enc@ + ""@ =~= "unsupported encoding: "@ + enc@);
                Some(joined("unsupported encoding: ", enc, ""))
            },
            DocumentError::InvalidData(reason) => {
                assert("invalid data: "@ + reason@ + ""@ =~= "invalid data: "@ + reason@);
                Some(joined("invalid data: ", reason.as_str(), ""))
            },
            DocumentError::MissingPath => Some(copy_string("no file path associated with the document")),
            DocumentError::DocumentNotFound(id) => {
                let mut m = copy_string("no document with id ");
                push_decimal_u64(&mut m, *id);
                Some(m)
            },
            DocumentError::DocumentDirty(summary) => Some(
                joined("document '", summary.title.as_str(), "' has unsaved changes"),
            ),
            DocumentError::FileTooLarge { .. } => None,
            DocumentError::InvalidSearchPattern(reason) => {
                assert("invalid search pattern: "@ + reason@ + ""@ =~= "invalid search pattern: "@ + reason@);
                Some(joined("invalid search pattern: ", reason.as_str(), ""))
            },
            DocumentError::ReadOnlyDocument(title) => Some(
                joined("document '", title.as_str(), "' is read-only; enable editing to proceed"),
            ),
        }
    }
}

/// `a`, `b` and `c` one after the other.
fn joined(a: &str, b: &str, c: &str) -> (r: String)
    ensures
        r@ == a@ + b@ + c@,
{
    let mut r = copy_string(a);
    push_str(&mut r, b);
    push_str(&mut r, c);
    r
}

impl From<std::io::Error> for DocumentError {
    fn from(err: std::io::Error) -> (r: Self)
        ensures
            r == DocumentError::Io(err),
    {
        DocumentError::Io(err)
    }
}

impl vstd::std_specs::convert::FromSpecImpl<std::io::Error> for DocumentError {
    open spec fn obeys_from_spec() -> bool {
        true
    }

    open spec fn from_spec(err: std::io::Error) -> DocumentError {
        DocumentError::Io(err)
    }
}

/// Convenience type alias representing the result for document operations.
pub type DocumentResult<T> = Result<T, DocumentError>;

/// Snapshot of file metadata used to detect external modifications.
#[derive(Debug, Clone, Copy, PartialEq, Eq)]
pub struct DiskFingerprint {
    /// Last modification time of the file.
    pub modified: std::time::SystemTime,
    /// Size of the file in bytes.
    pub size: u64,
    /// Whether the file is read-only.
    pub read_only: bool,
}

/// What reading a file's metadata found: a full fingerprint, only its
/// permissions (no modification time available), or nothing.
#[derive(Debug, Clone, Copy)]
pub enum DiskObservation {
    Fingerprint(DiskFingerprint),
    ReadOnly(bool),
    Unavailable,
}

/// The display title of a path: its final component when it has one, the
/// whole path otherwise.
pub open spec fn title_for_path(path: Seq<char>) -> Seq<char> {
    match path_file_name(path) {
        Some(name) => name,
        None => path,
    }
}

/// Derives the display title of a document from its path.
pub fn document_title_from_path(path: &str) -> (t: String)
    ensures
        t@ == title_for_path(path@),
{
    match file_name_of(path) {
        Some(name) => name,
        None => copy_string(path),
    }
}

/// What a document holds.
pub struct DocumentModel {
    pub id: u64,
    pub title: Seq<char>,
    pub text: Seq<char>,
    pub path: Option<Seq<char>>,
    pub encoding: TextEncoding,
    pub line_ending: LineEnding,
    pub dirty: bool,
    pub last_modified: Option<std::time::SystemTime>,
    pub last_size: Option<u64>,
    pub read_only: bool,
    pub edit_override: bool,
    pub externally_modified: bool,
    pub externally_deleted: bool,
}

impl DocumentModel {
    /// Edits are blocked: the file is read-only and the user has not
    /// overridden the lock.
    pub open spec fn editing_locked(self) -> bool {
        self.read_only && !self.edit_override
    }

    /// The state after the read-only flag is set from the file system: an
    /// override only survives while the file stays read-only.
    pub open spec fn with_read_only(self, read_only: bool) -> DocumentModel {
        DocumentModel {
            read_only,
            edit_override: if read_only { self.edit_override } else { false },
            ..self
        }
    }

    /// The state after a fingerprint is applied.
    pub open spec fn with_fingerprint(self, fp: DiskFingerprint) -> DocumentModel {
        DocumentModel {
            last_modified: Some(fp.modified),
            last_size: Some(fp.size),
            ..self
        }.with_read_only(fp.read_only)
    }

    /// The state after metadata read from disk is taken in (for opening,
    /// refreshing and reloading): a fingerprint is applied, permissions alone
    /// only update the read-only flag, and nothing changes when no metadata
    /// could be read.
    pub open spec fn with_observation(self, obs: DiskObservation) -> DocumentModel {
        match obs {
            DiskObservation::Fingerprint(fp) => self.with_fingerprint(fp),
            DiskObservation::ReadOnly(ro) => self.with_read_only(ro),
            DiskObservation::Unavailable => self,
        }
    }

    /// The state after the text is replaced: the line ending is detected
    /// anew and the document is dirty.
    pub open spec fn with_text(self, text: Seq<char>) -> DocumentModel {
        DocumentModel { text, line_ending: line_ending_of(text), dirty: true, ..self }
    }

    /// The state after the encoding is set; a change marks it dirty.
    pub open spec fn with_encoding(self, encoding: TextEncoding) -> DocumentModel {
        if self.encoding == encoding {
            self
        } else {
            DocumentModel { encoding, dirty: true, ..self }
        }
    }

    /// The state after the line ending is set; a change converts the text
    /// and marks it dirty.
    pub open spec fn with_line_ending(self, line_ending: LineEnding) -> DocumentModel {
        if self.line_ending == line_ending {
            self
        } else {
            DocumentModel {
                text: converted_line_endings(self.text, line_ending),
                line_ending,
                dirty: true,
                ..self
            }
        }
    }

    /// The state after the user asks to override the read-only lock; on a
    /// writable document the override stays off.
    pub open spec fn with_edit_override(self, enabled: bool) -> DocumentModel {
        DocumentModel { edit_override: self.read_only && enabled, ..self }
    }

    /// The state after the document was written to `path` and the file's
    /// metadata read back: backed by `path`, titled after it and clean. A
    /// fingerprint is applied; with permissions only, the cached time and
    /// size are dropped and the read-only flag set from them; without
    /// metadata, both are dropped and the document is treated as writable.
    pub open spec fn saved_at(self, path: Seq<char>, observed: DiskObservation) -> DocumentModel {
        let base = DocumentModel { path: Some(path), title: title_for_path(path), dirty: false, ..self };
        match observed {
            DiskObservation::Fingerprint(fp) => base.with_fingerprint(fp),
            DiskObservation::ReadOnly(ro) => DocumentModel {
                last_modified: None,
                last_size: None,
                ..base
            }.with_read_only(ro),
            DiskObservation::Unavailable => DocumentModel {
                last_modified: None,
                last_size: None,
                ..base
            }.with_read_only(false),
        }
    }

    /// The state after the contents were read back from disk as `text` in
    /// `encoding`: the line ending detected anew, clean, and the metadata
    /// read taken in.
    pub open spec fn reloaded(self, text: Seq<char>, encoding: TextEncoding, observed: DiskObservation) -> DocumentModel {
        (DocumentModel { text, encoding, line_ending: line_ending_of(text), dirty: false, ..self }).with_observation(
            observed,
        )
    }

    /// The state after the document is attached to `path` without touching
    /// the disk: titled after it, cached metadata dropped, and writable.
    pub open spec fn with_path(self, path: Seq<char>) -> DocumentModel {
        DocumentModel {
            path: Some(path),
            title: title_for_path(path),
            last_modified: None,
            last_size: None,
            read_only: false,
            edit_override: false,
            ..self
        }
    }

    /// The state after the external-change flags are cleared.
    pub open spec fn without_external_flags(self) -> DocumentModel {
        DocumentModel { externally_modified: false, externally_deleted: false, ..self }
    }

    /// The invariant every document keeps.
    pub open spec fn wf(self) -> bool {
        &&& self.edit_override ==> self.read_only
        &&& (self.last_modified is Some <==> self.last_size is Some)
    }
}

/// A new, unsaved, empty document.
pub open spec fn empty_document(id: u64, title: Seq<char>) -> DocumentModel {
    DocumentModel {
        id,
        title,
        text: Seq::empty(),
        path: None,
        encoding: TextEncoding::Utf8,
        line_ending: LineEnding::Lf,
        dirty: false,
        last_modified: None,
        last_size: None,
        read_only: false,
        edit_override: false,
        externally_modified: false,
        externally_deleted: false,
    }
}

/// A document read from the file at `path`, whose bytes decoded as `text`
/// in `encoding`, with the metadata read for it taken in.
pub open spec fn disk_document(
    id: u64,
    path: Seq<char>,
    encoding: TextEncoding,
    text: Seq<char>,
    observed: DiskObservation,
) -> DocumentModel {
    (DocumentModel {
        id,
        title: title_for_path(path),
        text,
        path: Some(path),
        encoding,
        line_ending: line_ending_of(text),
        ..empty_document(id, Seq::empty())
    }).with_observation(observed)
}

/// Text written in an encoding is read back by `decode_bytes` as the same
/// text in the same encoding: always for UTF-16; for UTF-8 unless the text
/// starts with U+FEFF (read as a byte order mark); for ISO-8859-1 when the
/// bytes start with no byte order mark and are not valid UTF-8 (otherwise
/// they are read as UTF-16 or UTF-8).
pub open spec fn reopens_unchanged(text: Seq<char>, encoding: TextEncoding) -> bool {
    match encoding {
        TextEncoding::Utf8 => text.len() == 0 || text[0] != '\u{FEFF}',
        TextEncoding::Iso8859_1 => latin1_representable(text) && {
            let b = latin1_encode(text);
            &&& !starts_with(b, bom_utf16le())
            &&& !starts_with(b, bom_utf16be())
            &&& !starts_with(b, bom_utf8())
            &&& !valid_utf8(b)
        },
        _ => true,
    }
}

/// Saving a document to `path` and opening that file again gives a clean
/// document at `path` with the same text, encoding and line ending, when the
/// text reads back unchanged (`reopens_unchanged`) and its line ending is
/// the one detected in it (not so for a CRLF document without line breaks).
pub proof fn law_save_then_open(d: DocumentModel, id: u64, path: Seq<char>, observed: DiskObservation)
    requires
        reopens_unchanged(d.text, d.encoding),
        line_ending_of(d.text) == d.line_ending,
    ensures
        encoded_bytes(d.text, d.encoding) is Some,
        decoded_bytes(encoded_bytes(d.text, d.encoding)->0) == Some((d.encoding, d.text)),
        ({
            let o = disk_document(id, path, d.encoding, d.text, observed);
            &&& o.text == d.text
            &&& o.encoding == d.encoding
            &&& o.line_ending == d.line_ending
            &&& !o.dirty
            &&& o.path == Some(path)
        }),
{
    match d.encoding {
        TextEncoding::Utf8 => law_utf8_detected_round_trip(d.text),
        TextEncoding::Utf16Le => law_utf16_round_trip(d.text, true),
        TextEncoding::Utf16Be => law_utf16_round_trip(d.text, false),
        TextEncoding::Iso8859_1 => law_latin1_round_trip(d.text),
    }
}

/// The summary a document reports.
pub open spec fn summarizes(s: DocumentSummary, d: DocumentModel) -> bool {
    &&& s.id == d.id
    &&& s.title@ == d.title
    &&& s.path.deep_view() == d.path
    &&& s.encoding == d.encoding
    &&& s.line_ending == d.line_ending
    &&& s.dirty == d.dirty
    &&& s.read_only == d.read_only
    &&& s.editing_locked == d.editing_locked()
    &&& s.externally_modified == d.externally_modified
    &&& s.externally_deleted == d.externally_deleted
}

/// Represents a text buffer and metadata tracked by the application.
pub struct Document {
    id: u64,
    title: String,
    text: String,
    path: Option<String>,
    encoding: TextEncoding,
    line_ending: LineEnding,
    dirty: bool,
    disk_cache: Option<(std::time::SystemTime, u64)>,
    read_only: bool,
    edit_override: bool,
    externally_modified: bool,
    externally_deleted: bool,
}

impl View for Document {
    type V = DocumentModel;

    closed spec fn view(&self) -> DocumentModel {
        DocumentModel {
            id: self.id,
            title: self.title@,
            text: self.text@,
            path: self.path.deep_view(),
            encoding: self.encoding,
            line_ending: self.line_ending,
            dirty: self.dirty,
            last_modified: match self.disk_cache {
                Some(c) => Some(c.0),
                None => None,
            },
            last_size: match self.disk_cache {
                Some(c) => Some(c.1),
                None => None,
            },
            read_only: self.read_only,
            edit_override: self.edit_override,
            externally_modified: self.externally_modified,
            externally_deleted: self.externally_deleted,
        }
    }
}

impl Document {
    #[verifier::type_invariant]
    spec fn well_formed(self) -> bool {
        self.edit_override ==> self.read_only
    }

    /// Creates a new unsaved document with default metadata.
    pub fn new_empty(id: u64, title: &str) -> (d: Self)
        ensures
            d@ == empty_document(id, title@),
    {
        Document {
            id,
            title: copy_string(title),
            text: String::new(),
            path: None,
            encoding: TextEncoding::Utf8,
            line_ending: LineEnding::Lf,
            dirty: false,
            disk_cache: None,
            read_only: false,
            edit_override: false,
            externally_modified: false,
            externally_deleted: false,
        }
    }

    /// Opens a document from the bytes read from the file at `path` and the
    /// metadata read for it: the encoding is inferred, the line ending
    /// detected, the title taken from the path, and the metadata applied.
    pub fn open(id: u64, path: &str, bytes: &[u8], observed: DiskObservation) -> (r: DocumentResult<Self>)
        ensures
            match (r, decoded_bytes(bytes@)) {
                (Ok(d), Some((enc, text))) => d@ == disk_document(id, path@, enc, text, observed),
                (Err(DocumentError::InvalidData(m)), None) => m@ == detect_error_message(bytes@),
                _ => false,
            },
    {
        let (encoding, text) = match decode_bytes(bytes) {
            Ok(pair) => pair,
            Err(e) => return Err(e),
        };
        let line_ending = detect_line_ending(text.as_str());
        let mut document = Document {
            id,
            title: document_title_from_path(path),
            text,
            path: Some(copy_string(path)),
            encoding,
            line_ending,
            dirty: false,
            disk_cache: None,
            read_only: false,
            edit_override: false,
            externally_modified: false,
            externally_deleted: false,
        };
        document.take_observation(observed);
        Ok(document)
    }

    /// Take in metadata read from disk (see `DocumentModel::with_observation`).
    pub fn take_observation(&mut self, observed: DiskObservation)
        ensures
            final(self)@ == old(self)@.with_observation(observed),
    {
        proof {
            use_type_invariant(&*self);
        }
        match observed {
            DiskObservation::Fingerprint(fp) => self.apply_fingerprint(&fp),
            DiskObservation::ReadOnly(ro) => self.update_read_only_flag(ro),
            DiskObservation::Unavailable => {},
        }
    }

    /// The path a save or reload works on, or `MissingPath` when the
    /// document has none.
    pub fn backing_path(&self) -> (r: DocumentResult<String>)
        ensures
            match (r, self@.path) {
                (Ok(p), Some(q)) => p@ == q,
                (Err(e), None) => e is MissingPath,
                _ => false,
            },
    {
        match &self.path {
            Some(p) => Ok(p.clone()),
            None => Err(DocumentError::MissingPath),
        }
    }

    /// First step of saving the document to its current path: the path to
    /// write to, or `MissingPath` for a document that has none.
    pub fn save(&self) -> (r: DocumentResult<String>)
        ensures
            match (r, self@.path) {
                (Ok(p), Some(q)) => p@ == q,
                (Err(e), None) => e is MissingPath,
                _ => false,
            },
    {
        self.backing_path()
    }

    /// The bytes that saving writes: the text in the document's encoding.
    pub fn encoded_text(&self) -> (r: DocumentResult<Vec<u8>>)
        ensures
            match (r, encoded_bytes(self@.text, self@.encoding)) {
                (Ok(b), Some(e)) => b@ == e,
                (Err(err), None) => err == DocumentError::UnsupportedEncoding(
                    "character not representable in ISO-8859-1",
                ),
                _ => false,
            },
    {
        encode_text(self.text.as_str(), self.encoding)
    }

    /// Records that the document was saved to `path` (its `encoded_text`
    /// written there) and the file's metadata read back: the document is
    /// now backed by `path`, titled after it and clean (see
    /// `DocumentModel::saved_at`).
    pub fn save_as(&mut self, path: &str, observed: DiskObservation)
        ensures
            final(self)@ == old(self)@.saved_at(path@, observed),
    {
        proof {
            use_type_invariant(&*self);
        }
        self.path = Some(copy_string(path));
        self.title = document_title_from_path(path);
        self.dirty = false;
        match observed {
            DiskObservation::Fingerprint(fp) => self.apply_fingerprint(&fp),
            DiskObservation::ReadOnly(ro) => {
                self.forget_fingerprint();
                self.update_read_only_flag(ro);
            },
            DiskObservation::Unavailable => {
                self.forget_fingerprint();
                self.update_read_only_flag(false);
            },
        }
    }

    fn forget_fingerprint(&mut self)
        ensures
            final(self)@ == (DocumentModel { last_modified: None, last_size: None, ..old(self)@ }),
    {
        proof {
            use_type_invariant(&*self);
        }
        self.disk_cache = None;
    }

    /// Attaches the document to a new path without writing to disk.
    pub fn set_path(&mut self, path: &str)
        ensures
            final(self)@ == old(self)@.with_path(path@),
    {
        proof {
            use_type_invariant(&*self);
        }
        self.path = Some(copy_string(path));
        self.title = document_title_from_path(path);
        self.disk_cache = None;
        self.edit_override = false;
        self.read_only = false;
    }

    /// Updates the text buffer and marks the document dirty.
    pub fn set_text(&mut self, text: &str)
        ensures
            final(self)@ == old(self)@.with_text(text@),
    {
        proof {
            use_type_invariant(&*self);
        }
        self.text = copy_string(text);
        self.line_ending = detect_line_ending(text);
        self.dirty = true;
    }

    /// Returns true if the file backing this document is read-only.
    pub fn read_only(&self) -> (b: bool)
        ensures
            b == self@.read_only,
            self@.wf(),
    {
        proof {
            use_type_invariant(self);
        }
        self.read_only
    }

    /// Returns true if a user override has been enabled for editing.
    /// A document keeps the invariant `DocumentModel::wf`: an override of
    /// the read-only lock only exists while the file is read-only.
    pub fn edit_override(&self) -> (b: bool)
        ensures
            b == self@.edit_override,
            self@.wf(),
    {
        proof {
            use_type_invariant(self);
        }
        self.edit_override
    }

    /// Returns true when edits should be blocked because the file is read-only.
    pub fn editing_locked(&self) -> (b: bool)
        ensures
            b == self@.editing_locked(),
    {
        self.read_only && !self.edit_override
    }

    /// Sets whether the user has opted into overriding the read-only lock;
    /// on a writable document the override stays off.
    pub fn set_edit_override(&mut self, enabled: bool)
        ensures
            final(self)@ == old(self)@.with_edit_override(enabled),
    {
        proof {
            use_type_invariant(&*self);
        }
        if self.read_only {
            self.edit_override = enabled;
        } else {
            self.edit_override = false;
        }
    }

    /// Returns the cached disk fingerprint for this document if available.
    pub fn disk_fingerprint(&self) -> (r: Option<DiskFingerprint>)
        ensures
            match (self@.last_modified, self@.last_size) {
                (Some(m), Some(s)) => r == Some(DiskFingerprint { modified: m, size: s, read_only: self@.read_only }),
                _ => r is None,
            },
    {
        match self.disk_cache {
            Some((modified, size)) => Some(DiskFingerprint { modified, size, read_only: self.read_only }),
            None => None,
        }
    }

    /// Applies a new disk fingerprint and reconciles read-only overrides.
    pub fn apply_fingerprint(&mut self, fingerprint: &DiskFingerprint)
        ensures
            final(self)@ == old(self)@.with_fingerprint(*fingerprint),
    {
        proof {
            use_type_invariant(&*self);
        }
        if !fingerprint.read_only {
            self.edit_override = false;
        }
        self.read_only = fingerprint.read_only;
        self.disk_cache = Some((fingerprint.modified, fingerprint.size));
    }

    /// Updates the in-memory read-only flag without touching cached metadata.
    pub fn update_read_only_flag(&mut self, read_only: bool)
        ensures
            final(self)@ == old(self)@.with_read_only(read_only),
    {
        proof {
            use_type_invariant(&*self);
        }
        if !read_only {
            self.edit_override = false;
        }
        self.read_only = read_only;
    }

    /// Refreshes the tracked read-only flag from metadata read for the
    /// document's path; nothing changes for a document without a path.
    pub fn refresh_read_only(&mut self, observed: DiskObservation)
        ensures
            old(self)@.path is Some ==> final(self)@ == old(self)@.with_observation(observed),
            old(self)@.path is None ==> final(self)@ == old(self)@,
    {
        proof {
            use_type_invariant(&*self);
        }
        if self.path.is_some() {
            self.take_observation(observed);
        }
    }

    /// Marks the document as clean without touching the file system.
    pub fn mark_clean(&mut self)
        ensures
            final(self)@ == (DocumentModel { dirty: false, ..old(self)@ }),
    {
        proof {
            use_type_invariant(&*self);
        }
        self.dirty = false;
    }

    /// Change the tracked encoding; a change marks the document dirty.
    pub fn set_encoding(&mut self, encoding: TextEncoding)
        ensures
            final(self)@ == old(self)@.with_encoding(encoding),
    {
        proof {
            use_type_invariant(&*self);
        }
        if self.encoding != encoding {
            self.encoding = encoding;
            self.dirty = true;
        }
    }

    /// Change the tracked line ending preference, converting the text; a
    /// change marks the document dirty.
    pub fn set_line_ending(&mut self, line_ending: LineEnding)
        ensures
            final(self)@ == old(self)@.with_line_ending(line_ending),
    {
        proof {
            use_type_invariant(&*self);
        }
        if self.line_ending != line_ending {
            self.text = convert_line_endings(self.text.as_str(), line_ending);
            self.line_ending = line_ending;
            self.dirty = true;
        }
    }

    /// Reload the contents from the bytes read from the backing file, decoded
    /// with the given encoding. A document without a path is refused with
    /// `MissingPath`. On success the document takes the decoded text, the
    /// encoding and the detected line ending, is clean, and takes in the
    /// metadata read; on failure it is unchanged.
    pub fn reload_with_encoding(&mut self, bytes: &[u8], encoding: TextEncoding, observed: DiskObservation) -> (r: DocumentResult<()>)
        ensures
            old(self)@.path is None ==> (r matches Err(DocumentError::MissingPath) && final(self)@ == old(self)@),
            old(self)@.path is Some ==> match (r, decoded_with_encoding(bytes@, encoding)) {
                (Ok(()), Some(text)) => final(self)@ == old(self)@.reloaded(text, encoding, observed),
                (Err(DocumentError::InvalidData(m)), None) => m@ == decode_error_message(bytes@, encoding)
                    && final(self)@ == old(self)@,
                _ => false,
            },
    {
        proof {
            use_type_invariant(&*self);
        }
        if self.path.is_none() {
            return Err(DocumentError::MissingPath);
        }
        let text = match decode_bytes_with_encoding(bytes, encoding) {
            Ok(t) => t,
            Err(e) => return Err(e),
        };
        self.line_ending = detect_line_ending(text.as_str());
        self.text = text;
        self.encoding = encoding;
        self.dirty = false;
        self.take_observation(observed);
        Ok(())
    }

    /// Returns the identifier for this document.
    pub fn id(&self) -> (r: u64)
        ensures
            r == self@.id,
    {
        self.id
    }

    /// Returns a best-effort display title for UI usage.
    pub fn title(&self) -> (r: &str)
        ensures
            r@ == self@.title,
    {
        self.title.as_str()
    }

    /// Returns the current text buffer.
    pub fn text(&self) -> (r: &str)
        ensures
            r@ == self@.text,
    {
        self.text.as_str()
    }

    /// Returns the optional path backing the document.
    pub fn path(&self) -> (r: Option<&str>)
        ensures
            match (r, self@.path) {
                (Some(p), Some(q)) => p@ == q,
                (None, None) => true,
                _ => false,
            },
    {
        match &self.path {
            Some(p) => Some(p.as_str()),
            None => None,
        }
    }

    /// Returns the tracked encoding.
    pub fn encoding(&self) -> (r: TextEncoding)
        ensures
            r == self@.encoding,
    {
        self.encoding
    }

    /// Returns the tracked line ending style.
    pub fn line_ending(&self) -> (r: LineEnding)
        ensures
            r == self@.line_ending,
    {
        self.line_ending
    }

    /// Indicates whether the document has unsaved changes.
    pub fn is_dirty(&self) -> (r: bool)
        ensures
            r == self@.dirty,
    {
        self.dirty
    }

    /// Returns the last modification timestamp observed on disk.
    pub fn last_modified(&self) -> (r: Option<std::time::SystemTime>)
        ensures
            r == self@.last_modified,
    {
        match self.disk_cache {
            Some((modified, _)) => Some(modified),
            None => None,
        }
    }

    /// Produce a lightweight summary suitable for UI listings.
    pub fn summary(&self) -> (s: DocumentSummary)
        ensures
            summarizes(s, self@),
    {
        DocumentSummary {
            id: self.id,
            title: self.title.clone(),
            path: match &self.path {
                Some(p) => Some(p.clone()),
                None => None,
            },
            encoding: self.encoding,
            line_ending: self.line_ending,
            dirty: self.dirty,
            read_only: self.read_only,
            editing_locked: self.editing_locked(),
            externally_modified: self.externally_modified,
            externally_deleted: self.externally_deleted,
        }
    }

    /// Mark the document as externally modified.
    pub fn set_externally_modified(&mut self, modified: bool)
        ensures
            final(self)@ == (DocumentModel { externally_modified: modified, ..old(self)@ }),
    {
        proof {
            use_type_invariant(&*self);
        }
        self.externally_modified = modified;
    }

    /// Mark the document as externally deleted.
    pub fn set_externally_deleted(&mut self, deleted: bool)
        ensures
            final(self)@ == (DocumentModel { externally_deleted: deleted, ..old(self)@ }),
    {
        proof {
            use_type_invariant(&*self);
        }
        self.externally_deleted = deleted;
    }

    /// Check if externally modified.
    pub fn is_externally_modified(&self) -> (r: bool)
        ensures
            r == self@.externally_modified,
    {
        self.externally_modified
    }

    /// Check if externally deleted.
    pub fn is_externally_deleted(&self) -> (r: bool)
        ensures
            r == self@.externally_deleted,
    {
        self.externally_deleted
    }

    /// Clear external modification flags (after reload or dismiss).
    pub fn clear_external_flags(&mut self)
        ensures
            final(self)@ == old(self)@.without_external_flags(),
    {
        proof {
            use_type_invariant(&*self);
        }
        self.externally_modified = false;
        self.externally_deleted = false;
    }

    /// Compile a search pattern for the document and return all current matches.
    pub fn compile_find(&self, query: &str, options: &FindOptions) -> (r: DocumentResult<CompiledFind>)
        ensures
            match r {
                Ok(c) => find_pattern_error(query@, *options) is None && c.pattern@ == find_pattern_model(
                    query@,
                    *options,
                ) && c.matches@ == pattern_matches(c.pattern@, self@.text) && matches_well_placed(
                    self@.text,
                    c.matches@,
                ),
                Err(DocumentError::InvalidSearchPattern(m)) => find_pattern_error(query@, *options) == Some(m@),
                _ => false,
            },
    {
        compile_find(self.text.as_str(), query, options)
    }
}

} // verus!
