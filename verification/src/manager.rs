//! The document manager: the set of open documents, the active one, find
//! sessions, recent documents and settings. Reading and writing files is
//! left to the caller, which hands in what it read and performs what the
//! manager decides.
use vstd::prelude::*;
use std::collections::HashMap;
use crate::document::{
    disk_document, summarizes, DiskObservation, Document, DocumentError, DocumentModel, DocumentResult,
    DocumentSummary, empty_document,
};
use crate::encoding::{
    converted_line_endings, decode_bytes, decode_error_message, decoded_bytes, decoded_with_encoding,
    detect_error_message, encoded_bytes, line_ending_of,
    LineEnding, TextEncoding,
};
use crate::find::{
    clamped_current, initial_current, is_empty_snapshot, no_matches_message, reports, step_target,
    stored_of, FindSession, FindSnapshot, SearchDirection, SessionModel,
};
use crate::search::{
    capture_matches, find_pattern_error, find_pattern_model, pattern_matches, replace_all_occurrences,
    replace_target, replaced_all, replaced_one, FindOptions,
};
use crate::find::combined_message;
use crate::text::{copy_string, decimal, push_decimal, push_str};
use crate::platform::{paths_equal, same_path};
use crate::autosave::{
    law_restore_document_round_trip, lemma_max_saved_id_attained, lemma_max_saved_id_bounds, max_saved_id,
    observation_at, restores_unchanged, records_document, restored_document, AutosaveDocument, AutosaveSnapshot,
};
use crate::watch::FileEvent;
use crate::settings::{
    record_recent_entry, recorded_recent, EditorSettings, FindDefaults, ManagerConfig, RecentDocument, RecentModel,
    recent_views, UiSettings, WindowState,
};

verus! {

broadcast use vstd::std_specs::hash::group_hash_axioms;

/// Most-recently-used list length.
pub const DEFAULT_MRU_LIMIT: usize = 10;

/// Files larger than this are refused when opening.
pub const MAX_FILE_SIZE_BYTES: u64 = 25 * 1024 * 1024;

/// Some open document has identifier `id`.
pub open spec fn has_document(docs: Seq<DocumentModel>, id: u64) -> bool {
    exists|i: int| 0 <= i < docs.len() && docs[i].id == id
}

/// `i` is the position of the first open document with identifier `id`.
pub open spec fn is_first_with_id(docs: Seq<DocumentModel>, id: u64, i: int) -> bool {
    &&& 0 <= i < docs.len()
    &&& docs[i].id == id
    &&& forall|j: int| 0 <= j < i ==> docs[j].id != id
}

/// The position of the first open document with identifier `id`.
pub open spec fn document_index(docs: Seq<DocumentModel>, id: u64) -> int {
    choose|i: int| is_first_with_id(docs, id, i)
}

/// The first open document with identifier `id`.
pub open spec fn document_of(docs: Seq<DocumentModel>, id: u64) -> DocumentModel {
    docs[document_index(docs, id)]
}

/// When some document has identifier `id`, `document_index` finds the first.
pub proof fn lemma_first_index_exists(docs: Seq<DocumentModel>, id: u64)
    requires
        has_document(docs, id),
    ensures
        is_first_with_id(docs, id, document_index(docs, id)),
{
    let k = choose|i: int| 0 <= i < docs.len() && docs[i].id == id;
    lemma_first_index_below(docs, id, k);
}

proof fn lemma_first_index_below(docs: Seq<DocumentModel>, id: u64, k: int)
    requires
        0 <= k < docs.len(),
        docs[k].id == id,
    ensures
        exists|i: int| is_first_with_id(docs, id, i),
    decreases k,
{
    if exists|j: int| 0 <= j < k && docs[j].id == id {
        let j = choose|j: int| 0 <= j < k && docs[j].id == id;
        lemma_first_index_below(docs, id, j);
    } else {
        assert(is_first_with_id(docs, id, k));
    }
}

proof fn lemma_first_index_unique(docs: Seq<DocumentModel>, id: u64, i: int)
    requires
        is_first_with_id(docs, id, i),
    ensures
        document_index(docs, id) == i,
{
    let c = document_index(docs, id);
    assert(is_first_with_id(docs, id, c));
    if c < i {
        assert(docs[c].id != id);
    } else if i < c {
        assert(docs[i].id != id);
    }
}


/// A session after its query is run again on `text`: the matches found
/// there, keeping the current position (limited to the last match).
pub open spec fn refreshed_session(s: SessionModel, text: Seq<char>) -> SessionModel {
    let m = stored_of(pattern_matches(s.pattern, text));
    SessionModel {
        matches: m,
        current: match s.current {
            Some(c) => clamped_current(Some(c), m.len() as int),
            None => initial_current(m.len() as int),
        },
        ..s
    }
}

proof fn lemma_update_same_id(docs: Seq<DocumentModel>, i: int, d: DocumentModel)
    requires
        0 <= i < docs.len(),
        d.id == docs[i].id,
    ensures
        forall|k: u64| #[trigger] has_document(docs.update(i, d), k) == has_document(docs, k),
        forall|k: u64| has_document(docs, k) ==> #[trigger] document_index(docs.update(i, d), k) == document_index(docs, k),
{
    let nd = docs.update(i, d);
    assert forall|k: u64| #[trigger] has_document(nd, k) == has_document(docs, k) by {
        if has_document(docs, k) {
            let j = choose|j: int| 0 <= j < docs.len() && docs[j].id == k;
            assert(nd[j].id == k);
        }
        if has_document(nd, k) {
            let j = choose|j: int| 0 <= j < nd.len() && nd[j].id == k;
            assert(docs[j].id == k);
        }
    }
    assert forall|k: u64| has_document(docs, k) implies #[trigger] document_index(nd, k) == document_index(docs, k) by {
        lemma_first_index_exists(docs, k);
        let f = document_index(docs, k);
        assert forall|j: int| 0 <= j < f implies nd[j].id != k by {
            assert(docs[j].id != k);
        }
        assert(is_first_with_id(nd, k, f));
        lemma_first_index_unique(nd, k, f);
    }
}


/// Replacing the first document with identifier `id` by one with the same
/// identifier keeps the invariant, and which documents exist.
pub proof fn lemma_with_document_wf(m: ManagerModel, id: u64, d: DocumentModel)
    requires
        m.wf(),
        has_document(m.documents, id),
        d.id == id,
    ensures
        m.with_document(id, d).wf(),
        forall|k: u64| #[trigger] has_document(m.with_document(id, d).documents, k) == has_document(m.documents, k),
        forall|k: u64| has_document(m.documents, k) ==> #[trigger] document_index(m.with_document(id, d).documents, k)
            == document_index(m.documents, k),
        m.with_document(id, d).documents[document_index(m.documents, id)] == d,
        m.with_document(id, d).document(id) == d,
        m.with_document(id, d).documents.len() == m.documents.len(),
{
    lemma_first_index_exists(m.documents, id);
    let i = document_index(m.documents, id);
    lemma_update_same_id(m.documents, i, d);
    let n = m.with_document(id, d);
    assert forall|k: u64| #[trigger] n.sessions.contains_key(k) implies session_valid(n, k) by {
        assert(session_valid(m, k));
    }
}

/// The session a new search creates on a text.
pub open spec fn new_session(query: Seq<char>, options: FindOptions, text: Seq<char>) -> SessionModel {
    let m = stored_of(pattern_matches(find_pattern_model(query, options), text));
    SessionModel {
        query,
        options,
        pattern: find_pattern_model(query, options),
        matches: m,
        current: initial_current(m.len() as int),
    }
}

pub open spec fn direction_of(backwards: bool) -> SearchDirection {
    if backwards {
        SearchDirection::Backward
    } else {
        SearchDirection::Forward
    }
}

/// The match a replacement at the cursor works on: the current match, or
/// the first (last, going backwards) when there is none.
pub open spec fn replace_target_index(s: SessionModel, direction: SearchDirection) -> int {
    match s.current {
        Some(c) => c as int,
        None => match direction {
            SearchDirection::Forward => 0,
            SearchDirection::Backward => s.matches.len() - 1,
        },
    }
}

pub open spec fn replaced_one_message() -> Seq<char> {
    "Replaced 1 occurrence"@
}

pub open spec fn nothing_at_cursor_message() -> Seq<char> {
    "No matching occurrence at cursor"@
}

/// The session and message after a replacement at the cursor: after a
/// replacement the search moves on (when matches remain); otherwise the
/// position is only clamped.
pub open spec fn after_replace_step(s: SessionModel, replaced: bool, direction: SearchDirection, wrap: bool) -> (
    SessionModel,
    Option<Seq<char>>,
) {
    if replaced {
        if s.matches.len() > 0 {
            let (next, msg) = step_target(s.current, s.matches.len() as int, direction, wrap);
            (
                SessionModel { current: Some(next as usize), ..s },
                combined_message(Some(replaced_one_message()), msg),
            )
        } else {
            (s, Some(replaced_one_message()))
        }
    } else {
        (
            SessionModel { current: clamped_current(s.current, s.matches.len() as int), ..s },
            Some(nothing_at_cursor_message()),
        )
    }
}

/// The status message after replacing `count > 0` matches.
pub open spec fn replaced_count_message(count: nat) -> Seq<char> {
    "Replaced "@ + decimal(count) + " occurrence"@ + if count == 1 {
        Seq::<char>::empty()
    } else {
        "s"@
    }
}

/// Document `d` is backed by a path equal to `path` (as `std::path::Path`
/// compares them).
pub open spec fn backed_by(d: DocumentModel, path: Seq<char>) -> bool {
    d.path matches Some(q) && paths_equal(q, path)
}

/// Some open document is backed by `path`.
pub open spec fn has_path(docs: Seq<DocumentModel>, path: Seq<char>) -> bool {
    exists|i: int| 0 <= i < docs.len() && backed_by(docs[i], path)
}

/// `i` is the position of the first open document backed by `path`.
pub open spec fn is_first_with_path(docs: Seq<DocumentModel>, path: Seq<char>, i: int) -> bool {
    &&& 0 <= i < docs.len()
    &&& backed_by(docs[i], path)
    &&& forall|j: int| 0 <= j < i ==> !backed_by(docs[j], path)
}

/// The position of the first open document backed by `path`.
pub open spec fn path_index(docs: Seq<DocumentModel>, path: Seq<char>) -> int {
    choose|i: int| is_first_with_path(docs, path, i)
}

proof fn lemma_first_path_unique(docs: Seq<DocumentModel>, path: Seq<char>, i: int)
    requires
        is_first_with_path(docs, path, i),
    ensures
        path_index(docs, path) == i,
{
    let c = path_index(docs, path);
    assert(is_first_with_path(docs, path, c));
    if c < i {
        assert(!backed_by(docs[c], path));
    } else if i < c {
        assert(!backed_by(docs[i], path));
    }
}

proof fn lemma_remove_keeps_others(docs: Seq<DocumentModel>, i: int, k: u64)
    requires
        0 <= i < docs.len(),
        docs[i].id != k,
        has_document(docs, k),
    ensures
        has_document(docs.remove(i), k),
{
    let j = choose|j: int| 0 <= j < docs.len() && docs[j].id == k;
    let r = docs.remove(i);
    if j < i {
        assert(r[j] == docs[j]);
    } else {
        assert(r[j - 1] == docs[j]);
    }
}

proof fn lemma_push_keeps(docs: Seq<DocumentModel>, d: DocumentModel, k: u64)
    requires
        has_document(docs, k),
    ensures
        has_document(docs.push(d), k),
{
    let j = choose|j: int| 0 <= j < docs.len() && docs[j].id == k;
    assert(docs.push(d)[j] == docs[j]);
}

/// The recent-list entry recorded for document `d` opened or saved at `path`
/// at time `now` (seconds since the Unix epoch).
pub open spec fn recent_entry(d: DocumentModel, path: Seq<char>, now: u64) -> RecentModel {
    RecentModel { path, title: d.title, encoding: d.encoding, line_ending: d.line_ending, last_opened_epoch: now }
}

/// A document made from the bytes of `path` without reading the disk: the
/// decoded text in the detected encoding, titled after the path, clean.
pub open spec fn bytes_document(id: u64, path: Seq<char>, encoding: TextEncoding, text: Seq<char>) -> DocumentModel {
    DocumentModel {
        dirty: false,
        ..empty_document(id, path).with_encoding(encoding).with_text(text).with_path(path)
    }
}

/// The status a new `open` request gets before any file is read.
pub enum OpenStart {
    /// The path is already open; that document is now active.
    AlreadyOpen(DocumentSummary),
    /// The file must be read and handed to `open_document`.
    ReadFile,
}

/// The documents after file event `e` for identifier `id`: the first
/// document with that identifier is flagged as externally modified or
/// deleted; nothing changes when no document has it.
pub open spec fn event_applied(docs: Seq<DocumentModel>, id: u64, e: FileEvent) -> Seq<DocumentModel> {
    if has_document(docs, id) {
        let d = document_of(docs, id);
        docs.update(
            document_index(docs, id),
            match e {
                FileEvent::Modified(_) => DocumentModel { externally_modified: true, ..d },
                FileEvent::Deleted(_) => DocumentModel { externally_deleted: true, ..d },
            },
        )
    } else {
        docs
    }
}

/// The documents after the file events are applied in order.
pub open spec fn events_applied(docs: Seq<DocumentModel>, events: Seq<(u64, FileEvent)>) -> Seq<DocumentModel>
    decreases events.len(),
{
    if events.len() == 0 {
        docs
    } else {
        event_applied(events_applied(docs, events.drop_last()), events.last().0, events.last().1)
    }
}

/// The identifiers of the events that name an open document, in order.
pub open spec fn affected_ids(docs: Seq<DocumentModel>, events: Seq<(u64, FileEvent)>) -> Seq<u64>
    decreases events.len(),
{
    if events.len() == 0 {
        Seq::empty()
    } else {
        let prev = affected_ids(docs, events.drop_last());
        if has_document(docs, events.last().0) {
            prev.push(events.last().0)
        } else {
            prev
        }
    }
}

/// What the manager holds.
pub struct ManagerModel {
    pub documents: Seq<DocumentModel>,
    pub active_id: Option<u64>,
    pub next_id: u64,
    pub recent: Seq<RecentModel>,
    pub ui: UiSettings,
    pub editor: EditorSettings,
    pub find_defaults: FindDefaults,
    pub window: WindowState,
    pub mru_limit: usize,
    pub sessions: Map<u64, SessionModel>,
}

/// Every open document's identifier is below `next` (the identifier the
/// next new document gets), unless identifiers have run out.
pub open spec fn ids_below(docs: Seq<DocumentModel>, next: u64) -> bool {
    next < u64::MAX ==> forall|i: int| 0 <= i < docs.len() ==> #[trigger] docs[i].id < next
}

/// A stored find session belongs to an open document and holds a query
/// that compiles, together with its compiled pattern.
pub open spec fn session_valid(m: ManagerModel, id: u64) -> bool {
    let s = m.sessions[id];
    &&& has_document(m.documents, id)
    &&& find_pattern_error(s.query, s.options) is None
    &&& s.pattern == find_pattern_model(s.query, s.options)
}

impl ManagerModel {
    /// The manager's invariant: the active document, when there is one, is
    /// open; every find session belongs to an open document and compiles;
    /// identifiers handed out so far are below the next one (which starts
    /// at 1).
    pub open spec fn wf(self) -> bool {
        &&& (self.active_id matches Some(a) ==> has_document(self.documents, a))
        &&& forall|id: u64| #[trigger] self.sessions.contains_key(id) ==> session_valid(self, id)
        &&& self.next_id > 0
        &&& ids_below(self.documents, self.next_id)
    }

    /// The state with the first document with identifier `id` replaced.
    pub open spec fn with_document(self, id: u64, d: DocumentModel) -> ManagerModel {
        ManagerModel { documents: self.documents.update(document_index(self.documents, id), d), ..self }
    }

    /// The state after the recent list records document `d` at `path`.
    pub open spec fn with_recent(self, d: DocumentModel, path: Seq<char>, now: u64) -> ManagerModel {
        ManagerModel { recent: recorded_recent(self.recent, recent_entry(d, path, now), self.mru_limit), ..self }
    }

    /// The state after the first document with identifier `id` is closed:
    /// its search session is dropped and, when it was active, the last
    /// remaining document becomes active.
    pub open spec fn without_document(self, id: u64) -> ManagerModel {
        let docs = self.documents.remove(document_index(self.documents, id));
        ManagerModel {
            documents: docs,
            sessions: self.sessions.remove(id),
            active_id: if docs.len() == 0 {
                None
            } else if self.active_id == Some(id) {
                Some(docs.last().id)
            } else {
                self.active_id
            },
            ..self
        }
    }

    /// The state after document `d` is added under the next identifier.
    pub open spec fn with_new_document(self, d: DocumentModel) -> ManagerModel {
        ManagerModel { documents: self.documents.push(d), next_id: (self.next_id + 1) as u64, ..self }
    }

    /// The state after an identifier is used up by an open that failed.
    pub open spec fn with_id_used(self) -> ManagerModel {
        ManagerModel { next_id: (self.next_id + 1) as u64, ..self }
    }

    /// The state after the first document backed by `path` is made active.
    pub open spec fn activating_path(self, path: Seq<char>) -> ManagerModel {
        ManagerModel { active_id: Some(self.documents[path_index(self.documents, path)].id), ..self }
    }

    /// The state after an autosave snapshot is restored (see
    /// `restore_autosave`).
    pub open spec fn restored(self, snap: AutosaveSnapshot, observed: Seq<DiskObservation>) -> ManagerModel {
        let docs = Seq::new(
            snap.documents@.len(),
            |i: int| restored_document(snap.documents@[i], observation_at(observed, i)),
        );
        let wanted = match snap.active_id {
            Some(a) => if has_document(docs, a) {
                Some(a)
            } else {
                None
            },
            None => None,
        };
        let bumped = max_saved_id(snap.documents@).saturating_add(1);
        ManagerModel {
            documents: docs,
            active_id: if docs.len() == 0 {
                None
            } else if wanted is None {
                Some(docs.last().id)
            } else {
                wanted
            },
            next_id: if snap.next_id > bumped {
                snap.next_id
            } else {
                bumped
            },
            sessions: Map::empty(),
            ..self
        }
    }

    /// The first document with identifier `id`.
    pub open spec fn document(self, id: u64) -> DocumentModel {
        document_of(self.documents, id)
    }

    /// The state after the find session of `id` (if any) is run again on
    /// the document's current text.
    pub open spec fn refresh_session(self, id: u64) -> ManagerModel {
        if self.sessions.contains_key(id) {
            ManagerModel {
                sessions: self.sessions.insert(id, refreshed_session(self.sessions[id], self.document(id).text)),
                ..self
            }
        } else {
            self
        }
    }
}

/// A restored manager keeps the invariant.
proof fn lemma_restored_wf(m: ManagerModel, snap: AutosaveSnapshot, observed: Seq<DiskObservation>)
    ensures
        m.restored(snap, observed).wf(),
{
    let r = m.restored(snap, observed);
    let docs = r.documents;
    lemma_max_saved_id_bounds(snap.documents@);
    assert forall|j: int| 0 <= j < docs.len() implies #[trigger] docs[j].id <= max_saved_id(snap.documents@) by {
        assert(docs[j].id == snap.documents@[j].id);
    }
    if docs.len() > 0 {
        assert(docs[docs.len() - 1].id == docs.last().id);
    }
}

/// A new document's identifier differs from every open document's.
pub proof fn law_new_identifier_is_fresh(m: ManagerModel)
    requires
        m.wf(),
        m.next_id < u64::MAX,
    ensures
        !has_document(m.documents, m.next_id),
{
    if has_document(m.documents, m.next_id) {
        let i = choose|i: int| 0 <= i < m.documents.len() && m.documents[i].id == m.next_id;
        assert(m.documents[i].id < m.next_id);
    }
}

/// After a replacement at the cursor, with the current match `c` among the
/// matches, the search steps in the requested direction: back from `c > 0`
/// to `c - 1`, forward before the last match to `c + 1`, with the status
/// reporting the replacement alone; at the first (last) match it stays
/// there without wrapping and goes round to the other end with wrapping,
/// saying so after the replacement. The matches and the query are kept.
/// When nothing was replaced the position stays and the status says so.
pub proof fn law_replacement_steps_in_requested_direction(s: SessionModel, c: usize, wrap: bool, backwards: bool)
    requires
        s.current == Some(c),
        c < s.matches.len(),
    ensures
        ({
            let (t, msg) = after_replace_step(s, true, direction_of(backwards), wrap);
            let done = "Replaced 1 occurrence"@;
            let n = s.matches.len();
            &&& t.matches == s.matches
            &&& t.query == s.query
            &&& t.options == s.options
            &&& t.pattern == s.pattern
            &&& backwards && c > 0 ==> t.current == Some((c - 1) as usize) && msg == Some(done)
            &&& !backwards && c + 1 < n ==> t.current == Some((c + 1) as usize) && msg == Some(done)
            &&& backwards && c == 0 && !wrap ==> t.current == Some(0usize) && msg == Some(
                done + " — "@ + "Reached start of document"@,
            )
            &&& backwards && c == 0 && wrap ==> t.current == Some((n - 1) as usize) && msg == Some(
                done + " — "@ + "Wrapped to bottom"@,
            )
            &&& !backwards && c + 1 == n && !wrap ==> t.current == Some(c) && msg == Some(
                done + " — "@ + "Reached end of document"@,
            )
            &&& !backwards && c + 1 == n && wrap ==> t.current == Some(0usize) && msg == Some(
                done + " — "@ + "Wrapped to top"@,
            )
        }),
        after_replace_step(s, false, direction_of(backwards), wrap) == (s, Some("No matching occurrence at cursor"@)),
{
}

/// Closing an open document removes exactly one document and its search
/// session. The active document stays active when another one is closed
/// (it is still open); closing the active one makes the last remaining
/// document active, and closing the last one leaves none active.
pub proof fn law_closing_keeps_the_active_document(m: ManagerModel, id: u64)
    requires
        m.wf(),
        has_document(m.documents, id),
    ensures
        m.without_document(id).documents.len() == m.documents.len() - 1,
        !m.without_document(id).sessions.contains_key(id),
        forall|a: u64|
            m.active_id == Some(a) && a != id ==> #[trigger] m.without_document(id).active_id == Some(a) && has_document(
                m.without_document(id).documents,
                a,
            ),
        m.active_id == Some(id) && m.documents.len() > 1 ==> m.without_document(id).active_id == Some(
            m.without_document(id).documents.last().id,
        ),
        m.documents.len() == 1 ==> m.without_document(id).active_id is None,
        m.active_id is None ==> m.without_document(id).active_id is None,
{
    lemma_first_index_exists(m.documents, id);
    let i = document_index(m.documents, id);
    if let Some(a) = m.active_id {
        if a != id {
            lemma_remove_keeps_others(m.documents, i, a);
        }
    }
}

/// After a document's text is replaced (as `update_text` does), reading the
/// document gives back that text, with its line ending detected anew and
/// the document dirty; the other documents are unchanged.
pub proof fn law_text_update_is_read_back(m: ManagerModel, id: u64, text: Seq<char>)
    requires
        m.wf(),
        has_document(m.documents, id),
    ensures
        ({
            let n = m.with_document(id, m.document(id).with_text(text)).refresh_session(id);
            &&& has_document(n.documents, id)
            &&& n.document(id).text == text
            &&& n.document(id).line_ending == line_ending_of(text)
            &&& n.document(id).dirty
            &&& n.documents.len() == m.documents.len()
            &&& forall|i: int| 0 <= i < m.documents.len() && i != document_index(m.documents, id) ==> n.documents[i] == m.documents[i]
        }),
{
    lemma_first_index_exists(m.documents, id);
    lemma_with_document_wf(m, id, m.document(id).with_text(text));
}

/// Restoring the autosave snapshot of a manager brings its documents, its
/// active document and its next identifier back (search sessions are not
/// saved), when every document is brought back unchanged from its entry
/// (`restores_unchanged`, given the metadata then read for its path) and a
/// document is active whenever one is open.
pub proof fn law_autosave_restore_round_trip(m: ManagerModel, snap: AutosaveSnapshot, observed: Seq<DiskObservation>)
    requires
        m.wf(),
        forall|i: int| 0 <= i < m.documents.len() ==> (#[trigger] m.documents[i]).wf(),
        snap.documents@.len() == m.documents.len(),
        forall|i: int| 0 <= i < m.documents.len() ==> records_document(#[trigger] snap.documents@[i], m.documents[i]),
        snap.active_id == m.active_id,
        snap.next_id == m.next_id,
        forall|i: int| 0 <= i < m.documents.len() ==> restores_unchanged(#[trigger] m.documents[i], observation_at(observed, i)),
        m.active_id is Some || m.documents.len() == 0,
    ensures
        m.restored(snap, observed) == (ManagerModel { sessions: Map::empty(), ..m }),
{
    let r = m.restored(snap, observed);
    assert forall|i: int| 0 <= i < m.documents.len() implies r.documents[i] == m.documents[i] by {
        law_restore_document_round_trip(snap.documents@[i], m.documents[i], observation_at(observed, i));
    }
    assert(r.documents =~= m.documents);
    if snap.documents@.len() > 0 {
        lemma_max_saved_id_attained(snap.documents@);
        let k = choose|k: int| 0 <= k < snap.documents@.len() && #[trigger] snap.documents@[k].id == max_saved_id(snap.documents@);
        assert(snap.documents@[k].id == m.documents[k].id);
    }
    assert(r.next_id == m.next_id);
    assert(r.active_id == m.active_id);
    assert(r.sessions =~= Map::<u64, SessionModel>::empty());
}

/// Central service responsible for creating and tracking documents.
pub struct DocumentManager {
    documents: Vec<Document>,
    active_id: Option<u64>,
    next_id: u64,
    config: ManagerConfig,
    mru_limit: usize,
    find_sessions: HashMap<u64, FindSession>,
}

impl View for DocumentManager {
    type V = ManagerModel;

    closed spec fn view(&self) -> ManagerModel {
        ManagerModel {
            documents: self.documents@.map_values(|d: Document| d@),
            active_id: self.active_id,
            next_id: self.next_id,
            recent: recent_views(self.config.recent_documents@),
            ui: self.config.ui,
            editor: self.config.editor,
            find_defaults: self.config.find_defaults,
            window: self.config.window,
            mru_limit: self.mru_limit,
            sessions: self.find_sessions@.map_values(|s: FindSession| s@),
        }
    }
}

impl DocumentManager {
    /// The manager's invariant holds (see `ManagerModel::wf`).
    pub closed spec fn wf(&self) -> bool {
        &&& self@.wf()
        &&& vstd::std_specs::hash::obeys_key_model::<u64>()
        &&& vstd::std_specs::hash::builds_valid_hashers::<std::hash::RandomState>()
    }

    /// The invariant in terms of the model: whenever `wf` holds, so does
    /// `ManagerModel::wf` of the manager's view.
    pub proof fn lemma_wf_model(&self)
        requires
            self.wf(),
        ensures
            self@.wf(),
    {
    }

    /// A manager with no open documents, using the given configuration.
    pub fn with_config(config: ManagerConfig) -> (m: Self)
        ensures
            m.wf(),
            m@.documents == Seq::<DocumentModel>::empty(),
            m@.active_id is None,
            m@.next_id == 1,
            m@.recent == recent_views(config.recent_documents@),
            m@.ui == config.ui,
            m@.editor == config.editor,
            m@.find_defaults == config.find_defaults,
            m@.window == config.window,
            m@.mru_limit == DEFAULT_MRU_LIMIT,
            m@.sessions == Map::<u64, SessionModel>::empty(),
    {
        let m = DocumentManager {
            documents: Vec::new(),
            active_id: None,
            next_id: 1,
            config,
            mru_limit: DEFAULT_MRU_LIMIT,
            find_sessions: HashMap::new(),
        };
        assert(m@.documents =~= Seq::<DocumentModel>::empty());
        assert(m@.sessions =~= Map::<u64, SessionModel>::empty());
        m
    }

    fn find_index(&self, id: u64) -> (r: Option<usize>)
        ensures
            match r {
                Some(i) => has_document(self@.documents, id) && i == document_index(self@.documents, id)
                    && is_first_with_id(self@.documents, id, i as int) && i < self.documents@.len(),
                None => !has_document(self@.documents, id),
            },
    {
        let mut i: usize = 0;
        while i < self.documents.len()
            invariant
                i <= self.documents@.len(),
                forall|j: int| 0 <= j < i ==> self@.documents[j].id != id,
            decreases self.documents.len() - i,
        {
            if self.documents[i].id() == id {
                proof {
                    assert(is_first_with_id(self@.documents, id, i as int));
                    lemma_first_index_unique(self@.documents, id, i as int);
                }
                return Some(i);
            }
            i = i + 1;
        }
        None
    }

    /// Returns the summaries of all open documents.
    pub fn documents(&self) -> (r: Vec<DocumentSummary>)
        ensures
            r@.len() == self@.documents.len(),
            forall|i: int| 0 <= i < r@.len() ==> summarizes(#[trigger] r@[i], self@.documents[i]),
    {
        let mut r: Vec<DocumentSummary> = Vec::new();
        let mut i: usize = 0;
        while i < self.documents.len()
            invariant
                i <= self.documents@.len(),
                r@.len() == i,
                forall|j: int| 0 <= j < i ==> summarizes(#[trigger] r@[j], self@.documents[j]),
            decreases self.documents.len() - i,
        {
            r.push(self.documents[i].summary());
            i = i + 1;
        }
        r
    }

    /// Returns the active document summary if one is selected.
    pub fn active_document(&self) -> (r: Option<DocumentSummary>)
        ensures
            match self@.active_id {
                Some(a) => if has_document(self@.documents, a) {
                    r matches Some(s) && summarizes(s, self@.document(a))
                } else {
                    r is None
                },
                None => r is None,
            },
    {
        match self.active_id {
            Some(id) => match self.find_index(id) {
                Some(i) => Some(self.documents[i].summary()),
                None => None,
            },
            None => None,
        }
    }

    /// The identifier the next new document gets.
    pub fn next_document_id(&self) -> (r: u64)
        ensures
            r == self@.next_id,
    {
        self.next_id
    }

    /// Returns the identifier of the active document.
    pub fn active_document_id(&self) -> (r: Option<u64>)
        ensures
            r == self@.active_id,
    {
        self.active_id
    }

    /// Sets the active document to the specified identifier.
    pub fn set_active_document(&mut self, id: u64) -> (r: DocumentResult<()>)
        requires
            old(self).wf(),
        ensures
            final(self).wf(),
            match r {
                Ok(()) => has_document(old(self)@.documents, id) && final(self)@ == (ManagerModel {
                    active_id: Some(id),
                    ..old(self)@
                }),
                Err(DocumentError::DocumentNotFound(x)) => x == id && !has_document(old(self)@.documents, id)
                    && final(self)@ == old(self)@,
                _ => false,
            },
    {
        match self.find_index(id) {
            Some(_) => {
                self.active_id = Some(id);
                Ok(())
            },
            None => Err(DocumentError::DocumentNotFound(id)),
        }
    }

    /// Returns the list of recently opened documents ordered by most recent first.
    pub fn recent_documents(&self) -> (r: Vec<RecentDocument>)
        ensures
            recent_views(r@) == self@.recent,
    {
        let mut r: Vec<RecentDocument> = Vec::new();
        let mut i: usize = 0;
        while i < self.config.recent_documents.len()
            invariant
                i <= self.config.recent_documents@.len(),
                recent_views(r@) == self@.recent.take(i as int),
            decreases self.config.recent_documents.len() - i,
        {
            let ghost before = r@;
            r.push(self.config.recent_documents[i].clone());
            assert(recent_views(r@) =~= self@.recent.take(i + 1)) by {
                assert(recent_views(r@) =~= recent_views(before).push(self.config.recent_documents@[i as int]@));
            }
            i = i + 1;
        }
        assert(self@.recent.take(i as int) =~= self@.recent);
        r
    }

    /// Creates a new, empty document with the supplied title and makes it
    /// active.
    pub fn new_document(&mut self, title: &str) -> (s: DocumentSummary)
        requires
            old(self).wf(),
            old(self)@.next_id < u64::MAX,
        ensures
            final(self).wf(),
            final(self)@ == (ManagerModel {
                active_id: Some(old(self)@.next_id),
                ..old(self)@.with_new_document(empty_document(old(self)@.next_id, title@))
            }),
            summarizes(s, empty_document(old(self)@.next_id, title@)),
    {
        let id = self.next_id;
        let document = Document::new_empty(id, title);
        let summary = document.summary();
        self.push_document(document);
        self.active_id = Some(id);
        proof {
            let docs = self@.documents;
            assert(docs[docs.len() - 1].id == id);
        }
        summary
    }

    /// Runs the find session of `id` again on the document's current text.
    fn refresh_find_session(&mut self, id: u64) -> (r: DocumentResult<()>)
        requires
            old(self).wf(),
        ensures
            final(self).wf(),
            r is Ok,
            final(self)@ == old(self)@.refresh_session(id),
    {
        let ghost old_sessions = self@.sessions;
        let existing = match self.find_sessions.remove(&id) {
            Some(s) => s,
            None => {
                assert(self.find_sessions@ == old(self).find_sessions@);
                return Ok(());
            },
        };
        assert(old_sessions.contains_key(id) && old_sessions[id] == existing@);
        assert(session_valid(old(self)@, id));
        let i = match self.find_index(id) {
            Some(i) => i,
            None => {
                assert(false);
                return Err(DocumentError::DocumentNotFound(id));
            },
        };
        let options = existing.options();
        let compiled = match self.documents[i].compile_find(existing.query(), &options) {
            Ok(c) => c,
            Err(e) => {
                assert(false);
                return Err(e);
            },
        };
        let session = FindSession::from_compiled_keeping(
            copy_string(existing.query()),
            options,
            compiled,
            existing.current(),
        );
        self.find_sessions.insert(id, session);
        proof {
            assert(self@.sessions =~= old(self)@.sessions.insert(
                id,
                refreshed_session(old(self)@.sessions[id], old(self)@.document(id).text),
            ));
            assert forall|k: u64| #[trigger] self@.sessions.contains_key(k) implies session_valid(self@, k) by {
                if k != id {
                    assert(session_valid(old(self)@, k));
                }
            }
        }
        Ok(())
    }

    /// The document at position `i` (the first with identifier `id`) if it is
    /// editable, else the `ReadOnlyDocument` error naming it.
    fn editable_index(&self, id: u64) -> (r: DocumentResult<usize>)
        ensures
            match r {
                Ok(i) => has_document(self@.documents, id) && i == document_index(self@.documents, id)
                    && is_first_with_id(self@.documents, id, i as int) && !self@.document(id).editing_locked(),
                Err(DocumentError::DocumentNotFound(x)) => x == id && !has_document(self@.documents, id),
                Err(DocumentError::ReadOnlyDocument(t)) => has_document(self@.documents, id)
                    && self@.document(id).editing_locked() && t@ == self@.document(id).title,
                _ => false,
            },
    {
        let i = match self.find_index(id) {
            Some(i) => i,
            None => return Err(DocumentError::DocumentNotFound(id)),
        };
        if self.documents[i].editing_locked() {
            return Err(DocumentError::ReadOnlyDocument(copy_string(self.documents[i].title())));
        }
        Ok(i)
    }

    /// Updates the text of a document and returns its new summary; refused
    /// for a document locked for editing.
    pub fn update_text(&mut self, id: u64, text: &str) -> (r: DocumentResult<DocumentSummary>)
        requires
            old(self).wf(),
        ensures
            final(self).wf(),
            match r {
                Ok(s) => has_document(old(self)@.documents, id) && !old(self)@.document(id).editing_locked()
                    && final(self)@ == old(self)@.with_document(id, old(self)@.document(id).with_text(text@))
                    .refresh_session(id) && summarizes(s, final(self)@.document(id)),
                Err(DocumentError::DocumentNotFound(x)) => x == id && !has_document(old(self)@.documents, id)
                    && final(self)@ == old(self)@,
                Err(DocumentError::ReadOnlyDocument(t)) => has_document(old(self)@.documents, id)
                    && old(self)@.document(id).editing_locked() && t@ == old(self)@.document(id).title
                    && final(self)@ == old(self)@,
                _ => false,
            },
    {
        let i = match self.editable_index(id) {
            Ok(i) => i,
            Err(e) => return Err(e),
        };
        let mut doc = self.documents.remove(i);
        doc.set_text(text);
        self.documents.insert(i, doc);
        proof {
            lemma_with_document_wf(old(self)@, id, doc@);
            assert(self@.documents =~= old(self)@.documents.update(i as int, doc@));
            assert(self@ == old(self)@.with_document(id, doc@));
        }
        let _ = self.refresh_find_session(id);
        self.document_summary(id)
    }


    /// Sets the encoding for a document without reloading its contents;
    /// refused for a document locked for editing.
    pub fn set_document_encoding(&mut self, id: u64, encoding: TextEncoding) -> (r: DocumentResult<DocumentSummary>)
        requires
            old(self).wf(),
        ensures
            final(self).wf(),
            match r {
                Ok(s) => has_document(old(self)@.documents, id) && !old(self)@.document(id).editing_locked()
                    && final(self)@ == old(self)@.with_document(id, old(self)@.document(id).with_encoding(encoding))
                    && summarizes(s, final(self)@.document(id)),
                Err(DocumentError::DocumentNotFound(x)) => x == id && !has_document(old(self)@.documents, id)
                    && final(self)@ == old(self)@,
                Err(DocumentError::ReadOnlyDocument(t)) => has_document(old(self)@.documents, id)
                    && old(self)@.document(id).editing_locked() && t@ == old(self)@.document(id).title
                    && final(self)@ == old(self)@,
                _ => false,
            },
    {
        let i = match self.editable_index(id) {
            Ok(i) => i,
            Err(e) => return Err(e),
        };
        let mut doc = self.documents.remove(i);
        doc.set_encoding(encoding);
        self.documents.insert(i, doc);
        proof {
            lemma_with_document_wf(old(self)@, id, doc@);
            assert(self@.documents =~= old(self)@.documents.update(i as int, doc@));
        }
        self.document_summary(id)
    }

    /// Converts a document buffer to a different line ending style;
    /// refused for a document locked for editing.
    pub fn set_document_line_ending(&mut self, id: u64, line_ending: LineEnding) -> (r: DocumentResult<DocumentSummary>)
        requires
            old(self).wf(),
        ensures
            final(self).wf(),
            match r {
                Ok(s) => has_document(old(self)@.documents, id) && !old(self)@.document(id).editing_locked()
                    && final(self)@ == old(self)@.with_document(
                    id,
                    old(self)@.document(id).with_line_ending(line_ending),
                ).refresh_session(id) && summarizes(s, final(self)@.document(id)),
                Err(DocumentError::DocumentNotFound(x)) => x == id && !has_document(old(self)@.documents, id)
                    && final(self)@ == old(self)@,
                Err(DocumentError::ReadOnlyDocument(t)) => has_document(old(self)@.documents, id)
                    && old(self)@.document(id).editing_locked() && t@ == old(self)@.document(id).title
                    && final(self)@ == old(self)@,
                _ => false,
            },
    {
        let i = match self.editable_index(id) {
            Ok(i) => i,
            Err(e) => return Err(e),
        };
        let mut doc = self.documents.remove(i);
        doc.set_line_ending(line_ending);
        self.documents.insert(i, doc);
        proof {
            lemma_with_document_wf(old(self)@, id, doc@);
            assert(self@.documents =~= old(self)@.documents.update(i as int, doc@));
        }
        let _ = self.refresh_find_session(id);
        self.document_summary(id)
    }

    /// Enables or disables the edit override for a read-only document.
    pub fn set_read_only_override(&mut self, id: u64, allow_edit: bool) -> (r: DocumentResult<DocumentSummary>)
        requires
            old(self).wf(),
        ensures
            final(self).wf(),
            match r {
                Ok(s) => has_document(old(self)@.documents, id) && final(self)@ == old(self)@.with_document(
                    id,
                    old(self)@.document(id).with_edit_override(allow_edit),
                ) && summarizes(s, final(self)@.document(id)),
                Err(DocumentError::DocumentNotFound(x)) => x == id && !has_document(old(self)@.documents, id)
                    && final(self)@ == old(self)@,
                _ => false,
            },
    {
        let i = match self.find_index(id) {
            Some(i) => i,
            None => return Err(DocumentError::DocumentNotFound(id)),
        };
        let mut doc = self.documents.remove(i);
        doc.set_edit_override(allow_edit);
        self.documents.insert(i, doc);
        proof {
            lemma_with_document_wf(old(self)@, id, doc@);
            assert(self@.documents =~= old(self)@.documents.update(i as int, doc@));
        }
        self.document_summary(id)
    }

    /// Dismiss an external modification notification without reloading.
    pub fn acknowledge_external_change(&mut self, id: u64) -> (r: DocumentResult<DocumentSummary>)
        requires
            old(self).wf(),
        ensures
            final(self).wf(),
            match r {
                Ok(s) => has_document(old(self)@.documents, id) && final(self)@ == old(self)@.with_document(
                    id,
                    old(self)@.document(id).without_external_flags(),
                ) && summarizes(s, final(self)@.document(id)),
                Err(DocumentError::DocumentNotFound(x)) => x == id && !has_document(old(self)@.documents, id)
                    && final(self)@ == old(self)@,
                _ => false,
            },
    {
        let i = match self.find_index(id) {
            Some(i) => i,
            None => return Err(DocumentError::DocumentNotFound(id)),
        };
        let mut doc = self.documents.remove(i);
        doc.clear_external_flags();
        self.documents.insert(i, doc);
        proof {
            lemma_with_document_wf(old(self)@, id, doc@);
            assert(self@.documents =~= old(self)@.documents.update(i as int, doc@));
        }
        self.document_summary(id)
    }

    /// Update (or start) the search session of a document; an empty query
    /// ends the session.
    pub fn find_update(&mut self, id: u64, query: &str, options: FindOptions) -> (r: DocumentResult<FindSnapshot>)
        requires
            old(self).wf(),
        ensures
            final(self).wf(),
            query@.len() == 0 ==> (r matches Ok(snap) && is_empty_snapshot(snap) && final(self)@ == (ManagerModel {
                sessions: old(self)@.sessions.remove(id),
                ..old(self)@
            })),
            query@.len() > 0 ==> match r {
                Ok(snap) => has_document(old(self)@.documents, id) && find_pattern_error(query@, options) is None
                    && ({
                    let s = new_session(query@, options, old(self)@.document(id).text);
                    &&& final(self)@ == (ManagerModel { sessions: old(self)@.sessions.insert(id, s), ..old(self)@ })
                    &&& reports(snap, s, if s.matches.len() == 0 { Some(no_matches_message()) } else { None })
                }),
                Err(DocumentError::DocumentNotFound(x)) => x == id && !has_document(old(self)@.documents, id)
                    && final(self)@ == old(self)@,
                Err(DocumentError::InvalidSearchPattern(m)) => has_document(old(self)@.documents, id)
                    && find_pattern_error(query@, options) == Some(m@) && final(self)@ == old(self)@,
                _ => false,
            },
    {
        if query.is_empty() {
            self.find_sessions.remove(&id);
            proof {
                assert(self@.sessions =~= old(self)@.sessions.remove(id));
                assert forall|k: u64| #[trigger] self@.sessions.contains_key(k) implies session_valid(self@, k) by {
                    assert(session_valid(old(self)@, k));
                }
            }
            return Ok(FindSnapshot::empty());
        }
        let i = match self.find_index(id) {
            Some(i) => i,
            None => return Err(DocumentError::DocumentNotFound(id)),
        };
        let compiled = match self.documents[i].compile_find(query, &options) {
            Ok(c) => c,
            Err(e) => return Err(e),
        };
        let session = FindSession::from_compiled(copy_string(query), options, compiled);
        let message = if session.match_count() == 0 {
            Some(copy_string("No matches found"))
        } else {
            None
        };
        let snapshot = session.snapshot(message);
        self.find_sessions.insert(id, session);
        proof {
            assert(self@.sessions =~= old(self)@.sessions.insert(id, new_session(query@, options, old(self)@.document(id).text)));
            assert forall|k: u64| #[trigger] self@.sessions.contains_key(k) implies session_valid(self@, k) by {
                if k != id {
                    assert(session_valid(old(self)@, k));
                }
            }
        }
        Ok(snapshot)
    }

    /// Step to the next (or previous) match of a document's search session.
    pub fn find_step(&mut self, id: u64, wrap: bool, backwards: bool) -> (r: DocumentResult<FindSnapshot>)
        requires
            old(self).wf(),
        ensures
            final(self).wf(),
            r matches Ok(snap) && ({
                let m1 = old(self)@.refresh_session(id);
                if !m1.sessions.contains_key(id) {
                    final(self)@ == m1 && is_empty_snapshot(snap)
                } else {
                    let s1 = m1.sessions[id];
                    if s1.matches.len() == 0 {
                        final(self)@ == m1 && reports(snap, s1, Some(no_matches_message()))
                    } else {
                        let (next, msg) = step_target(s1.current, s1.matches.len() as int, direction_of(backwards), wrap);
                        let s2 = SessionModel { current: Some(next as usize), ..s1 };
                        final(self)@ == (ManagerModel { sessions: m1.sessions.insert(id, s2), ..m1 })
                            && reports(snap, s2, msg)
                    }
                }
            }),
    {
        let _ = self.refresh_find_session(id);
        let ghost m1 = self@;
        let direction = if backwards {
            SearchDirection::Backward
        } else {
            SearchDirection::Forward
        };
        let mut session = match self.find_sessions.remove(&id) {
            Some(s) => s,
            None => {
                assert(self@.sessions =~= m1.sessions);
                return Ok(FindSnapshot::empty());
            },
        };
        if session.match_count() == 0 {
            let snapshot = session.snapshot(Some(copy_string("No matches found")));
            self.find_sessions.insert(id, session);
            assert(self@.sessions =~= m1.sessions);
            return Ok(snapshot);
        }
        let message = session.advance(direction, wrap);
        let snapshot = session.snapshot(message);
        self.find_sessions.insert(id, session);
        proof {
            let (next, msg) = step_target(m1.sessions[id].current, m1.sessions[id].matches.len() as int, direction, wrap);
            assert(self@.sessions =~= m1.sessions.insert(id, SessionModel { current: Some(next as usize), ..m1.sessions[id] }));
            assert forall|k: u64| #[trigger] self@.sessions.contains_key(k) implies session_valid(self@, k) by {
                assert(session_valid(m1, k));
            }
        }
        Ok(snapshot)
    }


    /// Replace every match of a document's search session.
    pub fn replace_all(&mut self, id: u64, replacement: &str) -> (r: DocumentResult<(FindSnapshot, bool)>)
        requires
            old(self).wf(),
        ensures
            final(self).wf(),
            r matches Ok((snap, changed)) && ({
                let m1 = old(self)@.refresh_session(id);
                if !m1.sessions.contains_key(id) {
                    final(self)@ == m1 && is_empty_snapshot(snap) && !changed
                } else {
                    let s1 = m1.sessions[id];
                    if s1.matches.len() == 0 {
                        final(self)@ == m1 && reports(snap, s1, Some(no_matches_message())) && !changed
                    } else {
                        let doc = m1.document(id);
                        let count = capture_matches(s1.pattern, doc.text, replacement@).len();
                        let m2 = (if count > 0 {
                            m1.with_document(
                                id,
                                doc.with_text(replaced_all(s1.pattern, doc.text, replacement@, s1.options.use_regex)),
                            )
                        } else {
                            m1
                        }).refresh_session(id);
                        &&& changed == (count > 0)
                        &&& final(self)@ == m2
                        &&& m2.sessions.contains_key(id)
                        &&& reports(snap, m2.sessions[id], if count == 0 {
                            Some(no_matches_message())
                        } else {
                            Some(replaced_count_message(count))
                        })
                    }
                }
            }),
    {
        let _ = self.refresh_find_session(id);
        let ghost m1 = self@;
        let (new_text, count) = match self.find_sessions.get(&id) {
            None => return Ok((FindSnapshot::empty(), false)),
            Some(session) => {
                if session.match_count() == 0 {
                    return Ok((session.snapshot(Some(copy_string("No matches found"))), false));
                }
                assert(m1.sessions.contains_key(id));
                assert(session_valid(m1, id));
                let i = match self.find_index(id) {
                    Some(i) => i,
                    None => {
                        assert(false);
                        return Ok((FindSnapshot::empty(), false));
                    },
                };
                replace_all_occurrences(
                    session.pattern(),
                    self.documents[i].text(),
                    replacement,
                    session.options().use_regex,
                )
            },
        };
        if count > 0 {
            let i = match self.find_index(id) {
                Some(i) => i,
                None => {
                    assert(false);
                    return Ok((FindSnapshot::empty(), false));
                },
            };
            let mut doc = self.documents.remove(i);
            doc.set_text(new_text.as_str());
            self.documents.insert(i, doc);
            proof {
                lemma_with_document_wf(m1, id, doc@);
                assert(self@.documents =~= m1.documents.update(i as int, doc@));
            }
        }
        assert(self@.sessions == m1.sessions);
        let _ = self.refresh_find_session(id);
        assert(self@.sessions.contains_key(id));
        assert(self.find_sessions@.contains_key(id));
        let message = if count == 0 {
            copy_string("No matches found")
        } else {
            let mut m = copy_string("Replaced ");
            push_decimal(&mut m, count);
            push_str(&mut m, " occurrence");
            if count != 1 {
                push_str(&mut m, "s");
            } else {
                assert(m@ + Seq::<char>::empty() =~= m@);
            }
            m
        };
        match self.find_sessions.get(&id) {
            Some(session) => Ok((session.snapshot(Some(message)), count > 0)),
            None => {
                assert(false);
                Ok((FindSnapshot::empty(), count > 0))
            },
        }
    }

    /// Replace the match at the cursor and move on according to the given
    /// direction.
    pub fn replace_current(&mut self, id: u64, replacement: &str, wrap: bool, backwards: bool) -> (r: DocumentResult<
        (FindSnapshot, bool),
    >)
        requires
            old(self).wf(),
        ensures
            final(self).wf(),
            r matches Ok((snap, changed)) && ({
                let m1 = old(self)@.refresh_session(id);
                let dir = direction_of(backwards);
                if !m1.sessions.contains_key(id) {
                    final(self)@ == m1 && is_empty_snapshot(snap) && !changed
                } else {
                    let s1 = m1.sessions[id];
                    let n = s1.matches.len();
                    if n == 0 || replace_target_index(s1, dir) >= n {
                        final(self)@ == m1 && reports(snap, s1, Some(no_matches_message())) && !changed
                    } else {
                        let t = replace_target_index(s1, dir);
                        let doc = m1.document(id);
                        let did = t < capture_matches(s1.pattern, doc.text, replacement@).len();
                        let m2 = (if did {
                            m1.with_document(
                                id,
                                doc.with_text(replaced_one(s1.pattern, doc.text, replacement@, s1.options.use_regex, t)),
                            )
                        } else {
                            m1
                        }).refresh_session(id);
                        let (s3, msg) = after_replace_step(m2.sessions[id], did, dir, wrap);
                        &&& changed == did
                        &&& m2.sessions.contains_key(id)
                        &&& final(self)@ == (ManagerModel { sessions: m2.sessions.insert(id, s3), ..m2 })
                        &&& reports(snap, s3, msg)
                    }
                }
            }),
    {
        let _ = self.refresh_find_session(id);
        let ghost m1 = self@;
        let direction = if backwards {
            SearchDirection::Backward
        } else {
            SearchDirection::Forward
        };
        let (new_text, replaced) = match self.find_sessions.get(&id) {
            None => return Ok((FindSnapshot::empty(), false)),
            Some(session) => {
                let n = session.match_count();
                if n == 0 {
                    return Ok((session.snapshot(Some(copy_string("No matches found"))), false));
                }
                let target = match session.current() {
                    Some(c) => c,
                    None => if backwards {
                        n - 1
                    } else {
                        0
                    },
                };
                if target >= n {
                    return Ok((session.snapshot(Some(copy_string("No matches found"))), false));
                }
                assert(m1.sessions.contains_key(id));
                assert(session_valid(m1, id));
                let i = match self.find_index(id) {
                    Some(i) => i,
                    None => {
                        assert(false);
                        return Ok((FindSnapshot::empty(), false));
                    },
                };
                replace_target(
                    session.pattern(),
                    self.documents[i].text(),
                    replacement,
                    session.options().use_regex,
                    target,
                )
            },
        };
        if replaced {
            let i = match self.find_index(id) {
                Some(i) => i,
                None => {
                    assert(false);
                    return Ok((FindSnapshot::empty(), false));
                },
            };
            let mut doc = self.documents.remove(i);
            doc.set_text(new_text.as_str());
            self.documents.insert(i, doc);
            proof {
                lemma_with_document_wf(m1, id, doc@);
                assert(self@.documents =~= m1.documents.update(i as int, doc@));
            }
        }
        assert(self@.sessions == m1.sessions);
        let _ = self.refresh_find_session(id);
        let ghost m2 = self@;
        assert(m2.sessions.contains_key(id));
        assert(self.find_sessions@.contains_key(id));
        let mut session = match self.find_sessions.remove(&id) {
            Some(s) => s,
            None => {
                assert(false);
                return Ok((FindSnapshot::empty(), replaced));
            },
        };
        let message = if replaced {
            if session.match_count() > 0 {
                let step = session.advance(direction, wrap);
                crate::find::combine_messages(Some(copy_string("Replaced 1 occurrence")), step)
            } else {
                Some(copy_string("Replaced 1 occurrence"))
            }
        } else {
            session.ensure_current_within_bounds();
            Some(copy_string("No matching occurrence at cursor"))
        };
        let snapshot = session.snapshot(message);
        self.find_sessions.insert(id, session);
        proof {
            let (s3, msg) = after_replace_step(m2.sessions[id], replaced, direction, wrap);
            assert(self@.sessions =~= m2.sessions.insert(id, s3));
            assert forall|k: u64| #[trigger] self@.sessions.contains_key(k) implies session_valid(self@, k) by {
                assert(session_valid(m2, k));
            }
        }
        Ok((snapshot, replaced))
    }

    /// Clear any cached search state for the given document.
    pub fn clear_find_state(&mut self, id: u64)
        requires
            old(self).wf(),
        ensures
            final(self).wf(),
            final(self)@ == (ManagerModel { sessions: old(self)@.sessions.remove(id), ..old(self)@ }),
    {
        self.find_sessions.remove(&id);
        proof {
            assert(self@.sessions =~= old(self)@.sessions.remove(id));
            assert forall|k: u64| #[trigger] self@.sessions.contains_key(k) implies session_valid(self@, k) by {
                assert(session_valid(old(self)@, k));
            }
        }
    }

    /// The current find snapshot of a document, if it has a search session.
    pub fn find_snapshot(&self, id: u64) -> (r: Option<FindSnapshot>)
        requires
            self.wf(),
        ensures
            match r {
                Some(snap) => self@.sessions.contains_key(id) && reports(snap, self@.sessions[id], None),
                None => !self@.sessions.contains_key(id),
            },
    {
        match self.find_sessions.get(&id) {
            Some(session) => Some(session.snapshot(None)),
            None => None,
        }
    }

    /// The active document's find snapshot, if any.
    pub fn active_find_snapshot(&self) -> (r: Option<FindSnapshot>)
        requires
            self.wf(),
        ensures
            match self@.active_id {
                Some(a) => match r {
                    Some(snap) => self@.sessions.contains_key(a) && reports(snap, self@.sessions[a], None),
                    None => !self@.sessions.contains_key(a),
                },
                None => r is None,
            },
    {
        match self.active_id {
            Some(id) => self.find_snapshot(id),
            None => None,
        }
    }

    /// Returns the current text buffer for the specified document.
    pub fn document_text(&self, id: u64) -> (r: DocumentResult<String>)
        ensures
            match r {
                Ok(t) => has_document(self@.documents, id) && t@ == self@.document(id).text,
                Err(DocumentError::DocumentNotFound(x)) => x == id && !has_document(self@.documents, id),
                _ => false,
            },
    {
        match self.find_index(id) {
            Some(i) => Ok(crate::text::copy_string(self.documents[i].text())),
            None => Err(DocumentError::DocumentNotFound(id)),
        }
    }

    /// Returns the latest summary for the specified document.
    pub fn document_summary(&self, id: u64) -> (r: DocumentResult<DocumentSummary>)
        ensures
            match r {
                Ok(s) => has_document(self@.documents, id) && summarizes(s, self@.document(id)),
                Err(DocumentError::DocumentNotFound(x)) => x == id && !has_document(self@.documents, id),
                _ => false,
            },
    {
        match self.find_index(id) {
            Some(i) => Ok(self.documents[i].summary()),
            None => Err(DocumentError::DocumentNotFound(id)),
        }
    }

    /// The position of the first document backed by `path`, if any.
    fn find_path_index(&self, path: &str) -> (r: Option<usize>)
        ensures
            match r {
                Some(i) => has_path(self@.documents, path@) && i == path_index(self@.documents, path@)
                    && is_first_with_path(self@.documents, path@, i as int) && i < self.documents@.len(),
                None => !has_path(self@.documents, path@),
            },
    {
        let mut i: usize = 0;
        while i < self.documents.len()
            invariant
                i <= self.documents@.len(),
                forall|j: int| 0 <= j < i ==> !backed_by(self@.documents[j], path@),
            decreases self.documents.len() - i,
        {
            let found = match self.documents[i].path() {
                Some(p) => same_path(p, path),
                None => false,
            };
            if found {
                proof {
                    assert(is_first_with_path(self@.documents, path@, i as int));
                    lemma_first_path_unique(self@.documents, path@, i as int);
                }
                return Some(i);
            }
            i = i + 1;
        }
        None
    }

    /// Records the document summarized by `summary` as the most recently
    /// used entry for `path`.
    fn record_recent(&mut self, summary: &DocumentSummary, path: &str, now_epoch: u64)
        requires
            old(self).wf(),
        ensures
            final(self).wf(),
            final(self)@ == (ManagerModel {
                recent: recorded_recent(
                    old(self)@.recent,
                    RecentModel {
                        path: path@,
                        title: summary.title@,
                        encoding: summary.encoding,
                        line_ending: summary.line_ending,
                        last_opened_epoch: now_epoch,
                    },
                    old(self)@.mru_limit,
                ),
                ..old(self)@
            }),
    {
        let entry = RecentDocument {
            path: copy_string(path),
            title: copy_string(summary.title.as_str()),
            encoding: summary.encoding,
            line_ending: summary.line_ending,
            last_opened_epoch: now_epoch,
        };
        let limit = self.mru_limit;
        record_recent_entry(&mut self.config.recent_documents, entry, limit);
    }

    /// Adds `doc` (carrying the next identifier) to the open documents.
    fn push_document(&mut self, doc: Document)
        requires
            old(self).wf(),
            old(self)@.next_id < u64::MAX,
            doc@.id == old(self)@.next_id,
        ensures
            final(self).wf(),
            final(self)@ == old(self)@.with_new_document(doc@),
    {
        self.documents.push(doc);
        self.next_id = self.next_id + 1;
        proof {
            let docs = self@.documents;
            assert(docs =~= old(self)@.documents.push(doc@));
            if let Some(a) = old(self)@.active_id {
                lemma_push_keeps(old(self)@.documents, doc@, a);
            }
            assert forall|k: u64| #[trigger] self@.sessions.contains_key(k) implies session_valid(self@, k) by {
                assert(session_valid(old(self)@, k));
                lemma_push_keeps(old(self)@.documents, doc@, k);
            }
        }
    }

    /// Closes a document; a document with unsaved changes is only closed
    /// when `discard_unsaved` is set.
    pub fn close_document(&mut self, id: u64, discard_unsaved: bool) -> (r: DocumentResult<()>)
        requires
            old(self).wf(),
        ensures
            final(self).wf(),
            match r {
                Ok(()) => has_document(old(self)@.documents, id) && (discard_unsaved || !old(self)@.document(
                    id,
                ).dirty) && final(self)@ == old(self)@.without_document(id),
                Err(DocumentError::DocumentNotFound(x)) => x == id && !has_document(old(self)@.documents, id)
                    && final(self)@ == old(self)@,
                Err(DocumentError::DocumentDirty(s)) => has_document(old(self)@.documents, id) && old(self)@.document(
                    id,
                ).dirty && !discard_unsaved && summarizes(s, old(self)@.document(id)) && final(self)@ == old(self)@,
                _ => false,
            },
    {
        let i = match self.find_index(id) {
            Some(i) => i,
            None => return Err(DocumentError::DocumentNotFound(id)),
        };
        if self.documents[i].is_dirty() && !discard_unsaved {
            return Err(DocumentError::DocumentDirty(self.documents[i].summary()));
        }
        let _ = self.documents.remove(i);
        self.find_sessions.remove(&id);
        let was_active = match self.active_id {
            Some(a) => a == id,
            None => false,
        };
        if was_active {
            self.active_id = match self.documents.last() {
                Some(d) => Some(d.id()),
                None => None,
            };
        }
        if self.documents.len() == 0 {
            self.active_id = None;
        }
        proof {
            let o = old(self)@;
            let docs = o.documents.remove(i as int);
            assert(self@.documents =~= docs);
            assert(self@.sessions =~= o.sessions.remove(id));
            if let Some(a) = self@.active_id {
                if was_active {
                    assert(docs[docs.len() - 1].id == a);
                } else {
                    lemma_remove_keeps_others(o.documents, i as int, a);
                }
            }
            assert forall|k: u64| #[trigger] self@.sessions.contains_key(k) implies session_valid(self@, k) by {
                assert(session_valid(o, k));
                lemma_remove_keeps_others(o.documents, i as int, k);
            }
        }
        Ok(())
    }

    /// First step of opening `path`: a path that is already open makes that
    /// document active; a file of `size` bytes above the size limit is
    /// refused; otherwise the caller reads the file and hands its contents
    /// to `open_document`.
    pub fn begin_open(&mut self, path: &str, size: Option<u64>) -> (r: DocumentResult<OpenStart>)
        requires
            old(self).wf(),
        ensures
            final(self).wf(),
            has_path(old(self)@.documents, path@) ==> (r matches Ok(OpenStart::AlreadyOpen(s)) && summarizes(
                s,
                old(self)@.documents[path_index(old(self)@.documents, path@)],
            ) && final(self)@ == old(self)@.activating_path(path@)),
            !has_path(old(self)@.documents, path@) ==> final(self)@ == old(self)@ && match size {
                Some(n) => if n > MAX_FILE_SIZE_BYTES {
                    r matches Err(DocumentError::FileTooLarge { path: p, size: m, limit: l }) && p@ == path@
                        && m == n && l == MAX_FILE_SIZE_BYTES
                } else {
                    r matches Ok(OpenStart::ReadFile)
                },
                None => r matches Ok(OpenStart::ReadFile),
            },
    {
        if let Some(i) = self.find_path_index(path) {
            let summary = self.documents[i].summary();
            self.active_id = Some(self.documents[i].id());
            proof {
                assert(has_document(self@.documents, self@.documents[i as int].id));
            }
            return Ok(OpenStart::AlreadyOpen(summary));
        }
        match size {
            Some(n) => {
                if n > MAX_FILE_SIZE_BYTES {
                    return Err(DocumentError::FileTooLarge { path: copy_string(path), size: n, limit: MAX_FILE_SIZE_BYTES });
                }
            },
            None => {},
        }
        Ok(OpenStart::ReadFile)
    }

    /// Opens the file at `path` from what reading it gave: its contents (or
    /// the read error) and its metadata. A path that is already open makes
    /// that document active. Otherwise an identifier is used up, and on
    /// success the new document becomes active and is recorded as recently
    /// used at time `now_epoch`.
    pub fn open_document(
        &mut self,
        path: &str,
        contents: Result<Vec<u8>, std::io::Error>,
        observed: DiskObservation,
        now_epoch: u64,
    ) -> (r: DocumentResult<DocumentSummary>)
        requires
            old(self).wf(),
            old(self)@.next_id < u64::MAX,
        ensures
            final(self).wf(),
            has_path(old(self)@.documents, path@) ==> (r matches Ok(s) && summarizes(
                s,
                old(self)@.documents[path_index(old(self)@.documents, path@)],
            ) && final(self)@ == old(self)@.activating_path(path@)),
            !has_path(old(self)@.documents, path@) ==> match contents {
                Err(e) => r matches Err(DocumentError::Io(x)) && x == e && final(self)@ == old(self)@.with_id_used(),
                Ok(bytes) => match decoded_bytes(bytes@) {
                    None => r matches Err(DocumentError::InvalidData(m)) && m@ == detect_error_message(bytes@)
                        && final(self)@ == old(self)@.with_id_used(),
                    Some((enc, text)) => {
                        let d = disk_document(old(self)@.next_id, path@, enc, text, observed);
                        &&& r matches Ok(s) && summarizes(s, d)
                        &&& final(self)@ == (ManagerModel {
                            active_id: Some(old(self)@.next_id),
                            ..old(self)@.with_new_document(d)
                        }).with_recent(d, path@, now_epoch)
                    },
                },
            },
    {
        if let Some(i) = self.find_path_index(path) {
            let summary = self.documents[i].summary();
            self.active_id = Some(self.documents[i].id());
            proof {
                assert(has_document(self@.documents, self@.documents[i as int].id));
            }
            return Ok(summary);
        }
        let id = self.next_id;
        let bytes = match contents {
            Ok(b) => b,
            Err(e) => {
                self.next_id = self.next_id + 1;
                return Err(DocumentError::Io(e));
            },
        };
        let mut document = match Document::open(id, path, bytes.as_slice(), observed) {
            Ok(d) => d,
            Err(e) => {
                self.next_id = self.next_id + 1;
                return Err(e);
            },
        };
        document.mark_clean();
        let summary = document.summary();
        proof {
            let (enc, text) = decoded_bytes(bytes@).unwrap();
            assert(document@ == disk_document(id, path@, enc, text, observed));
        }
        self.push_document(document);
        self.active_id = Some(id);
        proof {
            let docs = self@.documents;
            assert(docs[docs.len() - 1].id == id);
        }
        self.record_recent(&summary, path, now_epoch);
        Ok(summary)
    }

    /// Loads a document directly from raw bytes, as if read from `path`,
    /// without touching the disk or changing the active document; it is
    /// recorded as recently used at time `now_epoch`.
    pub fn open_from_bytes(&mut self, path: &str, bytes: &[u8], now_epoch: u64) -> (r: DocumentResult<DocumentSummary>)
        requires
            old(self).wf(),
            old(self)@.next_id < u64::MAX,
        ensures
            final(self).wf(),
            match (r, decoded_bytes(bytes@)) {
                (Ok(s), Some((enc, text))) => {
                    let d = bytes_document(old(self)@.next_id, path@, enc, text);
                    &&& summarizes(s, d)
                    &&& final(self)@ == old(self)@.with_new_document(d).with_recent(d, path@, now_epoch)
                },
                (Err(DocumentError::InvalidData(m)), None) => m@ == detect_error_message(bytes@)
                    && final(self)@ == old(self)@.with_id_used(),
                _ => false,
            },
    {
        let id = self.next_id;
        let (encoding, text) = match decode_bytes(bytes) {
            Ok(pair) => pair,
            Err(e) => {
                self.next_id = self.next_id + 1;
                return Err(e);
            },
        };
        let mut document = Document::new_empty(id, path);
        document.set_encoding(encoding);
        document.set_text(text.as_str());
        document.set_path(path);
        document.mark_clean();
        let summary = document.summary();
        self.push_document(document);
        self.record_recent(&summary, path, now_epoch);
        Ok(summary)
    }

    /// First step of saving a document to its own path: the path to write
    /// to. Refused for a document locked for editing or without a path.
    pub fn save_target(&self, id: u64) -> (r: DocumentResult<String>)
        ensures
            match r {
                Ok(p) => has_document(self@.documents, id) && !self@.document(id).editing_locked()
                    && self@.document(id).path == Some(p@),
                Err(DocumentError::DocumentNotFound(x)) => x == id && !has_document(self@.documents, id),
                Err(DocumentError::ReadOnlyDocument(t)) => has_document(self@.documents, id)
                    && self@.document(id).editing_locked() && t@ == self@.document(id).title,
                Err(DocumentError::MissingPath) => has_document(self@.documents, id)
                    && !self@.document(id).editing_locked() && self@.document(id).path is None,
                _ => false,
            },
    {
        let i = match self.editable_index(id) {
            Ok(i) => i,
            Err(e) => return Err(e),
        };
        self.documents[i].save()
    }

    /// The bytes that saving a document writes: its text in its encoding.
    pub fn document_bytes(&self, id: u64) -> (r: DocumentResult<Vec<u8>>)
        ensures
            !has_document(self@.documents, id) ==> (r matches Err(DocumentError::DocumentNotFound(x)) && x == id),
            has_document(self@.documents, id) ==> match (r, encoded_bytes(
                self@.document(id).text,
                self@.document(id).encoding,
            )) {
                (Ok(b), Some(e)) => b@ == e,
                (Err(err), None) => err == DocumentError::UnsupportedEncoding(
                    "character not representable in ISO-8859-1",
                ),
                _ => false,
            },
    {
        match self.find_index(id) {
            Some(i) => self.documents[i].encoded_text(),
            None => Err(DocumentError::DocumentNotFound(id)),
        }
    }

    /// Records that document `i` (the first with identifier `id`) was
    /// written to `path` and the file's metadata read back.
    fn record_saved_at(&mut self, id: u64, i: usize, path: &str, observed: DiskObservation, now_epoch: u64) -> (s:
        DocumentSummary)
        requires
            old(self).wf(),
            is_first_with_id(old(self)@.documents, id, i as int),
        ensures
            final(self).wf(),
            ({
                let d = old(self)@.document(id).saved_at(path@, observed);
                &&& summarizes(s, d)
                &&& final(self)@ == old(self)@.with_document(id, d).with_recent(d, path@, now_epoch)
            }),
    {
        proof {
            lemma_first_index_unique(old(self)@.documents, id, i as int);
        }
        let mut doc = self.documents.remove(i);
        doc.save_as(path, observed);
        let summary = doc.summary();
        self.documents.insert(i, doc);
        proof {
            lemma_with_document_wf(old(self)@, id, doc@);
            assert(self@.documents =~= old(self)@.documents.update(i as int, doc@));
        }
        self.record_recent(&summary, path, now_epoch);
        summary
    }

    /// Last step of saving a document to its own path, once the bytes of
    /// `document_bytes` were written to the path of `save_target`: the
    /// document is clean, takes in the metadata read back (`observed`), and
    /// is recorded as recently used at time `now_epoch`. Refused, as
    /// `save_target` is, for a document locked for editing or without a path.
    pub fn save_document(&mut self, id: u64, observed: DiskObservation, now_epoch: u64) -> (r: DocumentResult<
        DocumentSummary,
    >)
        requires
            old(self).wf(),
        ensures
            final(self).wf(),
            match r {
                Ok(s) => has_document(old(self)@.documents, id) && !old(self)@.document(id).editing_locked() && ({
                    let p = old(self)@.document(id).path;
                    let d = old(self)@.document(id).saved_at(p->0, observed);
                    &&& p is Some
                    &&& summarizes(s, d)
                    &&& final(self)@ == old(self)@.with_document(id, d).with_recent(d, p->0, now_epoch)
                }),
                Err(DocumentError::DocumentNotFound(x)) => x == id && !has_document(old(self)@.documents, id)
                    && final(self)@ == old(self)@,
                Err(DocumentError::ReadOnlyDocument(t)) => has_document(old(self)@.documents, id)
                    && old(self)@.document(id).editing_locked() && t@ == old(self)@.document(id).title
                    && final(self)@ == old(self)@,
                Err(DocumentError::MissingPath) => has_document(old(self)@.documents, id)
                    && !old(self)@.document(id).editing_locked() && old(self)@.document(id).path is None
                    && final(self)@ == old(self)@,
                _ => false,
            },
    {
        let i = match self.editable_index(id) {
            Ok(i) => i,
            Err(e) => return Err(e),
        };
        let path = match self.documents[i].save() {
            Ok(p) => p,
            Err(e) => return Err(e),
        };
        Ok(self.record_saved_at(id, i, path.as_str(), observed, now_epoch))
    }

    /// Last step of saving a document to a new `path`, once the bytes of
    /// `document_bytes` were written there: the document is now backed by
    /// `path`, titled after it and clean, takes in the metadata read back
    /// (`observed`), and is recorded as recently used at time `now_epoch`.
    pub fn save_document_as(&mut self, id: u64, path: &str, observed: DiskObservation, now_epoch: u64) -> (r:
        DocumentResult<DocumentSummary>)
        requires
            old(self).wf(),
        ensures
            final(self).wf(),
            match r {
                Ok(s) => has_document(old(self)@.documents, id) && ({
                    let d = old(self)@.document(id).saved_at(path@, observed);
                    &&& summarizes(s, d)
                    &&& final(self)@ == old(self)@.with_document(id, d).with_recent(d, path@, now_epoch)
                }),
                Err(DocumentError::DocumentNotFound(x)) => x == id && !has_document(old(self)@.documents, id)
                    && final(self)@ == old(self)@,
                _ => false,
            },
    {
        let i = match self.find_index(id) {
            Some(i) => i,
            None => return Err(DocumentError::DocumentNotFound(id)),
        };
        Ok(self.record_saved_at(id, i, path, observed, now_epoch))
    }

    /// The path a reload reads from: the document's own path. Refused for
    /// a document without one.
    pub fn reload_path(&self, id: u64) -> (r: DocumentResult<String>)
        ensures
            match r {
                Ok(p) => has_document(self@.documents, id) && self@.document(id).path == Some(p@),
                Err(DocumentError::DocumentNotFound(x)) => x == id && !has_document(self@.documents, id),
                Err(DocumentError::MissingPath) => has_document(self@.documents, id) && self@.document(id).path is None,
                _ => false,
            },
    {
        match self.find_index(id) {
            Some(i) => self.documents[i].backing_path(),
            None => Err(DocumentError::DocumentNotFound(id)),
        }
    }

    /// Reloads the document at position `i` from the bytes read from its
    /// path, decoded with `encoding`; the find session is run again on the
    /// new text.
    fn reload_at(&mut self, id: u64, i: usize, encoding: TextEncoding, bytes: &[u8], observed: DiskObservation, clear_flags: bool) -> (r:
        DocumentResult<()>)
        requires
            old(self).wf(),
            is_first_with_id(old(self)@.documents, id, i as int),
            old(self)@.document(id).path is Some,
        ensures
            final(self).wf(),
            match (r, decoded_with_encoding(bytes@, encoding)) {
                (Ok(()), Some(text)) => {
                    let d = old(self)@.document(id).reloaded(text, encoding, observed);
                    final(self)@ == old(self)@.with_document(
                        id,
                        if clear_flags { d.without_external_flags() } else { d },
                    ).refresh_session(id)
                },
                (Err(DocumentError::InvalidData(m)), None) => m@ == decode_error_message(bytes@, encoding)
                    && final(self)@ == old(self)@,
                _ => false,
            },
    {
        proof {
            lemma_first_index_unique(old(self)@.documents, id, i as int);
        }
        let mut doc = self.documents.remove(i);
        let result = doc.reload_with_encoding(bytes, encoding, observed);
        if clear_flags && result.is_ok() {
            doc.clear_external_flags();
        }
        self.documents.insert(i, doc);
        match result {
            Ok(()) => {
                proof {
                    lemma_with_document_wf(old(self)@, id, doc@);
                    assert(self@.documents =~= old(self)@.documents.update(i as int, doc@));
                }
                let _ = self.refresh_find_session(id);
                Ok(())
            },
            Err(e) => {
                proof {
                    assert(self@.documents =~= old(self)@.documents);
                }
                Err(e)
            },
        }
    }

    /// Reloads a document from the bytes read from its path, decoded with
    /// `encoding`: it takes the new text, encoding and metadata, is clean,
    /// its search runs again, and it is recorded as recently used at time
    /// `now_epoch`. On a decoding error nothing changes.
    pub fn reload_document_with_encoding(
        &mut self,
        id: u64,
        encoding: TextEncoding,
        bytes: &[u8],
        observed: DiskObservation,
        now_epoch: u64,
    ) -> (r: DocumentResult<DocumentSummary>)
        requires
            old(self).wf(),
        ensures
            final(self).wf(),
            match r {
                Ok(s) => has_document(old(self)@.documents, id) && ({
                    let p = old(self)@.document(id).path;
                    let text = decoded_with_encoding(bytes@, encoding);
                    &&& p is Some
                    &&& text is Some
                    &&& {
                        let d = old(self)@.document(id).reloaded(text->0, encoding, observed);
                        &&& summarizes(s, d)
                        &&& final(self)@ == old(self)@.with_document(id, d).refresh_session(id).with_recent(
                            d,
                            p->0,
                            now_epoch,
                        )
                    }
                }),
                Err(DocumentError::DocumentNotFound(x)) => x == id && !has_document(old(self)@.documents, id)
                    && final(self)@ == old(self)@,
                Err(DocumentError::MissingPath) => has_document(old(self)@.documents, id) && old(self)@.document(
                    id,
                ).path is None && final(self)@ == old(self)@,
                Err(DocumentError::InvalidData(m)) => has_document(old(self)@.documents, id) && old(self)@.document(
                    id,
                ).path is Some && decoded_with_encoding(bytes@, encoding) is None && m@ == decode_error_message(
                    bytes@,
                    encoding,
                ) && final(self)@ == old(self)@,
                _ => false,
            },
    {
        let i = match self.find_index(id) {
            Some(i) => i,
            None => return Err(DocumentError::DocumentNotFound(id)),
        };
        let path = match self.documents[i].backing_path() {
            Ok(p) => p,
            Err(e) => return Err(e),
        };
        match self.reload_at(id, i, encoding, bytes, observed, false) {
            Ok(()) => {},
            Err(e) => return Err(e),
        }
        proof {
            let text = decoded_with_encoding(bytes@, encoding)->0;
            lemma_with_document_wf(old(self)@, id, old(self)@.document(id).reloaded(text, encoding, observed));
        }
        let summary = match self.document_summary(id) {
            Ok(s) => s,
            Err(e) => {
                assert(false);
                return Err(e);
            },
        };
        self.record_recent(&summary, path.as_str(), now_epoch);
        Ok(summary)
    }

    /// Reloads a document from the bytes read from its path in its own
    /// encoding and clears its external-change flags; its search runs
    /// again. On a decoding error nothing changes.
    pub fn reload_document(&mut self, id: u64, bytes: &[u8], observed: DiskObservation) -> (r: DocumentResult<
        DocumentSummary,
    >)
        requires
            old(self).wf(),
        ensures
            final(self).wf(),
            match r {
                Ok(s) => has_document(old(self)@.documents, id) && old(self)@.document(id).path is Some && ({
                    let doc = old(self)@.document(id);
                    let text = decoded_with_encoding(bytes@, doc.encoding);
                    &&& text is Some
                    &&& final(self)@ == old(self)@.with_document(
                        id,
                        doc.reloaded(text->0, doc.encoding, observed).without_external_flags(),
                    ).refresh_session(id)
                    &&& summarizes(s, final(self)@.document(id))
                }),
                Err(DocumentError::DocumentNotFound(x)) => x == id && !has_document(old(self)@.documents, id)
                    && final(self)@ == old(self)@,
                Err(DocumentError::MissingPath) => has_document(old(self)@.documents, id) && old(self)@.document(
                    id,
                ).path is None && final(self)@ == old(self)@,
                Err(DocumentError::InvalidData(m)) => has_document(old(self)@.documents, id) && old(self)@.document(
                    id,
                ).path is Some && decoded_with_encoding(bytes@, old(self)@.document(id).encoding) is None
                    && m@ == decode_error_message(bytes@, old(self)@.document(id).encoding) && final(self)@ == old(self)@,
                _ => false,
            },
    {
        let i = match self.find_index(id) {
            Some(i) => i,
            None => return Err(DocumentError::DocumentNotFound(id)),
        };
        if self.documents[i].path().is_none() {
            return Err(DocumentError::MissingPath);
        }
        let encoding = self.documents[i].encoding();
        match self.reload_at(id, i, encoding, bytes, observed, true) {
            Ok(()) => {},
            Err(e) => return Err(e),
        }
        proof {
            let text = decoded_with_encoding(bytes@, encoding)->0;
            lemma_with_document_wf(
                old(self)@,
                id,
                old(self)@.document(id).reloaded(text, encoding, observed).without_external_flags(),
            );
        }
        self.document_summary(id)
    }

    /// Returns the current UI settings.
    pub fn ui_settings(&self) -> (r: &UiSettings)
        ensures
            *r == self@.ui,
    {
        &self.config.ui
    }

    /// Returns the current editor settings.
    pub fn editor_settings(&self) -> (r: &EditorSettings)
        ensures
            *r == self@.editor,
    {
        &self.config.editor
    }

    /// Returns the current find defaults.
    pub fn find_defaults(&self) -> (r: &FindDefaults)
        ensures
            *r == self@.find_defaults,
    {
        &self.config.find_defaults
    }

    /// Returns the current window state.
    pub fn window_state(&self) -> (r: &WindowState)
        ensures
            *r == self@.window,
    {
        &self.config.window
    }

    /// The configuration to persist: recent documents and settings.
    pub fn config(&self) -> (r: &ManagerConfig)
        ensures
            recent_views(r.recent_documents@) == self@.recent,
            r.ui == self@.ui,
            r.editor == self@.editor,
            r.find_defaults == self@.find_defaults,
            r.window == self@.window,
    {
        &self.config
    }

    /// Replaces the UI settings.
    pub fn update_ui_settings(&mut self, settings: UiSettings)
        requires
            old(self).wf(),
        ensures
            final(self).wf(),
            final(self)@ == (ManagerModel { ui: settings, ..old(self)@ }),
    {
        self.config.ui = settings;
    }

    /// Replaces the editor settings.
    pub fn update_editor_settings(&mut self, settings: EditorSettings)
        requires
            old(self).wf(),
        ensures
            final(self).wf(),
            final(self)@ == (ManagerModel { editor: settings, ..old(self)@ }),
    {
        self.config.editor = settings;
    }

    /// Replaces the find defaults.
    pub fn update_find_defaults(&mut self, defaults: FindDefaults)
        requires
            old(self).wf(),
        ensures
            final(self).wf(),
            final(self)@ == (ManagerModel { find_defaults: defaults, ..old(self)@ }),
    {
        self.config.find_defaults = defaults;
    }

    /// Replaces the window state.
    pub fn update_window_state(&mut self, state: WindowState)
        requires
            old(self).wf(),
        ensures
            final(self).wf(),
            final(self)@ == (ManagerModel { window: state, ..old(self)@ }),
    {
        self.config.window = state;
    }

    /// The autosave snapshot of the open documents taken at time
    /// `now_epoch`; none when no document is open (the autosave file is then
    /// removed).
    pub fn autosave(&self, now_epoch: u64) -> (r: Option<AutosaveSnapshot>)
        ensures
            match r {
                None => self@.documents.len() == 0,
                Some(snap) => {
                    &&& self@.documents.len() > 0
                    &&& snap.documents@.len() == self@.documents.len()
                    &&& forall|i: int|
                        0 <= i < snap.documents@.len() ==> records_document(
                            #[trigger] snap.documents@[i],
                            self@.documents[i],
                        )
                    &&& snap.active_id == self@.active_id
                    &&& snap.next_id == self@.next_id
                    &&& snap.timestamp_epoch == now_epoch
                },
            },
    {
        if self.documents.len() == 0 {
            return None;
        }
        let mut docs: Vec<AutosaveDocument> = Vec::new();
        let mut i: usize = 0;
        while i < self.documents.len()
            invariant
                i <= self.documents@.len(),
                docs@.len() == i,
                forall|j: int| 0 <= j < i ==> records_document(#[trigger] docs@[j], self@.documents[j]),
            decreases self.documents.len() - i,
        {
            let d = &self.documents[i];
            let entry = AutosaveDocument {
                id: d.id(),
                title: copy_string(d.title()),
                text: copy_string(d.text()),
                path: match d.path() {
                    Some(p) => Some(copy_string(p)),
                    None => None,
                },
                encoding: d.encoding(),
                line_ending: d.line_ending(),
                dirty: d.is_dirty(),
                read_only: d.read_only(),
                edit_override: d.edit_override(),
            };
            docs.push(entry);
            i = i + 1;
        }
        Some(AutosaveSnapshot { documents: docs, active_id: self.active_id, next_id: self.next_id, timestamp_epoch: now_epoch })
    }

    /// Replaces the open documents with those of an autosave snapshot
    /// (`observed[i]` is the metadata read for the path of the `i`-th
    /// entry). Search sessions are dropped; the recorded active document
    /// stays active when it was restored, else the last document is; the
    /// next identifier is past every restored one.
    pub fn restore_autosave(&mut self, snapshot: &AutosaveSnapshot, observed: &Vec<DiskObservation>)
        requires
            old(self).wf(),
        ensures
            final(self).wf(),
            final(self)@ == old(self)@.restored(*snapshot, observed@),
    {
        let ghost target = old(self)@.restored(*snapshot, observed@).documents;
        self.documents = Vec::new();
        self.active_id = None;
        self.find_sessions = HashMap::new();
        assert(self@.sessions =~= Map::<u64, SessionModel>::empty());
        let mut max_id: u64 = 0;
        let mut i: usize = 0;
        while i < snapshot.documents.len()
            invariant
                i <= snapshot.documents@.len(),
                target == old(self)@.restored(*snapshot, observed@).documents,
                self@.documents.len() == i,
                forall|j: int| 0 <= j < i ==> self@.documents[j] == #[trigger] target[j],
                max_id == max_saved_id(snapshot.documents@.take(i as int)),
                self@ == (ManagerModel {
                    documents: self@.documents,
                    active_id: None,
                    sessions: Map::empty(),
                    ..old(self)@
                }),
                self.find_sessions@ == Map::<u64, FindSession>::empty(),
            decreases snapshot.documents.len() - i,
        {
            let a = &snapshot.documents[i];
            let obs = if i < observed.len() {
                observed[i]
            } else {
                DiskObservation::Unavailable
            };
            let mut document = Document::new_empty(a.id, a.title.as_str());
            match &a.path {
                Some(p) => {
                    document.set_path(p.as_str());
                    document.refresh_read_only(obs);
                },
                None => {},
            }
            document.set_encoding(a.encoding);
            document.set_text(a.text.as_str());
            document.set_line_ending(a.line_ending);
            if !a.dirty {
                document.mark_clean();
            }
            document.set_edit_override(a.edit_override);
            if a.id > max_id {
                max_id = a.id;
            }
            let ghost before = self@.documents;
            self.documents.push(document);
            proof {
                assert(snapshot.documents@.take(i + 1).drop_last() =~= snapshot.documents@.take(i as int));
                assert(self@.documents =~= before.push(document@));
                assert(document@ == restored_document(snapshot.documents@[i as int], observation_at(observed@, i as int)));
                assert(self@.sessions =~= Map::<u64, SessionModel>::empty());
            }
            i = i + 1;
        }
        proof {
            assert(snapshot.documents@.take(i as int) =~= snapshot.documents@);
            assert(self@.documents =~= target);
        }
        let wanted = match snapshot.active_id {
            Some(a) => match self.find_index(a) {
                Some(_) => Some(a),
                None => None,
            },
            None => None,
        };
        self.active_id = wanted;
        let bumped = max_id.saturating_add(1);
        self.next_id = if snapshot.next_id > bumped {
            snapshot.next_id
        } else {
            bumped
        };
        let n = self.documents.len();
        if n == 0 {
            self.active_id = None;
        } else if self.active_id.is_none() {
            self.active_id = Some(self.documents[n - 1].id());
        }
        proof {
            assert(self@.sessions =~= Map::<u64, SessionModel>::empty());
            let docs = self@.documents;
            if n > 0 {
                assert(docs[n - 1].id == docs.last().id);
            }
            lemma_restored_wf(old(self)@, *snapshot, observed@);
        }
    }

    /// Marks the open documents touched by file events (as reported by the
    /// file watcher) as externally modified or deleted, and returns the
    /// identifiers of the events that named an open document, in order.
    pub fn poll_file_events(&mut self, events: &Vec<(u64, FileEvent)>) -> (r: Vec<u64>)
        requires
            old(self).wf(),
        ensures
            final(self).wf(),
            final(self)@ == (ManagerModel { documents: events_applied(old(self)@.documents, events@), ..old(self)@ }),
            r@ == affected_ids(old(self)@.documents, events@),
    {
        let mut affected: Vec<u64> = Vec::new();
        let mut i: usize = 0;
        while i < events.len()
            invariant
                i <= events@.len(),
                old(self).wf(),
                self.wf(),
                self@ == (ManagerModel {
                    documents: events_applied(old(self)@.documents, events@.take(i as int)),
                    ..old(self)@
                }),
                affected@ == affected_ids(old(self)@.documents, events@.take(i as int)),
                forall|k: u64| #[trigger] has_document(self@.documents, k) == has_document(old(self)@.documents, k),
            decreases events.len() - i,
        {
            let ghost before = self@;
            let (id, event) = &events[i];
            proof {
                assert(events@.take(i + 1).drop_last() =~= events@.take(i as int));
                assert(events@.take(i + 1).last() == events@[i as int]);
            }
            match self.find_index(*id) {
                Some(k) => {
                    let mut doc = self.documents.remove(k);
                    match event {
                        FileEvent::Modified(_) => doc.set_externally_modified(true),
                        FileEvent::Deleted(_) => doc.set_externally_deleted(true),
                    }
                    self.documents.insert(k, doc);
                    affected.push(*id);
                    proof {
                        lemma_with_document_wf(before, *id, doc@);
                        assert(self@.documents =~= before.documents.update(k as int, doc@));
                    }
                },
                None => {},
            }
            i = i + 1;
        }
        proof {
            assert(events@.take(i as int) =~= events@);
        }
        affected
    }
}

} // verus!
