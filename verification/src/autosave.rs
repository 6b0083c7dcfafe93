//! The autosave snapshot: every open document with its text and state, so
//! that a session can be brought back after the application restarts.
use vstd::prelude::*;
use crate::document::{empty_document, title_for_path, DiskObservation, DocumentModel};
use crate::encoding::{converted_line_endings, line_ending_of, LineEnding, TextEncoding};
use crate::platform::{file_stem_of, join_path, parent_of, path_file_stem, path_join, path_parent, path_with_file_name, with_file_name};
use crate::text::{copy_string, push_str};

verus! {

/// One open document as the autosave snapshot holds it.
#[derive(Debug)]
pub struct AutosaveDocument {
    pub id: u64,
    pub title: String,
    pub text: String,
    pub path: Option<String>,
    pub encoding: TextEncoding,
    pub line_ending: LineEnding,
    pub dirty: bool,
    pub read_only: bool,
    pub edit_override: bool,
}

/// The open documents, the active one and the next identifier, stamped
/// with the time (seconds since the Unix epoch) the snapshot was taken.
#[derive(Debug)]
pub struct AutosaveSnapshot {
    pub documents: Vec<AutosaveDocument>,
    pub active_id: Option<u64>,
    pub next_id: u64,
    pub timestamp_epoch: u64,
}

/// `a` records document `d`.
pub open spec fn records_document(a: AutosaveDocument, d: DocumentModel) -> bool {
    &&& a.id == d.id
    &&& a.title@ == d.title
    &&& a.text@ == d.text
    &&& a.path.deep_view() == d.path
    &&& a.encoding == d.encoding
    &&& a.line_ending == d.line_ending
    &&& a.dirty == d.dirty
    &&& a.read_only == d.read_only
    &&& a.edit_override == d.edit_override
}

/// The document rebuilt from a snapshot entry: an empty document under the
/// recorded title; when it has a path, attached to it and updated from the
/// metadata read for it; then the encoding, text and line ending are set,
/// a clean entry is marked clean, and the edit override is asked for again
/// (which only holds on a read-only file).
pub open spec fn restored_document(a: AutosaveDocument, observed: DiskObservation) -> DocumentModel {
    let base = empty_document(a.id, a.title@);
    let placed = match a.path {
        Some(p) => base.with_path(p@).with_observation(observed),
        None => base,
    };
    let filled = placed.with_encoding(a.encoding).with_text(a.text@).with_line_ending(a.line_ending);
    let cleaned = if a.dirty {
        filled
    } else {
        DocumentModel { dirty: false, ..filled }
    };
    cleaned.with_edit_override(a.edit_override)
}

/// The metadata observed for the `i`-th snapshot entry; none when the
/// caller supplied fewer observations than entries.
pub open spec fn observation_at(observed: Seq<DiskObservation>, i: int) -> DiskObservation {
    if 0 <= i < observed.len() {
        observed[i]
    } else {
        DiskObservation::Unavailable
    }
}

/// The largest identifier in the snapshot entries, 0 when there are none.
pub open spec fn max_saved_id(s: Seq<AutosaveDocument>) -> u64
    decreases s.len(),
{
    if s.len() == 0 {
        0
    } else {
        let m = max_saved_id(s.drop_last());
        if s.last().id > m {
            s.last().id
        } else {
            m
        }
    }
}

/// Every identifier in the snapshot entries is at most `max_saved_id`.
pub proof fn lemma_max_saved_id_bounds(s: Seq<AutosaveDocument>)
    ensures
        forall|i: int| 0 <= i < s.len() ==> #[trigger] s[i].id <= max_saved_id(s),
    decreases s.len(),
{
    if s.len() > 0 {
        lemma_max_saved_id_bounds(s.drop_last());
        assert forall|i: int| 0 <= i < s.len() implies #[trigger] s[i].id <= max_saved_id(s) by {
            if i < s.len() - 1 {
                assert(s[i] == s.drop_last()[i]);
            }
        }
    }
}

/// The largest identifier is one of the identifiers, when there are any.
pub proof fn lemma_max_saved_id_attained(s: Seq<AutosaveDocument>)
    requires
        s.len() > 0,
    ensures
        exists|i: int| 0 <= i < s.len() && #[trigger] s[i].id == max_saved_id(s),
    decreases s.len(),
{
    if s.len() > 1 {
        let rest = s.drop_last();
        lemma_max_saved_id_attained(rest);
        if s.last().id <= max_saved_id(rest) {
            let i = choose|i: int| 0 <= i < rest.len() && #[trigger] rest[i].id == max_saved_id(rest);
            assert(s[i] == rest[i]);
        } else {
            assert(s[s.len() - 1].id == max_saved_id(s));
        }
    } else {
        assert(s.drop_last().len() == 0);
        assert(max_saved_id(s.drop_last()) == 0);
        assert(s[0] == s.last());
        assert(s[0].id == max_saved_id(s));
    }
}

/// A document is brought back unchanged from its snapshot entry, given the
/// metadata `observed` for its path: it has no external-change flags and its
/// text is already in its line ending's form; without a path it is
/// writable with no cached metadata; with one, it is titled after the path
/// and its metadata is what was observed.
pub open spec fn restores_unchanged(d: DocumentModel, observed: DiskObservation) -> bool {
    &&& !d.externally_modified
    &&& !d.externally_deleted
    &&& converted_line_endings(d.text, d.line_ending) == d.text
    &&& match d.path {
        None => !d.read_only && d.last_modified is None && d.last_size is None,
        Some(p) => d.title == title_for_path(p) && match observed {
            DiskObservation::Fingerprint(fp) => d.last_modified == Some(fp.modified) && d.last_size == Some(fp.size)
                && d.read_only == fp.read_only,
            DiskObservation::ReadOnly(ro) => d.last_modified is None && d.last_size is None && d.read_only == ro,
            DiskObservation::Unavailable => d.last_modified is None && d.last_size is None && !d.read_only,
        },
    }
}

/// Restoring the entry that records a document gives that document back,
/// when `restores_unchanged` holds of it.
pub proof fn law_restore_document_round_trip(a: AutosaveDocument, d: DocumentModel, observed: DiskObservation)
    requires
        d.wf(),
        records_document(a, d),
        restores_unchanged(d, observed),
    ensures
        restored_document(a, observed) == d,
{
    let r = restored_document(a, observed);
    if line_ending_of(d.text) != d.line_ending {
        assert(converted_line_endings(d.text, d.line_ending) == d.text);
    }
    assert(r.text == d.text);
    assert(r.path == d.path);
}

/// The file name of the autosave snapshot kept beside a configuration
/// file: its stem followed by ".autosave.json", or "autosave.json" when it
/// has none.
pub open spec fn autosave_file_name(config_path: Seq<char>) -> Seq<char> {
    match path_file_stem(config_path) {
        Some(stem) => stem + ".autosave.json"@,
        None => "autosave.json"@,
    }
}

/// Where the autosave snapshot is kept: beside the configuration file.
pub open spec fn autosave_location(config_path: Seq<char>) -> Seq<char> {
    match path_parent(config_path) {
        Some(parent) => path_join(parent, autosave_file_name(config_path)),
        None => path_with_file_name(config_path, autosave_file_name(config_path)),
    }
}

/// The path of the autosave snapshot kept beside `config_path`.
pub fn autosave_path_for(config_path: &str) -> (r: String)
    ensures
        r@ == autosave_location(config_path@),
{
    let name = match file_stem_of(config_path) {
        Some(stem) => {
            let mut n = stem;
            push_str(&mut n, ".autosave.json");
            n
        },
        None => copy_string("autosave.json"),
    };
    match parent_of(config_path) {
        Some(parent) => join_path(parent.as_str(), name.as_str()),
        None => with_file_name(config_path, name.as_str()),
    }
}

} // verus!
