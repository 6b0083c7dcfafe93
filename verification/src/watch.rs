//! What the file watcher decides: which watched path an event concerns,
//! what kind of change it reports, and how a batch of events is reduced to
//! one event per document (a deletion wins over a modification).
use vstd::prelude::*;
use crate::platform::{paths_equal, same_path};
use crate::text::copy_string;

verus! {

/// Events that can be detected by the file watcher.
#[derive(Debug, Clone)]
pub enum FileEvent {
    /// File content was modified externally.
    Modified(String),
    /// File was deleted or moved away.
    Deleted(String),
}

/// The kinds of file-system change the watcher tells apart.
#[derive(Debug, Clone, Copy, PartialEq, Eq, Structural)]
pub enum ChangeKind {
    ModifyData,
    ModifyAny,
    ModifyMetadata,
    RemoveFile,
    RemoveAny,
    Other,
}

/// The paths being watched, each with the document it belongs to.
pub struct WatchedPaths {
    entries: Vec<(String, u64)>,
}

/// The watched entries as (path, document) pairs.
pub open spec fn entry_views(s: Seq<(String, u64)>) -> Seq<(Seq<char>, u64)> {
    s.map_values(|e: (String, u64)| (e.0@, e.1))
}

/// The document watched under a path equal to `path` (as `std::path::Path`
/// compares them), if any; the most recent entry wins.
pub open spec fn lookup(s: Seq<(Seq<char>, u64)>, path: Seq<char>) -> Option<u64>
    decreases s.len(),
{
    if s.len() == 0 {
        None
    } else if paths_equal(path, s.last().0) {
        Some(s.last().1)
    } else {
        lookup(s.drop_last(), path)
    }
}

/// The entries without those whose path equals `path`.
pub open spec fn without_key(s: Seq<(Seq<char>, u64)>, path: Seq<char>) -> Seq<(Seq<char>, u64)>
    decreases s.len(),
{
    if s.len() == 0 {
        s
    } else if paths_equal(path, s.last().0) {
        without_key(s.drop_last(), path)
    } else {
        without_key(s.drop_last(), path).push(s.last())
    }
}

impl View for WatchedPaths {
    type V = Seq<(Seq<char>, u64)>;

    /// The watched (path, document) pairs, in the order they were added.
    closed spec fn view(&self) -> Seq<(Seq<char>, u64)> {
        entry_views(self.entries@)
    }
}

impl WatchedPaths {
    /// Nothing watched yet.
    pub fn new() -> (w: Self)
        ensures
            w@ == Seq::<(Seq<char>, u64)>::empty(),
    {
        let w = WatchedPaths { entries: Vec::new() };
        assert(w@ =~= Seq::<(Seq<char>, u64)>::empty());
        w
    }

    /// The document watched under `path`, if any.
    pub fn doc_id_for_path(&self, path: &str) -> (r: Option<u64>)
        ensures
            r == lookup(self@, path@),
    {
        let ghost v = self@;
        let mut i: usize = self.entries.len();
        assert(v.take(i as int) =~= v);
        while i > 0
            invariant
                i <= self.entries@.len(),
                v == entry_views(self.entries@),
                lookup(v, path@) == lookup(v.take(i as int), path@),
            decreases i,
        {
            let k = i - 1;
            proof {
                assert(v.take(i as int).drop_last() =~= v.take(k as int));
                assert(v.take(i as int).last() == v[k as int]);
            }
            if same_path(path, self.entries[k].0.as_str()) {
                return Some(self.entries[k].1);
            }
            i = k;
        }
        proof {
            assert(v.take(0) =~= Seq::<(Seq<char>, u64)>::empty());
        }
        None
    }

    /// Whether `path` is being watched.
    pub fn contains(&self, path: &str) -> (r: bool)
        ensures
            r == (lookup(self@, path@) is Some),
    {
        self.doc_id_for_path(path).is_some()
    }

    /// Starts tracking `path` for document `doc_id`; a path already tracked
    /// keeps its document.
    pub fn insert(&mut self, path: &str, doc_id: u64)
        ensures
            final(self)@ == if lookup(old(self)@, path@) is None {
                old(self)@.push((path@, doc_id))
            } else {
                old(self)@
            },
    {
        if self.contains(path) {
            return;
        }
        self.entries.push((copy_string(path), doc_id));
        assert(self@ =~= old(self)@.push((path@, doc_id)));
    }

    /// Stops tracking `path`; returns whether it was tracked.
    pub fn remove(&mut self, path: &str) -> (r: bool)
        ensures
            r == (lookup(old(self)@, path@) is Some),
            final(self)@ == without_key(old(self)@, path@),
    {
        let was = self.contains(path);
        let ghost before = self@;
        let mut kept: Vec<(String, u64)> = Vec::new();
        let mut i: usize = 0;
        while i < self.entries.len()
            invariant
                i <= self.entries@.len(),
                before == entry_views(self.entries@),
                entry_views(kept@) == without_key(before.take(i as int), path@),
            decreases self.entries.len() - i,
        {
            proof {
                assert(before.take(i + 1).drop_last() =~= before.take(i as int));
                assert(before.take(i + 1).last() == before[i as int]);
            }
            if !same_path(path, self.entries[i].0.as_str()) {
                let ghost k0 = kept@;
                let entry = (copy_string(self.entries[i].0.as_str()), self.entries[i].1);
                kept.push(entry);
                assert(entry_views(kept@) =~= entry_views(k0).push(before[i as int]));
            }
            i = i + 1;
        }
        proof {
            assert(before.take(i as int) =~= before);
        }
        self.entries = kept;
        was
    }
}

/// The event a change reports for a watched path: data, metadata and
/// unspecified modifications are modifications; file and unspecified
/// removals are deletions; other changes report nothing.
pub open spec fn event_kind_of(kind: ChangeKind) -> Option<bool> {
    match kind {
        ChangeKind::ModifyData | ChangeKind::ModifyAny | ChangeKind::ModifyMetadata => Some(false),
        ChangeKind::RemoveFile | ChangeKind::RemoveAny => Some(true),
        ChangeKind::Other => None,
    }
}

/// The document event a file-system change stands for: the change concerns
/// its first path, which must be watched, and must be a modification or a
/// removal.
pub fn process_event(watched: &WatchedPaths, paths: &Vec<String>, kind: ChangeKind) -> (r: Option<(u64, FileEvent)>)
    ensures
        match r {
            Some((id, e)) => paths@.len() > 0 && lookup(watched@, paths@[0]@) == Some(id) && match e {
                FileEvent::Modified(p) => event_kind_of(kind) == Some(false) && p@ == paths@[0]@,
                FileEvent::Deleted(p) => event_kind_of(kind) == Some(true) && p@ == paths@[0]@,
            },
            None => paths@.len() == 0 || lookup(watched@, paths@[0]@) is None || event_kind_of(kind) is None,
        },
{
    if paths.len() == 0 {
        return None;
    }
    let path = paths[0].as_str();
    let id = match watched.doc_id_for_path(path) {
        Some(id) => id,
        None => return None,
    };
    match kind {
        ChangeKind::ModifyData | ChangeKind::ModifyAny | ChangeKind::ModifyMetadata => Some(
            (id, FileEvent::Modified(copy_string(path))),
        ),
        ChangeKind::RemoveFile | ChangeKind::RemoveAny => Some((id, FileEvent::Deleted(copy_string(path)))),
        ChangeKind::Other => None,
    }
}

/// The event kept for `id` after the events are read in order: a deletion
/// replaces whatever was kept; a modification is kept only when nothing was.
pub open spec fn kept_event(events: Seq<(u64, FileEvent)>, id: u64) -> Option<FileEvent>
    decreases events.len(),
{
    if events.len() == 0 {
        None
    } else {
        let prev = kept_event(events.drop_last(), id);
        let (k, e) = events.last();
        if k != id {
            prev
        } else if e is Deleted {
            Some(e)
        } else if prev is None {
            Some(e)
        } else {
            prev
        }
    }
}

/// A deletion wins: when the events name a document with a deletion, the
/// event kept for it is its last deletion; otherwise, when they name it
/// with a modification, the kept event is its first modification.
pub proof fn law_deletion_wins(events: Seq<(u64, FileEvent)>, id: u64)
    ensures
        (exists|i: int| 0 <= i < events.len() && events[i].0 == id && #[trigger] events[i].1 is Deleted) ==> ({
            let last = choose|i: int|
                0 <= i < events.len() && events[i].0 == id && events[i].1 is Deleted && forall|j: int|
                    i < j < events.len() ==> !(events[j].0 == id && #[trigger] events[j].1 is Deleted);
            kept_event(events, id) == Some(events[last].1)
        }),
        !(exists|i: int| 0 <= i < events.len() && events[i].0 == id && #[trigger] events[i].1 is Deleted) ==> match kept_event(
            events,
            id,
        ) {
            Some(e) => exists|i: int|
                0 <= i < events.len() && events[i].0 == id && events[i].1 == e && forall|j: int|
                    0 <= j < i ==> #[trigger] events[j].0 != id,
            None => forall|i: int| 0 <= i < events.len() ==> #[trigger] events[i].0 != id,
        },
    decreases events.len(),
{
    if events.len() > 0 {
        let rest = events.drop_last();
        law_deletion_wins(rest, id);
        let n = events.len() - 1;
        assert forall|i: int| 0 <= i < n implies events[i] == rest[i] by {}
        if exists|i: int| 0 <= i < events.len() && events[i].0 == id && #[trigger] events[i].1 is Deleted {
            if events[n].0 == id && events[n].1 is Deleted {
                let last = choose|i: int|
                    0 <= i < events.len() && events[i].0 == id && events[i].1 is Deleted && forall|j: int|
                        i < j < events.len() ==> !(events[j].0 == id && #[trigger] events[j].1 is Deleted);
                if last != n {
                    assert(!(events[n].0 == id && events[n].1 is Deleted));
                }
            } else {
                let w = choose|i: int| 0 <= i < events.len() && events[i].0 == id && #[trigger] events[i].1 is Deleted;
                assert(rest[w].0 == id && rest[w].1 is Deleted);
                let last_rest = choose|i: int|
                    0 <= i < rest.len() && rest[i].0 == id && rest[i].1 is Deleted && forall|j: int|
                        i < j < rest.len() ==> !(rest[j].0 == id && #[trigger] rest[j].1 is Deleted);
                lemma_last_deletion_exists(events, id);
                let last = choose|i: int|
                    0 <= i < events.len() && events[i].0 == id && events[i].1 is Deleted && forall|j: int|
                        i < j < events.len() ==> !(events[j].0 == id && #[trigger] events[j].1 is Deleted);
                lemma_last_deletion_exists(rest, id);
                if last != last_rest {
                    if last < last_rest {
                        assert(events[last_rest] == rest[last_rest]);
                    } else {
                        assert(last < n);
                        assert(rest[last] == events[last]);
                    }
                }
            }
        } else {
            if events[n].0 == id {
                if kept_event(rest, id) is None {
                    assert(forall|j: int| 0 <= j < n ==> #[trigger] events[j].0 != id);
                } else {
                    let e = kept_event(rest, id)->0;
                    let i = choose|i: int|
                        0 <= i < rest.len() && rest[i].0 == id && rest[i].1 == e && forall|j: int| 0 <= j < i ==> #[trigger] rest[j].0 != id;
                    assert(events[i] == rest[i]);
                }
            } else if let Some(e) = kept_event(rest, id) {
                let i = choose|i: int|
                    0 <= i < rest.len() && rest[i].0 == id && rest[i].1 == e && forall|j: int| 0 <= j < i ==> #[trigger] rest[j].0 != id;
                assert(events[i] == rest[i]);
            }
        }
    }
}

/// When the events name a document with a deletion, one of its deletions
/// comes after all the others.
proof fn lemma_last_deletion_exists(events: Seq<(u64, FileEvent)>, id: u64)
    requires
        exists|i: int| 0 <= i < events.len() && events[i].0 == id && #[trigger] events[i].1 is Deleted,
    ensures
        exists|i: int|
            0 <= i < events.len() && events[i].0 == id && events[i].1 is Deleted && forall|j: int|
                i < j < events.len() ==> !(events[j].0 == id && #[trigger] events[j].1 is Deleted),
    decreases events.len(),
{
    let n = events.len() - 1;
    if events[n].0 == id && events[n].1 is Deleted {
        assert(forall|j: int| n < j < events.len() ==> !(events[j].0 == id && #[trigger] events[j].1 is Deleted));
    } else {
        let rest = events.drop_last();
        let w = choose|i: int| 0 <= i < events.len() && events[i].0 == id && #[trigger] events[i].1 is Deleted;
        assert(w < n);
        assert(rest[w] == events[w]);
        lemma_last_deletion_exists(rest, id);
        let k = choose|i: int|
            0 <= i < rest.len() && rest[i].0 == id && rest[i].1 is Deleted && forall|j: int|
                i < j < rest.len() ==> !(rest[j].0 == id && #[trigger] rest[j].1 is Deleted);
        assert(events[k] == rest[k]);
        assert forall|j: int| k < j < events.len() implies !(events[j].0 == id && #[trigger] events[j].1 is Deleted) by {
            if j < n {
                assert(events[j] == rest[j]);
            }
        }
    }
}

/// Some entry of `out` is for document `id`.
pub open spec fn has_entry(out: Seq<(u64, FileEvent)>, id: u64) -> bool {
    exists|i: int| 0 <= i < out.len() && out[i].0 == id
}

/// Reduces a batch of events to one event per document: for each document
/// named, its last deletion if it has one, else its first modification.
/// The order of the documents is left open.
pub fn dedupe_events(events: Vec<(u64, FileEvent)>) -> (out: Vec<(u64, FileEvent)>)
    ensures
        forall|i: int, j: int| 0 <= i < j < out@.len() ==> out@[i].0 != out@[j].0,
        forall|i: int| 0 <= i < out@.len() ==> kept_event(events@, (#[trigger] out@[i]).0) == Some(out@[i].1),
        forall|id: u64| #[trigger] kept_event(events@, id) is Some ==> has_entry(out@, id),
{
    let ghost orig = events@;
    let mut events = events;
    assert(orig.len() == events.len());
    let mut out: Vec<(u64, FileEvent)> = Vec::new();
    let mut n: usize = 0;
    while events.len() > 0
        invariant
            n <= orig.len(),
            orig.len() <= usize::MAX,
            events@.len() + n == orig.len(),
            events@ == orig.skip(n as int),
            forall|i: int, j: int| 0 <= i < j < out@.len() ==> out@[i].0 != out@[j].0,
            forall|i: int| 0 <= i < out@.len() ==> kept_event(orig.take(n as int), (#[trigger] out@[i]).0) == Some(out@[i].1),
            forall|id: u64| #[trigger] kept_event(orig.take(n as int), id) is Some ==> has_entry(out@, id),
        decreases events.len(),
    {
        let ghost pre = orig.take(n as int);
        let ghost cur = orig.take(n + 1);
        let (id, event) = events.remove(0);
        proof {
            assert(cur.drop_last() =~= pre);
            assert(cur.last() == orig[n as int]);
            assert(orig[n as int] == (id, event));
            assert(events@ =~= orig.skip(n + 1));
        }
        let is_del = match &event {
            FileEvent::Deleted(_) => true,
            FileEvent::Modified(_) => false,
        };
        let mut pos: usize = 0;
        while pos < out.len() && out[pos].0 != id
            invariant
                pos <= out@.len(),
                forall|i: int| 0 <= i < pos ==> out@[i].0 != id,
            decreases out.len() - pos,
        {
            pos = pos + 1;
        }
        let ghost before = out@;
        if pos >= out.len() {
            assert(!has_entry(out@, id));
            out.push((id, event));
            proof {
                assert(out@[out@.len() - 1].0 == id);
                assert forall|i: int| 0 <= i < out@.len() implies kept_event(cur, (#[trigger] out@[i]).0) == Some(out@[i].1) by {
                    if i < before.len() {
                        assert(out@[i] == before[i]);
                        assert(kept_event(pre, before[i].0) is Some);
                        assert(before[i].0 != id);
                    } else {
                        assert(kept_event(pre, id) is None);
                    }
                }
                assert forall|k: u64| #[trigger] kept_event(cur, k) is Some implies has_entry(out@, k) by {
                    if k != id {
                        assert(kept_event(cur, k) == kept_event(pre, k));
                        assert(has_entry(before, k));
                        let j = choose|j: int| 0 <= j < before.len() && before[j].0 == k;
                        assert(out@[j] == before[j]);
                    } else {
                        assert(out@[out@.len() - 1].0 == k);
                    }
                }
            }
        } else if is_del {
            out.set(pos, (id, event));
            proof {
                assert forall|i: int| 0 <= i < out@.len() implies kept_event(cur, (#[trigger] out@[i]).0) == Some(out@[i].1) by {
                    if i != pos {
                        assert(out@[i] == before[i]);
                    }
                }
                assert forall|k: u64| #[trigger] kept_event(cur, k) is Some implies has_entry(out@, k) by {
                    if k == id {
                        assert(out@[pos as int].0 == k);
                    } else {
                        assert(kept_event(cur, k) == kept_event(pre, k));
                        assert(has_entry(before, k));
                        let j = choose|j: int| 0 <= j < before.len() && before[j].0 == k;
                        assert(out@[j].0 == before[j].0);
                    }
                }
            }
        } else {
            proof {
                assert(out@[pos as int].0 == id);
                assert(kept_event(pre, id) is Some);
                assert forall|k: u64| #[trigger] kept_event(cur, k) == kept_event(pre, k) by {}
            }
        }
        n = n + 1;
    }
    proof {
        assert(orig.take(n as int) =~= orig);
    }
    out
}

} // verus!
