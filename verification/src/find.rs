//! Find sessions: the matches of a query in one document, the match the
//! user is on, and stepping from match to match.
use vstd::prelude::*;
use crate::search::{CompiledFind, FindOptions, MatchSpan, PatternModel, SearchPattern};
use crate::text::{copy_string, push_str};

verus! {

/// Public snapshot of a single match expressed in character indices.
#[derive(Debug, Clone, Copy, PartialEq, Eq, Structural)]
pub struct FindMatch {
    pub start: usize,
    pub end: usize,
}

/// Aggregated search state for a document suitable for serialization to the UI.
#[derive(Debug, Clone, PartialEq, Eq)]
pub struct FindSnapshot {
    pub query: String,
    pub options: FindOptions,
    pub matches: Vec<FindMatch>,
    pub current_index: Option<usize>,
    pub message: Option<String>,
}

/// Direction in which to step through matches.
#[derive(Debug, Clone, Copy, PartialEq, Eq, Structural)]
pub enum SearchDirection {
    Forward,
    Backward,
}

/// A match kept by a find session, in character indices.
#[derive(Debug, Clone, Copy, PartialEq, Eq, Structural)]
pub struct StoredMatch {
    pub char_start: usize,
    pub char_end: usize,
}

pub open spec fn no_options() -> FindOptions {
    FindOptions { case_sensitive: false, whole_word: false, use_regex: false }
}

impl Default for FindOptions {
    fn default() -> (o: Self)
        ensures
            o == no_options(),
    {
        FindOptions { case_sensitive: false, whole_word: false, use_regex: false }
    }
}

impl FindSnapshot {
    /// The snapshot reported when there is no search: no query, default
    /// options, no matches, no current match and no message.
    pub fn empty() -> (s: Self)
        ensures
            s.query@ == Seq::<char>::empty(),
            s.options == no_options(),
            s.matches@ == Seq::<FindMatch>::empty(),
            s.current_index is None,
            s.message is None,
    {
        FindSnapshot {
            query: String::new(),
            options: FindOptions { case_sensitive: false, whole_word: false, use_regex: false },
            matches: Vec::new(),
            current_index: None,
            message: None,
        }
    }
}

impl StoredMatch {
    /// The match as reported to the UI.
    pub fn to_public(&self) -> (m: FindMatch)
        ensures
            m == (FindMatch { start: self.char_start, end: self.char_end }),
    {
        FindMatch { start: self.char_start, end: self.char_end }
    }

    /// The character span of a located match.
    pub fn from_span(span: MatchSpan) -> (m: StoredMatch)
        ensures
            m == (StoredMatch { char_start: span.char_start, char_end: span.char_end }),
    {
        StoredMatch { char_start: span.char_start, char_end: span.char_end }
    }
}

pub open spec fn stored_of(m: Seq<MatchSpan>) -> Seq<StoredMatch> {
    Seq::new(m.len(), |i: int| StoredMatch { char_start: m[i].char_start, char_end: m[i].char_end })
}

pub open spec fn public_of(m: Seq<StoredMatch>) -> Seq<FindMatch> {
    Seq::new(m.len(), |i: int| FindMatch { start: m[i].char_start, end: m[i].char_end })
}

/// What a find session holds.
pub struct SessionModel {
    pub query: Seq<char>,
    pub options: FindOptions,
    pub pattern: PatternModel,
    pub matches: Seq<StoredMatch>,
    pub current: Option<usize>,
}

/// The search state of one document.
pub struct FindSession {
    query: String,
    options: FindOptions,
    pattern: SearchPattern,
    matches: Vec<StoredMatch>,
    current: Option<usize>,
}

impl View for FindSession {
    type V = SessionModel;

    closed spec fn view(&self) -> SessionModel {
        SessionModel {
            query: self.query@,
            options: self.options,
            pattern: self.pattern@,
            matches: self.matches@,
            current: self.current,
        }
    }
}

/// The current match, when there is one, is one of the matches.
pub open spec fn current_in_bounds(s: SessionModel) -> bool {
    s.current matches Some(c) ==> c < s.matches.len()
}

/// The index of the first match when a session is created: the first match,
/// or none when there are no matches.
pub open spec fn initial_current(len: int) -> Option<usize> {
    if len == 0 {
        None
    } else {
        Some(0)
    }
}

/// The current index after clamping: none without matches, otherwise the
/// kept index (or the first match) limited to the last match.
pub open spec fn clamped_current(current: Option<usize>, len: int) -> Option<usize> {
    if len == 0 {
        None
    } else {
        match current {
            Some(c) => if c < len {
                Some(c)
            } else {
                Some((len - 1) as usize)
            },
            None => Some(0),
        }
    }
}

pub open spec fn no_matches_message() -> Seq<char> {
    "No matches found"@
}

/// The match a step moves to, and the message reported with it, for a
/// session with `len > 0` matches.
pub open spec fn step_target(current: Option<usize>, len: int, direction: SearchDirection, wrap: bool) -> (
    int,
    Option<Seq<char>>,
) {
    match (current, direction) {
        (Some(idx), SearchDirection::Forward) => if idx + 1 < len {
            (idx + 1, None)
        } else if wrap {
            (0, Some("Wrapped to top"@))
        } else {
            (idx as int, Some("Reached end of document"@))
        },
        (Some(idx), SearchDirection::Backward) => if idx > 0 {
            (idx - 1, None)
        } else if wrap {
            (len - 1, Some("Wrapped to bottom"@))
        } else {
            (idx as int, Some("Reached start of document"@))
        },
        (None, SearchDirection::Forward) => (0, None),
        (None, SearchDirection::Backward) => (len - 1, None),
    }
}

/// A step lands on a match: from any position within the matches (or
/// none), the target is between the first and the last match.
pub proof fn law_step_stays_on_a_match(current: Option<usize>, len: int, direction: SearchDirection, wrap: bool)
    requires
        len > 0,
        current matches Some(c) ==> c < len,
    ensures
        0 <= step_target(current, len, direction, wrap).0 < len,
{
}

/// Stepping forward and then back (or back and then forward) returns to the
/// match one started from, when the first step did not run into an end.
pub proof fn law_step_back_undoes_step_forward(c: usize, len: int, wrap: bool)
    requires
        c + 1 < len,
        c + 1 <= usize::MAX,
    ensures
        step_target(Some(step_target(Some(c), len, SearchDirection::Forward, wrap).0 as usize), len, SearchDirection::Backward, wrap).0
            == c,
        step_target(Some((c + 1) as usize), len, SearchDirection::Backward, wrap).0 == c,
        step_target(Some(c), len, SearchDirection::Forward, wrap).1 is None,
{
}

/// With wrapping on, stepping moves around the matches as a cycle: forward
/// goes to the next match modulo their number, backward to the previous one.
pub proof fn law_wrapping_steps_cycle(c: usize, len: int)
    requires
        0 <= c < len,
    ensures
        step_target(Some(c), len, SearchDirection::Forward, true).0 == (c + 1) % len,
        step_target(Some(c), len, SearchDirection::Backward, true).0 == (c + len - 1) % len,
{
    if c + 1 < len {
        assert((c + 1) % len == c + 1) by (nonlinear_arith)
            requires
                0 <= c + 1 < len,
        ;
    } else {
        assert((c + 1) % len == 0) by (nonlinear_arith)
            requires
                c + 1 == len,
                len > 0,
        ;
    }
    if c > 0 {
        assert((c + len - 1) % len == c - 1) by (nonlinear_arith)
            requires
                0 < c < len,
        ;
    } else {
        assert((c + len - 1) % len == len - 1) by (nonlinear_arith)
            requires
                c == 0,
                len > 0,
        ;
    }
}

/// Without wrapping, a step at the last match forward (or the first match
/// backward) stays there and says so.
pub proof fn law_steps_stop_at_the_ends(len: int)
    requires
        0 < len <= usize::MAX,
    ensures
        step_target(Some((len - 1) as usize), len, SearchDirection::Forward, false) == (
            len - 1,
            Some("Reached end of document"@),
        ),
        step_target(Some(0), len, SearchDirection::Backward, false) == (0int, Some("Reached start of document"@)),
{
}

/// A snapshot reports a session with a message.
pub open spec fn reports(snap: FindSnapshot, s: SessionModel, message: Option<Seq<char>>) -> bool {
    &&& snap.query@ == s.query
    &&& snap.options == s.options
    &&& snap.matches@ == public_of(s.matches)
    &&& snap.current_index == s.current
    &&& snap.message.deep_view() == message
}

/// The snapshot reported when there is no search.
pub open spec fn is_empty_snapshot(snap: FindSnapshot) -> bool {
    &&& snap.query@ == Seq::<char>::empty()
    &&& snap.options == no_options()
    &&& snap.matches@ == Seq::<FindMatch>::empty()
    &&& snap.current_index is None
    &&& snap.message is None
}

/// Two optional messages joined with an em dash when both are present.
pub open spec fn combined_message(primary: Option<Seq<char>>, secondary: Option<Seq<char>>) -> Option<Seq<char>> {
    match (primary, secondary) {
        (None, None) => None,
        (Some(p), None) => Some(p),
        (None, Some(s)) => Some(s),
        (Some(p), Some(s)) => Some(p + " — "@ + s),
    }
}

/// Joins two optional status messages.
pub fn combine_messages(primary: Option<String>, secondary: Option<String>) -> (r: Option<String>)
    ensures
        r.deep_view() == combined_message(primary.deep_view(), secondary.deep_view()),
{
    match (primary, secondary) {
        (None, None) => None,
        (Some(p), None) => Some(p),
        (None, Some(s)) => Some(s),
        (Some(p), Some(s)) => {
            let mut joined = p;
            push_str(&mut joined, " — ");
            push_str(&mut joined, s.as_str());
            Some(joined)
        },
    }
}

impl FindSession {
    #[verifier::type_invariant]
    spec fn current_within_matches(self) -> bool {
        self.current matches Some(c) ==> c < self.matches@.len()
    }

    /// A session over freshly compiled matches, positioned on the first match.
    pub fn from_compiled(query: String, options: FindOptions, compiled: CompiledFind) -> (s: FindSession)
        ensures
            s@ == (SessionModel {
                query: query@,
                options,
                pattern: compiled.pattern@,
                matches: stored_of(compiled.matches@),
                current: initial_current(compiled.matches@.len() as int),
            }),
    {
        let CompiledFind { pattern, matches: spans } = compiled;
        let mut matches: Vec<StoredMatch> = Vec::new();
        let mut i: usize = 0;
        while i < spans.len()
            invariant
                i <= spans@.len(),
                matches@.len() == i,
                forall|j: int| 0 <= j < i ==> matches@[j] == #[trigger] stored_of(spans@)[j],
            decreases spans.len() - i,
        {
            matches.push(StoredMatch::from_span(spans[i]));
            i = i + 1;
        }
        assert(matches@ =~= stored_of(spans@));
        let current = if matches.len() == 0 {
            None
        } else {
            Some(0)
        };
        FindSession { query, options, pattern, matches, current }
    }

    /// Like `from_compiled`, but keeping the position of an earlier session
    /// (limited to the last match) when there is one.
    pub fn from_compiled_keeping(
        query: String,
        options: FindOptions,
        compiled: CompiledFind,
        previous: Option<usize>,
    ) -> (s: FindSession)
        ensures
            s@.query == query@,
            s@.options == options,
            s@.pattern == compiled.pattern@,
            s@.matches == stored_of(compiled.matches@),
            s@.current == (match previous {
                Some(c) => clamped_current(Some(c), compiled.matches@.len() as int),
                None => initial_current(compiled.matches@.len() as int),
            }),
    {
        let session = FindSession::from_compiled(query, options, compiled);
        let FindSession { query, options, pattern, matches, current } = session;
        let current = match previous {
            Some(c) => if matches.len() > 0 {
                if c < matches.len() {
                    Some(c)
                } else {
                    Some(matches.len() - 1)
                }
            } else {
                current
            },
            None => current,
        };
        FindSession { query, options, pattern, matches, current }
    }

    /// The query text of the session.
    pub fn query(&self) -> (q: &str)
        ensures
            q@ == self@.query,
    {
        self.query.as_str()
    }

    /// The options of the session.
    pub fn options(&self) -> (o: FindOptions)
        ensures
            o == self@.options,
    {
        self.options
    }

    /// The compiled pattern of the session.
    pub fn pattern(&self) -> (p: &SearchPattern)
        ensures
            p@ == self@.pattern,
    {
        &self.pattern
    }

    /// Number of matches.
    pub fn match_count(&self) -> (n: usize)
        ensures
            n == self@.matches.len(),
    {
        self.matches.len()
    }

    /// The current match index.
    pub fn current(&self) -> (c: Option<usize>)
        ensures
            c == self@.current,
            current_in_bounds(self@),
    {
        proof {
            use_type_invariant(self);
        }
        self.current
    }

    /// The session as reported to the UI, with a status message.
    pub fn snapshot(&self, message: Option<String>) -> (s: FindSnapshot)
        ensures
            s.query@ == self@.query,
            s.options == self@.options,
            s.matches@ == public_of(self@.matches),
            s.current_index == self@.current,
            s.message == message,
    {
        let mut matches: Vec<FindMatch> = Vec::new();
        let mut i: usize = 0;
        while i < self.matches.len()
            invariant
                i <= self.matches@.len(),
                matches@.len() == i,
                forall|j: int| 0 <= j < i ==> matches@[j] == #[trigger] public_of(self.matches@)[j],
            decreases self.matches.len() - i,
        {
            matches.push(self.matches[i].to_public());
            i = i + 1;
        }
        assert(matches@ =~= public_of(self.matches@));
        FindSnapshot {
            query: self.query.clone(),
            options: self.options,
            matches,
            current_index: self.current,
            message,
        }
    }

    /// Clamp the current index into the matches: none without matches, the
    /// first match when none was selected.
    pub fn ensure_current_within_bounds(&mut self)
        ensures
            final(self)@ == (SessionModel { current: clamped_current(old(self)@.current, old(self)@.matches.len() as int), ..old(self)@ }),
    {
        proof {
            use_type_invariant(&*self);
        }
        if self.matches.len() == 0 {
            self.current = None;
        } else {
            let idx = match self.current {
                Some(i) => i,
                None => 0,
            };
            let max = self.matches.len() - 1;
            self.current = Some(if idx < max { idx } else { max });
        }
    }

    /// Move to the next (or previous) match, wrapping around at the ends when
    /// `wrap` is set; returns the status message of the step.
    pub fn advance(&mut self, direction: SearchDirection, wrap: bool) -> (message: Option<String>)
        ensures
            old(self)@.matches.len() == 0 ==> final(self)@ == (SessionModel { current: None, ..old(self)@ })
                && message.deep_view() == Some(no_matches_message()),
            old(self)@.matches.len() > 0 ==> ({
                let (next, msg) = step_target(
                    old(self)@.current,
                    old(self)@.matches.len() as int,
                    direction,
                    wrap,
                );
                &&& final(self)@ == (SessionModel { current: Some(next as usize), ..old(self)@ })
                &&& message.deep_view() == msg
            }),
    {
        proof {
            use_type_invariant(&*self);
        }
        if self.matches.len() == 0 {
            self.current = None;
            return Some(copy_string("No matches found"));
        }
        let len = self.matches.len();
        let (next, message): (usize, Option<String>) = match (self.current, direction) {
            (Some(idx), SearchDirection::Forward) => if idx + 1 < len {
                (idx + 1, None)
            } else if wrap {
                (0, Some(copy_string("Wrapped to top")))
            } else {
                (idx, Some(copy_string("Reached end of document")))
            },
            (Some(idx), SearchDirection::Backward) => if idx > 0 {
                (idx - 1, None)
            } else if wrap {
                (len - 1, Some(copy_string("Wrapped to bottom")))
            } else {
                (idx, Some(copy_string("Reached start of document")))
            },
            (None, SearchDirection::Forward) => (0, None),
            (None, SearchDirection::Backward) => (len - 1, None),
        };
        let max = len - 1;
        self.current = Some(if next < max { next } else { max });
        message
    }
}

} // verus!
