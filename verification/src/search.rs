//! Text search: compiling a query into a regular expression, locating its
//! matches in character positions, and splicing replacements into a text.
use vstd::prelude::*;
use crate::document::DocumentError;
use crate::text::{
    char_index_of_byte, char_offset, chars_of, copy_string, is_char_boundary_offset,
    lemma_char_offset_monotone, push_str, string_of, utf8_prefix_len,
};

verus! {

/// Options controlling how text search behaves.
#[derive(Debug, Clone, Copy, PartialEq, Eq, Structural)]
pub struct FindOptions {
    /// Treat the query as case-sensitive when true.
    pub case_sensitive: bool,
    /// Restrict matches to whole-word boundaries.
    pub whole_word: bool,
    /// Interpret the query as a regular expression when true.
    pub use_regex: bool,
}

/// A compiled regular expression from the `regex` crate.
#[verifier::external_type_specification]
#[verifier::external_body]
pub struct ExRegex(regex::Regex);

/// The error text `regex::RegexBuilder::build` reports for a pattern and
/// flags, or `None` when it compiles.
pub uninterp spec fn regex_build_error(
    pattern: Seq<char>,
    case_insensitive: bool,
    multi_line: bool,
    dot_matches_new_line: bool,
) -> Option<Seq<char>>;

/// The byte spans `regex::Regex::find_iter` yields for a compiled pattern on
/// a text.
pub uninterp spec fn regex_find_spans(
    pattern: Seq<char>,
    case_insensitive: bool,
    multi_line: bool,
    dot_matches_new_line: bool,
    text: Seq<char>,
) -> Seq<(usize, usize)>;

/// For each match that `regex::Regex::captures_iter` yields on a text, its
/// byte span and the template expanded with its capture groups by
/// `regex::Captures::expand`.
pub uninterp spec fn regex_capture_expansions(
    pattern: Seq<char>,
    case_insensitive: bool,
    multi_line: bool,
    dot_matches_new_line: bool,
    text: Seq<char>,
    template: Seq<char>,
) -> Seq<(usize, usize, Seq<char>)>;

/// The characters `regex::escape` puts a backslash before.
pub open spec fn is_regex_meta(c: char) -> bool {
    ||| c == '\\' || c == '.' || c == '+' || c == '*' || c == '?' || c == '(' || c == ')'
    ||| c == '|' || c == '[' || c == ']' || c == '{' || c == '}' || c == '^' || c == '$'
    ||| c == '#' || c == '&' || c == '-' || c == '~'
}

/// The text `regex::escape` returns for a query: every character copied,
/// with a backslash before each meta character.
pub open spec fn regex_escaped(query: Seq<char>) -> Seq<char>
    decreases query.len(),
{
    if query.len() == 0 {
        Seq::empty()
    } else {
        let c = query.last();
        regex_escaped(query.drop_last()) + if is_regex_meta(c) {
            seq!['\\', c]
        } else {
            seq![c]
        }
    }
}

/// What a compiled pattern was compiled from.
pub struct PatternModel {
    pub source: Seq<char>,
    pub case_insensitive: bool,
    pub multi_line: bool,
    pub dot_matches_new_line: bool,
}

/// A regular expression together with the pattern text and flags it was
/// compiled from.
pub struct SearchPattern {
    regex: regex::Regex,
    source: String,
    case_insensitive: bool,
    multi_line: bool,
    dot_matches_new_line: bool,
}

impl View for SearchPattern {
    type V = PatternModel;

    closed spec fn view(&self) -> PatternModel {
        PatternModel {
            source: self.source@,
            case_insensitive: self.case_insensitive,
            multi_line: self.multi_line,
            dot_matches_new_line: self.dot_matches_new_line,
        }
    }
}

/// Spans are ordered, do not overlap, and each starts and ends between two
/// characters of `text`.
pub open spec fn well_placed_spans(text: Seq<char>, spans: Seq<(usize, usize)>) -> bool {
    &&& forall|i: int|
        0 <= i < spans.len() ==> {
            &&& spans[i].0 <= spans[i].1
            &&& is_char_boundary_offset(text, spans[i].0 as int)
            &&& is_char_boundary_offset(text, spans[i].1 as int)
        }
    &&& forall|i: int| 0 <= i < spans.len() - 1 ==> #[trigger] spans[i].1 <= spans[i + 1].0
}

impl SearchPattern {
    /// `regex::RegexBuilder`: compiles `pattern` with the given flags; on
    /// failure returns the error's text.
    #[verifier::external_body]
    pub(crate) fn build(
        pattern: &str,
        case_insensitive: bool,
        multi_line: bool,
        dot_matches_new_line: bool,
    ) -> (r: Result<SearchPattern, String>)
        ensures
            match r {
                Ok(p) => regex_build_error(pattern@, case_insensitive, multi_line, dot_matches_new_line)
                    is None && p@ == (PatternModel {
                    source: pattern@,
                    case_insensitive,
                    multi_line,
                    dot_matches_new_line,
                }),
                Err(m) => regex_build_error(pattern@, case_insensitive, multi_line, dot_matches_new_line)
                    == Some(m@),
            },
    {
        match regex::RegexBuilder::new(pattern)
            .case_insensitive(case_insensitive)
            .multi_line(multi_line)
            .dot_matches_new_line(dot_matches_new_line)
            .build() {
            Ok(regex) => Ok(SearchPattern {
                regex,
                source: pattern.to_string(),
                case_insensitive,
                multi_line,
                dot_matches_new_line,
            }),
            Err(err) => Err(err.to_string()),
        }
    }

    /// `regex::Regex::find_iter`: the byte spans of all successive
    /// non-overlapping matches. As the crate documents, each span has
    /// `start <= end` and both ends fall on character boundaries.
    #[verifier::external_body]
    pub(crate) fn find_spans(&self, text: &str) -> (r: Vec<(usize, usize)>)
        ensures
            r@ == regex_find_spans(
                self@.source,
                self@.case_insensitive,
                self@.multi_line,
                self@.dot_matches_new_line,
                text@,
            ),
            well_placed_spans(text@, r@),
    {
        let mut spans = Vec::new();
        for found in self.regex.find_iter(text) {
            spans.push((found.start(), found.end()));
        }
        spans
    }

    /// `regex::Regex::captures_iter`, with `regex::Captures::expand` applied
    /// to each match: the byte span of every successive non-overlapping match
    /// and `template` expanded with that match's capture groups.
    #[verifier::external_body]
    pub(crate) fn capture_expansions(&self, text: &str, template: &str) -> (r: Vec<(usize, usize, String)>)
        ensures
            r@.len() == regex_capture_expansions(
                self@.source,
                self@.case_insensitive,
                self@.multi_line,
                self@.dot_matches_new_line,
                text@,
                template@,
            ).len(),
            forall|i: int|
                0 <= i < r@.len() ==> (r@[i].0, r@[i].1, r@[i].2@) == #[trigger] regex_capture_expansions(
                    self@.source,
                    self@.case_insensitive,
                    self@.multi_line,
                    self@.dot_matches_new_line,
                    text@,
                    template@,
                )[i],
            well_placed_spans(text@, Seq::new(r@.len(), |i: int| (r@[i].0, r@[i].1))),
    {
        let mut out = Vec::new();
        for caps in self.regex.captures_iter(text) {
            let whole = caps.get_match();
            let mut expanded = String::new();
            caps.expand(template, &mut expanded);
            out.push((whole.start(), whole.end(), expanded));
        }
        out
    }
}

/// `regex::escape`: the query with a backslash before every regular
/// expression meta character (`\\ . + * ? ( ) | [ ] { } ^ $ # & - ~`),
/// every character copied in order.
#[verifier::external_body]
pub(crate) fn escape_query(query: &str) -> (r: String)
    ensures
        r@ == regex_escaped(query@),
{
    regex::escape(query)
}

// ---------------------------------------------------------------------------
// Compiling a query
// ---------------------------------------------------------------------------

/// The regular expression text a query is searched with: the query itself
/// (regular expression mode) or the query with its meta characters escaped,
/// wrapped in `\b ... \b` for whole-word search.
pub open spec fn find_pattern_source(query: Seq<char>, options: FindOptions) -> Seq<char> {
    let base = if options.use_regex {
        query
    } else {
        regex_escaped(query)
    };
    if options.whole_word && base.len() > 0 {
        "\\b"@ + base + "\\b"@
    } else {
        base
    }
}

/// The pattern a valid query compiles to: case-insensitive unless the search
/// is case-sensitive, `^`/`$` matching at line breaks, and `.` matching
/// line breaks.
pub open spec fn find_pattern_model(query: Seq<char>, options: FindOptions) -> PatternModel {
    PatternModel {
        source: find_pattern_source(query, options),
        case_insensitive: !options.case_sensitive,
        multi_line: true,
        dot_matches_new_line: true,
    }
}

/// The compile error of a query, if any.
pub open spec fn find_pattern_error(query: Seq<char>, options: FindOptions) -> Option<Seq<char>> {
    if query.len() == 0 {
        Some("query cannot be empty"@)
    } else {
        regex_build_error(find_pattern_source(query, options), !options.case_sensitive, true, true)
    }
}

/// Escaping never shortens a query.
proof fn lemma_regex_escaped_len(query: Seq<char>)
    ensures
        regex_escaped(query).len() >= query.len(),
    decreases query.len(),
{
    if query.len() > 0 {
        lemma_regex_escaped_len(query.drop_last());
    }
}

/// How the options shape the compiled query. The pattern is
/// case-insensitive exactly when the search is not case-sensitive (so a
/// case-sensitive search never folds case); `^`/`$` always match at line
/// breaks and `.` matches them too. A literal query is searched for as
/// itself with its meta characters escaped, a regular expression as
/// written, and whole-word search wraps either in `\b` boundaries. An
/// empty query is refused; any other one is compiled with exactly these
/// flags, and fails only as the regular expression build fails on them.
pub proof fn law_find_pattern_follows_options(query: Seq<char>, options: FindOptions)
    ensures
        find_pattern_model(query, options).case_insensitive == !options.case_sensitive,
        options.case_sensitive ==> !find_pattern_model(query, options).case_insensitive,
        !options.case_sensitive ==> find_pattern_model(query, options).case_insensitive,
        find_pattern_model(query, options).multi_line,
        find_pattern_model(query, options).dot_matches_new_line,
        !options.whole_word && !options.use_regex ==> find_pattern_model(query, options).source == regex_escaped(
            query,
        ),
        !options.whole_word && options.use_regex ==> find_pattern_model(query, options).source == query,
        options.whole_word && query.len() > 0 && !options.use_regex ==> find_pattern_model(query, options).source
            == "\\b"@ + regex_escaped(query) + "\\b"@,
        options.whole_word && query.len() > 0 && options.use_regex ==> find_pattern_model(query, options).source
            == "\\b"@ + query + "\\b"@,
        query.len() == 0 ==> find_pattern_error(query, options) == Some("query cannot be empty"@),
        query.len() > 0 ==> find_pattern_error(query, options) == regex_build_error(
            find_pattern_model(query, options).source,
            !options.case_sensitive,
            true,
            true,
        ),
{
    lemma_regex_escaped_len(query);
}

/// Compile a search query with its options into a pattern.
pub fn build_find_regex(query: &str, options: &FindOptions) -> (r: Result<SearchPattern, DocumentError>)
    ensures
        match r {
            Ok(p) => find_pattern_error(query@, *options) is None && p@ == find_pattern_model(query@, *options),
            Err(DocumentError::InvalidSearchPattern(m)) => find_pattern_error(query@, *options) == Some(m@),
            _ => false,
        },
{
    if query.is_empty() {
        return Err(DocumentError::InvalidSearchPattern(copy_string("query cannot be empty")));
    }
    let base = if options.use_regex {
        copy_string(query)
    } else {
        escape_query(query)
    };
    let pattern = if options.whole_word && !base.as_str().is_empty() {
        let mut p = copy_string("\\b");
        push_str(&mut p, base.as_str());
        push_str(&mut p, "\\b");
        p
    } else {
        base
    };
    assert(pattern@ == find_pattern_source(query@, *options));
    match SearchPattern::build(pattern.as_str(), !options.case_sensitive, true, true) {
        Ok(p) => Ok(p),
        Err(m) => Err(DocumentError::InvalidSearchPattern(m)),
    }
}

// ---------------------------------------------------------------------------
// Matches
// ---------------------------------------------------------------------------

/// Represents a single match within a document in both byte and character space.
#[derive(Debug, Clone, Copy, PartialEq, Eq, Structural)]
pub struct MatchSpan {
    pub byte_start: usize,
    pub byte_end: usize,
    pub char_start: usize,
    pub char_end: usize,
}

/// A match span located in `text`: its byte span, and the character
/// positions at which those bytes fall.
pub open spec fn located_match(text: Seq<char>, span: (usize, usize)) -> MatchSpan {
    MatchSpan {
        byte_start: span.0,
        byte_end: span.1,
        char_start: char_offset(text, span.0 as int) as usize,
        char_end: char_offset(text, span.1 as int) as usize,
    }
}

/// Compiled search data consisting of the pattern and all matches for the current text.
pub struct CompiledFind {
    pub pattern: SearchPattern,
    pub matches: Vec<MatchSpan>,
}

/// The matches of a pattern in a text, in order.
pub open spec fn pattern_matches(p: PatternModel, text: Seq<char>) -> Seq<MatchSpan> {
    let spans = regex_find_spans(p.source, p.case_insensitive, p.multi_line, p.dot_matches_new_line, text);
    Seq::new(spans.len(), |i: int| located_match(text, spans[i]))
}

/// The spans of `pattern_matches` are ordered and lie within the text.
pub open spec fn matches_well_placed(text: Seq<char>, m: Seq<MatchSpan>) -> bool {
    &&& forall|i: int|
        0 <= i < m.len() ==> #[trigger] m[i].char_start <= m[i].char_end && m[i].char_end <= text.len()
    &&& forall|i: int| 0 <= i < m.len() - 1 ==> #[trigger] m[i].char_end <= m[i + 1].char_start
}

/// Each span starts no later than it ends, and both ends fall between two
/// characters of `text`.
pub open spec fn spans_on_boundaries(text: Seq<char>, spans: Seq<(usize, usize)>) -> bool {
    forall|i: int|
        0 <= i < spans.len() ==> {
            &&& spans[i].0 <= spans[i].1
            &&& is_char_boundary_offset(text, spans[i].0 as int)
            &&& is_char_boundary_offset(text, spans[i].1 as int)
        }
}

/// The matches at the byte spans `spans` of `text`, with the character
/// positions at which those bytes fall.
pub fn locate_matches(text: &str, spans: &Vec<(usize, usize)>) -> (m: Vec<MatchSpan>)
    requires
        spans_on_boundaries(text@, spans@),
    ensures
        m@ == Seq::new(spans@.len(), |i: int| located_match(text@, spans@[i])),
        well_placed_spans(text@, spans@) ==> matches_well_placed(text@, m@),
{
    let v = chars_of(text);
    let mut matches: Vec<MatchSpan> = Vec::new();
    let mut i: usize = 0;
    while i < spans.len()
        invariant
            v@ == text@,
            spans_on_boundaries(text@, spans@),
            i <= spans@.len(),
            matches@.len() == i,
            forall|j: int| 0 <= j < i ==> matches@[j] == #[trigger] located_match(text@, spans@[j]),
        decreases spans.len() - i,
    {
        let (byte_start, byte_end) = spans[i];
        let char_start = char_index_of_byte(&v, byte_start);
        let char_end = char_index_of_byte(&v, byte_end);
        matches.push(MatchSpan { byte_start, byte_end, char_start, char_end });
        i = i + 1;
    }
    assert(matches@ =~= Seq::new(spans@.len(), |i: int| located_match(text@, spans@[i])));
    proof {
        if well_placed_spans(text@, spans@) {
            let m = matches@;
            assert(text@.len() == v@.len());
            assert forall|i: int| 0 <= i < m.len() implies #[trigger] m[i].char_start <= m[i].char_end
                && m[i].char_end <= text@.len() by {
                lemma_char_offset_monotone(text@, spans@[i].0 as int, spans@[i].1 as int);
                assert(m[i] == located_match(text@, spans@[i]));
            }
            assert forall|i: int| 0 <= i < m.len() - 1 implies #[trigger] m[i].char_end <= m[i + 1].char_start by {
                assert(spans@[i].1 <= spans@[i + 1].0);
                lemma_char_offset_monotone(text@, spans@[i].1 as int, spans@[i + 1].0 as int);
                assert(m[i] == located_match(text@, spans@[i]));
                assert(m[i + 1] == located_match(text@, spans@[i + 1]));
            }
        }
    }
    matches
}

/// Compile a search query and return all matches of it in `text`.
pub fn compile_find(text: &str, query: &str, options: &FindOptions) -> (r: Result<CompiledFind, DocumentError>)
    ensures
        match r {
            Ok(c) => find_pattern_error(query@, *options) is None && c.pattern@ == find_pattern_model(
                query@,
                *options,
            ) && c.matches@ == pattern_matches(c.pattern@, text@) && matches_well_placed(text@, c.matches@),
            Err(DocumentError::InvalidSearchPattern(m)) => find_pattern_error(query@, *options) == Some(m@),
            _ => false,
        },
{
    let pattern = match build_find_regex(query, options) {
        Ok(p) => p,
        Err(e) => return Err(e),
    };
    let spans = pattern.find_spans(text);
    let matches = locate_matches(text, &spans);
    assert(matches@ =~= pattern_matches(pattern@, text@));
    Ok(CompiledFind { pattern, matches })
}

// ---------------------------------------------------------------------------
// Replacing
// ---------------------------------------------------------------------------

/// The matches a replacement works on, with the expansion of `template` for
/// each: byte spans and expansions as `regex::Regex::captures_iter` and
/// `regex::Captures::expand` give them.
pub open spec fn capture_matches(p: PatternModel, text: Seq<char>, template: Seq<char>) -> Seq<(usize, usize, Seq<char>)> {
    regex_capture_expansions(p.source, p.case_insensitive, p.multi_line, p.dot_matches_new_line, text, template)
}

/// Character spans of a sequence of byte spans in `text`.
pub open spec fn char_spans(text: Seq<char>, e: Seq<(usize, usize, Seq<char>)>) -> Seq<(int, int)> {
    Seq::new(e.len(), |i: int| (char_offset(text, e[i].0 as int), char_offset(text, e[i].1 as int)))
}

/// The text that replaces each match: the expansion of the template in
/// regular expression mode, the replacement text itself otherwise.
pub open spec fn replacement_texts(e: Seq<(usize, usize, Seq<char>)>, replacement: Seq<char>, use_regex: bool) -> Seq<Seq<char>> {
    Seq::new(e.len(), |i: int| if use_regex { e[i].2 } else { replacement })
}

/// `t` from position `last` on, with the spans from index `i` on replaced by
/// the corresponding texts.
pub open spec fn splice_from(t: Seq<char>, last: int, spans: Seq<(int, int)>, reps: Seq<Seq<char>>, i: int) -> Seq<char>
    decreases spans.len() - i,
{
    if i < 0 || i >= spans.len() {
        t.subrange(last, t.len() as int)
    } else {
        t.subrange(last, spans[i].0) + reps[i] + splice_from(t, spans[i].1, spans, reps, i + 1)
    }
}

/// `t` with every span replaced by its text.
pub open spec fn splice_all(t: Seq<char>, spans: Seq<(int, int)>, reps: Seq<Seq<char>>) -> Seq<char> {
    splice_from(t, 0, spans, reps, 0)
}

/// `t` with one span replaced by `rep`.
pub open spec fn splice_one(t: Seq<char>, span: (int, int), rep: Seq<char>) -> Seq<char> {
    t.subrange(0, span.0) + rep + t.subrange(span.1, t.len() as int)
}

/// Character spans are ordered and lie within a text of length `n`.
pub open spec fn ordered_spans(spans: Seq<(int, int)>, n: int) -> bool {
    &&& forall|i: int| 0 <= i < spans.len() ==> 0 <= #[trigger] spans[i].0 <= spans[i].1 <= n
    &&& forall|i: int| 0 <= i < spans.len() - 1 ==> #[trigger] spans[i].1 <= spans[i + 1].0
}

/// The text after replacing every match of a pattern.
pub open spec fn replaced_all(p: PatternModel, text: Seq<char>, replacement: Seq<char>, use_regex: bool) -> Seq<char> {
    let e = capture_matches(p, text, replacement);
    splice_all(text, char_spans(text, e), replacement_texts(e, replacement, use_regex))
}

/// The text after replacing the match with index `k` of a pattern.
pub open spec fn replaced_one(p: PatternModel, text: Seq<char>, replacement: Seq<char>, use_regex: bool, k: int) -> Seq<char> {
    let e = capture_matches(p, text, replacement);
    splice_one(text, char_spans(text, e)[k], replacement_texts(e, replacement, use_regex)[k])
}

/// Outside regular expression mode the replacement is inserted as it is
/// written, `$` and `\\` included: replacing every match puts the
/// replacement text itself in each match's span, whatever the capture
/// groups would expand it to, and replacing one match puts it in that
/// match's span, the text around it kept. In regular expression mode each
/// span gets the template expanded for that match.
pub proof fn law_literal_replacement_is_inserted_verbatim(p: PatternModel, text: Seq<char>, replacement: Seq<char>)
    ensures
        replaced_all(p, text, replacement, false) == splice_all(
            text,
            char_spans(text, capture_matches(p, text, replacement)),
            Seq::new(capture_matches(p, text, replacement).len(), |i: int| replacement),
        ),
        replaced_all(p, text, replacement, true) == splice_all(
            text,
            char_spans(text, capture_matches(p, text, replacement)),
            Seq::new(capture_matches(p, text, replacement).len(), |i: int| capture_matches(p, text, replacement)[i].2),
        ),
        forall|k: int|
            0 <= k < capture_matches(p, text, replacement).len() ==> #[trigger] replaced_one(p, text, replacement, false, k)
                == text.subrange(0, char_spans(text, capture_matches(p, text, replacement))[k].0) + replacement
                + text.subrange(char_spans(text, capture_matches(p, text, replacement))[k].1, text.len() as int),
{
    let e = capture_matches(p, text, replacement);
    assert(replacement_texts(e, replacement, false) =~= Seq::new(e.len(), |i: int| replacement));
    assert(replacement_texts(e, replacement, true) =~= Seq::new(e.len(), |i: int| e[i].2));
}

proof fn lemma_char_spans_ordered(text: Seq<char>, e: Seq<(usize, usize, Seq<char>)>)
    requires
        text.len() <= usize::MAX,
        well_placed_spans(text, Seq::new(e.len(), |i: int| (e[i].0, e[i].1))),
    ensures
        ordered_spans(char_spans(text, e), text.len() as int),
{
    let sp = Seq::new(e.len(), |i: int| (e[i].0, e[i].1));
    let cs = char_spans(text, e);
    assert forall|i: int| 0 <= i < cs.len() implies 0 <= #[trigger] cs[i].0 <= cs[i].1 <= text.len() by {
        assert(sp[i] == (e[i].0, e[i].1));
        lemma_char_offset_monotone(text, e[i].0 as int, e[i].1 as int);
    }
    assert forall|i: int| 0 <= i < cs.len() - 1 implies #[trigger] cs[i].1 <= cs[i + 1].0 by {
        assert(sp[i] == (e[i].0, e[i].1));
        assert(sp[i + 1] == (e[i + 1].0, e[i + 1].1));
        assert(sp[i].1 <= sp[i + 1].0);
        lemma_char_offset_monotone(text, e[i].1 as int, e[i + 1].0 as int);
    }
}

fn push_range(out: &mut Vec<char>, v: &Vec<char>, from: usize, to: usize)
    requires
        from <= to <= v@.len(),
    ensures
        final(out)@ == old(out)@ + v@.subrange(from as int, to as int),
{
    let mut i = from;
    while i < to
        invariant
            from <= i <= to <= v@.len(),
            out@ == old(out)@ + v@.subrange(from as int, i as int),
        decreases to - i,
    {
        out.push(v[i]);
        i = i + 1;
        assert(out@ =~= old(out)@ + v@.subrange(from as int, i as int));
    }
}

/// The expansion triples by their views: byte span and expanded text.
pub open spec fn expansion_views(e: Seq<(usize, usize, String)>) -> Seq<(usize, usize, Seq<char>)> {
    Seq::new(e.len(), |i: int| (e[i].0, e[i].1, e[i].2@))
}

/// The byte spans of expansion triples.
pub open spec fn expansion_spans(e: Seq<(usize, usize, String)>) -> Seq<(usize, usize)> {
    Seq::new(e.len(), |i: int| (e[i].0, e[i].1))
}

/// The character spans of the matches and their replacement texts.
fn replacement_plan(
    text: &str,
    v: &Vec<char>,
    e: &Vec<(usize, usize, String)>,
    replacement: &str,
    use_regex: bool,
) -> (r: (Vec<(usize, usize)>, Vec<Vec<char>>))
    requires
        v@ == text@,
        well_placed_spans(text@, expansion_spans(e@)),
    ensures
        ({
            let ge = expansion_views(e@);
            &&& r.0@.len() == ge.len()
            &&& r.1@.len() == ge.len()
            &&& forall|i: int|
                0 <= i < ge.len() ==> (r.0@[i].0 as int, r.0@[i].1 as int) == #[trigger] char_spans(text@, ge)[i]
            &&& forall|i: int|
                0 <= i < ge.len() ==> r.1@[i]@ == #[trigger] replacement_texts(ge, replacement@, use_regex)[i]
            &&& ordered_spans(char_spans(text@, ge), text@.len() as int)
        }),
{
    let ghost ge = expansion_views(e@);
    let rep_chars = chars_of(replacement);
    let mut spans: Vec<(usize, usize)> = Vec::new();
    let mut reps: Vec<Vec<char>> = Vec::new();
    let ghost sp = expansion_spans(e@);
    let mut i: usize = 0;
    while i < e.len()
        invariant
            v@ == text@,
            rep_chars@ == replacement@,
            ge == expansion_views(e@),
            sp == expansion_spans(e@),
            well_placed_spans(text@, sp),
            i <= e@.len(),
            spans@.len() == i,
            reps@.len() == i,
            forall|j: int| 0 <= j < i ==> (spans@[j].0 as int, spans@[j].1 as int) == #[trigger] char_spans(text@, ge)[j],
            forall|j: int| 0 <= j < i ==> reps@[j]@ == #[trigger] replacement_texts(ge, replacement@, use_regex)[j],
        decreases e.len() - i,
    {
        assert(sp[i as int] == (e@[i as int].0, e@[i as int].1));
        assert(ge[i as int] == (e@[i as int].0, e@[i as int].1, e@[i as int].2@));
        let start = char_index_of_byte(v, e[i].0);
        let end = char_index_of_byte(v, e[i].1);
        spans.push((start, end));
        if use_regex {
            reps.push(chars_of(e[i].2.as_str()));
        } else {
            reps.push(rep_chars.clone());
        }
        i = i + 1;
    }
    proof {
        assert(text@.len() == v.len());
        assert(sp =~= Seq::new(ge.len(), |i: int| (ge[i].0, ge[i].1)));
        lemma_char_spans_ordered(text@, ge);
    }
    (spans, reps)
}

/// Replaces the matches at the byte spans of `expansions` in `text`: each by
/// its expansion in regular expression mode, by `replacement` otherwise.
/// Returns the new text and the number of matches replaced.
pub fn splice_all_matches(
    text: &str,
    expansions: &Vec<(usize, usize, String)>,
    replacement: &str,
    use_regex: bool,
) -> (r: (String, usize))
    requires
        well_placed_spans(text@, expansion_spans(expansions@)),
    ensures
        ({
            let e = expansion_views(expansions@);
            &&& r.0@ == splice_all(text@, char_spans(text@, e), replacement_texts(e, replacement@, use_regex))
            &&& r.1 == e.len()
        }),
{
    let v = chars_of(text);
    let (spans, reps) = replacement_plan(text, &v, expansions, replacement, use_regex);
    let ghost e = expansion_views(expansions@);
    let ghost cs = char_spans(text@, e);
    let ghost rs = replacement_texts(e, replacement@, use_regex);
    let mut out: Vec<char> = Vec::new();
    let mut last: usize = 0;
    let mut i: usize = 0;
    while i < spans.len()
        invariant
            v@ == text@,
            spans@.len() == cs.len(),
            reps@.len() == cs.len(),
            rs.len() == cs.len(),
            forall|j: int| 0 <= j < cs.len() ==> (spans@[j].0 as int, spans@[j].1 as int) == #[trigger] cs[j],
            forall|j: int| 0 <= j < cs.len() ==> reps@[j]@ == #[trigger] rs[j],
            ordered_spans(cs, v@.len() as int),
            i <= cs.len(),
            last <= v@.len(),
            i < cs.len() ==> last <= cs[i as int].0,
            out@ + splice_from(v@, last as int, cs, rs, i as int) == splice_all(v@, cs, rs),
        decreases spans.len() - i,
    {
        let (start, end) = spans[i];
        assert(cs[i as int] == (start as int, end as int));
        push_range(&mut out, &v, last, start);
        let ghost before = out@;
        let rep = &reps[i];
        let mut k: usize = 0;
        while k < rep.len()
            invariant
                k <= rep@.len(),
                out@ == before + rep@.take(k as int),
            decreases rep.len() - k,
        {
            out.push(rep[k]);
            k = k + 1;
            assert(out@ =~= before + rep@.take(k as int));
        }
        assert(rep@.take(k as int) =~= rep@);
        assert(reps@[i as int]@ == rs[i as int]);
        last = end;
        i = i + 1;
        assert(i < cs.len() ==> cs[i - 1].1 <= cs[i as int].0);
    }
    push_range(&mut out, &v, last, v.len());
    assert(out@ =~= splice_all(v@, cs, rs));
    (string_of(&out), spans.len())
}

/// Replaces only the match with index `target_index` among the byte spans of
/// `expansions` in `text` (by its expansion in regular expression mode, by
/// `replacement` otherwise). Returns the new text and whether there was such
/// a match; without one the text is returned unchanged.
pub fn splice_match(
    text: &str,
    expansions: &Vec<(usize, usize, String)>,
    replacement: &str,
    use_regex: bool,
    target_index: usize,
) -> (r: (String, bool))
    requires
        well_placed_spans(text@, expansion_spans(expansions@)),
    ensures
        ({
            let e = expansion_views(expansions@);
            &&& r.1 == (target_index < e.len())
            &&& r.1 ==> r.0@ == splice_one(
                text@,
                char_spans(text@, e)[target_index as int],
                replacement_texts(e, replacement@, use_regex)[target_index as int],
            )
            &&& !r.1 ==> r.0@ == text@
        }),
{
    let v = chars_of(text);
    let (spans, reps) = replacement_plan(text, &v, expansions, replacement, use_regex);
    if target_index >= spans.len() {
        return (copy_string(text), false);
    }
    let (start, end) = spans[target_index];
    let ghost e = expansion_views(expansions@);
    let ghost cs = char_spans(text@, e);
    assert(cs[target_index as int] == (start as int, end as int));
    assert(0 <= cs[target_index as int].0 <= cs[target_index as int].1 <= text@.len());
    let mut out: Vec<char> = Vec::new();
    push_range(&mut out, &v, 0, start);
    let ghost before = out@;
    let rep = &reps[target_index];
    let mut k: usize = 0;
    while k < rep.len()
        invariant
            k <= rep@.len(),
            out@ == before + rep@.take(k as int),
        decreases rep.len() - k,
    {
        out.push(rep[k]);
        k = k + 1;
        assert(out@ =~= before + rep@.take(k as int));
    }
    assert(rep@.take(k as int) =~= rep@);
    push_range(&mut out, &v, end, v.len());
    assert(out@ =~= splice_one(
        text@,
        cs[target_index as int],
        replacement_texts(e, replacement@, use_regex)[target_index as int],
    ));
    (string_of(&out), true)
}

/// The expansions `capture_expansions` returns, by their views, are the
/// pattern's capture matches.
proof fn lemma_expansions_are_capture_matches(
    p: PatternModel,
    text: Seq<char>,
    template: Seq<char>,
    e: Seq<(usize, usize, String)>,
)
    requires
        e.len() == capture_matches(p, text, template).len(),
        forall|i: int| 0 <= i < e.len() ==> (e[i].0, e[i].1, e[i].2@) == #[trigger] capture_matches(p, text, template)[i],
    ensures
        expansion_views(e) == capture_matches(p, text, template),
{
    assert(expansion_views(e) =~= capture_matches(p, text, template));
}

/// Replace every match of `pattern` in `text`; returns the new text and the
/// number of matches replaced.
pub fn replace_all_occurrences(
    pattern: &SearchPattern,
    text: &str,
    replacement: &str,
    use_regex: bool,
) -> (r: (String, usize))
    ensures
        r.0@ == replaced_all(pattern@, text@, replacement@, use_regex),
        r.1 == capture_matches(pattern@, text@, replacement@).len(),
{
    let e = pattern.capture_expansions(text, replacement);
    proof {
        lemma_expansions_are_capture_matches(pattern@, text@, replacement@, e@);
        assert(expansion_spans(e@) =~= Seq::new(e@.len(), |i: int| (e@[i].0, e@[i].1)));
    }
    splice_all_matches(text, &e, replacement, use_regex)
}

/// Replace only the match with index `target_index` of `pattern` in `text`;
/// returns the new text and whether there was such a match.
pub fn replace_target(
    pattern: &SearchPattern,
    text: &str,
    replacement: &str,
    use_regex: bool,
    target_index: usize,
) -> (r: (String, bool))
    ensures
        r.1 == (target_index < capture_matches(pattern@, text@, replacement@).len()),
        r.1 ==> r.0@ == replaced_one(pattern@, text@, replacement@, use_regex, target_index as int),
        !r.1 ==> r.0@ == text@,
{
    let e = pattern.capture_expansions(text, replacement);
    proof {
        lemma_expansions_are_capture_matches(pattern@, text@, replacement@, e@);
        assert(expansion_spans(e@) =~= Seq::new(e@.len(), |i: int| (e@[i].0, e@[i].1)));
    }
    splice_match(text, &e, replacement, use_regex, target_index)
}

} // verus!
