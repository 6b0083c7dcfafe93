//! What the user interface hands the editor as text, read into the
//! library's values, and the names it shows for them.
use vstd::prelude::*;
use crate::encoding::{LineEnding, TextEncoding};
use crate::platform::{lowercase, unicode_lowercase};
use crate::search::FindOptions;
use crate::settings::IndentType;
use crate::text::{chars_of, copy_string, decimal, lemma_decimal_injective, lemma_decimal_len, push_decimal, same_text, string_of};

verus! {

/// The encoding an interface name stands for.
pub open spec fn encoding_for_name(v: Seq<char>) -> Option<TextEncoding> {
    if v == "Utf8"@ || v == "UTF-8"@ {
        Some(TextEncoding::Utf8)
    } else if v == "Utf16Le"@ || v == "UTF-16LE"@ || v == "UTF-16 LE"@ {
        Some(TextEncoding::Utf16Le)
    } else if v == "Utf16Be"@ || v == "UTF-16BE"@ || v == "UTF-16 BE"@ {
        Some(TextEncoding::Utf16Be)
    } else if v == "Iso8859_1"@ || v == "ISO-8859-1"@ || v == "Latin1"@ {
        Some(TextEncoding::Iso8859_1)
    } else {
        None
    }
}

/// Reads an encoding name as the interface sends it.
pub fn parse_encoding(value: &str) -> (r: Option<TextEncoding>)
    ensures
        r == encoding_for_name(value@),
{
    if same_text(value, "Utf8") || same_text(value, "UTF-8") {
        Some(TextEncoding::Utf8)
    } else if same_text(value, "Utf16Le") || same_text(value, "UTF-16LE") || same_text(value, "UTF-16 LE") {
        Some(TextEncoding::Utf16Le)
    } else if same_text(value, "Utf16Be") || same_text(value, "UTF-16BE") || same_text(value, "UTF-16 BE") {
        Some(TextEncoding::Utf16Be)
    } else if same_text(value, "Iso8859_1") || same_text(value, "ISO-8859-1") || same_text(value, "Latin1") {
        Some(TextEncoding::Iso8859_1)
    } else {
        None
    }
}

/// The line ending an interface name stands for.
pub open spec fn line_ending_for_name(v: Seq<char>) -> Option<LineEnding> {
    if v == "Lf"@ || v == "LF"@ {
        Some(LineEnding::Lf)
    } else if v == "Crlf"@ || v == "CRLF"@ {
        Some(LineEnding::Crlf)
    } else {
        None
    }
}

/// Reads a line-ending name as the interface sends it.
pub fn parse_line_ending(value: &str) -> (r: Option<LineEnding>)
    ensures
        r == line_ending_for_name(value@),
{
    if same_text(value, "Lf") || same_text(value, "LF") {
        Some(LineEnding::Lf)
    } else if same_text(value, "Crlf") || same_text(value, "CRLF") {
        Some(LineEnding::Crlf)
    } else {
        None
    }
}

/// Reads an indentation name: tabs when it lowercases to "tabs", spaces
/// for anything else.
pub fn parse_indent_type(value: &str) -> (r: IndentType)
    ensures
        r == (if unicode_lowercase(value@) == "tabs"@ {
            IndentType::Tabs
        } else {
            IndentType::Spaces
        }),
{
    let lower = lowercase(value);
    if same_text(lower.as_str(), "tabs") {
        IndentType::Tabs
    } else {
        IndentType::Spaces
    }
}

/// The find options for the three switches of the find bar.
pub fn build_find_options(case_sensitive: bool, whole_word: bool, use_regex: bool) -> (o: FindOptions)
    ensures
        o == (FindOptions { case_sensitive, whole_word, use_regex }),
{
    FindOptions { case_sensitive, whole_word, use_regex }
}

/// The name shown for an encoding.
pub open spec fn encoding_name(e: TextEncoding) -> Seq<char> {
    match e {
        TextEncoding::Utf8 => "Utf8"@,
        TextEncoding::Utf16Le => "Utf16Le"@,
        TextEncoding::Utf16Be => "Utf16Be"@,
        TextEncoding::Iso8859_1 => "Iso8859_1"@,
    }
}

/// The name shown for an encoding (read back by `parse_encoding`).
pub fn encoding_label(e: TextEncoding) -> (s: &'static str)
    ensures
        s@ == encoding_name(e),
{
    match e {
        TextEncoding::Utf8 => "Utf8",
        TextEncoding::Utf16Le => "Utf16Le",
        TextEncoding::Utf16Be => "Utf16Be",
        TextEncoding::Iso8859_1 => "Iso8859_1",
    }
}

/// The name shown for a line ending.
pub open spec fn line_ending_name(l: LineEnding) -> Seq<char> {
    match l {
        LineEnding::Lf => "Lf"@,
        LineEnding::Crlf => "Crlf"@,
    }
}

/// The name shown for a line ending (read back by `parse_line_ending`).
pub fn line_ending_label(l: LineEnding) -> (s: &'static str)
    ensures
        s@ == line_ending_name(l),
{
    match l {
        LineEnding::Lf => "Lf",
        LineEnding::Crlf => "Crlf",
    }
}

/// The name shown for an indentation style.
pub open spec fn indent_name(i: IndentType) -> Seq<char> {
    match i {
        IndentType::Spaces => "spaces"@,
        IndentType::Tabs => "tabs"@,
    }
}

/// The name shown for an indentation style.
pub fn indent_label(i: IndentType) -> (s: &'static str)
    ensures
        s@ == indent_name(i),
{
    match i {
        IndentType::Spaces => "spaces",
        IndentType::Tabs => "tabs",
    }
}

/// Every encoding's name reads back as that encoding.
pub proof fn law_encoding_name_round_trip(e: TextEncoding)
    ensures
        encoding_for_name(encoding_name(e)) == Some(e),
{
    reveal_strlit("Utf8");
    reveal_strlit("UTF-8");
    reveal_strlit("Utf16Le");
    reveal_strlit("UTF-16LE");
    reveal_strlit("UTF-16 LE");
    reveal_strlit("Utf16Be");
    reveal_strlit("UTF-16BE");
    reveal_strlit("UTF-16 BE");
    reveal_strlit("Iso8859_1");
    reveal_strlit("ISO-8859-1");
    reveal_strlit("Latin1");
    assert("Utf8"@.len() == 4);
    assert("UTF-8"@.len() == 5);
    assert("Utf16Le"@.len() == 7);
    assert("UTF-16LE"@.len() == 8);
    assert("UTF-16 LE"@.len() == 9);
    assert("Utf16Be"@.len() == 7);
    assert("UTF-16BE"@.len() == 8);
    assert("UTF-16 BE"@.len() == 9);
    assert("Iso8859_1"@.len() == 9);
    match e {
        TextEncoding::Utf8 => {},
        TextEncoding::Utf16Le => {},
        TextEncoding::Utf16Be => {
            assert("Utf16Be"@[5] != "Utf16Le"@[5]);
        },
        TextEncoding::Iso8859_1 => {
            assert("Iso8859_1"@[0] != "UTF-16 LE"@[0]);
            assert("Iso8859_1"@[0] != "UTF-16 BE"@[0]);
        },
    }
}

/// Every line ending's name reads back as that line ending.
pub proof fn law_line_ending_name_round_trip(l: LineEnding)
    ensures
        line_ending_for_name(line_ending_name(l)) == Some(l),
{
    reveal_strlit("Lf");
    reveal_strlit("LF");
    reveal_strlit("Crlf");
    reveal_strlit("CRLF");
    assert("Lf"@.len() == 2);
    assert("LF"@.len() == 2);
    assert("Crlf"@.len() == 4);
}

/// The scheme prefix of a local file URL.
pub open spec fn file_url_prefix() -> Seq<char> {
    "file://"@
}

/// `s` without the slashes it starts with.
pub open spec fn without_leading_slashes(s: Seq<char>) -> Seq<char>
    decreases s.len(),
{
    if s.len() > 0 && s[0] == '/' {
        without_leading_slashes(s.skip(1))
    } else {
        s
    }
}

/// The file path a location from the interface names: a `file://` URL
/// loses its scheme (and, on Windows, the slashes before the drive);
/// anything else is already a path.
pub open spec fn local_path(input: Seq<char>, windows: bool) -> Seq<char> {
    let p = file_url_prefix();
    if input.len() >= p.len() && input.take(p.len() as int) == p {
        let rest = input.skip(p.len() as int);
        if windows {
            without_leading_slashes(rest)
        } else {
            rest
        }
    } else {
        input
    }
}

/// Turns a location from the interface into a file path (`windows` tells
/// whether paths are Windows paths).
pub fn to_local_path(input: &str, windows: bool) -> (r: String)
    ensures
        r@ == local_path(input@, windows),
{
    proof {
        reveal_strlit("file://");
    }
    let chars = chars_of(input);
    let prefix = chars_of("file://");
    if chars.len() < prefix.len() {
        return copy_string(input);
    }
    let mut i: usize = 0;
    while i < prefix.len()
        invariant
            i <= prefix@.len(),
            prefix@ == file_url_prefix(),
            chars@ == input@,
            chars@.len() >= prefix@.len(),
            forall|j: int| 0 <= j < i ==> chars@[j] == prefix@[j],
        decreases prefix.len() - i,
    {
        if chars[i] != prefix[i] {
            assert(chars@.take(prefix@.len() as int)[i as int] != prefix@[i as int]);
            return copy_string(input);
        }
        i = i + 1;
    }
    assert(chars@.take(prefix@.len() as int) =~= prefix@);
    let mut start: usize = prefix.len();
    if windows {
        while start < chars.len() && chars[start] == '/'
            invariant
                prefix@.len() <= start <= chars@.len(),
                chars@ == input@,
                without_leading_slashes(chars@.skip(prefix@.len() as int)) == without_leading_slashes(
                    chars@.skip(start as int),
                ),
            decreases chars.len() - start,
        {
            assert(chars@.skip(start as int).skip(1) =~= chars@.skip(start + 1));
            start = start + 1;
        }
    }
    let mut rest: Vec<char> = Vec::new();
    let mut k: usize = start;
    while k < chars.len()
        invariant
            start <= k <= chars@.len(),
            rest@ == chars@.subrange(start as int, k as int),
        decreases chars.len() - k,
    {
        rest.push(chars[k]);
        k = k + 1;
        assert(rest@ =~= chars@.subrange(start as int, k as int));
    }
    assert(rest@ =~= chars@.skip(start as int));
    proof {
        if windows {
            let s = chars@.skip(start as int);
            assert(!(s.len() > 0 && s[0] == '/'));
        }
    }
    string_of(&rest)
}

/// The `k`-th title offered for a new document: "Untitled", then
/// "Untitled 2", "Untitled 3", and so on.
pub open spec fn untitled_candidate(k: nat) -> Seq<char> {
    if k <= 1 {
        "Untitled"@
    } else {
        "Untitled "@ + decimal(k)
    }
}

proof fn lemma_candidates_distinct(a: nat, b: nat)
    requires
        1 <= a,
        1 <= b,
        untitled_candidate(a) == untitled_candidate(b),
    ensures
        a == b,
{
    reveal_strlit("Untitled");
    reveal_strlit("Untitled ");
    lemma_decimal_len(a);
    lemma_decimal_len(b);
    if a >= 2 && b >= 2 {
        assert(untitled_candidate(a).skip(9) =~= decimal(a));
        assert(untitled_candidate(b).skip(9) =~= decimal(b));
        lemma_decimal_injective(a, b);
    } else if a >= 2 {
        assert(untitled_candidate(a).len() >= 10);
    } else if b >= 2 {
        assert(untitled_candidate(b).len() >= 10);
    }
}

/// Among the first `n + 1` candidates one is not among `n` titles.
proof fn lemma_free_candidate(titles: Seq<Seq<char>>)
    ensures
        exists|k: nat| 1 <= k <= titles.len() + 1 && !titles.contains(#[trigger] untitled_candidate(k)),
{
    let n = titles.len();
    if forall|k: nat| 1 <= k <= n + 1 ==> titles.contains(#[trigger] untitled_candidate(k)) {
        let f = |i: int| untitled_candidate(i as nat);
        let x = vstd::set_lib::set_int_range(1, n as int + 2);
        vstd::set_lib::lemma_int_range(1, n as int + 2);
        assert(vstd::relations::injective_on(f, x)) by {
            assert forall|a: int, b: int| x.contains(a) && x.contains(b) && #[trigger] f(a) == #[trigger] f(b) implies a == b by {
                lemma_candidates_distinct(a as nat, b as nat);
            }
        }
        let y = x.map(f);
        vstd::set_lib::lemma_map_size(x, y, f);
        let t = titles.to_set();
        assert(y.subset_of(t)) by {
            assert forall|c: Seq<char>| #[trigger] y.contains(c) implies t.contains(c) by {
                let i = choose|i: int| x.contains(i) && f(i) == c;
                assert(titles.contains(untitled_candidate(i as nat)));
            }
        }
        vstd::seq_lib::seq_to_set_is_finite(titles);
        vstd::set_lib::lemma_len_subset(y, t);
        titles.lemma_cardinality_of_set();
        assert(false);
    }
}

/// The first "Untitled" title (see `untitled_candidate`) that none of the
/// given titles uses.
pub fn next_untitled_title(titles: &Vec<String>) -> (r: String)
    requires
        titles@.len() < usize::MAX,
    ensures
        exists|k: nat| {
            &&& 1 <= k
            &&& r@ == #[trigger] untitled_candidate(k)
            &&& !titles@.map_values(|t: String| t@).contains(untitled_candidate(k))
            &&& forall|j: nat| 1 <= j < k ==> titles@.map_values(|t: String| t@).contains(#[trigger] untitled_candidate(j))
        },
{
    let ghost views = titles@.map_values(|t: String| t@);
    proof {
        lemma_free_candidate(views);
    }
    let n = titles.len();
    let mut k: usize = 1;
    while k <= n
        invariant
            1 <= k <= n + 1,
            n == titles@.len(),
            n < usize::MAX,
            views == titles@.map_values(|t: String| t@),
            forall|j: nat| 1 <= j < k ==> views.contains(#[trigger] untitled_candidate(j)),
            exists|m: nat| 1 <= m <= n + 1 && !views.contains(#[trigger] untitled_candidate(m)),
        decreases n + 1 - k,
    {
        let candidate = untitled(k);
        if !contains_title(titles, candidate.as_str()) {
            return candidate;
        }
        k = k + 1;
    }
    proof {
        let m = choose|m: nat| 1 <= m <= n + 1 && !views.contains(#[trigger] untitled_candidate(m));
        if m < k {
            assert(views.contains(untitled_candidate(m)));
        }
    }
    untitled(k)
}

/// The `k`-th "Untitled" title.
fn untitled(k: usize) -> (r: String)
    ensures
        r@ == untitled_candidate(k as nat),
{
    if k <= 1 {
        copy_string("Untitled")
    } else {
        let mut s = copy_string("Untitled ");
        push_decimal(&mut s, k);
        s
    }
}

/// Whether one of `titles` is `t`.
fn contains_title(titles: &Vec<String>, t: &str) -> (r: bool)
    ensures
        r == titles@.map_values(|s: String| s@).contains(t@),
{
    let ghost views = titles@.map_values(|s: String| s@);
    let mut i: usize = 0;
    while i < titles.len()
        invariant
            i <= titles@.len(),
            views == titles@.map_values(|s: String| s@),
            forall|j: int| 0 <= j < i ==> views[j] != t@,
        decreases titles.len() - i,
    {
        if same_text(titles[i].as_str(), t) {
            assert(views[i as int] == t@);
            return true;
        }
        i = i + 1;
    }
    false
}

} // verus!
