//! Character-level helpers shared by the document model: moving between
//! `str`/`String` and vectors of `char`, and counting characters.
use vstd::prelude::*;

verus! {

/// Appends one character to a string (`String::push`).
#[verifier::external_body]
pub(crate) fn push_char(s: &mut String, c: char)
    ensures
        final(s)@ == old(s)@.push(c),
{
    s.push(c);
}

/// The characters of `s`, in order.
pub fn chars_of(s: &str) -> (v: Vec<char>)
    ensures
        v@ == s@,
{
    broadcast use vstd::string::group_string_axioms;

    let mut v: Vec<char> = Vec::new();
    for c in it: s.chars()
        invariant
            it.seq() == s@,
            v@ == it.seq().take(it.index() as int),
    {
        v.push(c);
    }
    v
}

/// Builds a string holding exactly the characters of `v`.
pub fn string_of(v: &Vec<char>) -> (s: String)
    ensures
        s@ == v@,
{
    let mut s = String::new();
    let mut i: usize = 0;
    while i < v.len()
        invariant
            i <= v.len(),
            s@ == v@.take(i as int),
        decreases v.len() - i,
    {
        push_char(&mut s, v[i]);
        i = i + 1;
        assert(v@.take(i as int) =~= v@.take((i - 1) as int).push(v@[i - 1]));
    }
    assert(v@.take(i as int) =~= v@);
    s
}

/// A copy of the characters of `s` as a new string.
pub fn copy_string(s: &str) -> (r: String)
    ensures
        r@ == s@,
{
    s.to_owned()
}

/// Whether two strings hold the same characters.
pub fn same_text(a: &str, b: &str) -> (r: bool)
    ensures
        r == (a@ == b@),
{
    let va = chars_of(a);
    let vb = chars_of(b);
    if va.len() != vb.len() {
        return false;
    }
    let mut i: usize = 0;
    while i < va.len()
        invariant
            va@ == a@,
            vb@ == b@,
            va.len() == vb.len(),
            i <= va.len(),
            forall|j: int| 0 <= j < i ==> va@[j] == vb@[j],
        decreases va.len() - i,
    {
        if va[i] != vb[i] {
            return false;
        }
        i = i + 1;
    }
    assert(va@ =~= vb@);
    true
}

/// Appends the characters of `v` to `s`.
pub(crate) fn push_chars(s: &mut String, v: &Vec<char>)
    ensures
        final(s)@ == old(s)@ + v@,
{
    let mut i: usize = 0;
    while i < v.len()
        invariant
            i <= v.len(),
            s@ == old(s)@ + v@.take(i as int),
        decreases v.len() - i,
    {
        push_char(s, v[i]);
        i = i + 1;
        assert(v@.take(i as int) =~= v@.take((i - 1) as int).push(v@[i - 1]));
    }
    assert(v@.take(i as int) =~= v@);
}

/// Appends the characters of `t` to `s`.
pub(crate) fn push_str(s: &mut String, t: &str)
    ensures
        final(s)@ == old(s)@ + t@,
{
    let v = chars_of(t);
    push_chars(s, &v);
}

/// Number of characters (not bytes) in `segment`.
pub fn count_chars(segment: &str) -> (n: usize)
    ensures
        n == segment@.len(),
{
    chars_of(segment).len()
}

/// Number of bytes UTF-8 uses for one character.
pub open spec fn char_utf8_len(c: char) -> nat {
    let v = c as u32;
    if v < 0x80 {
        1
    } else if v < 0x800 {
        2
    } else if v < 0x10000 {
        3
    } else {
        4
    }
}

/// Number of bytes UTF-8 uses for the first `k` characters of `s`.
pub open spec fn utf8_prefix_len(s: Seq<char>, k: int) -> nat
    decreases k,
{
    if k <= 0 {
        0
    } else {
        utf8_prefix_len(s, k - 1) + char_utf8_len(s[k - 1])
    }
}

/// Byte offset `b` into the UTF-8 encoding of `s` falls between two
/// characters (or at either end).
pub open spec fn is_char_boundary_offset(s: Seq<char>, b: int) -> bool {
    exists|k: int| 0 <= k <= s.len() && utf8_prefix_len(s, k) == b
}

/// The character index at which byte offset `b` falls, for a boundary `b`.
pub open spec fn char_offset(s: Seq<char>, b: int) -> int {
    choose|k: int| 0 <= k <= s.len() && utf8_prefix_len(s, k) == b
}

pub proof fn lemma_prefix_len_strictly_increasing(s: Seq<char>, j: int, k: int)
    requires
        0 <= j < k,
    ensures
        utf8_prefix_len(s, j) < utf8_prefix_len(s, k),
    decreases k - j,
{
    if j + 1 < k {
        lemma_prefix_len_strictly_increasing(s, j, k - 1);
    }
}

/// The character index of a boundary byte offset is the only index whose
/// prefix has that many bytes.
pub proof fn lemma_char_offset_unique(s: Seq<char>, b: int, k: int)
    requires
        0 <= k <= s.len(),
        utf8_prefix_len(s, k) == b,
    ensures
        char_offset(s, b) == k,
{
    let c = char_offset(s, b);
    assert(0 <= c <= s.len() && utf8_prefix_len(s, c) == b);
    if c < k {
        lemma_prefix_len_strictly_increasing(s, c, k);
    } else if k < c {
        lemma_prefix_len_strictly_increasing(s, k, c);
    }
}

/// Boundary offsets keep their order when turned into character indices.
pub proof fn lemma_char_offset_monotone(s: Seq<char>, b1: int, b2: int)
    requires
        is_char_boundary_offset(s, b1),
        is_char_boundary_offset(s, b2),
        b1 <= b2,
    ensures
        char_offset(s, b1) <= char_offset(s, b2),
        0 <= char_offset(s, b1) <= s.len(),
        0 <= char_offset(s, b2) <= s.len(),
{
    let k1 = char_offset(s, b1);
    let k2 = char_offset(s, b2);
    if k2 < k1 {
        lemma_prefix_len_strictly_increasing(s, k2, k1);
    }
}

/// Number of bytes UTF-8 uses for `c`.
pub fn utf8_len(c: char) -> (n: usize)
    ensures
        n == char_utf8_len(c),
{
    let v = c as u32;
    if v < 0x80 {
        1
    } else if v < 0x800 {
        2
    } else if v < 0x10000 {
        3
    } else {
        4
    }
}

/// The character index at which byte offset `b` of the UTF-8 encoding of
/// `v` falls.
pub fn char_index_of_byte(v: &Vec<char>, b: usize) -> (k: usize)
    requires
        is_char_boundary_offset(v@, b as int),
    ensures
        k == char_offset(v@, b as int),
        k <= v@.len(),
{
    let ghost target = char_offset(v@, b as int);
    let mut k: usize = 0;
    let mut acc: usize = 0;
    while k < v.len() && acc < b
        invariant
            0 <= target <= v@.len(),
            utf8_prefix_len(v@, target) == b,
            k <= v@.len(),
            acc == utf8_prefix_len(v@, k as int),
            k <= target,
        decreases v.len() - k,
    {
        assert(k < target);
        proof {
            lemma_prefix_len_strictly_increasing(v@, k as int, target);
            if k + 1 < target {
                lemma_prefix_len_strictly_increasing(v@, k + 1, target);
            }
        }
        acc = acc + utf8_len(v[k]);
        k = k + 1;
    }
    proof {
        if k < target {
            lemma_prefix_len_strictly_increasing(v@, k as int, target);
        }
        lemma_char_offset_unique(v@, b as int, k as int);
    }
    k
}

/// The character of a decimal digit.
pub open spec fn digit_char(d: int) -> char {
    ((48 + d) as u8) as char
}

/// The decimal representation of `n`, without leading zeros.
pub open spec fn decimal(n: nat) -> Seq<char>
    decreases n,
{
    if n < 10 {
        seq![digit_char(n as int)]
    } else {
        decimal(n / 10).push(digit_char((n % 10) as int))
    }
}

/// Appends the decimal representation of `n` to `s`.
pub(crate) fn push_decimal_u64(s: &mut String, n: u64)
    ensures
        final(s)@ == old(s)@ + decimal(n as nat),
    decreases n,
{
    if n >= 10 {
        push_decimal_u64(s, n / 10);
    }
    let d = (48 + n % 10) as u8;
    push_char(s, d as char);
    proof {
        if n >= 10 {
            assert(old(s)@ + decimal((n / 10) as nat) + seq![digit_char((n % 10) as int)] =~= old(s)@ + decimal(n as nat));
        } else {
            assert(old(s)@ + seq![digit_char(n as int)] =~= old(s)@ + decimal(n as nat));
        }
    }
}

/// Appends the decimal representation of `n` to `s`.
pub(crate) fn push_decimal(s: &mut String, n: usize)
    ensures
        final(s)@ == old(s)@ + decimal(n as nat),
    decreases n,
{
    if n >= 10 {
        push_decimal(s, n / 10);
    }
    let d = (48 + n % 10) as u8;
    push_char(s, d as char);
    proof {
        if n >= 10 {
            assert(old(s)@ + decimal((n / 10) as nat) + seq![digit_char((n % 10) as int)] =~= old(s)@ + decimal(n as nat));
        } else {
            assert(old(s)@ + seq![digit_char(n as int)] =~= old(s)@ + decimal(n as nat));
        }
    }
}

/// Distinct numbers have distinct decimal representations.
pub proof fn lemma_decimal_injective(a: nat, b: nat)
    requires
        decimal(a) == decimal(b),
    ensures
        a == b,
    decreases a,
{
    lemma_decimal_len(a);
    lemma_decimal_len(b);
    if a < 10 && b < 10 {
        assert(decimal(a) == seq![digit_char(a as int)]);
        assert(decimal(b) == seq![digit_char(b as int)]);
        assert(decimal(a)[0] == digit_char(a as int));
        assert(decimal(b)[0] == digit_char(b as int));
        assert(digit_char(a as int) as u32 == 48 + a);
        assert(digit_char(b as int) as u32 == 48 + b);
    } else if a >= 10 && b >= 10 {
        let da = decimal(a);
        let db = decimal(b);
        assert(da.drop_last() == db.drop_last());
        assert(da.drop_last() =~= decimal(a / 10));
        assert(db.drop_last() =~= decimal(b / 10));
        lemma_decimal_injective(a / 10, b / 10);
        let ca = digit_char((a % 10) as int);
        let cb = digit_char((b % 10) as int);
        assert(da.last() == ca && db.last() == cb);
        assert(ca as u32 == 48 + a % 10);
        assert(cb as u32 == 48 + b % 10);
    }
}

/// A decimal representation has one digit below ten and more from ten on.
pub proof fn lemma_decimal_len(n: nat)
    ensures
        decimal(n).len() >= 1,
        n >= 10 ==> decimal(n).len() >= 2,
    decreases n,
{
    if n >= 10 {
        lemma_decimal_len(n / 10);
    }
}

} // verus!
