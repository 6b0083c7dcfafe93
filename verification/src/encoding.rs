//! Text encodings and line endings: detection, conversion, and the byte
//! codecs used when documents are read from and written to disk.
use vstd::prelude::*;
use crate::text::{chars_of, copy_string, string_of};
use crate::document::DocumentError;
use crate::platform::{char_from_u32, string_from_utf8, utf8_error_text};
use vstd::utf8::{char_u32_cast, char_is_scalar, decode_utf8, encode_utf8, is_scalar, valid_utf8};

verus! {

/// Supported text encodings for documents.
#[derive(Debug, Clone, Copy, PartialEq, Eq, Structural, Default)]
#[non_exhaustive]
pub enum TextEncoding {
    /// UTF-8 without BOM
    #[default]
    Utf8,
    /// UTF-16 Little Endian with BOM
    Utf16Le,
    /// UTF-16 Big Endian with BOM
    Utf16Be,
    /// ISO-8859-1 (Latin-1)
    Iso8859_1,
}

/// Line ending style stored in a document.
#[derive(Debug, Clone, Copy, PartialEq, Eq, Structural, Default)]
#[non_exhaustive]
pub enum LineEnding {
    /// Unix line endings (`\n`).
    #[default]
    Lf,
    /// Windows line endings (`\r\n`).
    Crlf,
}

// ---------------------------------------------------------------------------
// Line endings
// ---------------------------------------------------------------------------

/// A `\r\n` pair starts at position `i` of `s`.
pub open spec fn crlf_at(s: Seq<char>, i: int) -> bool {
    0 <= i && i + 1 < s.len() && s[i] == '\r' && s[i + 1] == '\n'
}

/// `s` holds a `\r\n` pair somewhere.
pub open spec fn contains_crlf(s: Seq<char>) -> bool {
    exists|i: int| crlf_at(s, i)
}

/// The line ending style a text is detected as.
pub open spec fn line_ending_of(s: Seq<char>) -> LineEnding {
    if contains_crlf(s) {
        LineEnding::Crlf
    } else {
        LineEnding::Lf
    }
}

/// `s` with every `\r\n` pair (scanned left to right) replaced by `\n`.
pub open spec fn normalize_newlines(s: Seq<char>) -> Seq<char>
    decreases s.len(),
{
    if s.len() == 0 {
        s
    } else if crlf_at(s, 0) {
        seq!['\n'] + normalize_newlines(s.skip(2))
    } else {
        seq![s[0]] + normalize_newlines(s.skip(1))
    }
}

/// `s` with every `\n` replaced by `\r\n`.
pub open spec fn expand_newlines(s: Seq<char>) -> Seq<char>
    decreases s.len(),
{
    if s.len() == 0 {
        s
    } else if s[0] == '\n' {
        seq!['\r', '\n'] + expand_newlines(s.skip(1))
    } else {
        seq![s[0]] + expand_newlines(s.skip(1))
    }
}

/// The text that converting `s` to the line ending `le` produces: first
/// every `\r\n` becomes `\n`, then, for CRLF, every `\n` becomes `\r\n`.
pub open spec fn converted_line_endings(s: Seq<char>, le: LineEnding) -> Seq<char> {
    match le {
        LineEnding::Lf => normalize_newlines(s),
        LineEnding::Crlf => expand_newlines(normalize_newlines(s)),
    }
}

/// Detect the line ending style of a text buffer.
pub fn detect_line_ending(text: &str) -> (le: LineEnding)
    ensures
        le == line_ending_of(text@),
{
    let v = chars_of(text);
    let mut i: usize = 0;
    while i < v.len() && i + 1 < v.len()
        invariant
            v@ == text@,
            i <= v.len(),
            forall|j: int| 0 <= j < i ==> !crlf_at(v@, j),
        decreases v.len() - i,
    {
        if v[i] == '\r' && v[i + 1] == '\n' {
            assert(crlf_at(v@, i as int));
            return LineEnding::Crlf;
        }
        i = i + 1;
    }
    assert forall|j: int| !crlf_at(v@, j) by {
        if 0 <= j && j >= i {
            assert(!(j + 1 < v@.len()));
        }
    }
    LineEnding::Lf
}

fn normalize_chars(v: &Vec<char>) -> (out: Vec<char>)
    ensures
        out@ == normalize_newlines(v@),
{
    let mut out: Vec<char> = Vec::new();
    let mut i: usize = 0;
    assert(v@.skip(0) =~= v@);
    while i < v.len()
        invariant
            i <= v.len(),
            out@ + normalize_newlines(v@.skip(i as int)) == normalize_newlines(v@),
        decreases v.len() - i,
    {
        let ghost rest = v@.skip(i as int);
        if i + 1 < v.len() && v[i] == '\r' && v[i + 1] == '\n' {
            assert(crlf_at(rest, 0));
            assert(rest.skip(2) =~= v@.skip(i + 2));
            out.push('\n');
            i = i + 2;
        } else {
            assert(!crlf_at(rest, 0));
            assert(rest.skip(1) =~= v@.skip(i + 1));
            out.push(v[i]);
            i = i + 1;
        }
    }
    assert(v@.skip(i as int) =~= Seq::<char>::empty());
    out
}

fn expand_chars(v: &Vec<char>) -> (out: Vec<char>)
    ensures
        out@ == expand_newlines(v@),
{
    let mut out: Vec<char> = Vec::new();
    let mut i: usize = 0;
    assert(v@.skip(0) =~= v@);
    while i < v.len()
        invariant
            i <= v.len(),
            out@ + expand_newlines(v@.skip(i as int)) == expand_newlines(v@),
        decreases v.len() - i,
    {
        let ghost rest = v@.skip(i as int);
        assert(rest.skip(1) =~= v@.skip(i + 1));
        if v[i] == '\n' {
            out.push('\r');
            out.push('\n');
        } else {
            out.push(v[i]);
        }
        i = i + 1;
    }
    assert(v@.skip(i as int) =~= Seq::<char>::empty());
    out
}

/// Convert the line endings in a text buffer to the requested style.
pub fn convert_line_endings(text: &str, line_ending: LineEnding) -> (r: String)
    ensures
        r@ == converted_line_endings(text@, line_ending),
{
    let v = chars_of(text);
    let normalized = normalize_chars(&v);
    match line_ending {
        LineEnding::Lf => string_of(&normalized),
        LineEnding::Crlf => string_of(&expand_chars(&normalized)),
    }
}

proof fn lemma_expand_first(y: Seq<char>)
    requires
        y.len() > 0,
    ensures
        expand_newlines(y).len() > 0,
        expand_newlines(y)[0] != '\n',
{
}

/// Expanding `\n` to `\r\n` and then collapsing `\r\n` to `\n` gives back
/// the text one started from, whatever it holds.
pub proof fn law_normalize_undoes_expand(x: Seq<char>)
    ensures
        normalize_newlines(expand_newlines(x)) == x,
    decreases x.len(),
{
    if x.len() > 0 {
        let e = expand_newlines(x);
        let rest = x.skip(1);
        law_normalize_undoes_expand(rest);
        if x[0] == '\n' {
            assert(crlf_at(e, 0));
            assert(e.skip(2) =~= expand_newlines(rest));
            assert(seq!['\n'] + rest =~= x);
        } else {
            if rest.len() > 0 {
                lemma_expand_first(rest);
            }
            assert(!crlf_at(e, 0));
            assert(e.skip(1) =~= expand_newlines(rest));
            assert(seq![x[0]] + rest =~= x);
        }
    }
}

/// A text without any `\r\n` pair is left unchanged by conversion to LF.
pub proof fn law_lf_text_is_fixed_by_lf_conversion(t: Seq<char>)
    requires
        !contains_crlf(t),
    ensures
        converted_line_endings(t, LineEnding::Lf) == t,
    decreases t.len(),
{
    if t.len() > 0 {
        let rest = t.skip(1);
        assert(!crlf_at(t, 0));
        assert forall|i: int| !crlf_at(rest, i) by {
            if crlf_at(rest, i) {
                assert(crlf_at(t, i + 1));
            }
        }
        law_lf_text_is_fixed_by_lf_conversion(rest);
        assert(seq![t[0]] + rest =~= t);
    }
}

/// Converting an LF text to CRLF and back to LF gives back the same text.
pub proof fn law_lf_crlf_round_trip(t: Seq<char>)
    requires
        !contains_crlf(t),
    ensures
        converted_line_endings(
            converted_line_endings(t, LineEnding::Crlf),
            LineEnding::Lf,
        ) == t,
{
    law_lf_text_is_fixed_by_lf_conversion(t);
    law_normalize_undoes_expand(t);
}

/// Converting to CRLF twice is the same as converting once.
pub proof fn law_crlf_conversion_idempotent(s: Seq<char>)
    ensures
        converted_line_endings(converted_line_endings(s, LineEnding::Crlf), LineEnding::Crlf)
            == converted_line_endings(s, LineEnding::Crlf),
{
    law_normalize_undoes_expand(normalize_newlines(s));
}

/// Converting to CRLF and then to LF is the same as converting to LF
/// directly: no stray `\r` is left behind by the detour.
pub proof fn law_crlf_then_lf_is_lf(s: Seq<char>)
    ensures
        converted_line_endings(converted_line_endings(s, LineEnding::Crlf), LineEnding::Lf)
            == converted_line_endings(s, LineEnding::Lf),
{
    law_normalize_undoes_expand(normalize_newlines(s));
}

proof fn lemma_expand_newlines_paired(x: Seq<char>)
    ensures
        forall|i: int|
            0 <= i < expand_newlines(x).len() && #[trigger] expand_newlines(x)[i] == '\n' ==> i > 0
                && expand_newlines(x)[i - 1] == '\r',
        expand_newlines(x).len() >= x.len(),
        (exists|k: int| 0 <= k < x.len() && x[k] == '\n') ==> contains_crlf(expand_newlines(x)),
    decreases x.len(),
{
    if x.len() > 0 {
        let rest = x.skip(1);
        let e = expand_newlines(x);
        let er = expand_newlines(rest);
        lemma_expand_newlines_paired(rest);
        if x[0] == '\n' {
            assert(e =~= seq!['\r', '\n'] + er);
            assert forall|i: int| 0 <= i < e.len() && #[trigger] e[i] == '\n' implies i > 0 && e[i - 1]
                == '\r' by {
                if i >= 2 {
                    assert(e[i] == er[i - 2]);
                    if i - 2 == 0 {
                        lemma_expand_first(rest);
                    }
                }
            }
            assert(crlf_at(e, 0));
        } else {
            assert(e =~= seq![x[0]] + er);
            assert forall|i: int| 0 <= i < e.len() && #[trigger] e[i] == '\n' implies i > 0 && e[i - 1]
                == '\r' by {
                if i >= 1 {
                    assert(e[i] == er[i - 1]);
                }
            }
            if exists|k: int| 0 <= k < x.len() && x[k] == '\n' {
                let k = choose|k: int| 0 <= k < x.len() && x[k] == '\n';
                assert(rest[k - 1] == '\n');
                let j = choose|j: int| crlf_at(er, j);
                assert(crlf_at(e, j + 1));
            }
        }
    }
}

proof fn lemma_normalize_keeps_newline(s: Seq<char>)
    requires
        exists|k: int| 0 <= k < s.len() && s[k] == '\n',
    ensures
        exists|k: int| 0 <= k < normalize_newlines(s).len() && normalize_newlines(s)[k] == '\n',
    decreases s.len(),
{
    let n = normalize_newlines(s);
    if crlf_at(s, 0) {
        assert(n[0] == '\n');
    } else if s[0] == '\n' {
        assert(n[0] == '\n');
    } else {
        let rest = s.skip(1);
        let k = choose|k: int| 0 <= k < s.len() && s[k] == '\n';
        assert(rest[k - 1] == '\n');
        lemma_normalize_keeps_newline(rest);
        let j = choose|j: int| 0 <= j < normalize_newlines(rest).len() && normalize_newlines(rest)[j] == '\n';
        assert(n =~= seq![s[0]] + normalize_newlines(rest));
        assert(n[j + 1] == '\n');
    }
}

/// After conversion to CRLF every `\n` is preceded by `\r`, and a text with
/// at least one line break is then detected as CRLF.
pub proof fn law_crlf_conversion_pairs_every_newline(s: Seq<char>)
    ensures
        forall|i: int|
            0 <= i < converted_line_endings(s, LineEnding::Crlf).len()
                && #[trigger] converted_line_endings(s, LineEnding::Crlf)[i] == '\n' ==> i > 0
                && converted_line_endings(s, LineEnding::Crlf)[i - 1] == '\r',
        (exists|k: int| 0 <= k < s.len() && s[k] == '\n') ==> line_ending_of(
            converted_line_endings(s, LineEnding::Crlf),
        ) == LineEnding::Crlf,
{
    lemma_expand_newlines_paired(normalize_newlines(s));
    if exists|k: int| 0 <= k < s.len() && s[k] == '\n' {
        lemma_normalize_keeps_newline(s);
    }
}

/// The number of `\n` characters in `s`.
pub open spec fn newline_count(s: Seq<char>) -> nat
    decreases s.len(),
{
    if s.len() == 0 {
        0
    } else {
        (if s[0] == '\n' {
            1nat
        } else {
            0nat
        }) + newline_count(s.skip(1))
    }
}

proof fn lemma_newline_count_positive(s: Seq<char>)
    ensures
        newline_count(s) > 0 <==> exists|k: int| 0 <= k < s.len() && s[k] == '\n',
    decreases s.len(),
{
    if s.len() > 0 {
        let rest = s.skip(1);
        lemma_newline_count_positive(rest);
        if s[0] != '\n' {
            if exists|k: int| 0 <= k < s.len() && s[k] == '\n' {
                let k = choose|k: int| 0 <= k < s.len() && s[k] == '\n';
                assert(rest[k - 1] == '\n');
            }
            if exists|k: int| 0 <= k < rest.len() && rest[k] == '\n' {
                let k = choose|k: int| 0 <= k < rest.len() && rest[k] == '\n';
                assert(s[k + 1] == '\n');
            }
        }
    }
}

proof fn lemma_normalize_count(s: Seq<char>)
    ensures
        newline_count(normalize_newlines(s)) == newline_count(s),
    decreases s.len(),
{
    if s.len() > 0 {
        let n = normalize_newlines(s);
        if crlf_at(s, 0) {
            lemma_normalize_count(s.skip(2));
            assert(n.skip(1) =~= normalize_newlines(s.skip(2)));
            assert(s.skip(1).skip(1) =~= s.skip(2));
            assert(s.skip(1)[0] == '\n');
            assert(n[0] == '\n');
            assert(newline_count(s) == newline_count(s.skip(1)));
            assert(newline_count(s.skip(1)) == 1 + newline_count(s.skip(1).skip(1)));
            assert(newline_count(n) == 1 + newline_count(n.skip(1)));
        } else {
            lemma_normalize_count(s.skip(1));
            assert(n.skip(1) =~= normalize_newlines(s.skip(1)));
            assert(n[0] == s[0]);
        }
    }
}

proof fn lemma_expand_count(x: Seq<char>)
    ensures
        newline_count(expand_newlines(x)) == newline_count(x),
    decreases x.len(),
{
    if x.len() > 0 {
        let e = expand_newlines(x);
        lemma_expand_count(x.skip(1));
        if x[0] == '\n' {
            assert(e.skip(1).skip(1) =~= expand_newlines(x.skip(1)));
            assert(e.skip(1)[0] == '\n');
            assert(e[0] == '\r');
            assert(newline_count(e) == newline_count(e.skip(1)));
            assert(newline_count(e.skip(1)) == 1 + newline_count(e.skip(1).skip(1)));
        } else {
            assert(e.skip(1) =~= expand_newlines(x.skip(1)));
            assert(e[0] == x[0]);
        }
    }
}

/// Conversion keeps the number of line breaks; after conversion to CRLF the
/// text is detected as CRLF exactly when it has a line break.
pub proof fn law_conversion_keeps_newlines(s: Seq<char>, le: LineEnding)
    ensures
        newline_count(converted_line_endings(s, le)) == newline_count(s),
        line_ending_of(converted_line_endings(s, LineEnding::Crlf)) == LineEnding::Crlf <==> exists|k: int|
            0 <= k < s.len() && s[k] == '\n',
{
    lemma_normalize_count(s);
    lemma_expand_count(normalize_newlines(s));
    law_crlf_conversion_pairs_every_newline(s);
    let c = converted_line_endings(s, LineEnding::Crlf);
    if contains_crlf(c) {
        let i = choose|i: int| crlf_at(c, i);
        assert(c[i + 1] == '\n');
        lemma_newline_count_positive(c);
        lemma_newline_count_positive(s);
    }
}

// ---------------------------------------------------------------------------
// UTF-16
// ---------------------------------------------------------------------------

pub open spec fn is_high_surrogate(u: u16) -> bool {
    0xD800 <= u <= 0xDBFF
}

pub open spec fn is_low_surrogate(u: u16) -> bool {
    0xDC00 <= u <= 0xDFFF
}

/// The code point a high/low surrogate pair stands for.
pub open spec fn surrogate_pair_value(hi: u16, lo: u16) -> u32 {
    (0x10000 + (hi - 0xD800) * 0x400 + (lo - 0xDC00)) as u32
}

/// The UTF-16 code units of one character.
pub open spec fn utf16_units_of_char(c: char) -> Seq<u16> {
    let v = c as u32;
    if v < 0x10000 {
        seq![v as u16]
    } else {
        let w = v - 0x10000;
        seq![(0xD800 + w / 0x400) as u16, (0xDC00 + w % 0x400) as u16]
    }
}

/// The UTF-16 code units of a character sequence.
pub open spec fn utf16_encode(s: Seq<char>) -> Seq<u16>
    decreases s.len(),
{
    if s.len() == 0 {
        Seq::empty()
    } else {
        utf16_units_of_char(s[0]) + utf16_encode(s.skip(1))
    }
}

/// The characters that a sequence of UTF-16 code units stands for, or
/// `None` when it holds a surrogate that is not part of a high/low pair.
pub open spec fn utf16_decode(u: Seq<u16>) -> Option<Seq<char>>
    decreases u.len(),
{
    if u.len() == 0 {
        Some(Seq::empty())
    } else if !is_high_surrogate(u[0]) && !is_low_surrogate(u[0]) {
        match utf16_decode(u.skip(1)) {
            Some(r) => Some(seq![(u[0] as u32) as char] + r),
            None => None,
        }
    } else if is_high_surrogate(u[0]) && u.len() >= 2 && is_low_surrogate(u[1]) {
        match utf16_decode(u.skip(2)) {
            Some(r) => Some(seq![surrogate_pair_value(u[0], u[1]) as char] + r),
            None => None,
        }
    } else {
        None
    }
}

/// Low (`low == true`) or high byte of a code unit.
pub open spec fn unit_byte(u: u16, low: bool) -> u8 {
    if low {
        (u % 256) as u8
    } else {
        (u / 256) as u8
    }
}

/// Code units written out as bytes, two per unit, little or big endian.
pub open spec fn utf16_bytes(u: Seq<u16>, little_endian: bool) -> Seq<u8> {
    Seq::new(u.len() * 2, |j: int| unit_byte(u[j / 2], (j % 2 == 0) == little_endian))
}

/// Bytes read back as code units, two bytes per unit.
pub open spec fn utf16_units_from_bytes(b: Seq<u8>, little_endian: bool) -> Seq<u16> {
    Seq::new(
        b.len() / 2,
        |i: int|
            if little_endian {
                (b[2 * i] + 256 * b[2 * i + 1]) as u16
            } else {
                (256 * b[2 * i] + b[2 * i + 1]) as u16
            },
    )
}

/// The text a UTF-16 payload (without byte order mark) decodes to.
pub open spec fn utf16_decode_bytes(b: Seq<u8>, little_endian: bool) -> Option<Seq<char>> {
    if b.len() % 2 != 0 {
        None
    } else {
        utf16_decode(utf16_units_from_bytes(b, little_endian))
    }
}

// ---------------------------------------------------------------------------
// ISO-8859-1
// ---------------------------------------------------------------------------

pub open spec fn latin1_representable(s: Seq<char>) -> bool {
    forall|i: int| 0 <= i < s.len() ==> (#[trigger] s[i] as u32) <= 0xFF
}

pub open spec fn latin1_encode(s: Seq<char>) -> Seq<u8> {
    Seq::new(s.len(), |i: int| (s[i] as u32) as u8)
}

pub open spec fn latin1_decode(b: Seq<u8>) -> Seq<char> {
    Seq::new(b.len(), |i: int| b[i] as char)
}

// ---------------------------------------------------------------------------
// Whole-document codecs
// ---------------------------------------------------------------------------

pub open spec fn bom_utf16le() -> Seq<u8> {
    seq![0xFFu8, 0xFEu8]
}

pub open spec fn bom_utf16be() -> Seq<u8> {
    seq![0xFEu8, 0xFFu8]
}

pub open spec fn bom_utf8() -> Seq<u8> {
    seq![0xEFu8, 0xBBu8, 0xBFu8]
}

pub open spec fn starts_with(b: Seq<u8>, prefix: Seq<u8>) -> bool {
    prefix.len() <= b.len() && b.take(prefix.len() as int) == prefix
}

/// The bytes `encode_text` writes for a text, or `None` when the text cannot
/// be represented in the encoding.
pub open spec fn encoded_bytes(text: Seq<char>, encoding: TextEncoding) -> Option<Seq<u8>> {
    match encoding {
        TextEncoding::Utf8 => Some(encode_utf8(text)),
        TextEncoding::Utf16Le => Some(bom_utf16le() + utf16_bytes(utf16_encode(text), true)),
        TextEncoding::Utf16Be => Some(bom_utf16be() + utf16_bytes(utf16_encode(text), false)),
        TextEncoding::Iso8859_1 => if latin1_representable(text) {
            Some(latin1_encode(text))
        } else {
            None
        },
    }
}

/// The text `decode_bytes_with_encoding` reads from bytes in a given
/// encoding, or `None` when the bytes are not valid in it.
pub open spec fn decoded_with_encoding(b: Seq<u8>, encoding: TextEncoding) -> Option<Seq<char>> {
    match encoding {
        TextEncoding::Utf8 => if valid_utf8(b) {
            Some(decode_utf8(b))
        } else {
            None
        },
        TextEncoding::Utf16Le => utf16_decode_bytes(b, true),
        TextEncoding::Utf16Be => utf16_decode_bytes(b, false),
        TextEncoding::Iso8859_1 => Some(latin1_decode(b)),
    }
}

/// What `decode_bytes` infers from raw bytes: a byte order mark selects
/// UTF-16 LE/BE or UTF-8 (and is dropped); otherwise the bytes are UTF-8 when
/// they are valid UTF-8 and ISO-8859-1 when they are not.
pub open spec fn decoded_bytes(b: Seq<u8>) -> Option<(TextEncoding, Seq<char>)> {
    if starts_with(b, bom_utf16le()) {
        match utf16_decode_bytes(b.skip(2), true) {
            Some(t) => Some((TextEncoding::Utf16Le, t)),
            None => None,
        }
    } else if starts_with(b, bom_utf16be()) {
        match utf16_decode_bytes(b.skip(2), false) {
            Some(t) => Some((TextEncoding::Utf16Be, t)),
            None => None,
        }
    } else if starts_with(b, bom_utf8()) {
        if valid_utf8(b.skip(3)) {
            Some((TextEncoding::Utf8, decode_utf8(b.skip(3))))
        } else {
            None
        }
    } else if valid_utf8(b) {
        Some((TextEncoding::Utf8, decode_utf8(b)))
    } else {
        Some((TextEncoding::Iso8859_1, latin1_decode(b)))
    }
}

pub open spec fn odd_length_message() -> Seq<char> {
    "utf-16 payload had an odd number of bytes"@
}

pub open spec fn lone_surrogate_message() -> Seq<char> {
    "invalid utf-16: lone surrogate found"@
}

/// The error a UTF-16 payload that does not decode is reported with.
pub open spec fn utf16_error_message(b: Seq<u8>) -> Seq<char> {
    if b.len() % 2 != 0 {
        odd_length_message()
    } else {
        lone_surrogate_message()
    }
}

fn utf16_units(bytes: &[u8], start: usize, little_endian: bool) -> (units: Vec<u16>)
    requires
        start <= bytes@.len(),
    ensures
        units@ == utf16_units_from_bytes(bytes@.skip(start as int), little_endian),
{
    let ghost b = bytes@.skip(start as int);
    let n = (bytes.len() - start) / 2;
    let mut units: Vec<u16> = Vec::new();
    let mut k: usize = 0;
    assert(b.len() == bytes@.len() - start);
    assert(n * 2 <= bytes@.len() - start);
    while k < n
        invariant
            n * 2 <= bytes@.len() - start,
            b == bytes@.skip(start as int),
            n == b.len() / 2,
            start <= bytes@.len(),
            k <= n,
            units@.len() == k,
            forall|i: int| 0 <= i < k ==> units@[i] == #[trigger] utf16_units_from_bytes(b, little_endian)[i],
        decreases n - k,
    {
        assert(start + 2 * k + 1 < bytes.len());
        let b0 = bytes[start + 2 * k] as u16;
        let b1 = bytes[start + 2 * k + 1] as u16;
        assert(b0 == b[2 * k as int] && b1 == b[2 * k + 1]);
        let u: u16 = if little_endian {
            b0 + 256 * b1
        } else {
            256 * b0 + b1
        };
        units.push(u);
        k = k + 1;
    }
    assert(units@ =~= utf16_units_from_bytes(b, little_endian));
    units
}

/// Decode a UTF-16 payload (the bytes of `bytes` from `start` on).
pub(crate) fn decode_utf16(bytes: &[u8], start: usize, little_endian: bool) -> (r: Result<String, DocumentError>)
    requires
        start <= bytes@.len(),
    ensures
        match (r, utf16_decode_bytes(bytes@.skip(start as int), little_endian)) {
            (Ok(s), Some(t)) => s@ == t,
            (Err(DocumentError::InvalidData(m)), None) => m@ == utf16_error_message(bytes@.skip(start as int)),
            _ => false,
        },
{
    if (bytes.len() - start) % 2 != 0 {
        return Err(DocumentError::InvalidData(copy_string("utf-16 payload had an odd number of bytes")));
    }
    let units = utf16_units(bytes, start, little_endian);
    let mut out: Vec<char> = Vec::new();
    let mut i: usize = 0;
    assert(units@.skip(0) =~= units@);
    while i < units.len()
        invariant
            start <= bytes@.len(),
            (bytes@.len() - start) % 2 == 0,
            units@ == utf16_units_from_bytes(bytes@.skip(start as int), little_endian),
            i <= units.len(),
            match utf16_decode(units@.skip(i as int)) {
                Some(r) => utf16_decode(units@) == Some(out@ + r),
                None => utf16_decode(units@) is None,
            },
        decreases units.len() - i,
    {
        let ghost rest = units@.skip(i as int);
        let u = units[i];
        if !(0xD800 <= u && u <= 0xDFFF) {
            assert(rest.skip(1) =~= units@.skip(i + 1));
            let c = match char_from_u32(u as u32) {
                Some(c) => c,
                None => {
                    assert(false);
                    return Err(DocumentError::InvalidData(copy_string("invalid utf-16: lone surrogate found")));
                },
            };
            proof {
                char_u32_cast(c, u as u32);
                match utf16_decode(units@.skip(i + 1)) {
                    Some(r) => {
                        assert(out@.push(c) + r =~= out@ + (seq![c] + r));
                    },
                    None => {},
                }
            }
            out.push(c);
            i = i + 1;
        } else if u <= 0xDBFF && i + 1 < units.len() && 0xDC00 <= units[i + 1] && units[i + 1] <= 0xDFFF {
            let lo = units[i + 1];
            assert(rest.skip(2) =~= units@.skip(i + 2));
            let v: u32 = 0x10000 + ((u - 0xD800) as u32) * 0x400 + ((lo - 0xDC00) as u32);
            assert(v == surrogate_pair_value(u, lo));
            let c = match char_from_u32(v) {
                Some(c) => c,
                None => {
                    assert(false);
                    return Err(DocumentError::InvalidData(copy_string("invalid utf-16: lone surrogate found")));
                },
            };
            proof {
                char_u32_cast(c, v);
                match utf16_decode(units@.skip(i + 2)) {
                    Some(r) => {
                        assert(out@.push(c) + r =~= out@ + (seq![c] + r));
                    },
                    None => {},
                }
            }
            out.push(c);
            i = i + 2;
        } else {
            assert(rest[0] == u);
            if i + 1 < units.len() {
                assert(rest[1] == units@[i + 1]);
            }
            assert(utf16_decode(rest) is None);
            assert(bytes@.skip(start as int).len() % 2 == 0);
            return Err(DocumentError::InvalidData(copy_string("invalid utf-16: lone surrogate found")));
        }
    }
    assert(units@.skip(i as int) =~= Seq::<u16>::empty());
    assert(out@ + Seq::<char>::empty() =~= out@);
    Ok(string_of(&out))
}

fn bytes_from(bytes: &[u8], start: usize) -> (v: Vec<u8>)
    requires
        start <= bytes@.len(),
    ensures
        v@ == bytes@.skip(start as int),
{
    let mut v: Vec<u8> = Vec::new();
    let mut i: usize = start;
    while i < bytes.len()
        invariant
            start <= i <= bytes@.len(),
            v@ == bytes@.subrange(start as int, i as int),
        decreases bytes.len() - i,
    {
        v.push(bytes[i]);
        i = i + 1;
        assert(v@ =~= bytes@.subrange(start as int, i as int));
    }
    assert(bytes@.subrange(start as int, i as int) =~= bytes@.skip(start as int));
    v
}

fn utf16_encode_chars(v: &Vec<char>) -> (units: Vec<u16>)
    ensures
        units@ == utf16_encode(v@),
{
    let mut units: Vec<u16> = Vec::new();
    let mut i: usize = 0;
    assert(v@.skip(0) =~= v@);
    while i < v.len()
        invariant
            i <= v.len(),
            units@ + utf16_encode(v@.skip(i as int)) == utf16_encode(v@),
        decreases v.len() - i,
    {
        let ghost rest = v@.skip(i as int);
        let ghost before = units@;
        assert(rest.skip(1) =~= v@.skip(i + 1));
        let c = v[i];
        let x = c as u32;
        if x < 0x10000 {
            units.push(x as u16);
        } else {
            proof {
                char_is_scalar(c);
            }
            let w = x - 0x10000;
            units.push((0xD800 + w / 0x400) as u16);
            units.push((0xDC00 + w % 0x400) as u16);
        }
        assert(units@ =~= before + utf16_units_of_char(c));
        assert(before + utf16_encode(rest) =~= before + utf16_units_of_char(c) + utf16_encode(
            v@.skip(i + 1),
        ));
        i = i + 1;
    }
    assert(v@.skip(i as int) =~= Seq::<char>::empty());
    assert(units@ + Seq::<u16>::empty() =~= units@);
    units
}

fn utf16_with_bom(text: &str, little_endian: bool) -> (out: Vec<u8>)
    ensures
        out@ == (if little_endian { bom_utf16le() } else { bom_utf16be() }) + utf16_bytes(
            utf16_encode(text@),
            little_endian,
        ),
{
    let v = chars_of(text);
    let units = utf16_encode_chars(&v);
    let ghost bom = if little_endian { bom_utf16le() } else { bom_utf16be() };
    let ghost expected = utf16_bytes(units@, little_endian);
    let mut out: Vec<u8> = Vec::new();
    if little_endian {
        out.push(0xFF);
        out.push(0xFE);
    } else {
        out.push(0xFE);
        out.push(0xFF);
    }
    let mut k: usize = 0;
    while k < units.len()
        invariant
            k <= units.len(),
            bom == (if little_endian { bom_utf16le() } else { bom_utf16be() }),
            expected == utf16_bytes(units@, little_endian),
            out@.len() == 2 + 2 * k,
            out@.take(2) == bom,
            forall|j: int| 0 <= j < 2 * k ==> out@[2 + j] == #[trigger] expected[j],
        decreases units.len() - k,
    {
        let u = units[k];
        let low = (u % 256) as u8;
        let high = (u / 256) as u8;
        let ghost prev = out@;
        if little_endian {
            out.push(low);
            out.push(high);
        } else {
            out.push(high);
            out.push(low);
        }
        assert(out@.take(2) =~= prev.take(2));
        assert(expected[2 * k as int] == unit_byte(u, little_endian));
        assert(expected[2 * k + 1] == unit_byte(u, !little_endian));
        k = k + 1;
    }
    assert(out@ =~= bom + expected);
    out
}

fn latin1_encode_text(text: &str) -> (r: Option<Vec<u8>>)
    ensures
        r is Some <==> latin1_representable(text@),
        r matches Some(b) ==> b@ == latin1_encode(text@),
{
    let v = chars_of(text);
    let mut out: Vec<u8> = Vec::new();
    let mut i: usize = 0;
    while i < v.len()
        invariant
            v@ == text@,
            i <= v.len(),
            out@.len() == i,
            forall|j: int| 0 <= j < i ==> (#[trigger] v@[j] as u32) <= 0xFF,
            forall|j: int| 0 <= j < i ==> out@[j] == #[trigger] latin1_encode(v@)[j],
        decreases v.len() - i,
    {
        let x = v[i] as u32;
        if x > 0xFF {
            assert(!latin1_representable(text@)) by {
                assert((v@[i as int] as u32) > 0xFF);
            }
            return None;
        }
        out.push(x as u8);
        i = i + 1;
    }
    assert(out@ =~= latin1_encode(v@));
    Some(out)
}

/// Encode a string into the requested encoding.
pub fn encode_text(text: &str, encoding: TextEncoding) -> (r: Result<Vec<u8>, DocumentError>)
    ensures
        match (r, encoded_bytes(text@, encoding)) {
            (Ok(b), Some(e)) => b@ == e,
            (Err(err), None) => err == DocumentError::UnsupportedEncoding(
                "character not representable in ISO-8859-1",
            ),
            _ => false,
        },
{
    match encoding {
        TextEncoding::Utf8 => Ok(vstd::slice::slice_to_vec(text.as_bytes())),
        TextEncoding::Utf16Le => Ok(utf16_with_bom(text, true)),
        TextEncoding::Utf16Be => Ok(utf16_with_bom(text, false)),
        TextEncoding::Iso8859_1 => match latin1_encode_text(text) {
            Some(b) => Ok(b),
            None => Err(DocumentError::UnsupportedEncoding("character not representable in ISO-8859-1")),
        },
    }
}

fn latin1_decode_bytes(bytes: &[u8], start: usize) -> (s: String)
    requires
        start <= bytes@.len(),
    ensures
        s@ == latin1_decode(bytes@.skip(start as int)),
{
    let ghost b = bytes@.skip(start as int);
    let mut out: Vec<char> = Vec::new();
    let mut i: usize = start;
    while i < bytes.len()
        invariant
            b == bytes@.skip(start as int),
            start <= i <= bytes@.len(),
            out@.len() == i - start,
            forall|j: int| 0 <= j < i - start ==> out@[j] == #[trigger] latin1_decode(b)[j],
        decreases bytes.len() - i,
    {
        out.push(bytes[i] as char);
        i = i + 1;
    }
    assert(out@ =~= latin1_decode(b));
    string_of(&out)
}

fn utf8_decode_bytes(bytes: &[u8], start: usize) -> (r: Result<String, DocumentError>)
    requires
        start <= bytes@.len(),
    ensures
        match r {
            Ok(s) => valid_utf8(bytes@.skip(start as int)) && s@ == decode_utf8(bytes@.skip(start as int)),
            Err(DocumentError::InvalidData(m)) => !valid_utf8(bytes@.skip(start as int)) && m@ == utf8_error_text(
                bytes@.skip(start as int),
            ),
            _ => false,
        },
{
    match string_from_utf8(bytes_from(bytes, start)) {
        Ok(s) => Ok(s),
        Err(m) => Err(DocumentError::InvalidData(m)),
    }
}

/// The error text a forced decoding of `b` reports when it fails.
pub open spec fn decode_error_message(b: Seq<u8>, encoding: TextEncoding) -> Seq<char> {
    match encoding {
        TextEncoding::Utf16Le | TextEncoding::Utf16Be => utf16_error_message(b),
        _ => utf8_error_text(b),
    }
}

/// The error text decoding `b` with an inferred encoding reports when it
/// fails: only a payload after a byte order mark can fail.
pub open spec fn detect_error_message(b: Seq<u8>) -> Seq<char> {
    if starts_with(b, bom_utf16le()) || starts_with(b, bom_utf16be()) {
        utf16_error_message(b.skip(2))
    } else {
        utf8_error_text(b.skip(3))
    }
}

/// Decode raw bytes into a string using a forced encoding.
pub fn decode_bytes_with_encoding(bytes: &[u8], encoding: TextEncoding) -> (r: Result<String, DocumentError>)
    ensures
        match (r, decoded_with_encoding(bytes@, encoding)) {
            (Ok(s), Some(t)) => s@ == t,
            (Err(DocumentError::InvalidData(m)), None) => m@ == decode_error_message(bytes@, encoding),
            _ => false,
        },
{
    assert(bytes@.skip(0) =~= bytes@);
    match encoding {
        TextEncoding::Utf8 => utf8_decode_bytes(bytes, 0),
        TextEncoding::Utf16Le => decode_utf16(bytes, 0, true),
        TextEncoding::Utf16Be => decode_utf16(bytes, 0, false),
        TextEncoding::Iso8859_1 => Ok(latin1_decode_bytes(bytes, 0)),
    }
}

/// Decode raw bytes into a string and inferred encoding.
pub fn decode_bytes(bytes: &[u8]) -> (r: Result<(TextEncoding, String), DocumentError>)
    ensures
        match (r, decoded_bytes(bytes@)) {
            (Ok((enc, s)), Some((e, t))) => enc == e && s@ == t,
            (Err(DocumentError::InvalidData(m)), None) => m@ == detect_error_message(bytes@),
            _ => false,
        },
{
    let ghost b = bytes@;
    if bytes.len() >= 2 && bytes[0] == 0xFF && bytes[1] == 0xFE {
        assert(b.take(2) =~= bom_utf16le());
        return match decode_utf16(bytes, 2, true) {
            Ok(text) => Ok((TextEncoding::Utf16Le, text)),
            Err(e) => Err(e),
        };
    }
    assert(!starts_with(b, bom_utf16le())) by {
        if starts_with(b, bom_utf16le()) {
            assert(b.take(2)[0] == b[0] && b.take(2)[1] == b[1]);
        }
    }
    if bytes.len() >= 2 && bytes[0] == 0xFE && bytes[1] == 0xFF {
        assert(b.take(2) =~= bom_utf16be());
        return match decode_utf16(bytes, 2, false) {
            Ok(text) => Ok((TextEncoding::Utf16Be, text)),
            Err(e) => Err(e),
        };
    }
    assert(!starts_with(b, bom_utf16be())) by {
        if starts_with(b, bom_utf16be()) {
            assert(b.take(2)[0] == b[0] && b.take(2)[1] == b[1]);
        }
    }
    if bytes.len() >= 3 && bytes[0] == 0xEF && bytes[1] == 0xBB && bytes[2] == 0xBF {
        assert(b.take(3) =~= bom_utf8());
        return match utf8_decode_bytes(bytes, 3) {
            Ok(text) => Ok((TextEncoding::Utf8, text)),
            Err(e) => Err(e),
        };
    }
    assert(!starts_with(b, bom_utf8())) by {
        if starts_with(b, bom_utf8()) {
            assert(b.take(3)[0] == b[0] && b.take(3)[1] == b[1] && b.take(3)[2] == b[2]);
        }
    }
    assert(b.skip(0) =~= b);
    match utf8_decode_bytes(bytes, 0) {
        Ok(text) => Ok((TextEncoding::Utf8, text)),
        Err(_) => Ok((TextEncoding::Iso8859_1, latin1_decode_bytes(bytes, 0))),
    }
}

proof fn lemma_utf16_char_round_trip(c: char, rest: Seq<u16>, tail: Seq<char>)
    requires
        utf16_decode(rest) == Some(tail),
    ensures
        utf16_decode(utf16_units_of_char(c) + rest) == Some(seq![c] + tail),
{
    let x = c as u32;
    let u = utf16_units_of_char(c) + rest;
    char_is_scalar(c);
    char_u32_cast(c, x);
    if x < 0x10000 {
        assert(u[0] == x as u16);
        assert((u[0] as u32) == x);
        assert(u.skip(1) =~= rest);
    } else {
        let w = x - 0x10000;
        let hi = (0xD800 + w / 0x400) as u16;
        let lo = (0xDC00 + w % 0x400) as u16;
        assert(w < 0x100000);
        assert(u[0] == hi && u[1] == lo);
        assert(u.skip(2) =~= rest);
        assert(w / 0x400 * 0x400 + w % 0x400 == w) by (nonlinear_arith)
            requires
                0 <= w,
        ;
        assert(surrogate_pair_value(hi, lo) == x);
    }
}

proof fn lemma_utf16_decode_encode(s: Seq<char>)
    ensures
        utf16_decode(utf16_encode(s)) == Some(s),
    decreases s.len(),
{
    if s.len() == 0 {
    } else {
        lemma_utf16_decode_encode(s.skip(1));
        lemma_utf16_char_round_trip(s[0], utf16_encode(s.skip(1)), s.skip(1));
        assert(seq![s[0]] + s.skip(1) =~= s);
    }
}

proof fn lemma_utf16_bytes_round_trip(u: Seq<u16>, little_endian: bool)
    ensures
        utf16_bytes(u, little_endian).len() % 2 == 0,
        utf16_units_from_bytes(utf16_bytes(u, little_endian), little_endian) == u,
{
    let b = utf16_bytes(u, little_endian);
    let r = utf16_units_from_bytes(b, little_endian);
    assert(b.len() / 2 == u.len());
    assert forall|i: int| 0 <= i < u.len() implies r[i] == u[i] by {
        let x = u[i];
        assert((2 * i) / 2 == i && (2 * i + 1) / 2 == i);
        assert((2 * i) % 2 == 0 && (2 * i + 1) % 2 == 1);
        assert(b[2 * i] == unit_byte(x, little_endian));
        assert(b[2 * i + 1] == unit_byte(x, !little_endian));
        assert(x % 256 + 256 * (x / 256) == x);
    }
    assert(r =~= u);
}

/// Text written as UTF-16 (either byte order, with its byte order mark) is
/// read back by `decode_bytes` as the same text in the same encoding.
pub proof fn law_utf16_round_trip(t: Seq<char>, little_endian: bool)
    ensures
        ({
            let enc = if little_endian { TextEncoding::Utf16Le } else { TextEncoding::Utf16Be };
            decoded_bytes(encoded_bytes(t, enc)->Some_0) == Some((enc, t))
        }),
{
    let enc = if little_endian { TextEncoding::Utf16Le } else { TextEncoding::Utf16Be };
    let bom = if little_endian { bom_utf16le() } else { bom_utf16be() };
    let payload = utf16_bytes(utf16_encode(t), little_endian);
    let b = bom + payload;
    assert(encoded_bytes(t, enc)->Some_0 == b);
    lemma_utf16_bytes_round_trip(utf16_encode(t), little_endian);
    lemma_utf16_decode_encode(t);
    assert(b.take(2) =~= bom);
    assert(b.skip(2) =~= payload);
    if !little_endian {
        assert(!starts_with(b, bom_utf16le())) by {
            assert(b.take(2)[0] == 0xFEu8);
        }
    }
}

/// Text that ISO-8859-1 can represent is read back unchanged when the bytes
/// are decoded as ISO-8859-1.
pub proof fn law_latin1_round_trip(t: Seq<char>)
    requires
        latin1_representable(t),
    ensures
        decoded_with_encoding(encoded_bytes(t, TextEncoding::Iso8859_1)->Some_0, TextEncoding::Iso8859_1)
            == Some(t),
{
    let b = latin1_encode(t);
    let d = latin1_decode(b);
    assert forall|i: int| 0 <= i < t.len() implies d[i] == t[i] by {
        let c = t[i];
        let x = c as u32;
        assert(x <= 0xFF);
        char_u32_cast(c, x);
        assert((x as u8) as u32 == x);
    }
    assert(d =~= t);
}

/// Text written as UTF-8 is read back unchanged when decoded as UTF-8.
pub proof fn law_utf8_round_trip(t: Seq<char>)
    ensures
        decoded_with_encoding(encoded_bytes(t, TextEncoding::Utf8)->Some_0, TextEncoding::Utf8)
            == Some(t),
{
    vstd::utf8::encode_utf8_valid_utf8(t);
    vstd::utf8::encode_utf8_decode_utf8(t);
}

proof fn lemma_utf8_leading_bytes(v: u32)
    requires
        is_scalar(v),
    ensures
        vstd::utf8::encode_scalar(v)[0] != 0xFFu8,
        vstd::utf8::encode_scalar(v)[0] != 0xFEu8,
        (vstd::utf8::encode_scalar(v).len() >= 3 && vstd::utf8::encode_scalar(v)[0] == 0xEFu8
            && vstd::utf8::encode_scalar(v)[1] == 0xBBu8 && vstd::utf8::encode_scalar(v)[2]
            == 0xBFu8) ==> v == 0xFEFF,
{
    if vstd::utf8::has_width_1_encoding(v) {
        assert((v & 0x7F) as u8 <= 0x7F) by (bit_vector);
    } else if vstd::utf8::has_width_2_encoding(v) {
        assert(0xC0u8 | ((v >> 6u32) & 0x1F) as u8 <= 0xDF) by (bit_vector);
    } else if vstd::utf8::has_width_3_encoding(v) {
        assert(0xE0u8 | ((v >> 12u32) & 0x0F) as u8 <= 0xEF) by (bit_vector);
        assert((0xE0u8 | ((v >> 12u32) & 0x0F) as u8) == 0xEF && (0x80u8 | ((v >> 6u32) & 0x3F) as u8)
            == 0xBB && (0x80u8 | (v & 0x3F) as u8) == 0xBF && v <= 0xFFFF ==> v == 0xFEFF)
            by (bit_vector);
    } else {
        assert(0xF0u8 | ((v >> 18u32) & 0x7) as u8 <= 0xF7) by (bit_vector);
        assert(0xF0u8 | ((v >> 18u32) & 0x7) as u8 >= 0xF0) by (bit_vector);
    }
}

/// Text written as UTF-8 is detected by `decode_bytes` as UTF-8 and read back
/// unchanged, unless it begins with U+FEFF (which reads as a byte order mark
/// and is dropped).
pub proof fn law_utf8_detected_round_trip(t: Seq<char>)
    requires
        t.len() == 0 || t[0] != '\u{FEFF}',
    ensures
        decoded_bytes(encoded_bytes(t, TextEncoding::Utf8)->Some_0) == Some((TextEncoding::Utf8, t)),
{
    let b = encode_utf8(t);
    vstd::utf8::encode_utf8_valid_utf8(t);
    vstd::utf8::encode_utf8_decode_utf8(t);
    if t.len() > 0 {
        let v = t[0] as u32;
        char_is_scalar(t[0]);
        lemma_utf8_leading_bytes(v);
        let first = vstd::utf8::encode_scalar(v);
        assert(b == first + encode_utf8(t.drop_first()));
        assert(b[0] == first[0]);
        assert(!starts_with(b, bom_utf16le())) by {
            if starts_with(b, bom_utf16le()) {
                assert(b.take(2)[0] == b[0]);
            }
        }
        assert(!starts_with(b, bom_utf16be())) by {
            if starts_with(b, bom_utf16be()) {
                assert(b.take(2)[0] == b[0]);
            }
        }
        assert(!starts_with(b, bom_utf8())) by {
            if starts_with(b, bom_utf8()) {
                assert(b.take(3)[0] == b[0] && b.take(3)[1] == b[1] && b.take(3)[2] == b[2]);
                if first.len() >= 3 {
                    assert(b[1] == first[1] && b[2] == first[2]);
                    char_u32_cast(t[0], v);
                    assert(v == 0xFEFF);
                } else {
                    assert(first.len() <= 2);
                    if first.len() == 2 {
                        assert(b[0] == first[0]);
                        assert(first[0] == vstd::utf8::leading_byte_width_2(v));
                        assert(0xC0u8 | ((v >> 6u32) & 0x1F) as u8 <= 0xDF) by (bit_vector);
                    } else {
                        assert((v & 0x7F) as u8 <= 0x7F) by (bit_vector);
                    }
                }
            }
        }
    }
}

} // verus!
