//! Scanning over bytes: classes of bytes, runs of a class, and the shapes of
//! identifiers, numbers and comments.
//!
//! Every shape is given twice: as a spec function that says where a match
//! that starts at a position ends, and as an executable scanner that finds
//! that end. Nothing here builds a token; see [`crate::comb`] for that.

use vstd::prelude::*;
use vstd::utf8::{is_char_boundary, valid_utf8};

use crate::text::{
    has_prefix_at, is_span, lemma_ascii_boundaries, lemma_leading_byte_boundary,
    lemma_next_boundary, next_boundary,
};

verus! {

/// A set of bytes that a scanner can ask for.
#[derive(Debug, Clone, Copy, PartialEq, Eq, Structural)]
pub enum Class {
    /// Space, carriage return, newline and tab.
    Whitespace,
    /// `0` to `9`.
    DecDigit,
    /// `0` to `7`.
    OctDigit,
    /// `0` to `9`, `a` to `f` and `A` to `F`.
    HexDigit,
    /// An ASCII letter or an underscore.
    IdentStart,
    /// An ASCII letter, a decimal digit or an underscore.
    IdentContinue,
    /// `x` and `X`, which follow the `0` of a hexadecimal literal.
    HexMark,
    /// `u`, `U`, `l` and `L`, the suffixes of an integer literal.
    IntSuffix,
    /// `e` and `E`, which open an exponent.
    ExponentMark,
    /// `+` and `-`.
    Sign,
    /// `f` and `F`, the suffix of a float literal.
    FloatSuffix,
    /// `;`, carriage return and newline: where a parser picks up again after
    /// an error.
    Sync,
}

/// Whether `b` is an ASCII letter.
pub open spec fn is_ascii_letter(b: u8) -> bool {
    (0x41 <= b <= 0x5A) || (0x61 <= b <= 0x7A)
}

impl Class {
    /// Whether the byte belongs to the class.
    pub open spec fn has(self, b: u8) -> bool {
        match self {
            Class::Whitespace => b == 0x20 || b == 0x0D || b == 0x0A || b == 0x09,
            Class::DecDigit => 0x30 <= b <= 0x39,
            Class::OctDigit => 0x30 <= b <= 0x37,
            Class::HexDigit => (0x30 <= b <= 0x39) || (0x41 <= b <= 0x46) || (0x61 <= b <= 0x66),
            Class::IdentStart => is_ascii_letter(b) || b == 0x5F,
            Class::IdentContinue => is_ascii_letter(b) || (0x30 <= b <= 0x39) || b == 0x5F,
            Class::HexMark => b == 0x78 || b == 0x58,
            Class::IntSuffix => b == 0x75 || b == 0x55 || b == 0x6C || b == 0x4C,
            Class::ExponentMark => b == 0x65 || b == 0x45,
            Class::Sign => b == 0x2B || b == 0x2D,
            Class::FloatSuffix => b == 0x66 || b == 0x46,
            Class::Sync => b == 0x3B || b == 0x0D || b == 0x0A,
        }
    }

    /// Tests a byte against the class.
    pub fn contains(self, b: u8) -> (found: bool)
        ensures
            found == self.has(b),
    {
        match self {
            Class::Whitespace => b == 0x20 || b == 0x0D || b == 0x0A || b == 0x09,
            Class::DecDigit => 0x30 <= b && b <= 0x39,
            Class::OctDigit => 0x30 <= b && b <= 0x37,
            Class::HexDigit => (0x30 <= b && b <= 0x39) || (0x41 <= b && b <= 0x46) || (0x61 <= b
                && b <= 0x66),
            Class::IdentStart => (0x41 <= b && b <= 0x5A) || (0x61 <= b && b <= 0x7A) || b
                == 0x5F,
            Class::IdentContinue => (0x41 <= b && b <= 0x5A) || (0x61 <= b && b <= 0x7A) || (0x30
                <= b && b <= 0x39) || b == 0x5F,
            Class::HexMark => b == 0x78 || b == 0x58,
            Class::IntSuffix => b == 0x75 || b == 0x55 || b == 0x6C || b == 0x4C,
            Class::ExponentMark => b == 0x65 || b == 0x45,
            Class::Sign => b == 0x2B || b == 0x2D,
            Class::FloatSuffix => b == 0x66 || b == 0x46,
            Class::Sync => b == 0x3B || b == 0x0D || b == 0x0A,
        }
    }

    /// Every class holds ASCII bytes only.
    pub proof fn lemma_ascii(self, b: u8)
        requires
            self.has(b),
        ensures
            b < 0x80,
    {
    }
}

/// Whether the byte at `pos` exists and belongs to `class`.
pub open spec fn class_at(text: Seq<u8>, pos: int, class: Class) -> bool {
    0 <= pos < text.len() && class.has(text[pos])
}

/// Whether the byte at `pos` exists and is `b`.
pub open spec fn byte_at(text: Seq<u8>, pos: int, b: u8) -> bool {
    0 <= pos < text.len() && text[pos] == b
}

/// Where the longest run of bytes of `class` that starts at `pos` ends. If
/// the byte at `pos` is not of the class, that is `pos` itself.
pub open spec fn run_end(text: Seq<u8>, pos: int, class: Class) -> int
    decreases text.len() - pos,
{
    if class_at(text, pos, class) {
        run_end(text, pos + 1, class)
    } else {
        pos
    }
}

/// Where a run of at least one byte of `class` ends, if there is one at `pos`.
pub open spec fn some_run_end(text: Seq<u8>, pos: int, class: Class) -> Option<int> {
    if class_at(text, pos, class) {
        Some(run_end(text, pos, class))
    } else {
        None
    }
}

/// The position behind the byte at `pos` if that byte is of `class`, else
/// `pos`.
pub open spec fn skip_end(text: Seq<u8>, pos: int, class: Class) -> int {
    if class_at(text, pos, class) {
        pos + 1
    } else {
        pos
    }
}

/// A run consists of bytes of its class, stays inside the text and cannot be
/// extended.
pub proof fn lemma_run_end(text: Seq<u8>, pos: int, class: Class)
    requires
        0 <= pos,
    ensures
        pos <= run_end(text, pos, class),
        pos <= text.len() ==> run_end(text, pos, class) <= text.len(),
        forall|i: int| pos <= i < run_end(text, pos, class) ==> class.has(#[trigger] text[i]),
        !class_at(text, run_end(text, pos, class), class),
        class_at(text, pos, class) ==> pos < run_end(text, pos, class),
    decreases text.len() - pos,
{
    if class_at(text, pos, class) {
        lemma_run_end(text, pos + 1, class);
    }
}

/// Tests the byte at `pos` against `class`; there is no such byte at or
/// behind the end.
pub fn is_at(src: &[u8], pos: usize, class: Class) -> (found: bool)
    ensures
        found == class_at(src@, pos as int, class),
        found ==> pos < usize::MAX,
{
    pos < src.len() && class.contains(src[pos])
}

/// Tests whether the byte at `pos` is `b`.
pub fn is_byte_at(src: &[u8], pos: usize, b: u8) -> (found: bool)
    ensures
        found == byte_at(src@, pos as int, b),
        found ==> pos < usize::MAX,
{
    pos < src.len() && src[pos] == b
}

/// Finds the end of the run of `class` that starts at `pos`.
pub fn scan_run(src: &[u8], pos: usize, class: Class) -> (end: usize)
    ensures
        end == run_end(src@, pos as int, class),
{
    let mut end: usize = pos;
    while end < src.len() && class.contains(src[end])
        invariant
            pos <= end,
            run_end(src@, pos as int, class) == run_end(src@, end as int, class),
        decreases src.len() - end,
    {
        end = end + 1;
    }
    end
}

/// Steps over the byte at `pos` if it is of `class`.
pub fn scan_skip(src: &[u8], pos: usize, class: Class) -> (end: usize)
    ensures
        end == skip_end(src@, pos as int, class),
{
    if is_at(src, pos, class) {
        pos + 1
    } else {
        pos
    }
}

/// Tests whether `src` holds `word` at `pos`.
pub fn starts_with_at(src: &[u8], pos: usize, word: &[u8]) -> (found: bool)
    ensures
        found == has_prefix_at(src@, pos as int, word@),
        found ==> pos + word@.len() <= usize::MAX,
{
    if pos > src.len() || word.len() > src.len() - pos {
        return false;
    }
    let mut i: usize = 0;
    while i < word.len()
        invariant
            pos + word.len() <= src.len(),
            i <= word.len(),
            forall|j: int| 0 <= j < i ==> src@[pos + j] == word@[j],
        decreases word.len() - i,
    {
        if src[pos + i] != word[i] {
            proof {
                let part = src@.subrange(pos as int, pos + word.len());
                assert(part[i as int] == src@[pos + i]);
            }
            return false;
        }
        i = i + 1;
    }
    assert(src@.subrange(pos as int, pos + word.len()) =~= word@);
    true
}

/// The lower-case form of an ASCII letter; any other byte unchanged.
pub open spec fn ascii_lower(b: u8) -> u8 {
    if 0x41 <= b <= 0x5A {
        (b + 0x20) as u8
    } else {
        b
    }
}

/// Whether two byte strings are equal but for the case of ASCII letters.
pub open spec fn eq_ignoring_case(left: Seq<u8>, right: Seq<u8>) -> bool {
    &&& left.len() == right.len()
    &&& forall|i: int| 0 <= i < left.len() ==> ascii_lower(#[trigger] left[i]) == ascii_lower(right[i])
}

/// Equality but for the case of ASCII letters is an equivalence: what is
/// equal to one of two equal strings is equal to the other.
pub proof fn lemma_eq_ignoring_case_trans(left: Seq<u8>, right: Seq<u8>, word: Seq<u8>)
    requires
        eq_ignoring_case(left, right),
    ensures
        eq_ignoring_case(left, word) == eq_ignoring_case(right, word),
        eq_ignoring_case(right, left),
        eq_ignoring_case(left, left),
{
    if eq_ignoring_case(left, word) {
        assert forall|i: int| 0 <= i < right.len() implies ascii_lower(#[trigger] right[i])
            == ascii_lower(word[i]) by {
            assert(ascii_lower(left[i]) == ascii_lower(right[i]));
        }
    }
    if eq_ignoring_case(right, word) {
        assert forall|i: int| 0 <= i < left.len() implies ascii_lower(#[trigger] left[i])
            == ascii_lower(word[i]) by {
            assert(ascii_lower(left[i]) == ascii_lower(right[i]));
        }
    }
    assert forall|i: int| 0 <= i < right.len() implies ascii_lower(#[trigger] right[i])
        == ascii_lower(left[i]) by {
        assert(ascii_lower(left[i]) == ascii_lower(right[i]));
    }
}

/// Puts an ASCII letter into lower case.
pub fn to_ascii_lower(b: u8) -> (low: u8)
    ensures
        low == ascii_lower(b),
{
    if 0x41 <= b && b <= 0x5A {
        b + 0x20
    } else {
        b
    }
}

/// Compares `src[start..end]` with `word`, ignoring the case of ASCII letters.
pub fn range_eq_ignoring_case(src: &[u8], start: usize, end: usize, word: &[u8]) -> (same: bool)
    requires
        start <= end <= src@.len(),
    ensures
        same == eq_ignoring_case(src@.subrange(start as int, end as int), word@),
{
    let ghost part = src@.subrange(start as int, end as int);
    if end - start != word.len() {
        return false;
    }
    let mut i: usize = 0;
    while i < word.len()
        invariant
            start <= end <= src@.len(),
            end - start == word.len(),
            i <= word.len(),
            part == src@.subrange(start as int, end as int),
            forall|j: int| 0 <= j < i ==> ascii_lower(#[trigger] part[j]) == ascii_lower(word@[j]),
        decreases word.len() - i,
    {
        if to_ascii_lower(src[start + i]) != to_ascii_lower(word[i]) {
            assert(part[i as int] == src@[start + i]);
            return false;
        }
        assert(part[i as int] == src@[start + i]);
        i = i + 1;
    }
    true
}

/// Where the identifier that starts at `pos` ends: a letter or an underscore,
/// then letters, digits and underscores as far as they go.
pub open spec fn ident_end(text: Seq<u8>, pos: int) -> Option<int> {
    if class_at(text, pos, Class::IdentStart) {
        Some(run_end(text, pos + 1, Class::IdentContinue))
    } else {
        None
    }
}

/// Finds the end of the identifier at `pos`.
pub fn scan_ident(src: &[u8], pos: usize) -> (end: Option<usize>)
    ensures
        end.is_some() == ident_end(src@, pos as int).is_some(),
        end matches Some(e) ==> ident_end(src@, pos as int) == Some(e as int),
{
    if is_at(src, pos, Class::IdentStart) {
        Some(scan_run(src, pos + 1, Class::IdentContinue))
    } else {
        None
    }
}

/// Where the identifier at `pos` ends if it is `word` but for the case of
/// its letters.
pub open spec fn keyword_end(text: Seq<u8>, pos: int, word: Seq<u8>) -> Option<int> {
    match ident_end(text, pos) {
        Some(end) => if eq_ignoring_case(text.subrange(pos, end), word) {
            Some(end)
        } else {
            None
        },
        None => None,
    }
}

/// Finds the end of the identifier at `pos` if that identifier is `word`,
/// whatever the case of its letters.
pub fn scan_keyword(src: &[u8], pos: usize, word: &[u8]) -> (end: Option<usize>)
    ensures
        end.is_some() == keyword_end(src@, pos as int, word@).is_some(),
        end matches Some(e) ==> keyword_end(src@, pos as int, word@) == Some(e as int),
{
    match scan_ident(src, pos) {
        Some(e) => {
            proof {
                lemma_run_end(src@, pos + 1, Class::IdentContinue);
            }
            if range_eq_ignoring_case(src, pos, e, word) {
                Some(e)
            } else {
                None
            }
        },
        None => None,
    }
}

/// Where up to two suffix letters of an integer literal end. Each of the two
/// places may stay empty, and the two letters need not differ.
pub open spec fn int_suffix_end(text: Seq<u8>, pos: int) -> int {
    skip_end(text, skip_end(text, pos, Class::IntSuffix), Class::IntSuffix)
}

/// Where the hexadecimal literal at `pos` ends: `0`, `x` or `X`, one or more
/// hexadecimal digits, then the suffix.
pub open spec fn hex_int_end(text: Seq<u8>, pos: int) -> Option<int> {
    if byte_at(text, pos, 0x30) && class_at(text, pos + 1, Class::HexMark) && class_at(
        text,
        pos + 2,
        Class::HexDigit,
    ) {
        Some(int_suffix_end(text, run_end(text, pos + 2, Class::HexDigit)))
    } else {
        None
    }
}

/// Where the octal literal at `pos` ends: `0`, one or more octal digits, then
/// the suffix.
pub open spec fn oct_int_end(text: Seq<u8>, pos: int) -> Option<int> {
    if byte_at(text, pos, 0x30) && class_at(text, pos + 1, Class::OctDigit) {
        Some(int_suffix_end(text, run_end(text, pos + 1, Class::OctDigit)))
    } else {
        None
    }
}

/// Where the decimal literal at `pos` ends: one or more decimal digits, then
/// the suffix.
pub open spec fn dec_int_end(text: Seq<u8>, pos: int) -> Option<int> {
    if class_at(text, pos, Class::DecDigit) {
        Some(int_suffix_end(text, run_end(text, pos, Class::DecDigit)))
    } else {
        None
    }
}

/// Where the integer literal at `pos` ends. The hexadecimal shape is tried
/// first, then the octal, then the decimal; the first that matches decides,
/// even where a later one would reach further.
pub open spec fn int_end(text: Seq<u8>, pos: int) -> Option<int> {
    if hex_int_end(text, pos).is_some() {
        hex_int_end(text, pos)
    } else if oct_int_end(text, pos).is_some() {
        oct_int_end(text, pos)
    } else {
        dec_int_end(text, pos)
    }
}

/// Finds the end of the integer suffix at `pos`.
pub fn scan_int_suffix(src: &[u8], pos: usize) -> (end: usize)
    requires
        pos <= src@.len(),
    ensures
        end == int_suffix_end(src@, pos as int),
        pos <= end <= src@.len(),
{
    let first = scan_skip(src, pos, Class::IntSuffix);
    scan_skip(src, first, Class::IntSuffix)
}

/// Finds the end of the integer literal at `pos`.
pub fn scan_int(src: &[u8], pos: usize) -> (end: Option<usize>)
    ensures
        end.is_some() == int_end(src@, pos as int).is_some(),
        end matches Some(e) ==> int_end(src@, pos as int) == Some(e as int),
{
    if is_byte_at(src, pos, 0x30) {
        if is_at(src, pos + 1, Class::HexMark) && is_at(src, pos + 2, Class::HexDigit) {
            let digits = scan_run(src, pos + 2, Class::HexDigit);
            proof {
                lemma_run_end(src@, pos + 2, Class::HexDigit);
            }
            return Some(scan_int_suffix(src, digits));
        }
        if is_at(src, pos + 1, Class::OctDigit) {
            let digits = scan_run(src, pos + 1, Class::OctDigit);
            proof {
                lemma_run_end(src@, pos + 1, Class::OctDigit);
            }
            return Some(scan_int_suffix(src, digits));
        }
    }
    if is_at(src, pos, Class::DecDigit) {
        let digits = scan_run(src, pos, Class::DecDigit);
        proof {
            lemma_run_end(src@, pos as int, Class::DecDigit);
        }
        Some(scan_int_suffix(src, digits))
    } else {
        None
    }
}

/// Where the exponent at `pos` ends: `e` or `E`, an optional sign, one or
/// more decimal digits.
pub open spec fn exponent_end(text: Seq<u8>, pos: int) -> Option<int> {
    if class_at(text, pos, Class::ExponentMark) && class_at(
        text,
        skip_end(text, pos + 1, Class::Sign),
        Class::DecDigit,
    ) {
        Some(run_end(text, skip_end(text, pos + 1, Class::Sign), Class::DecDigit))
    } else {
        None
    }
}

/// Where an exponent that may be absent ends.
pub open spec fn opt_exponent_end(text: Seq<u8>, pos: int) -> int {
    match exponent_end(text, pos) {
        Some(end) => end,
        None => pos,
    }
}

/// The float shape without a point: digits and an exponent, which is
/// required here, then the optional suffix.
pub open spec fn float_no_point_end(text: Seq<u8>, pos: int) -> Option<int> {
    if class_at(text, pos, Class::DecDigit) {
        match exponent_end(text, run_end(text, pos, Class::DecDigit)) {
            Some(end) => Some(skip_end(text, end, Class::FloatSuffix)),
            None => None,
        }
    } else {
        None
    }
}

/// The float shape whose digits in front of the point may be absent: any
/// digits, the point, one or more digits, then an optional exponent and the
/// optional suffix.
pub open spec fn float_left_opt_end(text: Seq<u8>, pos: int) -> Option<int> {
    let point = run_end(text, pos, Class::DecDigit);
    if byte_at(text, point, 0x2E) && class_at(text, point + 1, Class::DecDigit) {
        Some(
            skip_end(
                text,
                opt_exponent_end(text, run_end(text, point + 1, Class::DecDigit)),
                Class::FloatSuffix,
            ),
        )
    } else {
        None
    }
}

/// The float shape whose digits behind the point may be absent: one or more
/// digits, the point, any digits, then an optional exponent and the optional
/// suffix.
pub open spec fn float_right_opt_end(text: Seq<u8>, pos: int) -> Option<int> {
    let point = run_end(text, pos, Class::DecDigit);
    if class_at(text, pos, Class::DecDigit) && byte_at(text, point, 0x2E) {
        Some(
            skip_end(
                text,
                opt_exponent_end(text, run_end(text, point + 1, Class::DecDigit)),
                Class::FloatSuffix,
            ),
        )
    } else {
        None
    }
}

/// Where the float literal at `pos` ends. The three shapes are tried in the
/// order given above; the first that matches decides.
pub open spec fn float_end(text: Seq<u8>, pos: int) -> Option<int> {
    if float_no_point_end(text, pos).is_some() {
        float_no_point_end(text, pos)
    } else if float_left_opt_end(text, pos).is_some() {
        float_left_opt_end(text, pos)
    } else {
        float_right_opt_end(text, pos)
    }
}

/// Finds the end of the exponent at `pos`.
pub fn scan_exponent(src: &[u8], pos: usize) -> (end: Option<usize>)
    requires
        pos <= src@.len(),
    ensures
        end.is_some() == exponent_end(src@, pos as int).is_some(),
        end matches Some(e) ==> exponent_end(src@, pos as int) == Some(e as int) && pos < e
            <= src@.len(),
{
    if !is_at(src, pos, Class::ExponentMark) {
        return None;
    }
    let digits = scan_skip(src, pos + 1, Class::Sign);
    if !is_at(src, digits, Class::DecDigit) {
        return None;
    }
    proof {
        lemma_run_end(src@, digits as int, Class::DecDigit);
    }
    Some(scan_run(src, digits, Class::DecDigit))
}

/// Finds the end of what follows the digits of a float: an optional
/// exponent, then the optional suffix.
fn scan_float_tail(src: &[u8], pos: usize) -> (end: usize)
    requires
        pos <= src@.len(),
    ensures
        end == skip_end(src@, opt_exponent_end(src@, pos as int), Class::FloatSuffix),
        pos <= end <= src@.len(),
{
    let after = match scan_exponent(src, pos) {
        Some(e) => e,
        None => pos,
    };
    scan_skip(src, after, Class::FloatSuffix)
}

/// Finds the end of the float literal at `pos`.
pub fn scan_float(src: &[u8], pos: usize) -> (end: Option<usize>)
    ensures
        end.is_some() == float_end(src@, pos as int).is_some(),
        end matches Some(e) ==> float_end(src@, pos as int) == Some(e as int),
{
    if pos > src.len() {
        return None;
    }
    let point = scan_run(src, pos, Class::DecDigit);
    proof {
        lemma_run_end(src@, pos as int, Class::DecDigit);
    }
    if point > pos {
        match scan_exponent(src, point) {
            Some(e) => {
                return Some(scan_skip(src, e, Class::FloatSuffix));
            },
            None => {},
        }
    }
    if !is_byte_at(src, point, 0x2E) {
        return None;
    }
    let fraction = scan_run(src, point + 1, Class::DecDigit);
    proof {
        lemma_run_end(src@, point + 1, Class::DecDigit);
    }
    if fraction > point + 1 || point > pos {
        Some(scan_float_tail(src, fraction))
    } else {
        None
    }
}

/// How many bytes the line break at `pos` takes, or 0 where there is none.
/// A line break is a newline, a carriage return with or without a newline
/// behind it, a vertical tab, a form feed, or one of the characters U+0085,
/// U+2028 and U+2029.
pub open spec fn line_break_len(text: Seq<u8>, pos: int) -> int {
    if byte_at(text, pos, 0x0D) && byte_at(text, pos + 1, 0x0A) {
        2
    } else if byte_at(text, pos, 0x0A) || byte_at(text, pos, 0x0D) || byte_at(text, pos, 0x0B)
        || byte_at(text, pos, 0x0C) {
        1
    } else if byte_at(text, pos, 0xC2) && byte_at(text, pos + 1, 0x85) {
        2
    } else if byte_at(text, pos, 0xE2) && byte_at(text, pos + 1, 0x80) && (byte_at(
        text,
        pos + 2,
        0xA8,
    ) || byte_at(text, pos + 2, 0xA9)) {
        3
    } else {
        0
    }
}

/// Where the line that `pos` lies in ends: behind the first line break at or
/// after `pos`, or at the end of the text where no line break follows.
pub open spec fn line_end(text: Seq<u8>, pos: int) -> int
    decreases text.len() - pos,
{
    if pos < 0 || pos >= text.len() {
        pos
    } else if line_break_len(text, pos) > 0 {
        pos + line_break_len(text, pos)
    } else {
        line_end(text, pos + 1)
    }
}

/// Where the single-line comment at `pos` ends: `//`, then everything up to
/// the end of the line, its line break included.
pub open spec fn line_comment_end(text: Seq<u8>, pos: int) -> Option<int> {
    if byte_at(text, pos, 0x2F) && byte_at(text, pos + 1, 0x2F) {
        Some(line_end(text, pos + 2))
    } else {
        None
    }
}

/// Where the first `*/` at or after `pos` ends, if there is one.
pub open spec fn block_close_end(text: Seq<u8>, pos: int) -> Option<int>
    decreases text.len() - pos,
{
    if pos < 0 || pos + 2 > text.len() {
        None
    } else if text[pos] == 0x2A && text[pos + 1] == 0x2F {
        Some(pos + 2)
    } else {
        block_close_end(text, pos + 1)
    }
}

/// Where the block comment at `pos` ends: `/*`, then everything up to the
/// first `*/`, which it includes. Such comments do not nest, and one that is
/// never closed is no comment.
pub open spec fn block_comment_end(text: Seq<u8>, pos: int) -> Option<int> {
    if byte_at(text, pos, 0x2F) && byte_at(text, pos + 1, 0x2A) {
        block_close_end(text, pos + 2)
    } else {
        None
    }
}

/// Measures the line break at `pos`.
pub fn scan_line_break(src: &[u8], pos: usize) -> (len: usize)
    ensures
        len == line_break_len(src@, pos as int),
        len > 0 ==> pos + len <= src@.len(),
{
    if pos >= src.len() {
        return 0;
    }
    let b = src[pos];
    if b == 0x0D && is_byte_at(src, pos + 1, 0x0A) {
        2
    } else if b == 0x0A || b == 0x0D || b == 0x0B || b == 0x0C {
        1
    } else if b == 0xC2 && is_byte_at(src, pos + 1, 0x85) {
        2
    } else if b == 0xE2 && is_byte_at(src, pos + 1, 0x80) && pos + 2 < src.len() && (src[pos + 2]
        == 0xA8 || src[pos + 2] == 0xA9) {
        3
    } else {
        0
    }
}

/// Finds the end of the line that `pos` lies in.
pub fn scan_line_end(src: &[u8], pos: usize) -> (end: usize)
    requires
        pos <= src@.len(),
    ensures
        end == line_end(src@, pos as int),
        pos <= end <= src@.len(),
{
    let mut at: usize = pos;
    while at < src.len()
        invariant
            pos <= at <= src@.len(),
            line_end(src@, pos as int) == line_end(src@, at as int),
        decreases src.len() - at,
    {
        let len = scan_line_break(src, at);
        if len > 0 {
            return at + len;
        }
        at = at + 1;
    }
    at
}

/// Finds the end of the single-line comment at `pos`.
pub fn scan_line_comment(src: &[u8], pos: usize) -> (end: Option<usize>)
    ensures
        end.is_some() == line_comment_end(src@, pos as int).is_some(),
        end matches Some(e) ==> line_comment_end(src@, pos as int) == Some(e as int) && pos + 2
            <= e <= src@.len(),
{
    if is_byte_at(src, pos, 0x2F) && is_byte_at(src, pos + 1, 0x2F) {
        Some(scan_line_end(src, pos + 2))
    } else {
        None
    }
}

/// Finds the end of the block comment at `pos`.
pub fn scan_block_comment(src: &[u8], pos: usize) -> (end: Option<usize>)
    ensures
        end.is_some() == block_comment_end(src@, pos as int).is_some(),
        end matches Some(e) ==> block_comment_end(src@, pos as int) == Some(e as int) && pos + 4
            <= e <= src@.len(),
{
    if !(is_byte_at(src, pos, 0x2F) && is_byte_at(src, pos + 1, 0x2A)) {
        return None;
    }
    let mut at: usize = pos + 2;
    while src.len() - at >= 2
        invariant
            pos + 2 <= at <= src@.len(),
            byte_at(src@, pos as int, 0x2F),
            byte_at(src@, pos + 1, 0x2A),
            block_close_end(src@, pos + 2) == block_close_end(src@, at as int),
        decreases src.len() - at,
    {
        if src[at] == 0x2A && src[at + 1] == 0x2F {
            return Some(at + 2);
        }
        at = at + 1;
    }
    None
}

/// Where recovery from an error at `pos` stops: at the first byte of
/// [`Class::Sync`] at or after `pos`, which it leaves alone, or at the end of
/// the text where none follows.
pub open spec fn sync_at(text: Seq<u8>, pos: int) -> int
    decreases text.len() - pos,
{
    if pos < 0 || pos >= text.len() {
        pos
    } else if Class::Sync.has(text[pos]) {
        pos
    } else {
        sync_at(text, pos + 1)
    }
}

/// Finds where recovery from an error at `pos` stops.
pub fn scan_sync(src: &[u8], pos: usize) -> (stop: usize)
    requires
        pos <= src@.len(),
    ensures
        stop == sync_at(src@, pos as int),
        pos <= stop <= src@.len(),
{
    let mut at: usize = pos;
    while at < src.len()
        invariant
            pos <= at <= src@.len(),
            sync_at(src@, pos as int) == sync_at(src@, at as int),
        decreases src.len() - at,
    {
        if Class::Sync.contains(src[at]) {
            return at;
        }
        at = at + 1;
    }
    at
}

/// A range that starts with an ASCII byte and ends behind one may be sliced.
pub proof fn lemma_ascii_span(text: Seq<u8>, start: int, end: int)
    requires
        valid_utf8(text),
        0 <= start < end <= text.len(),
        text[start] < 0x80,
        text[end - 1] < 0x80,
    ensures
        is_span(text, start, end),
{
    lemma_ascii_boundaries(text, start);
    lemma_ascii_boundaries(text, end - 1);
}

/// A run of a class is a range that may be sliced.
pub proof fn lemma_run_span(text: Seq<u8>, pos: int, class: Class)
    requires
        valid_utf8(text),
        class_at(text, pos, class),
    ensures
        pos < run_end(text, pos, class) <= text.len(),
        is_span(text, pos, run_end(text, pos, class)),
{
    lemma_run_end(text, pos, class);
    let end = run_end(text, pos, class);
    class.lemma_ascii(text[pos]);
    class.lemma_ascii(text[end - 1]);
    lemma_ascii_span(text, pos, end);
}

/// A byte that may or may not be stepped over leaves the position a
/// boundary.
pub proof fn lemma_skip_boundary(text: Seq<u8>, pos: int, class: Class)
    requires
        valid_utf8(text),
        0 <= pos <= text.len(),
        is_char_boundary(text, pos),
    ensures
        pos <= skip_end(text, pos, class) <= text.len(),
        is_char_boundary(text, skip_end(text, pos, class)),
{
    if class_at(text, pos, class) {
        class.lemma_ascii(text[pos]);
        lemma_ascii_boundaries(text, pos);
    }
}

/// A run that starts at a boundary ends at one.
pub proof fn lemma_run_boundary(text: Seq<u8>, pos: int, class: Class)
    requires
        valid_utf8(text),
        0 <= pos <= text.len(),
        is_char_boundary(text, pos),
    ensures
        pos <= run_end(text, pos, class) <= text.len(),
        is_char_boundary(text, run_end(text, pos, class)),
{
    lemma_run_end(text, pos, class);
    if class_at(text, pos, class) {
        lemma_run_span(text, pos, class);
    }
}

/// An identifier is a range that may be sliced.
pub proof fn lemma_ident_span(text: Seq<u8>, pos: int)
    requires
        valid_utf8(text),
        ident_end(text, pos).is_some(),
    ensures
        pos < ident_end(text, pos).unwrap() <= text.len(),
        is_span(text, pos, ident_end(text, pos).unwrap()),
{
    Class::IdentStart.lemma_ascii(text[pos]);
    lemma_ascii_boundaries(text, pos);
    lemma_run_boundary(text, pos + 1, Class::IdentContinue);
}

/// An integer literal is a range that may be sliced.
pub proof fn lemma_int_span(text: Seq<u8>, pos: int)
    requires
        valid_utf8(text),
        int_end(text, pos).is_some(),
    ensures
        pos < int_end(text, pos).unwrap() <= text.len(),
        is_span(text, pos, int_end(text, pos).unwrap()),
{
    Class::DecDigit.lemma_ascii(text[pos]);
    lemma_ascii_boundaries(text, pos);
    let digits = if hex_int_end(text, pos).is_some() {
        lemma_ascii_boundaries(text, pos + 1);
        lemma_run_span(text, pos + 2, Class::HexDigit);
        run_end(text, pos + 2, Class::HexDigit)
    } else if oct_int_end(text, pos).is_some() {
        lemma_run_span(text, pos + 1, Class::OctDigit);
        run_end(text, pos + 1, Class::OctDigit)
    } else {
        lemma_run_span(text, pos, Class::DecDigit);
        run_end(text, pos, Class::DecDigit)
    };
    lemma_skip_boundary(text, digits, Class::IntSuffix);
    lemma_skip_boundary(text, skip_end(text, digits, Class::IntSuffix), Class::IntSuffix);
}

/// An exponent that starts at a boundary ends at one.
pub proof fn lemma_exponent_boundary(text: Seq<u8>, pos: int)
    requires
        valid_utf8(text),
        0 <= pos <= text.len(),
        is_char_boundary(text, pos),
    ensures
        pos <= opt_exponent_end(text, pos) <= text.len(),
        is_char_boundary(text, opt_exponent_end(text, pos)),
        exponent_end(text, pos).is_some() ==> pos < opt_exponent_end(text, pos),
{
    if exponent_end(text, pos).is_some() {
        Class::ExponentMark.lemma_ascii(text[pos]);
        lemma_ascii_boundaries(text, pos);
        lemma_skip_boundary(text, pos + 1, Class::Sign);
        lemma_run_span(text, skip_end(text, pos + 1, Class::Sign), Class::DecDigit);
    }
}

/// A float literal is a range that may be sliced.
pub proof fn lemma_float_span(text: Seq<u8>, pos: int)
    requires
        valid_utf8(text),
        float_end(text, pos).is_some(),
    ensures
        pos < float_end(text, pos).unwrap() <= text.len(),
        is_span(text, pos, float_end(text, pos).unwrap()),
{
    let point = run_end(text, pos, Class::DecDigit);
    lemma_run_end(text, pos, Class::DecDigit);
    assert(0 <= pos < text.len());
    assert(text[pos] < 0x80) by {
        if class_at(text, pos, Class::DecDigit) {
            Class::DecDigit.lemma_ascii(text[pos]);
        }
    }
    lemma_ascii_boundaries(text, pos);
    lemma_run_boundary(text, pos, Class::DecDigit);
    if float_no_point_end(text, pos).is_some() {
        lemma_exponent_boundary(text, point);
        lemma_skip_boundary(text, opt_exponent_end(text, point), Class::FloatSuffix);
    } else {
        lemma_ascii_boundaries(text, point);
        lemma_run_boundary(text, point + 1, Class::DecDigit);
        let fraction = run_end(text, point + 1, Class::DecDigit);
        lemma_exponent_boundary(text, fraction);
        lemma_skip_boundary(text, opt_exponent_end(text, fraction), Class::FloatSuffix);
    }
}

/// A line break is made of whole characters.
pub proof fn lemma_line_break_boundary(text: Seq<u8>, pos: int)
    requires
        valid_utf8(text),
        line_break_len(text, pos) > 0,
    ensures
        pos + line_break_len(text, pos) <= text.len(),
        is_char_boundary(text, pos + line_break_len(text, pos)),
{
    let rest = text.subrange(pos, text.len() as int);
    assert(rest[0] == text[pos]);
    lemma_leading_byte_boundary(text, pos);
    lemma_next_boundary(text, pos);
    if text[pos] == 0x0D && byte_at(text, pos + 1, 0x0A) {
        lemma_ascii_boundaries(text, pos + 1);
    } else {
        assert(next_boundary(text, pos) == pos + line_break_len(text, pos));
    }
}

/// The end of a line is a boundary.
pub proof fn lemma_line_end_boundary(text: Seq<u8>, pos: int)
    requires
        valid_utf8(text),
        0 <= pos <= text.len(),
    ensures
        pos <= line_end(text, pos) <= text.len(),
        is_char_boundary(text, line_end(text, pos)),
    decreases text.len() - pos,
{
    if pos >= text.len() {
        vstd::utf8::is_char_boundary_start_end_of_seq(text);
    } else if line_break_len(text, pos) > 0 {
        lemma_line_break_boundary(text, pos);
    } else {
        lemma_line_end_boundary(text, pos + 1);
    }
}

/// A single-line comment is a range that may be sliced.
pub proof fn lemma_line_comment_span(text: Seq<u8>, pos: int)
    requires
        valid_utf8(text),
        line_comment_end(text, pos).is_some(),
    ensures
        pos < line_comment_end(text, pos).unwrap() <= text.len(),
        is_span(text, pos, line_comment_end(text, pos).unwrap()),
{
    lemma_ascii_boundaries(text, pos);
    lemma_line_end_boundary(text, pos + 2);
}

/// The end of a `*/` is a boundary.
pub proof fn lemma_block_close_boundary(text: Seq<u8>, pos: int)
    requires
        valid_utf8(text),
        block_close_end(text, pos).is_some(),
    ensures
        pos + 2 <= block_close_end(text, pos).unwrap() <= text.len(),
        is_char_boundary(text, block_close_end(text, pos).unwrap()),
    decreases text.len() - pos,
{
    if text[pos] == 0x2A && text[pos + 1] == 0x2F {
        lemma_ascii_boundaries(text, pos + 1);
    } else {
        lemma_block_close_boundary(text, pos + 1);
    }
}

/// A block comment is a range that may be sliced.
pub proof fn lemma_block_comment_span(text: Seq<u8>, pos: int)
    requires
        valid_utf8(text),
        block_comment_end(text, pos).is_some(),
    ensures
        pos < block_comment_end(text, pos).unwrap() <= text.len(),
        is_span(text, pos, block_comment_end(text, pos).unwrap()),
{
    lemma_ascii_boundaries(text, pos);
    lemma_block_close_boundary(text, pos + 2);
}

/// Recovery stops inside the text, at or behind where it started, at a
/// boundary, and at a byte of [`Class::Sync`] unless it stops at the end of
/// the text; it steps over no such byte.
pub proof fn lemma_sync_at(text: Seq<u8>, pos: int)
    requires
        0 <= pos <= text.len(),
    ensures
        pos <= sync_at(text, pos) <= text.len(),
        sync_at(text, pos) < text.len() ==> Class::Sync.has(text[sync_at(text, pos)]),
        forall|i: int| pos <= i < sync_at(text, pos) ==> !Class::Sync.has(#[trigger] text[i]),
        valid_utf8(text) ==> is_char_boundary(text, sync_at(text, pos)),
    decreases text.len() - pos,
{
    if pos >= text.len() {
        if valid_utf8(text) {
            vstd::utf8::is_char_boundary_start_end_of_seq(text);
        }
    } else if Class::Sync.has(text[pos]) {
        if valid_utf8(text) {
            lemma_ascii_boundaries(text, pos);
        }
    } else {
        lemma_sync_at(text, pos + 1);
    }
}

/// The end of a line lies at or behind the position asked from.
pub proof fn lemma_line_end_progress(text: Seq<u8>, pos: int)
    requires
        0 <= pos <= text.len(),
    ensures
        pos <= line_end(text, pos) <= text.len(),
    decreases text.len() - pos,
{
    if pos < text.len() && line_break_len(text, pos) == 0 {
        lemma_line_end_progress(text, pos + 1);
    }
}

/// A `*/` ends behind the position asked from.
pub proof fn lemma_block_close_progress(text: Seq<u8>, pos: int)
    requires
        block_close_end(text, pos).is_some(),
    ensures
        pos < block_close_end(text, pos).unwrap() <= text.len(),
    decreases text.len() - pos,
{
    if !(text[pos] == 0x2A && text[pos + 1] == 0x2F) {
        lemma_block_close_progress(text, pos + 1);
    }
}

/// An integer literal is not empty and lies inside the text.
pub proof fn lemma_int_progress(text: Seq<u8>, pos: int)
    requires
        int_end(text, pos).is_some(),
    ensures
        0 <= pos < int_end(text, pos).unwrap() <= text.len(),
{
    lemma_run_end(text, pos, Class::DecDigit);
    lemma_run_end(text, pos + 1, Class::OctDigit);
    lemma_run_end(text, pos + 2, Class::HexDigit);
}

/// A float literal is not empty and lies inside the text.
pub proof fn lemma_float_progress(text: Seq<u8>, pos: int)
    requires
        float_end(text, pos).is_some(),
    ensures
        0 <= pos < float_end(text, pos).unwrap() <= text.len(),
{
    let point = run_end(text, pos, Class::DecDigit);
    lemma_run_end(text, pos, Class::DecDigit);
    lemma_run_end(text, point + 1, Class::DecDigit);
    let fraction = run_end(text, point + 1, Class::DecDigit);
    lemma_exponent_progress(text, point);
    lemma_exponent_progress(text, fraction);
}

/// An exponent, where there is one, is not empty and lies inside the text.
pub proof fn lemma_exponent_progress(text: Seq<u8>, pos: int)
    requires
        0 <= pos,
    ensures
        pos <= opt_exponent_end(text, pos),
        pos <= text.len() ==> opt_exponent_end(text, pos) <= text.len(),
{
    lemma_run_end(text, skip_end(text, pos + 1, Class::Sign), Class::DecDigit);
}

} // verus!
