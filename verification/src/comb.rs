//! Assorted parsers which are broadly applicable elsewhere.
//!
//! Each one looks at the source from a byte position on. Where the shape it
//! knows stands there, it hands back a token that owns exactly the text
//! matched, and the position behind it; otherwise it hands back nothing and
//! has consumed nothing. The source string is passed whole so that a token's
//! text is one slice of it.

use vstd::prelude::*;
use vstd::string::StringSliceAdditionalSpecFns;
use vstd::utf8::is_char_boundary;

use crate::green::{out_tree, ParseOut};
use crate::help::{leaf, map_tok};
use crate::scan::{
    block_comment_end, class_at, float_end, int_end, is_at, keyword_end, lemma_block_close_progress,
    lemma_block_comment_span, lemma_float_span, lemma_ident_span, lemma_int_span,
    lemma_line_comment_span, lemma_line_end_progress, lemma_run_span, line_comment_end,
    scan_block_comment, scan_float, scan_int, scan_keyword, scan_line_comment, scan_run,
    some_run_end, starts_with_at, Class,
};
use crate::text::{has_prefix_at, lemma_prefix_end_boundary, lemma_str_bytes};
use crate::{LangComment, LangExt};

verus! {

/// What a token parser owes its caller, given where the shape it looks for
/// ends (`end`, or `None` where the shape is not there): a token of tag `kind`
/// over `text[pos..end]` together with `end`, or nothing.
pub open spec fn is_token_at(
    out: Option<(ParseOut, usize)>,
    kind: u16,
    text: Seq<u8>,
    pos: int,
    end: Option<int>,
) -> bool {
    match end {
        Some(stop) => out matches Some((token, next)) && next == stop && out_tree(token) == leaf(
            kind,
            text,
            pos,
            stop,
        ),
        None => out is None,
    }
}

/// What a parser without output owes its caller: the end of the match, or
/// nothing.
pub open spec fn is_match_at(out: Option<usize>, end: Option<int>) -> bool {
    match end {
        Some(stop) => out matches Some(next) && next == stop,
        None => out is None,
    }
}

/// Where the exact text `word` ends if it stands at `pos`.
pub open spec fn just_end(text: Seq<u8>, pos: int, word: Seq<u8>) -> Option<int> {
    if has_prefix_at(text, pos, word) && is_char_boundary(text, pos) {
        Some(pos + word.len())
    } else {
        None
    }
}

/// Matches the exact text `inputs`, letter case included, and emits it as a
/// token tagged `syn`.
pub fn just(inputs: &str, syn: rowan::SyntaxKind, src: &str, pos: usize) -> (out: Option<
    (ParseOut, usize),
>)
    ensures
        is_token_at(
            out,
            syn.0,
            src.spec_bytes(),
            pos as int,
            just_end(src.spec_bytes(), pos as int, inputs.spec_bytes()),
        ),
{
    let bytes = src.as_bytes();
    let word = inputs.as_bytes();
    if !starts_with_at(bytes, pos, word) || !src.is_char_boundary(pos) {
        return None;
    }
    let end = pos + word.len();
    proof {
        lemma_str_bytes(src);
        lemma_str_bytes(inputs);
        lemma_prefix_end_boundary(bytes@, pos as int, word@);
    }
    Some((map_tok(src, syn, pos, end), end))
}

/// (G)ZDoom's DSLs almost always put their keywords and identifiers in an
/// ASCII-case-insensitive namespace. This matches one whole identifier and
/// accepts it only if it is `string` but for the case of its letters.
pub fn just_nc(string: &str, src: &str, pos: usize) -> (out: Option<usize>)
    ensures
        is_match_at(out, keyword_end(src.spec_bytes(), pos as int, string.spec_bytes())),
{
    scan_keyword(src.as_bytes(), pos, string.as_bytes())
}

/// The most common kind of whitespace; spaces, carriage returns, newlines,
/// and/or tabs, repeated one or more times and folded into one token.
pub fn wsp<L: LangExt>(src: &str, pos: usize) -> (out: Option<(ParseOut, usize)>)
    ensures
        is_token_at(
            out,
            L::SYN_WHITESPACE,
            src.spec_bytes(),
            pos as int,
            some_run_end(src.spec_bytes(), pos as int, Class::Whitespace),
        ),
{
    let bytes = src.as_bytes();
    if !is_at(bytes, pos, Class::Whitespace) {
        return None;
    }
    let end = scan_run(bytes, pos, Class::Whitespace);
    proof {
        lemma_str_bytes(src);
        lemma_run_span(bytes@, pos as int, Class::Whitespace);
    }
    Some((map_tok(src, rowan::SyntaxKind(L::SYN_WHITESPACE), pos, end), end))
}

/// For languages that treat comments as though they were whitespace: the
/// whitespace at `pos` if there is any, else `comment`, which is what the
/// language's comment parser found at `pos`.
pub fn wsp_ext<L: LangExt>(comment: Option<(ParseOut, usize)>, src: &str, pos: usize) -> (out:
    Option<(ParseOut, usize)>)
    ensures
        class_at(src.spec_bytes(), pos as int, Class::Whitespace) ==> is_token_at(
            out,
            L::SYN_WHITESPACE,
            src.spec_bytes(),
            pos as int,
            some_run_end(src.spec_bytes(), pos as int, Class::Whitespace),
        ),
        !class_at(src.spec_bytes(), pos as int, Class::Whitespace) ==> out == comment,
{
    match wsp::<L>(src, pos) {
        Some(found) => Some(found),
        None => comment,
    }
}

/// Single-line comments delimited by `//`. Used by ACS and (G)ZDoom's
/// languages.
pub fn cpp_comment<L: LangComment>(src: &str, pos: usize) -> (out: Option<(ParseOut, usize)>)
    ensures
        is_token_at(
            out,
            L::SYN_COMMENT,
            src.spec_bytes(),
            pos as int,
            line_comment_end(src.spec_bytes(), pos as int),
        ),
{
    match scan_line_comment(src.as_bytes(), pos) {
        Some(end) => {
            proof {
                lemma_str_bytes(src);
                lemma_line_comment_span(src.spec_bytes(), pos as int);
            }
            Some((map_tok(src, rowan::SyntaxKind(L::SYN_COMMENT), pos, end), end))
        },
        None => None,
    }
}

/// Multi-line comments delimited by `/*` and `*/`. Used by ACS and
/// (G)ZDoom's languages.
pub fn c_comment<L: LangComment>(src: &str, pos: usize) -> (out: Option<(ParseOut, usize)>)
    ensures
        is_token_at(
            out,
            L::SYN_COMMENT,
            src.spec_bytes(),
            pos as int,
            block_comment_end(src.spec_bytes(), pos as int),
        ),
{
    match scan_block_comment(src.as_bytes(), pos) {
        Some(end) => {
            proof {
                lemma_str_bytes(src);
                lemma_block_comment_span(src.spec_bytes(), pos as int);
            }
            Some((map_tok(src, rowan::SyntaxKind(L::SYN_COMMENT), pos, end), end))
        },
        None => None,
    }
}

/// Where the comment at `pos` ends, of either form. The two forms open
/// differently, so at most one of them can match.
pub open spec fn comment_end(text: Seq<u8>, pos: int) -> Option<int> {
    if block_comment_end(text, pos).is_some() {
        block_comment_end(text, pos)
    } else {
        line_comment_end(text, pos)
    }
}

/// A comment is not empty and lies inside the text.
pub proof fn lemma_comment_progress(text: Seq<u8>, pos: int)
    requires
        comment_end(text, pos).is_some(),
    ensures
        pos < comment_end(text, pos).unwrap() <= text.len(),
{
    if block_comment_end(text, pos).is_some() {
        lemma_block_close_progress(text, pos + 2);
    } else {
        lemma_line_end_progress(text, pos + 2);
    }
}

/// A comment of either form: [`c_comment`], else [`cpp_comment`].
pub fn c_cpp_comment<L: LangComment>(src: &str, pos: usize) -> (out: Option<(ParseOut, usize)>)
    ensures
        is_token_at(
            out,
            L::SYN_COMMENT,
            src.spec_bytes(),
            pos as int,
            comment_end(src.spec_bytes(), pos as int),
        ),
{
    match c_comment::<L>(src, pos) {
        Some(found) => Some(found),
        None => cpp_comment::<L>(src, pos),
    }
}

/// Where a single byte of `class` at `pos` ends.
pub open spec fn one_of_end(text: Seq<u8>, pos: int, class: Class) -> Option<int> {
    if class_at(text, pos, class) {
        Some(pos + 1)
    } else {
        None
    }
}

/// Matches one byte of `class`.
fn one_of(src: &str, pos: usize, class: Class) -> (out: Option<usize>)
    ensures
        is_match_at(out, one_of_end(src.spec_bytes(), pos as int, class)),
{
    if is_at(src.as_bytes(), pos, class) {
        Some(pos + 1)
    } else {
        None
    }
}

/// Matches one of the digits `0123456789`.
pub fn dec_digit(src: &str, pos: usize) -> (out: Option<usize>)
    ensures
        is_match_at(out, one_of_end(src.spec_bytes(), pos as int, Class::DecDigit)),
{
    one_of(src, pos, Class::DecDigit)
}

/// Matches one of the digits `0123456789abcdefABCDEF`.
pub fn hex_digit(src: &str, pos: usize) -> (out: Option<usize>)
    ensures
        is_match_at(out, one_of_end(src.spec_bytes(), pos as int, Class::HexDigit)),
{
    one_of(src, pos, Class::HexDigit)
}

/// Matches one of the digits `01234567`.
pub fn oct_digit(src: &str, pos: usize) -> (out: Option<usize>)
    ensures
        is_match_at(out, one_of_end(src.spec_bytes(), pos as int, Class::OctDigit)),
{
    one_of(src, pos, Class::OctDigit)
}

/// C/C++-style integer literals (`z` suffix excluded) for (G)ZDoom.
pub fn c_int(src: &str, syn: rowan::SyntaxKind, pos: usize) -> (out: Option<(ParseOut, usize)>)
    ensures
        is_token_at(out, syn.0, src.spec_bytes(), pos as int, int_end(src.spec_bytes(), pos as int)),
{
    match scan_int(src.as_bytes(), pos) {
        Some(end) => {
            proof {
                lemma_str_bytes(src);
                lemma_int_span(src.spec_bytes(), pos as int);
            }
            Some((map_tok(src, syn, pos, end), end))
        },
        None => None,
    }
}

/// C/C++-style float literals for (G)ZDoom.
pub fn c_float_literal(src: &str, syn: rowan::SyntaxKind, pos: usize) -> (out: Option<(ParseOut, usize)>)
    ensures
        is_token_at(
            out,
            syn.0,
            src.spec_bytes(),
            pos as int,
            float_end(src.spec_bytes(), pos as int),
        ),
{
    match scan_float(src.as_bytes(), pos) {
        Some(end) => {
            proof {
                lemma_str_bytes(src);
                lemma_float_span(src.spec_bytes(), pos as int);
            }
            Some((map_tok(src, syn, pos, end), end))
        },
        None => None,
    }
}

/// A C-style identifier: a letter or an underscore, then any number of
/// letters, digits and underscores, emitted as a token tagged `syn`.
pub fn ident(src: &str, syn: rowan::SyntaxKind, pos: usize) -> (out: Option<(ParseOut, usize)>)
    ensures
        is_token_at(
            out,
            syn.0,
            src.spec_bytes(),
            pos as int,
            crate::scan::ident_end(src.spec_bytes(), pos as int),
        ),
{
    match crate::scan::scan_ident(src.as_bytes(), pos) {
        Some(end) => {
            proof {
                lemma_str_bytes(src);
                lemma_ident_span(src.spec_bytes(), pos as int);
            }
            Some((map_tok(src, syn, pos, end), end))
        },
        None => None,
    }
}

/// A keyword of a case-insensitive language as a token: the identifier at
/// `pos`, tagged `syn`, if it is `word` but for the case of its letters.
pub fn keyword(word: &str, syn: rowan::SyntaxKind, src: &str, pos: usize) -> (out: Option<
    (ParseOut, usize),
>)
    ensures
        is_token_at(
            out,
            syn.0,
            src.spec_bytes(),
            pos as int,
            keyword_end(src.spec_bytes(), pos as int, word.spec_bytes()),
        ),
{
    match just_nc(word, src, pos) {
        Some(end) => {
            proof {
                lemma_str_bytes(src);
                lemma_ident_span(src.spec_bytes(), pos as int);
            }
            Some((map_tok(src, syn, pos, end), end))
        },
        None => None,
    }
}

} // verus!
