//! The CVARINFO parser.
//!
//! Every rule of the grammar is a function that takes the source and a byte
//! position and hands back what [`super::grammar`] says of that position.

use vstd::prelude::*;
use vstd::string::StringSliceAdditionalSpecFns;
use vstd::utf8::{is_char_boundary, valid_utf8};

use super::grammar::{
    bool_at, bool_of, covers, default_at, definition_at, definition_tail, document_from,
    document_tree, escape_at, escape_notes, flag_at, flag_of, item_at, items_from,
    lemma_default_cover, lemma_definition_cover, lemma_definition_progress, lemma_document_cover,
    lemma_document_step, lemma_document_tree_filled, lemma_errors_ordered, lemma_item_progress,
    lemma_items_cover, lemma_items_progress, lemma_keyword_progress, lemma_keyword_span,
    lemma_literal_span, lemma_tail_cover, lemma_unit_cover, lemma_unit_progress, lexeme_tree,
    literal_at, literal_notes, ordered_from, recovered, string_body_end, string_body_notes,
    string_end, trivia_at, type_of, type_spec_at, unit_at, Lexeme, Outcome,
};
use super::syn::Syn;
use crate::error::{unexpected, unexpected_at, ParseError, Reason};
use crate::ext::{branch, Parser1, ParserVec};
use crate::green::{lemma_forest_text_one, max_text_len, out_forest, out_tree, ParseOut, Tree};
use crate::help::{leaf, map_tok};
use crate::repr::RawParseTree;
use crate::scan::{
    byte_at, is_byte_at, lemma_run_end, lemma_sync_at, range_eq_ignoring_case, scan_ident,
    scan_sync, Class,
};
use crate::text::{has_prefix_at, lemma_ascii_boundaries, lemma_str_bytes};

verus! {

/// What each rule asks of its input: a source that a tree can hold, and a
/// position in it at which a token may start.
pub open spec fn stands_at(src: &str, pos: usize) -> bool {
    &&& src.spec_bytes().len() <= max_text_len()
    &&& pos <= src.spec_bytes().len()
    &&& is_char_boundary(src.spec_bytes(), pos as int)
}

/// What a rule that yields one token owes, given the token that the grammar
/// finds at `pos`.
pub open spec fn is_lexeme(
    out: Option<(ParseOut, usize)>,
    text: Seq<u8>,
    pos: int,
    found: Option<Lexeme>,
) -> bool {
    match found {
        Some(lexeme) => out matches Some((token, next)) && next == lexeme.end && out_tree(token)
            == lexeme_tree(text, pos, lexeme),
        None => out is None,
    }
}

/// What a rule that yields a subtree owes, given the outcome that the
/// grammar names.
pub open spec fn is_outcome(
    out: Result<(ParseOut, usize, Vec<ParseError>), (usize, Reason)>,
    expected: Outcome,
) -> bool {
    match expected {
        Outcome::Parsed { tree, end, notes } => out matches Ok((found, next, taken)) && out_tree(
            found,
        ) == tree && next == end && taken@ == notes,
        Outcome::Failed { at, reason } => out matches Err((place, why)) && place == at && why
            == reason,
    }
}

/// The one-byte text `=` and `;` as bytes.
proof fn lemma_sign_bytes()
    ensures
        "=".spec_bytes() == seq![0x3Du8],
        ";".spec_bytes() == seq![0x3Bu8],
{
    reveal_strlit("=");
    reveal_strlit(";");
    vstd::utf8::is_ascii_chars_encode_utf8("="@);
    vstd::utf8::is_ascii_chars_encode_utf8(";"@);
    assert("=".spec_bytes() =~= seq![0x3Du8]);
    assert(";".spec_bytes() =~= seq![0x3Bu8]);
}

/// A text has a one-byte word at a position just where it has that byte
/// there.
proof fn lemma_prefix_one(text: Seq<u8>, pos: int, b: u8)
    requires
        0 <= pos,
    ensures
        has_prefix_at(text, pos, seq![b]) == byte_at(text, pos, b),
{
    if byte_at(text, pos, b) {
        assert(text.subrange(pos, pos + 1) =~= seq![b]);
    }
    if has_prefix_at(text, pos, seq![b]) {
        assert(text.subrange(pos, pos + 1)[0] == text[pos]);
    }
}

/// Whitespace or a comment, which this language treats alike.
fn wsp_ext(src: &str, pos: usize) -> (out: Option<(ParseOut, usize)>)
    ensures
        is_lexeme(out, src.spec_bytes(), pos as int, trivia_at(src.spec_bytes(), pos as int)),
{
    proof {
        super::syn::lemma_trivia_tags();
    }
    let comment = crate::comb::c_cpp_comment::<Syn>(src, pos);
    crate::comb::wsp_ext::<Syn>(comment, src, pos)
}

/// Looks up a name among the scope and qualifier keywords.
fn flag_kind(src: &[u8], start: usize, end: usize) -> (kind: Option<Syn>)
    requires
        start <= end <= src@.len(),
    ensures
        kind == flag_of(src@.subrange(start as int, end as int)),
{
    if range_eq_ignoring_case(src, start, end, "server".as_bytes()) {
        Some(Syn::KwServer)
    } else if range_eq_ignoring_case(src, start, end, "user".as_bytes()) {
        Some(Syn::KwUser)
    } else if range_eq_ignoring_case(src, start, end, "nosave".as_bytes()) {
        Some(Syn::KwNoSave)
    } else if range_eq_ignoring_case(src, start, end, "noarchive".as_bytes()) {
        Some(Syn::KwNoArchive)
    } else if range_eq_ignoring_case(src, start, end, "cheat".as_bytes()) {
        Some(Syn::KwCheat)
    } else if range_eq_ignoring_case(src, start, end, "latch".as_bytes()) {
        Some(Syn::KwLatch)
    } else {
        None
    }
}

/// Looks up a name among the type keywords.
fn type_kind(src: &[u8], start: usize, end: usize) -> (kind: Option<Syn>)
    requires
        start <= end <= src@.len(),
    ensures
        kind == type_of(src@.subrange(start as int, end as int)),
{
    if range_eq_ignoring_case(src, start, end, "int".as_bytes()) {
        Some(Syn::TypeInt)
    } else if range_eq_ignoring_case(src, start, end, "float".as_bytes()) {
        Some(Syn::TypeFloat)
    } else if range_eq_ignoring_case(src, start, end, "bool".as_bytes()) {
        Some(Syn::TypeBool)
    } else if range_eq_ignoring_case(src, start, end, "color".as_bytes()) {
        Some(Syn::TypeColor)
    } else if range_eq_ignoring_case(src, start, end, "string".as_bytes()) {
        Some(Syn::TypeString)
    } else {
        None
    }
}

/// Looks up a name among the boolean literals.
fn bool_kind(src: &[u8], start: usize, end: usize) -> (kind: Option<Syn>)
    requires
        start <= end <= src@.len(),
    ensures
        kind == bool_of(src@.subrange(start as int, end as int)),
{
    if range_eq_ignoring_case(src, start, end, "true".as_bytes()) {
        Some(Syn::LitTrue)
    } else if range_eq_ignoring_case(src, start, end, "false".as_bytes()) {
        Some(Syn::LitFalse)
    } else {
        None
    }
}

/// A scope or qualifier keyword.
fn flag(src: &str, pos: usize) -> (out: Option<(ParseOut, usize)>)
    ensures
        is_lexeme(out, src.spec_bytes(), pos as int, flag_at(src.spec_bytes(), pos as int)),
{
    let bytes = src.as_bytes();
    let end = match scan_ident(bytes, pos) {
        Some(end) => end,
        None => {
            return None;
        },
    };
    proof {
        lemma_run_end(bytes@, pos + 1, Class::IdentContinue);
    }
    match flag_kind(bytes, pos, end) {
        Some(kind) => {
            proof {
                lemma_str_bytes(src);
                lemma_keyword_span(bytes@, pos as int, |name: Seq<u8>| flag_of(name));
            }
            Some((map_tok(src, rowan::SyntaxKind::from(kind), pos, end), end))
        },
        None => None,
    }
}

/// One of the five type keywords.
fn type_spec(src: &str, pos: usize) -> (out: Option<(ParseOut, usize)>)
    ensures
        is_lexeme(out, src.spec_bytes(), pos as int, type_spec_at(src.spec_bytes(), pos as int)),
{
    let bytes = src.as_bytes();
    let end = match scan_ident(bytes, pos) {
        Some(end) => end,
        None => {
            return None;
        },
    };
    proof {
        lemma_run_end(bytes@, pos + 1, Class::IdentContinue);
    }
    match type_kind(bytes, pos, end) {
        Some(kind) => {
            proof {
                lemma_str_bytes(src);
                lemma_keyword_span(bytes@, pos as int, |name: Seq<u8>| type_of(name));
            }
            Some((map_tok(src, rowan::SyntaxKind::from(kind), pos, end), end))
        },
        None => None,
    }
}

/// `true` or `false`.
fn boolean(src: &str, pos: usize) -> (out: Option<(ParseOut, usize)>)
    ensures
        is_lexeme(out, src.spec_bytes(), pos as int, bool_at(src.spec_bytes(), pos as int)),
{
    let bytes = src.as_bytes();
    let end = match scan_ident(bytes, pos) {
        Some(end) => end,
        None => {
            return None;
        },
    };
    proof {
        lemma_run_end(bytes@, pos + 1, Class::IdentContinue);
    }
    match bool_kind(bytes, pos, end) {
        Some(kind) => {
            proof {
                lemma_str_bytes(src);
                lemma_keyword_span(bytes@, pos as int, |name: Seq<u8>| bool_of(name));
            }
            Some((map_tok(src, rowan::SyntaxKind::from(kind), pos, end), end))
        },
        None => None,
    }
}

/// The value of a hexadecimal digit.
fn hex_digit_value(b: u8) -> (value: u32)
    requires
        Class::HexDigit.has(b),
    ensures
        value == super::grammar::hex_value(b),
        value < 16,
{
    if 0x30 <= b && b <= 0x39 {
        (b - 0x30) as u32
    } else if 0x61 <= b && b <= 0x66 {
        (b - 0x61 + 10) as u32
    } else {
        (b - 0x41 + 10) as u32
    }
}

/// Tests for an escape at `pos` and, where its four digits name no character,
/// takes note of that.
fn escape(src: &[u8], pos: usize) -> (out: Option<Option<ParseError>>)
    requires
        pos < src@.len(),
    ensures
        out.is_some() == escape_at(src@, pos as int),
        out matches Some(note) ==> pos + 6 <= src@.len() && escape_notes(src@, pos as int) == (
        match note {
            Some(error) => seq![error],
            None => Seq::empty(),
        }),
{
    if src.len() - pos < 6 || src[pos] != 0x5C {
        return None;
    }
    let name = src[pos + 1];
    let named = name == 0x5C || name == 0x61 || name == 0x62 || name == 0x63 || name == 0x66
        || name == 0x6E || name == 0x72 || name == 0x74 || name == 0x76 || name == 0x27 || name
        == 0x22;
    if !named || !Class::HexDigit.contains(src[pos + 2]) || !Class::HexDigit.contains(src[pos + 3])
        || !Class::HexDigit.contains(src[pos + 4]) || !Class::HexDigit.contains(src[pos + 5]) {
        return None;
    }
    let code: u32 = ((hex_digit_value(src[pos + 2]) * 16 + hex_digit_value(src[pos + 3])) * 16
        + hex_digit_value(src[pos + 4])) * 16 + hex_digit_value(src[pos + 5]);
    if 0xD800 <= code && code <= 0xDFFF {
        Some(Some(ParseError { start: pos + 2, end: pos + 6, reason: Reason::InvalidCodePoint }))
    } else {
        Some(None)
    }
}

/// Finds the end of the string literal at `pos`, and takes the notes of its
/// escapes.
fn scan_string(src: &[u8], pos: usize) -> (out: Option<(usize, Vec<ParseError>)>)
    ensures
        out.is_some() == string_end(src@, pos as int).is_some(),
        out matches Some((end, notes)) ==> string_end(src@, pos as int) == Some(end as int)
            && notes@ == string_body_notes(src@, pos + 1),
{
    if !is_byte_at(src, pos, 0x22) {
        return None;
    }
    let mut notes: Vec<ParseError> = Vec::new();
    let mut at: usize = pos + 1;
    while at < src.len()
        invariant
            pos < at <= src@.len(),
            string_body_end(src@, pos + 1) == string_body_end(src@, at as int),
            string_body_notes(src@, pos + 1) == notes@ + string_body_notes(src@, at as int),
        ensures
            pos < at <= src@.len(),
            string_body_end(src@, pos + 1) == at,
            string_body_notes(src@, pos + 1) == notes@,
        decreases src.len() - at,
    {
        let b = src[at];
        if b != 0x5C && b != 0x22 {
            at = at + 1;
        } else {
            match escape(src, at) {
                Some(note) => {
                    let ghost before = notes@;
                    if let Some(error) = note {
                        notes.push(error);
                    }
                    proof {
                        assert(notes@ =~= before + escape_notes(src@, at as int));
                        assert((before + escape_notes(src@, at as int)) + string_body_notes(
                            src@,
                            at + 6,
                        ) =~= before + (escape_notes(src@, at as int) + string_body_notes(
                            src@,
                            at + 6,
                        )));
                    }
                    at = at + 6;
                },
                None => {
                    assert(notes@ + Seq::<ParseError>::empty() =~= notes@);
                    break ;
                },
            }
        }
    }
    assert(notes@ + Seq::<ParseError>::empty() =~= notes@);
    if is_byte_at(src, at, 0x22) {
        Some((at + 1, notes))
    } else {
        None
    }
}

/// The literal of a default clause: a float, else an integer, else a boolean,
/// else a string in double quotes. It comes with the notes taken of it.
fn literal(src: &str, pos: usize) -> (out: Option<(ParseOut, usize, Vec<ParseError>)>)
    ensures
        match literal_at(src.spec_bytes(), pos as int) {
            Some(lexeme) => out matches Some((token, next, notes)) && next == lexeme.end
                && out_tree(token) == lexeme_tree(src.spec_bytes(), pos as int, lexeme) && notes@
                == literal_notes(src.spec_bytes(), pos as int),
            None => out is None,
        },
{
    if let Some((token, end)) = crate::comb::c_float_literal(
        src,
        rowan::SyntaxKind::from(Syn::LitFloat),
        pos,
    ) {
        return Some((token, end, Vec::new()));
    }
    if let Some((token, end)) = crate::comb::c_int(src, rowan::SyntaxKind::from(Syn::LitInt), pos) {
        return Some((token, end, Vec::new()));
    }
    if let Some((token, end)) = boolean(src, pos) {
        return Some((token, end, Vec::new()));
    }
    match scan_string(src.as_bytes(), pos) {
        Some((end, notes)) => {
            proof {
                lemma_str_bytes(src);
                lemma_literal_span(src.spec_bytes(), pos as int);
            }
            let token = map_tok(src, rowan::SyntaxKind::from(Syn::LitString), pos, end);
            Some((token, end, notes))
        },
        None => None,
    }
}

/// One item of a run: with `flags` set a keyword or a piece of trivia, without
/// a piece of trivia.
fn item(src: &str, pos: usize, flags: bool) -> (out: Option<(ParseOut, usize)>)
    ensures
        is_lexeme(out, src.spec_bytes(), pos as int, item_at(src.spec_bytes(), pos as int, flags)),
{
    if flags {
        if let Some(found) = flag(src, pos) {
            return Some(found);
        }
    }
    wsp_ext(src, pos)
}

/// The longest run of items from `pos` on.
fn items(src: &str, pos: usize, flags: bool) -> (out: (Vec<ParseOut>, usize))
    requires
        pos <= src.spec_bytes().len(),
    ensures
        out_forest(out.0@) == items_from(src.spec_bytes(), pos as int, flags).0,
        out.1 == items_from(src.spec_bytes(), pos as int, flags).1,
        pos <= out.1 <= src.spec_bytes().len(),
{
    let ghost text = src.spec_bytes();
    let mut found: Vec<ParseOut> = Vec::new();
    let mut at: usize = pos;
    assert(out_forest(found@) + items_from(text, pos as int, flags).0 =~= items_from(
        text,
        pos as int,
        flags,
    ).0);
    loop
        invariant
            text == src.spec_bytes(),
            pos <= at <= text.len(),
            items_from(text, pos as int, flags).0 == out_forest(found@) + items_from(
                text,
                at as int,
                flags,
            ).0,
            items_from(text, pos as int, flags).1 == items_from(text, at as int, flags).1,
        decreases text.len() - at,
    {
        match item(src, at, flags) {
            Some((token, end)) => {
                proof {
                    lemma_item_progress(text, at as int, flags);
                    let rest = items_from(text, end as int, flags).0;
                    assert(out_forest(found@.push(token)) =~= out_forest(found@) + seq![
                        out_tree(token),
                    ]);
                    assert((out_forest(found@) + seq![out_tree(token)]) + rest =~= out_forest(
                        found@,
                    ) + (seq![out_tree(token)] + rest));
                }
                found.push(token);
                at = end;
            },
            None => {
                assert(out_forest(found@) + Seq::<Tree>::empty() =~= out_forest(found@));
                return (found, at);
            },
        }
    }
}

/// Everything preceding the type keyword: scope and qualifier keywords with
/// the whitespace and comments among them, at least one thing in all,
/// gathered into one node.
fn flags(src: &str, pos: usize) -> (out: Option<(ParseOut, usize)>)
    requires
        stands_at(src, pos),
    ensures
        match out {
            Some((node, next)) => items_from(src.spec_bytes(), pos as int, true).0.len() > 0
                && out_tree(node) == branch(
                Syn::Flags.raw(),
                items_from(src.spec_bytes(), pos as int, true).0,
            ) && next == items_from(src.spec_bytes(), pos as int, true).1,
            None => items_from(src.spec_bytes(), pos as int, true).0.len() == 0,
        },
{
    let (found, end) = items(src, pos, true);
    if found.len() == 0 {
        return None;
    }
    proof {
        lemma_str_bytes(src);
        lemma_items_cover(src.spec_bytes(), pos as int, true);
        super::syn::lemma_trivia_tags();
    }
    Some((found.collect_n::<Syn>(rowan::SyntaxKind::from(Syn::Flags)), end))
}

/// The default clause: `=` and a literal, with optional whitespace or
/// comments in front of each, gathered into one node.
fn default(src: &str, pos: usize) -> (out: Result<
    (ParseOut, usize, Vec<ParseError>),
    (usize, Reason),
>)
    requires
        stands_at(src, pos),
    ensures
        is_outcome(out, default_at(src.spec_bytes(), pos as int)),
{
    let ghost text = src.spec_bytes();
    proof {
        lemma_str_bytes(src);
        lemma_sign_bytes();
        lemma_items_cover(text, pos as int, false);
        lemma_default_cover(text, pos as int);
        super::syn::lemma_trivia_tags();
    }
    let (lead, mark_at) = items(src, pos, false);
    proof {
        lemma_prefix_one(text, mark_at as int, 0x3D);
    }
    let (mark, gap_at) = match crate::comb::just(
        "=",
        rowan::SyntaxKind::from(Syn::Eq),
        src,
        mark_at,
    ) {
        Some(found) => found,
        None => {
            return Err((mark_at, Reason::ExpectedDefaultOrSemicolon));
        },
    };
    let (gap, value_at) = items(src, gap_at, false);
    let (value, end, notes) = match literal(src, value_at) {
        Some(found) => found,
        None => {
            return Err((value_at, Reason::ExpectedLiteral));
        },
    };
    let parts = lead.chain_push(mark).chain_append(gap).chain_push(value);
    proof {
        let children = items_from(text, pos as int, false).0 + seq![
            leaf(Syn::Eq.raw(), text, mark_at as int, mark_at + 1),
        ] + items_from(text, mark_at + 1, false).0 + seq![
            lexeme_tree(text, value_at as int, literal_at(text, value_at as int).unwrap()),
        ];
        assert(parts.forest() =~= children);
        lemma_forest_text_one(branch(Syn::DefaultDef.raw(), children));
    }
    Ok((parts.collect_n::<Syn>(rowan::SyntaxKind::from(Syn::DefaultDef)), end, notes))
}

/// The end of a declaration whose name ends at `pos`: the default clause, if
/// there is one, and the `;`. `front` holds the children found so far, which
/// cover the text from `start` on.
fn definition_end(src: &str, pos: usize, front: Vec<ParseOut>, Ghost(start): Ghost<int>) -> (out:
    Result<(ParseOut, usize, Vec<ParseError>), (usize, Reason)>)
    requires
        stands_at(src, pos),
        covers(out_forest(front@), src.spec_bytes(), start, pos as int),
    ensures
        is_outcome(out, definition_tail(src.spec_bytes(), pos as int, out_forest(front@))),
{
    let ghost text = src.spec_bytes();
    proof {
        lemma_str_bytes(src);
        lemma_sign_bytes();
        lemma_default_cover(text, pos as int);
        lemma_tail_cover(text, pos as int, out_forest(front@), start);
        lemma_prefix_one(text, pos as int, 0x3B);
    }
    match default(src, pos) {
        Ok((clause, end, notes)) => {
            proof {
                lemma_prefix_one(text, end as int, 0x3B);
            }
            match crate::comb::just(";", rowan::SyntaxKind::from(Syn::Semicolon), src, end) {
                Some((semi, next)) => {
                    let parts = front.chain_push(clause).chain_push(semi);
                    proof {
                        let children = out_forest(front@) + seq![
                            out_tree(clause),
                            leaf(Syn::Semicolon.raw(), text, end as int, end + 1),
                        ];
                        assert(parts.forest() =~= children);
                        lemma_forest_text_one(branch(Syn::Definition.raw(), children));
                    }
                    Ok((parts.collect_n::<Syn>(rowan::SyntaxKind::from(Syn::Definition)), next, notes))
                },
                None => Err((end, Reason::ExpectedSemicolon)),
            }
        },
        Err(failure) => {
            match crate::comb::just(";", rowan::SyntaxKind::from(Syn::Semicolon), src, pos) {
                Some((semi, next)) => {
                    let parts = front.chain_push(semi);
                    proof {
                        let children = out_forest(front@) + seq![
                            leaf(Syn::Semicolon.raw(), text, pos as int, pos + 1),
                        ];
                        assert(parts.forest() =~= children);
                        lemma_forest_text_one(branch(Syn::Definition.raw(), children));
                    }
                    Ok(
                        (
                            parts.collect_n::<Syn>(rowan::SyntaxKind::from(Syn::Definition)),
                            next,
                            Vec::new(),
                        ),
                    )
                },
                None => Err(failure),
            }
        },
    }
}

/// A whole declaration, gathered into one node.
fn definition(src: &str, pos: usize) -> (out: Result<
    (ParseOut, usize, Vec<ParseError>),
    (usize, Reason),
>)
    requires
        stands_at(src, pos),
    ensures
        is_outcome(out, definition_at(src.spec_bytes(), pos as int)),
{
    let ghost text = src.spec_bytes();
    proof {
        lemma_str_bytes(src);
        lemma_items_cover(text, pos as int, true);
        lemma_items_progress(text, pos as int, true);
    }
    let (group, type_at) = match flags(src, pos) {
        Some(found) => found,
        None => {
            return Err((pos, Reason::ExpectedFlag));
        },
    };
    let (kind, gap_at) = match type_spec(src, type_at) {
        Some(found) => found,
        None => {
            return Err((type_at, Reason::ExpectedTypeSpec));
        },
    };
    proof {
        lemma_keyword_span(text, type_at as int, |name: Seq<u8>| type_of(name));
        lemma_keyword_progress(text, type_at as int, |name: Seq<u8>| type_of(name));
        lemma_items_cover(text, gap_at as int, false);
        lemma_items_progress(text, gap_at as int, false);
    }
    let (gap, name_at) = items(src, gap_at, false);
    if gap.len() == 0 {
        return Err((gap_at, Reason::ExpectedWhitespace));
    }
    let (name, tail_at) = match crate::comb::ident(
        src,
        rowan::SyntaxKind::from(Syn::Ident),
        name_at,
    ) {
        Some(found) => found,
        None => {
            return Err((name_at, Reason::ExpectedIdent));
        },
    };
    let front = group.start_vec().chain_push(kind).chain_append(gap).chain_push(name);
    proof {
        crate::scan::lemma_ident_span(text, name_at as int);
        let run = items_from(text, pos as int, true);
        let space = items_from(text, gap_at as int, false);
        let children = seq![
            branch(Syn::Flags.raw(), run.0),
            lexeme_tree(text, type_at as int, type_spec_at(text, type_at as int).unwrap()),
        ] + space.0 + seq![leaf(Syn::Ident.raw(), text, name_at as int, tail_at as int)];
        assert(front.forest() =~= children);
        lemma_front_cover(text, pos as int);
    }
    definition_end(src, tail_at, front, Ghost(pos as int))
}

/// The children of a declaration up to and including its name cover the
/// text from the start of the declaration up to the end of the name.
proof fn lemma_front_cover(text: Seq<u8>, pos: int)
    requires
        valid_utf8(text),
        0 <= pos <= text.len(),
        is_char_boundary(text, pos),
        items_from(text, pos, true).0.len() > 0,
        type_spec_at(text, items_from(text, pos, true).1).is_some(),
        crate::scan::ident_end(
            text,
            items_from(
                text,
                type_spec_at(text, items_from(text, pos, true).1).unwrap().end,
                false,
            ).1,
        ).is_some(),
    ensures
        ({
            let run = items_from(text, pos, true);
            let kind = type_spec_at(text, run.1).unwrap();
            let space = items_from(text, kind.end, false);
            let name_end = crate::scan::ident_end(text, space.1).unwrap();
            covers(
                seq![branch(Syn::Flags.raw(), run.0), lexeme_tree(text, run.1, kind)] + space.0
                    + seq![leaf(Syn::Ident.raw(), text, space.1, name_end)],
                text,
                pos,
                name_end,
            ) && is_char_boundary(text, name_end)
        }),
{
    let run = items_from(text, pos, true);
    let kind = type_spec_at(text, run.1).unwrap();
    let space = items_from(text, kind.end, false);
    let name_end = crate::scan::ident_end(text, space.1).unwrap();
    lemma_items_cover(text, pos, true);
    lemma_keyword_span(text, run.1, |name: Seq<u8>| type_of(name));
    lemma_keyword_progress(text, run.1, |name: Seq<u8>| type_of(name));
    lemma_items_cover(text, kind.end, false);
    crate::scan::lemma_ident_span(text, space.1);
    let group = branch(Syn::Flags.raw(), run.0);
    let word = lexeme_tree(text, run.1, kind);
    let name = leaf(Syn::Ident.raw(), text, space.1, name_end);
    super::grammar::lemma_covers_one(group, text, pos, run.1);
    super::grammar::lemma_covers_one(word, text, run.1, kind.end);
    super::grammar::lemma_covers_join(seq![group], seq![word], text, pos, run.1, kind.end);
    assert(seq![group] + seq![word] =~= seq![group, word]);
    super::grammar::lemma_covers_join(seq![group, word], space.0, text, pos, kind.end, space.1);
    super::grammar::lemma_covers_one(name, text, space.1, name_end);
    super::grammar::lemma_covers_join(
        seq![group, word] + space.0,
        seq![name],
        text,
        pos,
        space.1,
        name_end,
    );
}

/// Recovery from an error raised at `at` inside the declaration that starts
/// at `pos`: everything from `pos` up to the next `;` or line break at or
/// after `at`, that byte left out, becomes one token tagged
/// [`Syn::Unknown`]; a `;` found there becomes a token of its own.
fn recover(src: &str, pos: usize, at: usize) -> (out: (Vec<ParseOut>, usize))
    requires
        stands_at(src, pos),
        pos <= at <= src.spec_bytes().len(),
    ensures
        out_forest(out.0@) == recovered(src.spec_bytes(), pos as int, at as int).0,
        out.1 == recovered(src.spec_bytes(), pos as int, at as int).1,
{
    let bytes = src.as_bytes();
    let stop = scan_sync(bytes, at);
    proof {
        lemma_str_bytes(src);
        lemma_sync_at(src.spec_bytes(), at as int);
    }
    let mut found: Vec<ParseOut> = Vec::new();
    assert(out_forest(found@) =~= Seq::<Tree>::empty());
    if pos < stop {
        found.push(map_tok(src, rowan::SyntaxKind::from(Syn::Unknown), pos, stop));
        assert(out_forest(found@) =~= seq![leaf(Syn::Unknown.raw(), bytes@, pos as int, stop as int)]);
    }
    if is_byte_at(bytes, stop, 0x3B) {
        let ghost before = out_forest(found@);
        proof {
            lemma_ascii_boundaries(bytes@, stop as int);
        }
        found.push(map_tok(src, rowan::SyntaxKind::from(Syn::Semicolon), stop, stop + 1));
        assert(out_forest(found@) =~= before.push(
            leaf(Syn::Semicolon.raw(), bytes@, stop as int, stop + 1),
        ));
        (found, stop + 1)
    } else {
        (found, stop)
    }
}

/// One step at the top of a file: a piece of trivia, a declaration, or what
/// recovery makes of a declaration that failed.
fn unit(src: &str, pos: usize, tolerant: bool) -> (out: (
    Vec<ParseOut>,
    Option<usize>,
    Vec<ParseError>,
))
    requires
        stands_at(src, pos),
        pos < src.spec_bytes().len(),
    ensures
        out_forest(out.0@) == unit_at(src.spec_bytes(), pos as int, tolerant).items,
        match unit_at(src.spec_bytes(), pos as int, tolerant).next {
            Some(end) => out.1 == Some(end as usize) && end <= usize::MAX,
            None => out.1 is None,
        },
        out.2@ == unit_at(src.spec_bytes(), pos as int, tolerant).errors,
{
    let ghost text = src.spec_bytes();
    proof {
        reveal(unit_at);
        lemma_unit_progress(text, pos as int, tolerant);
    }
    let mut found: Vec<ParseOut> = Vec::new();
    assert(out_forest(found@) =~= Seq::<Tree>::empty());
    if let Some((token, end)) = wsp_ext(src, pos) {
        found.push(token);
        assert(out_forest(found@) =~= seq![out_tree(token)]);
        return (found, Some(end), Vec::new());
    }
    proof {
        lemma_str_bytes(src);
        lemma_definition_progress(text, pos as int);
        lemma_definition_cover(text, pos as int);
    }
    match definition(src, pos) {
        Ok((node, end, notes)) => {
            if tolerant || notes.len() == 0 {
                found.push(node);
                assert(out_forest(found@) =~= seq![out_tree(node)]);
                (found, Some(end), notes)
            } else {
                (found, None, notes)
            }
        },
        Err((at, reason)) => {
            let mut errors: Vec<ParseError> = Vec::new();
            errors.push(unexpected_at(src.as_bytes(), at, reason));
            assert(errors@ =~= seq![unexpected(text, at as int, reason)]);
            if tolerant {
                let (items, end) = recover(src, pos, at);
                (items, Some(end), errors)
            } else {
                (found, None, errors)
            }
        },
    }
}

/// Reads a whole file: the children of its root and the errors raised.
fn document(src: &str, tolerant: bool) -> (out: (Vec<ParseOut>, Vec<ParseError>))
    requires
        src.spec_bytes().len() <= max_text_len(),
    ensures
        out_forest(out.0@) == document_from(src.spec_bytes(), 0, tolerant).items,
        out.1@ == document_from(src.spec_bytes(), 0, tolerant).errors,
{
    let ghost text = src.spec_bytes();
    let len = src.as_bytes().len();
    let mut found: Vec<ParseOut> = Vec::new();
    let mut errors: Vec<ParseError> = Vec::new();
    let mut at: usize = 0;
    proof {
        lemma_str_bytes(src);
        let whole = document_from(text, 0, tolerant);
        assert(out_forest(found@) + whole.items =~= whole.items);
        assert(errors@ + whole.errors =~= whole.errors);
    }
    while at < len
        invariant_except_break
            document_from(text, 0, tolerant).items == out_forest(found@) + document_from(
                text,
                at as int,
                tolerant,
            ).items,
            document_from(text, 0, tolerant).errors == errors@ + document_from(
                text,
                at as int,
                tolerant,
            ).errors,
        invariant
            text == src.spec_bytes(),
            len == text.len(),
            valid_utf8(text),
            stands_at(src, at),
        ensures
            document_from(text, 0, tolerant).items == out_forest(found@),
            document_from(text, 0, tolerant).errors == errors@,
        decreases text.len() - at,
    {
        proof {
            lemma_unit_progress(text, at as int, tolerant);
            lemma_unit_cover(text, at as int, tolerant);
            lemma_document_step(text, at as int, tolerant, out_forest(found@), errors@);
        }
        let ghost before = found@;
        let (items, next, raised) = unit(src, at, tolerant);
        let ghost added = items@;
        let mut items = items;
        let mut raised = raised;
        found.append(&mut items);
        errors.append(&mut raised);
        assert(out_forest(found@) =~= out_forest(before) + out_forest(added));
        match next {
            Some(end) => {
                at = end;
            },
            None => {
                proof {
                    let unit = unit_at(text, at as int, tolerant);
                    assert((out_forest(before) + unit.items) + Seq::<Tree>::empty()
                        =~= out_forest(before) + unit.items);
                    assert((errors@) + Seq::<ParseError>::empty() =~= errors@);
                }
                break ;
            },
        }
    }
    proof {
        assert(out_forest(found@) + Seq::<Tree>::empty() =~= out_forest(found@));
        assert(errors@ + Seq::<ParseError>::empty() =~= errors@);
    }
    (found, errors)
}

/// Upon encountering any error, the parser will immediately stop. Prefer
/// [`parse_recov`] since it allows providing the user with more actionable
/// information, enabling more fixing of one's code at once.
///
/// The outcome is either a tree that covers the whole source, or the errors
/// of the first declaration that raised any, and no tree.
pub fn parse(source: &str) -> (out: Result<RawParseTree<Syn>, Vec<ParseError>>)
    requires
        source.spec_bytes().len() <= max_text_len(),
    ensures
        match out {
            Ok(parsed) => document_from(source.spec_bytes(), 0, false).errors.len() == 0
                && parsed.tree() == document_tree(source.spec_bytes(), false)
                && parsed.error_list().len() == 0 && parsed.tree().text() == source.spec_bytes()
                && parsed.tree().leaves_filled(),
            Err(errors) => errors@.len() > 0 && errors@ == document_from(
                source.spec_bytes(),
                0,
                false,
            ).errors,
        },
{
    let (found, errors) = document(source, false);
    if errors.len() > 0 {
        return Err(errors);
    }
    proof {
        let text = source.spec_bytes();
        lemma_str_bytes(source);
        lemma_document_cover(text, 0, false);
        lemma_document_tree_filled(text, false);
        assert(text.subrange(0, text.len() as int) =~= text);
        super::syn::lemma_trivia_tags();
    }
    let root = found.collect_g::<Syn>(rowan::SyntaxKind::from(Syn::Root));
    Ok(RawParseTree::new(root, errors))
}

/// "Recoverable parse". This emits `Some` for every source that a tree can
/// hold, that is one of no more than 2^32 - 1 bytes, although the returned
/// tree may have errors attached; and `None` for a longer one.
///
/// When faced with unexpected input, the parser raises an error and then
/// skips ahead to the next `;`, carriage return or newline at or after the
/// place of the error. All input between the start of the declaration that
/// failed and that byte, which is not part of it, gets wrapped into a token
/// tagged [`Syn::Unknown`]. A `;` found there becomes a token of its own; a
/// line break is read as whitespace.
///
/// The tree covers the whole source, whatever it holds, no token is empty,
/// and the errors come in the order of the source, each behind the one
/// before it.
#[must_use]
pub fn parse_recov(source: &str) -> (out: Option<RawParseTree<Syn>>)
    ensures
        out.is_some() == (source.spec_bytes().len() <= max_text_len()),
        out matches Some(parsed) ==> {
            &&& parsed.tree() == document_tree(source.spec_bytes(), true)
            &&& parsed.error_list() == document_from(source.spec_bytes(), 0, true).errors
            &&& parsed.tree().text() == source.spec_bytes()
            &&& parsed.tree().leaves_filled()
            &&& ordered_from(parsed.error_list(), 0)
        },
{
    if source.as_bytes().len() > 0xFFFF_FFFF {
        return None;
    }
    let (found, errors) = document(source, true);
    proof {
        let text = source.spec_bytes();
        lemma_str_bytes(source);
        lemma_errors_ordered(text, 0, true);
        lemma_document_cover(text, 0, true);
        lemma_document_tree_filled(text, true);
        assert(text.subrange(0, text.len() as int) =~= text);
        super::syn::lemma_trivia_tags();
    }
    let root = found.collect_g::<Syn>(rowan::SyntaxKind::from(Syn::Root));
    Some(RawParseTree::new(root, errors))
}

} // verus!
