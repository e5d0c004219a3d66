//! The CVARINFO grammar as mathematics: what the parser of this module owes.
//!
//! A file is a sequence of declarations, each shaped
//!
//! ```text
//! (scope | qualifier | whitespace | comment)+ type (whitespace | comment)+ name [default] ';'
//! ```
//!
//! where the default clause is `=` and a literal, with optional whitespace
//! or comments in front of each. Between declarations stand whitespace and
//! comments. The functions here say, for a text and a position, which tree
//! the rule that starts there yields and where it ends, or where and why it
//! fails. They read the text left to right and never look back: of
//! alternatives the first that matches decides, and a repetition takes all it
//! can get.

use vstd::prelude::*;
use vstd::string::StringSliceAdditionalSpecFns;
use vstd::utf8::{is_char_boundary, valid_utf8};

use super::syn::Syn;
use crate::comb::{comment_end, lemma_comment_progress};
use crate::error::{unexpected, ParseError, Reason};
use crate::ext::branch;
use crate::green::{
    forest_filled, forest_text, lemma_forest_filled_concat, lemma_forest_text_concat,
    lemma_forest_text_one, Tree,
};
use crate::help::leaf;
use crate::scan::{
    block_comment_end, byte_at, class_at, eq_ignoring_case, float_end, ident_end, int_end,
    lemma_ascii_span, lemma_block_comment_span, lemma_eq_ignoring_case_trans, lemma_float_progress,
    lemma_float_span, lemma_ident_span, lemma_int_progress, lemma_int_span, lemma_line_comment_span,
    lemma_run_end, lemma_run_span, lemma_sync_at, run_end, sync_at, Class,
};
use crate::text::{is_span, lemma_ascii_boundaries};

verus! {

/// A token found in the text: its tag and where it ends.
pub ghost struct Lexeme {
    pub kind: Syn,
    pub end: int,
}

/// What a grammar rule makes of the text at a position.
pub ghost enum Outcome {
    /// The rule matched up to `end` and yields `tree`. While it did so it
    /// took the `notes`, which are errors that did not stop it.
    Parsed { tree: Tree, end: int, notes: Seq<ParseError> },
    /// The rule does not match: at the byte position `at` it could not go on,
    /// for the reason given.
    Failed { at: int, reason: Reason },
}

/// The leaf for a token that starts at `pos`.
pub open spec fn lexeme_tree(text: Seq<u8>, pos: int, lexeme: Lexeme) -> Tree {
    leaf(lexeme.kind.raw(), text, pos, lexeme.end)
}

/// The scope or qualifier keyword that `name` is, whatever the case of its
/// letters.
pub open spec fn flag_of(name: Seq<u8>) -> Option<Syn> {
    if eq_ignoring_case(name, "server".spec_bytes()) {
        Some(Syn::KwServer)
    } else if eq_ignoring_case(name, "user".spec_bytes()) {
        Some(Syn::KwUser)
    } else if eq_ignoring_case(name, "nosave".spec_bytes()) {
        Some(Syn::KwNoSave)
    } else if eq_ignoring_case(name, "noarchive".spec_bytes()) {
        Some(Syn::KwNoArchive)
    } else if eq_ignoring_case(name, "cheat".spec_bytes()) {
        Some(Syn::KwCheat)
    } else if eq_ignoring_case(name, "latch".spec_bytes()) {
        Some(Syn::KwLatch)
    } else {
        None
    }
}

/// The type keyword that `name` is, whatever the case of its letters.
pub open spec fn type_of(name: Seq<u8>) -> Option<Syn> {
    if eq_ignoring_case(name, "int".spec_bytes()) {
        Some(Syn::TypeInt)
    } else if eq_ignoring_case(name, "float".spec_bytes()) {
        Some(Syn::TypeFloat)
    } else if eq_ignoring_case(name, "bool".spec_bytes()) {
        Some(Syn::TypeBool)
    } else if eq_ignoring_case(name, "color".spec_bytes()) {
        Some(Syn::TypeColor)
    } else if eq_ignoring_case(name, "string".spec_bytes()) {
        Some(Syn::TypeString)
    } else {
        None
    }
}

/// The boolean literal that `name` is, whatever the case of its letters.
pub open spec fn bool_of(name: Seq<u8>) -> Option<Syn> {
    if eq_ignoring_case(name, "true".spec_bytes()) {
        Some(Syn::LitTrue)
    } else if eq_ignoring_case(name, "false".spec_bytes()) {
        Some(Syn::LitFalse)
    } else {
        None
    }
}

/// The identifier at `pos` as a token, if `table` knows it as a keyword.
pub open spec fn keyword_at(text: Seq<u8>, pos: int, table: spec_fn(Seq<u8>) -> Option<Syn>)
    -> Option<Lexeme> {
    match ident_end(text, pos) {
        Some(end) => match table(text.subrange(pos, end)) {
            Some(kind) => Some(Lexeme { kind, end }),
            None => None,
        },
        None => None,
    }
}

/// The scope or qualifier keyword at `pos`.
pub open spec fn flag_at(text: Seq<u8>, pos: int) -> Option<Lexeme> {
    keyword_at(text, pos, |name: Seq<u8>| flag_of(name))
}

/// The type keyword at `pos`.
pub open spec fn type_spec_at(text: Seq<u8>, pos: int) -> Option<Lexeme> {
    keyword_at(text, pos, |name: Seq<u8>| type_of(name))
}

/// The boolean literal at `pos`.
pub open spec fn bool_at(text: Seq<u8>, pos: int) -> Option<Lexeme> {
    keyword_at(text, pos, |name: Seq<u8>| bool_of(name))
}

/// The run of whitespace or the comment at `pos`. Comments count as
/// whitespace in this language.
pub open spec fn trivia_at(text: Seq<u8>, pos: int) -> Option<Lexeme> {
    if class_at(text, pos, Class::Whitespace) {
        Some(Lexeme { kind: Syn::Whitespace, end: run_end(text, pos, Class::Whitespace) })
    } else {
        match comment_end(text, pos) {
            Some(end) => Some(Lexeme { kind: Syn::Comment, end }),
            None => None,
        }
    }
}

/// Whether `b` may follow the backslash of an escape.
pub open spec fn is_escape_name(b: u8) -> bool {
    b == 0x5C || b == 0x61 || b == 0x62 || b == 0x63 || b == 0x66 || b == 0x6E || b == 0x72 || b
        == 0x74 || b == 0x76 || b == 0x27 || b == 0x22
}

/// Whether an escape stands at `pos`: a backslash, one of the letters and
/// signs that name an escape, and exactly four hexadecimal digits.
pub open spec fn escape_at(text: Seq<u8>, pos: int) -> bool {
    &&& byte_at(text, pos, 0x5C)
    &&& pos + 6 <= text.len()
    &&& is_escape_name(text[pos + 1])
    &&& Class::HexDigit.has(text[pos + 2])
    &&& Class::HexDigit.has(text[pos + 3])
    &&& Class::HexDigit.has(text[pos + 4])
    &&& Class::HexDigit.has(text[pos + 5])
}

/// The value of a hexadecimal digit.
pub open spec fn hex_value(b: u8) -> int {
    if 0x30 <= b <= 0x39 {
        b - 0x30
    } else if 0x61 <= b <= 0x66 {
        b - 0x61 + 10
    } else {
        b - 0x41 + 10
    }
}

/// The number that the four digits of the escape at `pos` spell.
pub open spec fn escape_code(text: Seq<u8>, pos: int) -> int {
    ((hex_value(text[pos + 2]) * 16 + hex_value(text[pos + 3])) * 16 + hex_value(text[pos + 4]))
        * 16 + hex_value(text[pos + 5])
}

/// Whether `code` is the number of a character. Of the numbers that four
/// hexadecimal digits can spell, the surrogates are not.
pub open spec fn is_code_point(code: int) -> bool {
    0 <= code <= 0x10FFFF && !(0xD800 <= code <= 0xDFFF)
}

/// The note taken of the escape at `pos` if its digits name no character.
pub open spec fn escape_notes(text: Seq<u8>, pos: int) -> Seq<ParseError> {
    if is_code_point(escape_code(text, pos)) {
        Seq::empty()
    } else {
        seq![
            ParseError {
                start: (pos + 2) as usize,
                end: (pos + 6) as usize,
                reason: Reason::InvalidCodePoint,
            },
        ]
    }
}

/// Where the inside of a string literal ends that is read from `pos` on:
/// bytes other than the quote and the backslash, and escapes, as far as they
/// go.
pub open spec fn string_body_end(text: Seq<u8>, pos: int) -> int
    decreases text.len() - pos,
{
    if pos < 0 || pos >= text.len() {
        pos
    } else if text[pos] != 0x5C && text[pos] != 0x22 {
        string_body_end(text, pos + 1)
    } else if escape_at(text, pos) {
        string_body_end(text, pos + 6)
    } else {
        pos
    }
}

/// The notes taken of the escapes inside a string literal that is read from
/// `pos` on, in their order.
pub open spec fn string_body_notes(text: Seq<u8>, pos: int) -> Seq<ParseError>
    decreases text.len() - pos,
{
    if pos < 0 || pos >= text.len() {
        Seq::empty()
    } else if text[pos] != 0x5C && text[pos] != 0x22 {
        string_body_notes(text, pos + 1)
    } else if escape_at(text, pos) {
        escape_notes(text, pos) + string_body_notes(text, pos + 6)
    } else {
        Seq::empty()
    }
}

/// Where the string literal at `pos` ends: a double quote, the inside, and a
/// double quote again.
pub open spec fn string_end(text: Seq<u8>, pos: int) -> Option<int> {
    if byte_at(text, pos, 0x22) && byte_at(text, string_body_end(text, pos + 1), 0x22) {
        Some(string_body_end(text, pos + 1) + 1)
    } else {
        None
    }
}

/// The literal at `pos`: a float, else an integer, else `true`, else
/// `false`, else a string.
pub open spec fn literal_at(text: Seq<u8>, pos: int) -> Option<Lexeme> {
    if float_end(text, pos).is_some() {
        Some(Lexeme { kind: Syn::LitFloat, end: float_end(text, pos).unwrap() })
    } else if int_end(text, pos).is_some() {
        Some(Lexeme { kind: Syn::LitInt, end: int_end(text, pos).unwrap() })
    } else if bool_at(text, pos).is_some() {
        bool_at(text, pos)
    } else if string_end(text, pos).is_some() {
        Some(Lexeme { kind: Syn::LitString, end: string_end(text, pos).unwrap() })
    } else {
        None
    }
}

/// The notes that go with the literal at `pos`: those of a string's escapes.
pub open spec fn literal_notes(text: Seq<u8>, pos: int) -> Seq<ParseError> {
    match literal_at(text, pos) {
        Some(lexeme) => if lexeme.kind == Syn::LitString {
            string_body_notes(text, pos + 1)
        } else {
            Seq::empty()
        },
        None => Seq::empty(),
    }
}

/// One item of a run: with `flags` set, a scope or qualifier keyword or else
/// a piece of trivia; without, a piece of trivia.
pub open spec fn item_at(text: Seq<u8>, pos: int, flags: bool) -> Option<Lexeme> {
    if flags && flag_at(text, pos).is_some() {
        flag_at(text, pos)
    } else {
        trivia_at(text, pos)
    }
}

/// The longest run of items from `pos` on, as leaves, and where it ends.
pub open spec fn items_from(text: Seq<u8>, pos: int, flags: bool) -> (Seq<Tree>, int)
    decreases text.len() - pos,
{
    match item_at(text, pos, flags) {
        Some(lexeme) => {
            proof {
                lemma_item_progress(text, pos, flags);
            }
            let rest = items_from(text, lexeme.end, flags);
            (seq![lexeme_tree(text, pos, lexeme)] + rest.0, rest.1)
        },
        None => (Seq::empty(), pos),
    }
}

/// The default clause at `pos`: trivia, `=`, trivia, a literal. Where there
/// is none, the outcome says what was missing and where.
pub open spec fn default_at(text: Seq<u8>, pos: int) -> Outcome {
    let lead = items_from(text, pos, false);
    if !byte_at(text, lead.1, 0x3D) {
        Outcome::Failed { at: lead.1, reason: Reason::ExpectedDefaultOrSemicolon }
    } else {
        let gap = items_from(text, lead.1 + 1, false);
        match literal_at(text, gap.1) {
            Some(lexeme) => Outcome::Parsed {
                tree: branch(
                    Syn::DefaultDef.raw(),
                    lead.0 + seq![leaf(Syn::Eq.raw(), text, lead.1, lead.1 + 1)] + gap.0
                        + seq![lexeme_tree(text, gap.1, lexeme)],
                ),
                end: lexeme.end,
                notes: literal_notes(text, gap.1),
            },
            None => Outcome::Failed { at: gap.1, reason: Reason::ExpectedLiteral },
        }
    }
}

/// The end of a declaration whose name ends at `pos`: a default clause or
/// none, and the `;`. `front` holds the children found so far.
pub open spec fn definition_tail(text: Seq<u8>, pos: int, front: Seq<Tree>) -> Outcome {
    match default_at(text, pos) {
        Outcome::Parsed { tree, end, notes } => if byte_at(text, end, 0x3B) {
            Outcome::Parsed {
                tree: branch(
                    Syn::Definition.raw(),
                    front + seq![tree, leaf(Syn::Semicolon.raw(), text, end, end + 1)],
                ),
                end: end + 1,
                notes,
            }
        } else {
            Outcome::Failed { at: end, reason: Reason::ExpectedSemicolon }
        },
        Outcome::Failed { at, reason } => if byte_at(text, pos, 0x3B) {
            Outcome::Parsed {
                tree: branch(
                    Syn::Definition.raw(),
                    front + seq![leaf(Syn::Semicolon.raw(), text, pos, pos + 1)],
                ),
                end: pos + 1,
                notes: Seq::empty(),
            }
        } else {
            Outcome::Failed { at, reason }
        },
    }
}

/// The declaration at `pos`.
pub open spec fn definition_at(text: Seq<u8>, pos: int) -> Outcome {
    let flags = items_from(text, pos, true);
    if flags.0.len() == 0 {
        Outcome::Failed { at: pos, reason: Reason::ExpectedFlag }
    } else {
        match type_spec_at(text, flags.1) {
            None => Outcome::Failed { at: flags.1, reason: Reason::ExpectedTypeSpec },
            Some(type_spec) => {
                let gap = items_from(text, type_spec.end, false);
                if gap.0.len() == 0 {
                    Outcome::Failed { at: type_spec.end, reason: Reason::ExpectedWhitespace }
                } else {
                    match ident_end(text, gap.1) {
                        None => Outcome::Failed { at: gap.1, reason: Reason::ExpectedIdent },
                        Some(name_end) => definition_tail(
                            text,
                            name_end,
                            seq![
                                branch(Syn::Flags.raw(), flags.0),
                                lexeme_tree(text, flags.1, type_spec),
                            ] + gap.0 + seq![leaf(Syn::Ident.raw(), text, gap.1, name_end)],
                        ),
                    }
                }
            },
        }
    }
}

/// What a whole file, read from `pos` on, comes to.
pub ghost struct Document {
    /// The children of the root, in order.
    pub items: Seq<Tree>,
    /// The errors raised, in order.
    pub errors: Seq<ParseError>,
}

/// What recovery makes of a declaration that starts at `pos` and fails at
/// `at`, and where reading goes on.
///
/// Everything from `pos` up to the next `;`, carriage return or newline at
/// or after `at` becomes one token tagged as unknown; that byte is not part
/// of it. Where no such byte follows, the token runs to the end of the text.
/// Where nothing lies in front of that byte, there is no such token. A `;`
/// that recovery stops at is the terminator of what failed: it becomes a
/// token of its own, and reading goes on behind it. A line break is left to
/// the next step, which reads it as whitespace.
pub open spec fn recovered(text: Seq<u8>, pos: int, at: int) -> (Seq<Tree>, int) {
    let stop = sync_at(text, at);
    let skipped = if pos < stop {
        seq![leaf(Syn::Unknown.raw(), text, pos, stop)]
    } else {
        Seq::empty()
    };
    if byte_at(text, stop, 0x3B) {
        (skipped.push(leaf(Syn::Semicolon.raw(), text, stop, stop + 1)), stop + 1)
    } else {
        (skipped, stop)
    }
}

/// What one step at the top of a file comes to: the children of the root
/// that it yields, the place to go on from or a stop, and the errors raised
/// on the way.
pub ghost struct Unit {
    /// The children found, in order.
    pub items: Seq<Tree>,
    /// Where the next step starts, or `None` where reading stops.
    pub next: Option<int>,
    /// The errors raised.
    pub errors: Seq<ParseError>,
}

/// One step at the top of a file, at a position inside the text. Whitespace
/// and comments become children of the root, and so does each declaration.
/// Where a declaration fails, a tolerant reading records the error and
/// recovers; a strict reading stops at the first declaration that raises any
/// error.
#[verifier::opaque]
pub open spec fn unit_at(text: Seq<u8>, pos: int, tolerant: bool) -> Unit {
    match trivia_at(text, pos) {
        Some(lexeme) => Unit {
            items: seq![lexeme_tree(text, pos, lexeme)],
            next: Some(lexeme.end),
            errors: Seq::empty(),
        },
        None => match definition_at(text, pos) {
            Outcome::Parsed { tree, end, notes } => if tolerant || notes.len() == 0 {
                Unit { items: seq![tree], next: Some(end), errors: notes }
            } else {
                Unit { items: Seq::empty(), next: None, errors: notes }
            },
            Outcome::Failed { at, reason } => if tolerant {
                Unit {
                    items: recovered(text, pos, at).0,
                    next: Some(recovered(text, pos, at).1),
                    errors: seq![unexpected(text, at, reason)],
                }
            } else {
                Unit {
                    items: Seq::empty(),
                    next: None,
                    errors: seq![unexpected(text, at, reason)],
                }
            },
        },
    }
}

/// The file read from `pos` on, step by step up to the end of the text or
/// to a stop.
pub open spec fn document_from(text: Seq<u8>, pos: int, tolerant: bool) -> Document
    decreases text.len() - pos,
{
    if pos < 0 || pos >= text.len() {
        Document { items: Seq::empty(), errors: Seq::empty() }
    } else {
        let unit = unit_at(text, pos, tolerant);
        match unit.next {
            Some(end) => {
                proof {
                    lemma_unit_progress(text, pos, tolerant);
                }
                let rest = document_from(text, end, tolerant);
                Document { items: unit.items + rest.items, errors: unit.errors + rest.errors }
            },
            None => Document { items: unit.items, errors: unit.errors },
        }
    }
}

/// Where no whitespace stands, no line break stands.
pub proof fn lemma_no_trivia_no_break(text: Seq<u8>, pos: int)
    requires
        0 <= pos < text.len(),
        trivia_at(text, pos).is_none(),
    ensures
        Class::Sync.has(text[pos]) ==> text[pos] == 0x3B,
{
}

/// A step that does not stop goes forward, and stays inside the text. A step
/// stops only with an error and without a child, and never in a tolerant
/// reading.
pub proof fn lemma_unit_progress(text: Seq<u8>, pos: int, tolerant: bool)
    requires
        0 <= pos < text.len(),
    ensures
        unit_at(text, pos, tolerant).next matches Some(end) ==> pos < end <= text.len(),
        unit_at(text, pos, tolerant).next.is_none() ==> unit_at(text, pos, tolerant).errors.len()
            > 0 && unit_at(text, pos, tolerant).items.len() == 0,
        tolerant ==> unit_at(text, pos, tolerant).next.is_some(),
{
    reveal(unit_at);
    lemma_item_progress(text, pos, false);
    lemma_definition_progress(text, pos);
    if trivia_at(text, pos).is_none() {
        if let Outcome::Failed { at, reason } = definition_at(text, pos) {
            lemma_sync_at(text, at);
            lemma_no_trivia_no_break(text, pos);
        }
    }
}

/// The tree of a whole file: a root over the items.
pub open spec fn document_tree(text: Seq<u8>, tolerant: bool) -> Tree {
    branch(Syn::Root.raw(), document_from(text, 0, tolerant).items)
}

/// A keyword token is not empty and lies inside the text.
pub proof fn lemma_keyword_progress(
    text: Seq<u8>,
    pos: int,
    table: spec_fn(Seq<u8>) -> Option<Syn>,
)
    requires
        keyword_at(text, pos, table).is_some(),
    ensures
        pos < keyword_at(text, pos, table).unwrap().end <= text.len(),
        ident_end(text, pos) == Some(keyword_at(text, pos, table).unwrap().end),
{
    lemma_run_end(text, pos + 1, Class::IdentContinue);
}

/// The end of the inside of a string lies inside the text.
pub proof fn lemma_string_body_end(text: Seq<u8>, pos: int)
    requires
        0 <= pos <= text.len(),
    ensures
        pos <= string_body_end(text, pos) <= text.len(),
    decreases text.len() - pos,
{
    if pos >= text.len() {
    } else if text[pos] != 0x5C && text[pos] != 0x22 {
        lemma_string_body_end(text, pos + 1);
    } else if escape_at(text, pos) {
        lemma_string_body_end(text, pos + 6);
    }
}

/// An item of a run is not empty and lies inside the text.
pub proof fn lemma_item_progress(text: Seq<u8>, pos: int, flags: bool)
    ensures
        item_at(text, pos, flags) matches Some(lexeme) ==> pos < lexeme.end <= text.len(),
{
    if item_at(text, pos, flags).is_some() {
        if flags && flag_at(text, pos).is_some() {
            lemma_keyword_progress(text, pos, |name: Seq<u8>| flag_of(name));
        } else if class_at(text, pos, Class::Whitespace) {
            lemma_run_end(text, pos, Class::Whitespace);
        } else {
            lemma_comment_progress(text, pos);
        }
    }
}

/// A run of items ends inside the text, at or behind where it starts, and is
/// empty just where these two are one place.
pub proof fn lemma_items_progress(text: Seq<u8>, pos: int, flags: bool)
    requires
        0 <= pos <= text.len(),
    ensures
        pos <= items_from(text, pos, flags).1 <= text.len(),
        items_from(text, pos, flags).0.len() == 0 <==> items_from(text, pos, flags).1 == pos,
        item_at(text, items_from(text, pos, flags).1, flags).is_none(),
    decreases text.len() - pos,
{
    lemma_item_progress(text, pos, flags);
    if let Some(lexeme) = item_at(text, pos, flags) {
        lemma_items_progress(text, lexeme.end, flags);
    }
}

/// A literal is not empty and lies inside the text.
pub proof fn lemma_literal_progress(text: Seq<u8>, pos: int)
    requires
        literal_at(text, pos).is_some(),
    ensures
        0 <= pos < literal_at(text, pos).unwrap().end <= text.len(),
{
    if float_end(text, pos).is_some() {
        lemma_float_progress(text, pos);
    } else if int_end(text, pos).is_some() {
        lemma_int_progress(text, pos);
    } else if bool_at(text, pos).is_some() {
        lemma_keyword_progress(text, pos, |name: Seq<u8>| bool_of(name));
    } else {
        lemma_string_body_end(text, pos + 1);
    }
}

/// The default clause at a place inside the text ends behind that place and
/// inside the text; where there is none, the parser gave up at or behind
/// that place and inside the text.
pub proof fn lemma_default_progress(text: Seq<u8>, pos: int)
    requires
        0 <= pos <= text.len(),
    ensures
        match default_at(text, pos) {
            Outcome::Parsed { end, .. } => pos < end <= text.len(),
            Outcome::Failed { at, .. } => pos <= at <= text.len(),
        },
{
    let lead = items_from(text, pos, false);
    lemma_items_progress(text, pos, false);
    if byte_at(text, lead.1, 0x3D) {
        let gap = items_from(text, lead.1 + 1, false);
        lemma_items_progress(text, lead.1 + 1, false);
        if literal_at(text, gap.1).is_some() {
            lemma_literal_progress(text, gap.1);
        }
    }
}

/// A declaration is not empty and lies inside the text; where there is none,
/// the parser gave up at or behind the place asked from and inside the text.
pub proof fn lemma_definition_progress(text: Seq<u8>, pos: int)
    requires
        0 <= pos <= text.len(),
    ensures
        match definition_at(text, pos) {
            Outcome::Parsed { end, .. } => pos < end <= text.len(),
            Outcome::Failed { at, .. } => pos <= at <= text.len(),
        },
{
    let flags = items_from(text, pos, true);
    lemma_items_progress(text, pos, true);
    if flags.0.len() > 0 {
        if let Some(type_spec) = type_spec_at(text, flags.1) {
            lemma_keyword_progress(text, flags.1, |name: Seq<u8>| type_of(name));
            let gap = items_from(text, type_spec.end, false);
            lemma_items_progress(text, type_spec.end, false);
            if gap.0.len() > 0 {
                if let Some(name_end) = ident_end(text, gap.1) {
                    lemma_run_end(text, gap.1 + 1, Class::IdentContinue);
                    lemma_default_progress(text, name_end);
                }
            }
        }
    }
}

/// Whether the trees in `forest` cover exactly `text[start..end]`.
pub open spec fn covers(forest: Seq<Tree>, text: Seq<u8>, start: int, end: int) -> bool {
    &&& 0 <= start <= end <= text.len()
    &&& forest_text(forest) == text.subrange(start, end)
}

/// A tree over one stretch of text, followed by trees over the next stretch,
/// covers both.
pub proof fn lemma_covers_cons(
    tree: Tree,
    rest: Seq<Tree>,
    text: Seq<u8>,
    start: int,
    mid: int,
    end: int,
)
    requires
        0 <= start <= mid,
        tree.text() == text.subrange(start, mid),
        covers(rest, text, mid, end),
    ensures
        covers(seq![tree] + rest, text, start, end),
{
    lemma_forest_text_one(tree);
    lemma_forest_text_concat(seq![tree], rest);
    assert(text.subrange(start, mid) + text.subrange(mid, end) =~= text.subrange(start, end));
}

/// Trees over one stretch of text, followed by trees over the next stretch,
/// cover both.
pub proof fn lemma_covers_join(
    left: Seq<Tree>,
    right: Seq<Tree>,
    text: Seq<u8>,
    start: int,
    mid: int,
    end: int,
)
    requires
        covers(left, text, start, mid),
        covers(right, text, mid, end),
    ensures
        covers(left + right, text, start, end),
{
    lemma_forest_text_concat(left, right);
    assert(text.subrange(start, mid) + text.subrange(mid, end) =~= text.subrange(start, end));
}

/// A single tree covers the stretch of its text.
pub proof fn lemma_covers_one(tree: Tree, text: Seq<u8>, start: int, end: int)
    requires
        0 <= start <= end <= text.len(),
        tree.text() == text.subrange(start, end),
    ensures
        covers(seq![tree], text, start, end),
{
    lemma_forest_text_one(tree);
}

/// No trees cover an empty stretch.
pub proof fn lemma_covers_none(text: Seq<u8>, at: int)
    requires
        0 <= at <= text.len(),
    ensures
        covers(Seq::<Tree>::empty(), text, at, at),
{
    assert(text.subrange(at, at) =~= Seq::<u8>::empty());
}

/// A keyword is a range that may be sliced.
pub proof fn lemma_keyword_span(text: Seq<u8>, pos: int, table: spec_fn(Seq<u8>) -> Option<Syn>)
    requires
        valid_utf8(text),
        keyword_at(text, pos, table).is_some(),
    ensures
        pos < keyword_at(text, pos, table).unwrap().end,
        is_span(text, pos, keyword_at(text, pos, table).unwrap().end),
{
    lemma_ident_span(text, pos);
}

/// An item of a run is a range that may be sliced.
pub proof fn lemma_item_span(text: Seq<u8>, pos: int, flags: bool)
    requires
        valid_utf8(text),
        item_at(text, pos, flags).is_some(),
    ensures
        pos < item_at(text, pos, flags).unwrap().end,
        is_span(text, pos, item_at(text, pos, flags).unwrap().end),
{
    if flags && flag_at(text, pos).is_some() {
        lemma_keyword_span(text, pos, |name: Seq<u8>| flag_of(name));
    } else if class_at(text, pos, Class::Whitespace) {
        lemma_run_span(text, pos, Class::Whitespace);
    } else if block_comment_end(text, pos).is_some() {
        lemma_block_comment_span(text, pos);
    } else {
        lemma_line_comment_span(text, pos);
    }
}

/// A literal is a range that may be sliced.
pub proof fn lemma_literal_span(text: Seq<u8>, pos: int)
    requires
        valid_utf8(text),
        literal_at(text, pos).is_some(),
    ensures
        pos < literal_at(text, pos).unwrap().end,
        is_span(text, pos, literal_at(text, pos).unwrap().end),
{
    if float_end(text, pos).is_some() {
        lemma_float_span(text, pos);
    } else if int_end(text, pos).is_some() {
        lemma_int_span(text, pos);
    } else if bool_at(text, pos).is_some() {
        lemma_keyword_span(text, pos, |name: Seq<u8>| bool_of(name));
    } else {
        lemma_string_body_end(text, pos + 1);
        lemma_ascii_span(text, pos, string_end(text, pos).unwrap());
    }
}

/// A run of items that starts at a boundary covers the text up to its end,
/// which is a boundary too.
pub proof fn lemma_items_cover(text: Seq<u8>, pos: int, flags: bool)
    requires
        valid_utf8(text),
        0 <= pos <= text.len(),
        is_char_boundary(text, pos),
    ensures
        covers(items_from(text, pos, flags).0, text, pos, items_from(text, pos, flags).1),
        is_char_boundary(text, items_from(text, pos, flags).1),
    decreases text.len() - pos,
{
    match item_at(text, pos, flags) {
        Some(lexeme) => {
            lemma_item_progress(text, pos, flags);
            lemma_item_span(text, pos, flags);
            lemma_items_cover(text, lexeme.end, flags);
            let rest = items_from(text, lexeme.end, flags);
            lemma_covers_cons(lexeme_tree(text, pos, lexeme), rest.0, text, pos, lexeme.end, rest.1);
        },
        None => {
            lemma_covers_none(text, pos);
        },
    }
}

/// A default clause that starts at a boundary covers the text up to its end,
/// which is a boundary; where there is none, the parser gave up at a
/// boundary.
pub proof fn lemma_default_cover(text: Seq<u8>, pos: int)
    requires
        valid_utf8(text),
        0 <= pos <= text.len(),
        is_char_boundary(text, pos),
    ensures
        match default_at(text, pos) {
            Outcome::Parsed { tree, end, .. } => covers(seq![tree], text, pos, end)
                && is_char_boundary(text, end) && pos < end,
            Outcome::Failed { at, .. } => pos <= at <= text.len() && is_char_boundary(text, at),
        },
{
    let lead = items_from(text, pos, false);
    lemma_items_cover(text, pos, false);
    lemma_default_progress(text, pos);
    if byte_at(text, lead.1, 0x3D) {
        lemma_ascii_boundaries(text, lead.1);
        let mark = leaf(Syn::Eq.raw(), text, lead.1, lead.1 + 1);
        let gap = items_from(text, lead.1 + 1, false);
        lemma_items_cover(text, lead.1 + 1, false);
        match literal_at(text, gap.1) {
            Some(lexeme) => {
                lemma_literal_span(text, gap.1);
                lemma_literal_progress(text, gap.1);
                let value = lexeme_tree(text, gap.1, lexeme);
                lemma_covers_one(mark, text, lead.1, lead.1 + 1);
                lemma_covers_join(lead.0, seq![mark], text, pos, lead.1, lead.1 + 1);
                lemma_covers_join(lead.0 + seq![mark], gap.0, text, pos, lead.1 + 1, gap.1);
                lemma_covers_one(value, text, gap.1, lexeme.end);
                lemma_covers_join(
                    lead.0 + seq![mark] + gap.0,
                    seq![value],
                    text,
                    pos,
                    gap.1,
                    lexeme.end,
                );
                let tree = default_at(text, pos)->tree;
                lemma_covers_one(tree, text, pos, lexeme.end);
            },
            None => {},
        }
    }
}

/// The end of a declaration, put behind children that cover the text from
/// `start` up to `pos`, gives a declaration that covers the text from
/// `start` up to its end.
pub proof fn lemma_tail_cover(text: Seq<u8>, pos: int, front: Seq<Tree>, start: int)
    requires
        valid_utf8(text),
        covers(front, text, start, pos),
        is_char_boundary(text, pos),
    ensures
        match definition_tail(text, pos, front) {
            Outcome::Parsed { tree, end, .. } => covers(seq![tree], text, start, end)
                && is_char_boundary(text, end) && pos < end,
            Outcome::Failed { at, .. } => pos <= at <= text.len() && is_char_boundary(text, at),
        },
{
    lemma_default_cover(text, pos);
    match default_at(text, pos) {
        Outcome::Parsed { tree, end, notes } => {
            if byte_at(text, end, 0x3B) {
                lemma_ascii_boundaries(text, end);
                let semi = leaf(Syn::Semicolon.raw(), text, end, end + 1);
                lemma_covers_one(semi, text, end, end + 1);
                lemma_covers_join(seq![tree], seq![semi], text, pos, end, end + 1);
                assert(seq![tree] + seq![semi] =~= seq![tree, semi]);
                lemma_covers_join(front, seq![tree, semi], text, start, pos, end + 1);
                let whole = definition_tail(text, pos, front)->tree;
                lemma_covers_one(whole, text, start, end + 1);
            }
        },
        Outcome::Failed { at, reason } => {
            if byte_at(text, pos, 0x3B) {
                lemma_ascii_boundaries(text, pos);
                let semi = leaf(Syn::Semicolon.raw(), text, pos, pos + 1);
                lemma_covers_one(semi, text, pos, pos + 1);
                lemma_covers_join(front, seq![semi], text, start, pos, pos + 1);
                let whole = definition_tail(text, pos, front)->tree;
                lemma_covers_one(whole, text, start, pos + 1);
            }
        },
    }
}

/// A declaration that starts at a boundary covers the text up to its end,
/// which is a boundary; where there is none, the parser gave up at a
/// boundary.
pub proof fn lemma_definition_cover(text: Seq<u8>, pos: int)
    requires
        valid_utf8(text),
        0 <= pos <= text.len(),
        is_char_boundary(text, pos),
    ensures
        match definition_at(text, pos) {
            Outcome::Parsed { tree, end, .. } => covers(seq![tree], text, pos, end)
                && is_char_boundary(text, end) && pos < end,
            Outcome::Failed { at, .. } => pos <= at <= text.len() && is_char_boundary(text, at),
        },
{
    let flags = items_from(text, pos, true);
    lemma_items_cover(text, pos, true);
    lemma_items_progress(text, pos, true);
    if flags.0.len() > 0 {
        if let Some(type_spec) = type_spec_at(text, flags.1) {
            lemma_keyword_span(text, flags.1, |name: Seq<u8>| type_of(name));
            lemma_keyword_progress(text, flags.1, |name: Seq<u8>| type_of(name));
            let gap = items_from(text, type_spec.end, false);
            lemma_items_cover(text, type_spec.end, false);
            lemma_items_progress(text, type_spec.end, false);
            if gap.0.len() > 0 {
                if let Some(name_end) = ident_end(text, gap.1) {
                    lemma_ident_span(text, gap.1);
                    let group = branch(Syn::Flags.raw(), flags.0);
                    let kind = lexeme_tree(text, flags.1, type_spec);
                    let name = leaf(Syn::Ident.raw(), text, gap.1, name_end);
                    lemma_covers_one(group, text, pos, flags.1);
                    lemma_covers_one(kind, text, flags.1, type_spec.end);
                    lemma_covers_join(seq![group], seq![kind], text, pos, flags.1, type_spec.end);
                    assert(seq![group] + seq![kind] =~= seq![group, kind]);
                    lemma_covers_join(seq![group, kind], gap.0, text, pos, type_spec.end, gap.1);
                    lemma_covers_one(name, text, gap.1, name_end);
                    lemma_covers_join(
                        seq![group, kind] + gap.0,
                        seq![name],
                        text,
                        pos,
                        gap.1,
                        name_end,
                    );
                    lemma_tail_cover(
                        text,
                        name_end,
                        seq![group, kind] + gap.0 + seq![name],
                        pos,
                    );
                }
            }
        }
    }
}

/// What was read before a step, with the step's children and errors added,
/// and what is read behind the step, make up what is read in all.
pub proof fn lemma_document_step(
    text: Seq<u8>,
    pos: int,
    tolerant: bool,
    items: Seq<Tree>,
    errors: Seq<ParseError>,
)
    requires
        0 <= pos < text.len(),
    ensures
        ({
            let unit = unit_at(text, pos, tolerant);
            let rest = match unit.next {
                Some(end) => document_from(text, end, tolerant),
                None => Document { items: Seq::empty(), errors: Seq::empty() },
            };
            &&& items + document_from(text, pos, tolerant).items == (items + unit.items)
                + rest.items
            &&& errors + document_from(text, pos, tolerant).errors == (errors + unit.errors)
                + rest.errors
        }),
{
    let unit = unit_at(text, pos, tolerant);
    match unit.next {
        Some(end) => {
            let rest = document_from(text, end, tolerant);
            assert(items + (unit.items + rest.items) =~= (items + unit.items) + rest.items);
            assert(errors + (unit.errors + rest.errors) =~= (errors + unit.errors) + rest.errors);
        },
        None => {
            assert((items + unit.items) + Seq::<Tree>::empty() =~= items + unit.items);
            assert((errors + unit.errors) + Seq::<ParseError>::empty() =~= errors + unit.errors);
        },
    }
}

/// What recovery yields covers the text from the start of the declaration
/// that failed up to where reading goes on, which is a boundary.
pub proof fn lemma_recovered_cover(text: Seq<u8>, pos: int, at: int)
    requires
        valid_utf8(text),
        0 <= pos <= at <= text.len(),
        is_char_boundary(text, pos),
    ensures
        covers(recovered(text, pos, at).0, text, pos, recovered(text, pos, at).1),
        is_char_boundary(text, recovered(text, pos, at).1),
{
    let stop = sync_at(text, at);
    lemma_sync_at(text, at);
    let skipped = if pos < stop {
        seq![leaf(Syn::Unknown.raw(), text, pos, stop)]
    } else {
        Seq::empty()
    };
    if pos < stop {
        lemma_covers_one(leaf(Syn::Unknown.raw(), text, pos, stop), text, pos, stop);
    } else {
        lemma_covers_none(text, pos);
    }
    if byte_at(text, stop, 0x3B) {
        let semi = leaf(Syn::Semicolon.raw(), text, stop, stop + 1);
        lemma_ascii_boundaries(text, stop);
        lemma_covers_one(semi, text, stop, stop + 1);
        lemma_covers_join(skipped, seq![semi], text, pos, stop, stop + 1);
        assert(skipped + seq![semi] =~= skipped.push(semi));
    }
}

/// A step that starts at a boundary yields children that cover the text up
/// to where the step ends, which is a boundary.
pub proof fn lemma_unit_cover(text: Seq<u8>, pos: int, tolerant: bool)
    requires
        valid_utf8(text),
        0 <= pos < text.len(),
        is_char_boundary(text, pos),
    ensures
        unit_at(text, pos, tolerant).next matches Some(end) ==> covers(
            unit_at(text, pos, tolerant).items,
            text,
            pos,
            end,
        ) && is_char_boundary(text, end) && pos < end,
{
    reveal(unit_at);
    lemma_unit_progress(text, pos, tolerant);
    match trivia_at(text, pos) {
        Some(lexeme) => {
            lemma_item_progress(text, pos, false);
            lemma_item_span(text, pos, false);
            lemma_covers_one(lexeme_tree(text, pos, lexeme), text, pos, lexeme.end);
        },
        None => {
            lemma_definition_cover(text, pos);
            if let Outcome::Failed { at, reason } = definition_at(text, pos) {
                lemma_recovered_cover(text, pos, at);
            }
        },
    }
}

/// Span coverage. A file that is read tolerantly, or read strictly without
/// an error, yields items whose leaves, put together in order, are the text
/// read: nothing is lost, doubled or moved.
pub proof fn lemma_document_cover(text: Seq<u8>, pos: int, tolerant: bool)
    requires
        valid_utf8(text),
        0 <= pos <= text.len(),
        is_char_boundary(text, pos),
        tolerant || document_from(text, pos, tolerant).errors.len() == 0,
    ensures
        covers(document_from(text, pos, tolerant).items, text, pos, text.len() as int),
    decreases text.len() - pos,
{
    if pos >= text.len() {
        lemma_covers_none(text, pos);
    } else {
        lemma_unit_progress(text, pos, tolerant);
        lemma_unit_cover(text, pos, tolerant);
        match unit_at(text, pos, tolerant).next {
            Some(end) => {
                lemma_document_cover(text, end, tolerant);
                lemma_covers_join(
                    unit_at(text, pos, tolerant).items,
                    document_from(text, end, tolerant).items,
                    text,
                    pos,
                    end,
                    text.len() as int,
                );
            },
            None => {},
        }
    }
}

/// Keyword case-insensitivity. Two names that differ only in the case of
/// their ASCII letters are the same keyword, or both are none: `SERVER`,
/// `Server` and `server` are one scope keyword.
pub proof fn lemma_keywords_ignore_case(left: Seq<u8>, right: Seq<u8>)
    requires
        eq_ignoring_case(left, right),
    ensures
        flag_of(left) == flag_of(right),
        type_of(left) == type_of(right),
        bool_of(left) == bool_of(right),
{
    lemma_eq_ignoring_case_trans(left, right, "server".spec_bytes());
    lemma_eq_ignoring_case_trans(left, right, "user".spec_bytes());
    lemma_eq_ignoring_case_trans(left, right, "nosave".spec_bytes());
    lemma_eq_ignoring_case_trans(left, right, "noarchive".spec_bytes());
    lemma_eq_ignoring_case_trans(left, right, "cheat".spec_bytes());
    lemma_eq_ignoring_case_trans(left, right, "latch".spec_bytes());
    lemma_eq_ignoring_case_trans(left, right, "int".spec_bytes());
    lemma_eq_ignoring_case_trans(left, right, "float".spec_bytes());
    lemma_eq_ignoring_case_trans(left, right, "bool".spec_bytes());
    lemma_eq_ignoring_case_trans(left, right, "color".spec_bytes());
    lemma_eq_ignoring_case_trans(left, right, "string".spec_bytes());
    lemma_eq_ignoring_case_trans(left, right, "true".spec_bytes());
    lemma_eq_ignoring_case_trans(left, right, "false".spec_bytes());
}

/// Keyword case-insensitivity, in place. Where two texts hold identifiers of
/// one length that differ only in the case of their letters, the one holds a
/// keyword just where the other holds it, with the same tag and end.
pub proof fn lemma_keyword_at_ignores_case(
    left: Seq<u8>,
    left_pos: int,
    right: Seq<u8>,
    right_pos: int,
)
    requires
        ident_end(left, left_pos) matches Some(left_end) && ident_end(right, right_pos) matches Some(
            right_end,
        ) && eq_ignoring_case(
            left.subrange(left_pos, left_end),
            right.subrange(right_pos, right_end),
        ),
    ensures
        flag_at(left, left_pos).is_some() == flag_at(right, right_pos).is_some(),
        flag_at(left, left_pos) matches Some(found) ==> flag_at(right, right_pos).unwrap().kind
            == found.kind,
        type_spec_at(left, left_pos).is_some() == type_spec_at(right, right_pos).is_some(),
        type_spec_at(left, left_pos) matches Some(found) ==> type_spec_at(
            right,
            right_pos,
        ).unwrap().kind == found.kind,
        bool_at(left, left_pos).is_some() == bool_at(right, right_pos).is_some(),
        bool_at(left, left_pos) matches Some(found) ==> bool_at(right, right_pos).unwrap().kind
            == found.kind,
{
    let left_end = ident_end(left, left_pos).unwrap();
    let right_end = ident_end(right, right_pos).unwrap();
    lemma_keywords_ignore_case(
        left.subrange(left_pos, left_end),
        right.subrange(right_pos, right_end),
    );
}

/// Whether the errors come in the order of the text, none before `low`:
/// each starts behind the one before it.
pub open spec fn ordered_from(errors: Seq<ParseError>, low: int) -> bool {
    &&& forall|i: int| 0 <= i < errors.len() ==> low <= (#[trigger] errors[i]).start
    &&& forall|i: int, j: int|
        0 <= i < j < errors.len() ==> (#[trigger] errors[i]).start < (#[trigger] errors[j]).start
}

/// Errors in order, all before `mid`, followed by errors in order from `mid`
/// on, are in order.
pub proof fn lemma_ordered_join(
    left: Seq<ParseError>,
    right: Seq<ParseError>,
    low: int,
    mid: int,
)
    requires
        ordered_from(left, low),
        ordered_from(right, mid),
        low <= mid,
        forall|i: int| 0 <= i < left.len() ==> (#[trigger] left[i]).start < mid,
    ensures
        ordered_from(left + right, low),
{
    let all = left + right;
    assert forall|i: int| 0 <= i < all.len() implies low <= (#[trigger] all[i]).start by {
        if i >= left.len() {
            assert(all[i] == right[i - left.len()]);
        } else {
            assert(all[i] == left[i]);
        }
    }
    assert forall|i: int, j: int| 0 <= i < j < all.len() implies (#[trigger] all[i]).start < (
    #[trigger] all[j]).start by {
        if j < left.len() {
            assert(all[i] == left[i] && all[j] == left[j]);
        } else if i >= left.len() {
            assert(all[i] == right[i - left.len()] && all[j] == right[j - left.len()]);
        } else {
            assert(all[i] == left[i] && all[j] == right[j - left.len()]);
        }
    }
}

/// The notes taken inside a string come in the order of the text and lie
/// inside the string.
pub proof fn lemma_string_notes_ordered(text: Seq<u8>, pos: int)
    requires
        0 <= pos <= text.len() <= usize::MAX,
    ensures
        ordered_from(string_body_notes(text, pos), pos),
        forall|i: int|
            0 <= i < string_body_notes(text, pos).len() ==> (#[trigger] string_body_notes(
                text,
                pos,
            )[i]).start < string_body_end(text, pos),
    decreases text.len() - pos,
{
    lemma_string_body_end(text, pos);
    if pos >= text.len() {
    } else if text[pos] != 0x5C && text[pos] != 0x22 {
        lemma_string_notes_ordered(text, pos + 1);
    } else if escape_at(text, pos) {
        lemma_string_notes_ordered(text, pos + 6);
        lemma_string_body_end(text, pos + 6);
        let here = escape_notes(text, pos);
        let rest = string_body_notes(text, pos + 6);
        assert(ordered_from(here, pos));
        lemma_ordered_join(here, rest, pos, pos + 6);
        let all = here + rest;
        assert forall|i: int| 0 <= i < all.len() implies (#[trigger] all[i]).start
            < string_body_end(text, pos) by {
            if i >= here.len() {
                assert(all[i] == rest[i - here.len()]);
            } else {
                assert(all[i] == here[i]);
            }
        }
    }
}

/// The errors that one step raises come in the order of the text and start
/// at or behind the place of the step and inside the text. Each starts
/// before the place where the next step starts, unless that is the end of
/// the text, or it is the place of a line break that the next step reads as
/// whitespace.
pub proof fn lemma_unit_errors_ordered(text: Seq<u8>, pos: int, tolerant: bool)
    requires
        0 <= pos < text.len() <= usize::MAX,
    ensures
        ordered_from(unit_at(text, pos, tolerant).errors, pos),
        forall|i: int|
            0 <= i < unit_at(text, pos, tolerant).errors.len() ==> (#[trigger] unit_at(
                text,
                pos,
                tolerant,
            ).errors[i]).start <= text.len(),
        unit_at(text, pos, tolerant).next matches Some(end) ==> forall|i: int|
            0 <= i < unit_at(text, pos, tolerant).errors.len() ==> {
                let start = (#[trigger] unit_at(text, pos, tolerant).errors[i]).start;
                start < end || end == text.len() || (start == end && trivia_at(
                    text,
                    end,
                ).is_some())
            },
{
    reveal(unit_at);
    lemma_definition_progress(text, pos);
    if trivia_at(text, pos).is_none() {
        match definition_at(text, pos) {
            Outcome::Parsed { tree, end, notes } => {
                lemma_definition_notes_ordered(text, pos);
            },
            Outcome::Failed { at, reason } => {
                lemma_sync_at(text, at);
            },
        }
    }
}

/// The notes taken inside a declaration come in the order of the text and
/// lie inside the declaration.
pub proof fn lemma_definition_notes_ordered(text: Seq<u8>, pos: int)
    requires
        0 <= pos <= text.len() <= usize::MAX,
    ensures
        definition_at(text, pos) matches Outcome::Parsed { end, notes, .. } ==> ordered_from(
            notes,
            pos,
        ) && forall|i: int| 0 <= i < notes.len() ==> (#[trigger] notes[i]).start < end,
{
    let flags = items_from(text, pos, true);
    lemma_items_progress(text, pos, true);
    if flags.0.len() > 0 {
        if let Some(type_spec) = type_spec_at(text, flags.1) {
            lemma_keyword_progress(text, flags.1, |name: Seq<u8>| type_of(name));
            let gap = items_from(text, type_spec.end, false);
            lemma_items_progress(text, type_spec.end, false);
            if gap.0.len() > 0 {
                if let Some(name_end) = ident_end(text, gap.1) {
                    lemma_run_end(text, gap.1 + 1, Class::IdentContinue);
                    let lead = items_from(text, name_end, false);
                    lemma_items_progress(text, name_end, false);
                    if byte_at(text, lead.1, 0x3D) {
                        let space = items_from(text, lead.1 + 1, false);
                        lemma_items_progress(text, lead.1 + 1, false);
                        if let Some(lexeme) = literal_at(text, space.1) {
                            lemma_literal_progress(text, space.1);
                            if lexeme.kind == Syn::LitString {
                                lemma_string_notes_ordered(text, space.1 + 1);
                                lemma_string_body_end(text, space.1 + 1);
                                lemma_string_literal_end(text, space.1);
                            }
                        }
                    }
                }
            }
        }
    }
}

/// A literal that is tagged as a string ends where the string at its place
/// ends.
pub proof fn lemma_string_literal_end(text: Seq<u8>, pos: int)
    requires
        literal_at(text, pos) matches Some(lexeme) && lexeme.kind == Syn::LitString,
    ensures
        string_end(text, pos) == Some(literal_at(text, pos).unwrap().end),
{
    if bool_at(text, pos).is_some() {
        let name = text.subrange(pos, ident_end(text, pos).unwrap());
        assert(bool_of(name).is_some());
    }
}

/// Recovery progress. Every error starts at or behind the place where
/// reading started and inside the text, and behind the error before it: no
/// place in the text gives rise to two errors, and reading never goes back.
/// Where reading starts at whitespace or a comment, every error starts
/// behind that place.
pub proof fn lemma_errors_ordered(text: Seq<u8>, pos: int, tolerant: bool)
    requires
        0 <= pos <= text.len() <= usize::MAX,
    ensures
        ordered_from(document_from(text, pos, tolerant).errors, pos),
        trivia_at(text, pos).is_some() ==> ordered_from(
            document_from(text, pos, tolerant).errors,
            pos + 1,
        ),
        forall|i: int|
            0 <= i < document_from(text, pos, tolerant).errors.len() ==> (
            #[trigger] document_from(text, pos, tolerant).errors[i]).start <= text.len(),
    decreases text.len() - pos,
{
    if pos < text.len() {
        let unit = unit_at(text, pos, tolerant);
        lemma_unit_progress(text, pos, tolerant);
        lemma_unit_errors_ordered(text, pos, tolerant);
        if trivia_at(text, pos).is_some() {
            reveal(unit_at);
        }
        match unit.next {
            Some(end) => {
                lemma_errors_ordered(text, end, tolerant);
                let rest = document_from(text, end, tolerant).errors;
                let all = unit.errors + rest;
                if end == text.len() {
                    assert(rest =~= Seq::<ParseError>::empty());
                    assert(all =~= unit.errors);
                } else if trivia_at(text, end).is_some() {
                    lemma_ordered_join(unit.errors, rest, pos, end + 1);
                } else {
                    lemma_ordered_join(unit.errors, rest, pos, end);
                }
                assert forall|i: int| 0 <= i < all.len() implies (#[trigger] all[i]).start
                    <= text.len() by {
                    if i >= unit.errors.len() {
                        assert(all[i] == rest[i - unit.errors.len()]);
                    } else {
                        assert(all[i] == unit.errors[i]);
                    }
                }
                if trivia_at(text, pos).is_some() {
                    assert(all =~= rest);
                }
            },
            None => {},
        }
    } else {
        assert(trivia_at(text, pos).is_none()) by {
            lemma_item_progress(text, pos, false);
        }
    }
}

/// Recovery progress, step by step. Where a declaration fails, recovery
/// stops at the first `;`, carriage return or newline at or behind the place
/// of the error, or at the end of the text, and steps over none on its way.
/// What it yields is never nothing: reading goes on behind the place where
/// the declaration started, and at most one byte behind the place where
/// recovery stopped, which is then a `;`.
pub proof fn lemma_recovery_progress(text: Seq<u8>, pos: int)
    requires
        0 <= pos < text.len(),
        trivia_at(text, pos).is_none(),
        definition_at(text, pos) is Failed,
    ensures
        ({
            let at = definition_at(text, pos)->at;
            let stop = sync_at(text, at);
            let end = recovered(text, pos, at).1;
            &&& pos <= at <= stop <= end <= text.len()
            &&& pos < end
            &&& end == stop || (end == stop + 1 && text[stop] == 0x3B)
            &&& stop < text.len() ==> Class::Sync.has(text[stop])
            &&& forall|i: int| at <= i < stop ==> !Class::Sync.has(#[trigger] text[i])
            &&& recovered(text, pos, at).0.len() > 0
        }),
{
    let at = definition_at(text, pos)->at;
    lemma_definition_progress(text, pos);
    lemma_sync_at(text, at);
    lemma_no_trivia_no_break(text, pos);
}

/// A file that a strict reading accepts reads the same tolerantly: the same
/// items, and no error.
pub proof fn lemma_strict_is_tolerant(text: Seq<u8>, pos: int)
    requires
        document_from(text, pos, false).errors.len() == 0,
    ensures
        document_from(text, pos, true) == document_from(text, pos, false),
    decreases text.len() - pos,
{
    if 0 <= pos < text.len() {
        reveal(unit_at);
        lemma_unit_progress(text, pos, false);
        let strict = unit_at(text, pos, false);
        let tolerant = unit_at(text, pos, true);
        match strict.next {
            Some(end) => {
                let rest = document_from(text, end, false);
                assert(strict.errors.len() == 0 && rest.errors.len() == 0) by {
                    assert((strict.errors + rest.errors).len() == 0);
                }
                assert(tolerant == strict);
                lemma_strict_is_tolerant(text, end);
            },
            None => {},
        }
    }
}

/// A run of items holds no empty token.
pub proof fn lemma_items_filled(text: Seq<u8>, pos: int, flags: bool)
    requires
        0 <= pos <= text.len(),
    ensures
        forest_filled(items_from(text, pos, flags).0),
    decreases text.len() - pos,
{
    if let Some(lexeme) = item_at(text, pos, flags) {
        lemma_item_progress(text, pos, flags);
        lemma_items_filled(text, lexeme.end, flags);
        let first = seq![lexeme_tree(text, pos, lexeme)];
        assert(forest_filled(first));
        lemma_forest_filled_concat(first, items_from(text, lexeme.end, flags).0);
    }
}

/// A declaration holds no empty token.
pub proof fn lemma_definition_filled(text: Seq<u8>, pos: int)
    requires
        0 <= pos <= text.len(),
        definition_at(text, pos) is Parsed,
    ensures
        (definition_at(text, pos)->tree).leaves_filled(),
{
    let flags = items_from(text, pos, true);
    lemma_items_progress(text, pos, true);
    lemma_items_filled(text, pos, true);
    let type_spec = type_spec_at(text, flags.1).unwrap();
    lemma_keyword_progress(text, flags.1, |name: Seq<u8>| type_of(name));
    let gap = items_from(text, type_spec.end, false);
    lemma_items_progress(text, type_spec.end, false);
    lemma_items_filled(text, type_spec.end, false);
    let name_end = ident_end(text, gap.1).unwrap();
    lemma_run_end(text, gap.1 + 1, Class::IdentContinue);
    let group = branch(Syn::Flags.raw(), flags.0);
    let kind = lexeme_tree(text, flags.1, type_spec);
    let name = leaf(Syn::Ident.raw(), text, gap.1, name_end);
    assert(group.leaves_filled());
    let head = seq![group, kind];
    assert(forest_filled(head));
    lemma_forest_filled_concat(head, gap.0);
    assert(forest_filled(seq![name]));
    lemma_forest_filled_concat(head + gap.0, seq![name]);
    let front = head + gap.0 + seq![name];
    let tree = definition_at(text, pos)->tree;
    lemma_default_progress(text, name_end);
    match default_at(text, name_end) {
        Outcome::Parsed { tree: clause, end, notes } => {
            let lead = items_from(text, name_end, false);
            lemma_items_progress(text, name_end, false);
            lemma_items_filled(text, name_end, false);
            let space = items_from(text, lead.1 + 1, false);
            lemma_items_progress(text, lead.1 + 1, false);
            lemma_items_filled(text, lead.1 + 1, false);
            lemma_literal_progress(text, space.1);
            let mark = seq![leaf(Syn::Eq.raw(), text, lead.1, lead.1 + 1)];
            let value = seq![lexeme_tree(text, space.1, literal_at(text, space.1).unwrap())];
            assert(forest_filled(mark));
            assert(forest_filled(value));
            lemma_forest_filled_concat(lead.0, mark);
            lemma_forest_filled_concat(lead.0 + mark, space.0);
            lemma_forest_filled_concat(lead.0 + mark + space.0, value);
            assert(clause.children() == lead.0 + mark + space.0 + value);
            assert(clause.leaves_filled());
            let tail = seq![clause, leaf(Syn::Semicolon.raw(), text, end, end + 1)];
            assert(forest_filled(tail));
            lemma_forest_filled_concat(front, tail);
            assert(tree.children() == front + tail);
        },
        Outcome::Failed { at, reason } => {
            let tail = seq![leaf(Syn::Semicolon.raw(), text, name_end, name_end + 1)];
            assert(forest_filled(tail));
            lemma_forest_filled_concat(front, tail);
            assert(tree.children() == front + tail);
        },
    }
}

/// No step yields an empty token.
pub proof fn lemma_unit_filled(text: Seq<u8>, pos: int, tolerant: bool)
    requires
        0 <= pos < text.len(),
    ensures
        forest_filled(unit_at(text, pos, tolerant).items),
{
    reveal(unit_at);
    lemma_item_progress(text, pos, false);
    if trivia_at(text, pos).is_none() {
        match definition_at(text, pos) {
            Outcome::Parsed { tree, end, notes } => {
                lemma_definition_filled(text, pos);
            },
            Outcome::Failed { at, reason } => {
                lemma_definition_progress(text, pos);
                lemma_sync_at(text, at);
            },
        }
    }
}

/// No reading of a file yields an empty token among the children of the
/// root or below them.
pub proof fn lemma_document_filled(text: Seq<u8>, pos: int, tolerant: bool)
    requires
        0 <= pos <= text.len(),
    ensures
        forest_filled(document_from(text, pos, tolerant).items),
    decreases text.len() - pos,
{
    if pos < text.len() {
        lemma_unit_progress(text, pos, tolerant);
        lemma_unit_filled(text, pos, tolerant);
        let unit = unit_at(text, pos, tolerant);
        match unit.next {
            Some(end) => {
                lemma_document_filled(text, end, tolerant);
                lemma_forest_filled_concat(unit.items, document_from(text, end, tolerant).items);
            },
            None => {},
        }
    }
}

/// Every leaf is filled. The tree of a file, however it is read, holds no
/// empty token: each token covers at least one byte of the text. Together
/// with span coverage this says that every byte of the text lies in exactly
/// one token, and that no place in the text is read twice.
pub proof fn lemma_document_tree_filled(text: Seq<u8>, tolerant: bool)
    ensures
        document_tree(text, tolerant).leaves_filled(),
{
    lemma_document_filled(text, 0, tolerant);
}

} // verus!
