//! Errors that malformed source text gives rise to.
//!
//! These are data, handed to the caller in the order in which they were
//! raised. A defect of a grammar or of a caller of the tree builder is not
//! among them: such a thing is ruled out by a function's `requires`.

use vstd::prelude::*;
use vstd::utf8::{is_char_boundary, valid_utf8};

use crate::text::{lemma_next_boundary, next_boundary};

verus! {

/// Why a parser could not go on, or what it took note of.
#[derive(Debug, Clone, Copy, PartialEq, Eq, Hash, Structural)]
pub enum Reason {
    /// A declaration has to open with a scope or qualifier keyword.
    ExpectedFlag,
    /// After the flags comes one of the type keywords.
    ExpectedTypeSpec,
    /// The type keyword and the name are kept apart by whitespace or a
    /// comment.
    ExpectedWhitespace,
    /// After the type comes the name, an identifier.
    ExpectedIdent,
    /// After the name comes `=` with a default value, or `;`.
    ExpectedDefaultOrSemicolon,
    /// After `=` comes a literal.
    ExpectedLiteral,
    /// A declaration ends with `;`.
    ExpectedSemicolon,
    /// The four hexadecimal digits of an escape name no character. The
    /// replacement character U+FFFD stands in for it, and parsing goes on.
    InvalidCodePoint,
}

impl Reason {
    /// What the parser was looking for, in words.
    pub fn message(&self) -> (text: &'static str)
        ensures
            text@ == self.text(),
    {
        match self {
            Reason::ExpectedFlag => "expected a flag or scope specifier",
            Reason::ExpectedTypeSpec => "expected a type specifier",
            Reason::ExpectedWhitespace => "expected whitespace or a comment",
            Reason::ExpectedIdent => "expected an identifier",
            Reason::ExpectedDefaultOrSemicolon => "expected `=` or `;`",
            Reason::ExpectedLiteral => "expected a literal",
            Reason::ExpectedSemicolon => "expected `;`",
            Reason::InvalidCodePoint => "invalid UTF-8 character",
        }
    }

    /// The words of [`Reason::message`].
    pub open spec fn text(&self) -> Seq<char> {
        match self {
            Reason::ExpectedFlag => "expected a flag or scope specifier"@,
            Reason::ExpectedTypeSpec => "expected a type specifier"@,
            Reason::ExpectedWhitespace => "expected whitespace or a comment"@,
            Reason::ExpectedIdent => "expected an identifier"@,
            Reason::ExpectedDefaultOrSemicolon => "expected `=` or `;`"@,
            Reason::ExpectedLiteral => "expected a literal"@,
            Reason::ExpectedSemicolon => "expected `;`"@,
            Reason::InvalidCodePoint => "invalid UTF-8 character"@,
        }
    }
}

/// An error in source text: where it is and what is wrong there.
#[derive(Debug, Clone, Copy, PartialEq, Eq, Hash, Structural)]
pub struct ParseError {
    /// The byte position at which the error was raised.
    pub start: usize,
    /// The end of the offending text, a byte position.
    pub end: usize,
    /// What is wrong.
    pub reason: Reason,
}

impl ParseError {
    /// The range of bytes that the error points at.
    pub fn span(&self) -> (span: core::ops::Range<usize>)
        ensures
            span.start == self.start,
            span.end == self.end,
    {
        self.start..self.end
    }

    /// What is wrong, in words.
    pub fn message(&self) -> (text: &'static str)
        ensures
            text@ == self.reason.text(),
    {
        self.reason.message()
    }
}

/// Where the span of an error raised at `pos` ends: behind the character at
/// `pos`, or at `pos` where the text ends there.
pub open spec fn unexpected_end(text: Seq<u8>, pos: int) -> int {
    if 0 <= pos < text.len() {
        next_boundary(text, pos)
    } else {
        pos
    }
}

/// The error raised at `pos` for `reason`: it spans the one character found
/// there, or nothing at the end of the text.
pub open spec fn unexpected(text: Seq<u8>, pos: int, reason: Reason) -> ParseError {
    ParseError { start: pos as usize, end: unexpected_end(text, pos) as usize, reason }
}

/// Raises the error for `reason` at `pos`.
pub fn unexpected_at(src: &[u8], pos: usize, reason: Reason) -> (error: ParseError)
    requires
        valid_utf8(src@),
        pos <= src@.len(),
        is_char_boundary(src@, pos as int),
    ensures
        error == unexpected(src@, pos as int, reason),
        pos <= error.end <= src@.len(),
        pos < src@.len() ==> pos < error.end,
{
    if pos >= src.len() {
        return ParseError { start: pos, end: pos, reason };
    }
    proof {
        lemma_next_boundary(src@, pos as int);
        assert(src@.subrange(pos as int, src@.len() as int)[0] == src@[pos as int]);
    }
    let b = src[pos];
    let width: usize = if b <= 0x7F {
        1
    } else if 0xC0 <= b && b <= 0xDF {
        2
    } else if 0xE0 <= b && b <= 0xEF {
        3
    } else {
        4
    };
    ParseError { start: pos, end: pos + width, reason }
}

} // verus!
