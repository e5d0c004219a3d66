//! Syntax tags.

use vstd::prelude::*;
use vstd::std_specs::convert::FromSpecImpl;

use crate::{LangComment, LangExt};

verus! {

/// DECORATE syntax nodes, from low-level primitives to high-level composites.
///
/// A tag's number is its position in this list, counted from zero, so
/// [`Syn::Root`] carries the largest valid number.
#[derive(Debug, Clone, Copy, PartialEq, Eq, PartialOrd, Ord, Hash, Structural)]
pub enum Syn {
    /// `enum {};`
    EnumDef,
    /// `NAME = expr`
    EnumVariant,
    /// e.g. `expr + expr`
    ExprBinary,
    /// `expr()`
    ExprCall,
    /// `expr[expr]`; array element access.
    ExprIndex,
    /// e.g. `expr++` or `expr?`
    ExprPostfix,
    /// e.g. `++expr`
    ExprPrefix,
    /// `expr = expr ? expr : expr`
    ExprTernary,
    /// Syntax node with just a [`Syn::Ident`] token as a child.
    /// Used as part of function declarations, variable bindings, et cetera.
    /// Not to be confused with the name literal.
    Name,
    /// `ident:`. Used in actor state definition blocks.
    /// Distinct from [`Syn::Name`] since it does not introduce a symbol into a scope.
    Label,
    Literal,
    KwAction,
    KwActor,
    KwBreak,
    KwConst,
    KwContinue,
    KwDo,
    KwElse,
    KwEnum,
    KwFail,
    KwFor,
    KwIf,
    KwGoto,
    KwNative,
    KwReplaces,
    KwReturn,
    KwStates,
    KwStop,
    KwSuper,
    KwVar,
    KwWhile,
    /// The exact string `false`.
    LitFalse,
    LitFloat,
    LitInt,
    /// A string delimited by single-quotes (`'`).
    LitName,
    LitString,
    /// The exact string `true`.
    LitTrue,
    /// `&`
    Ampersand,
    /// `&&`
    Ampersand2,
    /// `<`
    AngleL,
    /// `<<`
    AngleL2,
    /// `<<=`
    AngleL2Eq,
    /// `<=`
    AngleLEq,
    /// `>`
    AngleR,
    /// `>>`
    AngleR2,
    /// `>>=`
    AngleR2Eq,
    /// `>>>`
    AngleR3,
    /// `>>>=`
    AngleR3Eq,
    /// `>=`
    AngleREq,
    /// `*`
    Asterisk,
    /// `*=`
    AsteriskEq,
    /// `!`
    Bang,
    /// `!=`
    BangEq,
    /// `{`
    BraceL,
    /// `}`
    BraceR,
    /// `[`
    BracketL,
    /// `]`
    BracketR,
    /// `^`
    Caret,
    /// `^=`
    CaretEq,
    /// `:`
    Colon,
    /// `::`
    Colon2,
    /// `,`
    Comma,
    /// `=`
    Eq,
    /// `==`
    Eq2,
    /// `~` a.k.a tilde.
    Grave,
    /// `-`
    Minus,
    /// `-=`
    MinusEq,
    /// `--`
    Minus2,
    /// `(`
    ParenL,
    /// `)`
    ParenR,
    /// `.`
    Period,
    /// `|`
    Pipe,
    /// `|=`
    PipeEq,
    /// `%=`
    PercentEq,
    /// `||`
    Pipe2,
    /// `+`
    Plus,
    /// `++`
    Plus2,
    /// `+=`
    PlusEq,
    /// `?`
    Question,
    /// `;`
    Semicolon,
    /// `/`
    Slash,
    /// `/=`
    SlashEq,
    /// DECORATE comments use C++ syntax and are treated like whitespace.
    Comment,
    /// C-style; an ASCII letter or underscore, then any number of ASCII letters,
    /// ASCII digits, or underscores. Assigned only to tokens.
    /// Can be used in [`Syn::Name`] or [`Syn::Label`] nodes.
    Ident,
    /// Input that the lexer considered to be invalid.
    Unknown,
    /// Spaces, carriage returns, newlines, and tabs are ignored by DECORATE.
    Whitespace,
    /// The top-level node, representing the whole file.
    Root,  // Ensure this is always the last variant!
}

/// The number of [`Syn::Root`]: no larger number stands for a tag.
pub const ROOT_RAW: u16 = 86;

impl Syn {
    /// The number of a tag.
    pub open spec fn raw(self) -> u16 {
        match self {
            Syn::EnumDef => 0,
            Syn::EnumVariant => 1,
            Syn::ExprBinary => 2,
            Syn::ExprCall => 3,
            Syn::ExprIndex => 4,
            Syn::ExprPostfix => 5,
            Syn::ExprPrefix => 6,
            Syn::ExprTernary => 7,
            Syn::Name => 8,
            Syn::Label => 9,
            Syn::Literal => 10,
            Syn::KwAction => 11,
            Syn::KwActor => 12,
            Syn::KwBreak => 13,
            Syn::KwConst => 14,
            Syn::KwContinue => 15,
            Syn::KwDo => 16,
            Syn::KwElse => 17,
            Syn::KwEnum => 18,
            Syn::KwFail => 19,
            Syn::KwFor => 20,
            Syn::KwIf => 21,
            Syn::KwGoto => 22,
            Syn::KwNative => 23,
            Syn::KwReplaces => 24,
            Syn::KwReturn => 25,
            Syn::KwStates => 26,
            Syn::KwStop => 27,
            Syn::KwSuper => 28,
            Syn::KwVar => 29,
            Syn::KwWhile => 30,
            Syn::LitFalse => 31,
            Syn::LitFloat => 32,
            Syn::LitInt => 33,
            Syn::LitName => 34,
            Syn::LitString => 35,
            Syn::LitTrue => 36,
            Syn::Ampersand => 37,
            Syn::Ampersand2 => 38,
            Syn::AngleL => 39,
            Syn::AngleL2 => 40,
            Syn::AngleL2Eq => 41,
            Syn::AngleLEq => 42,
            Syn::AngleR => 43,
            Syn::AngleR2 => 44,
            Syn::AngleR2Eq => 45,
            Syn::AngleR3 => 46,
            Syn::AngleR3Eq => 47,
            Syn::AngleREq => 48,
            Syn::Asterisk => 49,
            Syn::AsteriskEq => 50,
            Syn::Bang => 51,
            Syn::BangEq => 52,
            Syn::BraceL => 53,
            Syn::BraceR => 54,
            Syn::BracketL => 55,
            Syn::BracketR => 56,
            Syn::Caret => 57,
            Syn::CaretEq => 58,
            Syn::Colon => 59,
            Syn::Colon2 => 60,
            Syn::Comma => 61,
            Syn::Eq => 62,
            Syn::Eq2 => 63,
            Syn::Grave => 64,
            Syn::Minus => 65,
            Syn::MinusEq => 66,
            Syn::Minus2 => 67,
            Syn::ParenL => 68,
            Syn::ParenR => 69,
            Syn::Period => 70,
            Syn::Pipe => 71,
            Syn::PipeEq => 72,
            Syn::PercentEq => 73,
            Syn::Pipe2 => 74,
            Syn::Plus => 75,
            Syn::Plus2 => 76,
            Syn::PlusEq => 77,
            Syn::Question => 78,
            Syn::Semicolon => 79,
            Syn::Slash => 80,
            Syn::SlashEq => 81,
            Syn::Comment => 82,
            Syn::Ident => 83,
            Syn::Unknown => 84,
            Syn::Whitespace => 85,
            Syn::Root => 86,
        }
    }

    /// The number of a tag.
    pub fn to_raw(self) -> (raw: u16)
        ensures
            raw == self.raw(),
    {
        match self {
            Syn::EnumDef => 0,
            Syn::EnumVariant => 1,
            Syn::ExprBinary => 2,
            Syn::ExprCall => 3,
            Syn::ExprIndex => 4,
            Syn::ExprPostfix => 5,
            Syn::ExprPrefix => 6,
            Syn::ExprTernary => 7,
            Syn::Name => 8,
            Syn::Label => 9,
            Syn::Literal => 10,
            Syn::KwAction => 11,
            Syn::KwActor => 12,
            Syn::KwBreak => 13,
            Syn::KwConst => 14,
            Syn::KwContinue => 15,
            Syn::KwDo => 16,
            Syn::KwElse => 17,
            Syn::KwEnum => 18,
            Syn::KwFail => 19,
            Syn::KwFor => 20,
            Syn::KwIf => 21,
            Syn::KwGoto => 22,
            Syn::KwNative => 23,
            Syn::KwReplaces => 24,
            Syn::KwReturn => 25,
            Syn::KwStates => 26,
            Syn::KwStop => 27,
            Syn::KwSuper => 28,
            Syn::KwVar => 29,
            Syn::KwWhile => 30,
            Syn::LitFalse => 31,
            Syn::LitFloat => 32,
            Syn::LitInt => 33,
            Syn::LitName => 34,
            Syn::LitString => 35,
            Syn::LitTrue => 36,
            Syn::Ampersand => 37,
            Syn::Ampersand2 => 38,
            Syn::AngleL => 39,
            Syn::AngleL2 => 40,
            Syn::AngleL2Eq => 41,
            Syn::AngleLEq => 42,
            Syn::AngleR => 43,
            Syn::AngleR2 => 44,
            Syn::AngleR2Eq => 45,
            Syn::AngleR3 => 46,
            Syn::AngleR3Eq => 47,
            Syn::AngleREq => 48,
            Syn::Asterisk => 49,
            Syn::AsteriskEq => 50,
            Syn::Bang => 51,
            Syn::BangEq => 52,
            Syn::BraceL => 53,
            Syn::BraceR => 54,
            Syn::BracketL => 55,
            Syn::BracketR => 56,
            Syn::Caret => 57,
            Syn::CaretEq => 58,
            Syn::Colon => 59,
            Syn::Colon2 => 60,
            Syn::Comma => 61,
            Syn::Eq => 62,
            Syn::Eq2 => 63,
            Syn::Grave => 64,
            Syn::Minus => 65,
            Syn::MinusEq => 66,
            Syn::Minus2 => 67,
            Syn::ParenL => 68,
            Syn::ParenR => 69,
            Syn::Period => 70,
            Syn::Pipe => 71,
            Syn::PipeEq => 72,
            Syn::PercentEq => 73,
            Syn::Pipe2 => 74,
            Syn::Plus => 75,
            Syn::Plus2 => 76,
            Syn::PlusEq => 77,
            Syn::Question => 78,
            Syn::Semicolon => 79,
            Syn::Slash => 80,
            Syn::SlashEq => 81,
            Syn::Comment => 82,
            Syn::Ident => 83,
            Syn::Unknown => 84,
            Syn::Whitespace => 85,
            Syn::Root => 86,
        }
    }

    /// Alternatively "is whitespace or comment".
    #[must_use]
    pub fn is_trivia(&self) -> (trivia: bool)
        ensures
            trivia <==> (*self == Syn::Comment || *self == Syn::Whitespace),
    {
        matches!(self, Syn::Comment | Syn::Whitespace)
    }

    /// No tag has a number above that of the root.
    pub proof fn lemma_raw_bounded(self)
        ensures
            self.raw() <= ROOT_RAW,
    {
    }

    /// Two tags with one number are one tag.
    pub proof fn lemma_raw_injective(self, other: Syn)
        requires
            self.raw() == other.raw(),
        ensures
            self == other,
    {
    }

    /// Every number up to that of the root is the number of some tag.
    pub proof fn lemma_raw_surjective(raw: u16) -> (kind: Syn)
        requires
            raw <= ROOT_RAW,
        ensures
            kind.raw() == raw,
    {
        if raw == 0 {
            Syn::EnumDef
        }         else if raw == 1 {
            Syn::EnumVariant
        }         else if raw == 2 {
            Syn::ExprBinary
        }         else if raw == 3 {
            Syn::ExprCall
        }         else if raw == 4 {
            Syn::ExprIndex
        }         else if raw == 5 {
            Syn::ExprPostfix
        }         else if raw == 6 {
            Syn::ExprPrefix
        }         else if raw == 7 {
            Syn::ExprTernary
        }         else if raw == 8 {
            Syn::Name
        }         else if raw == 9 {
            Syn::Label
        }         else if raw == 10 {
            Syn::Literal
        }         else if raw == 11 {
            Syn::KwAction
        }         else if raw == 12 {
            Syn::KwActor
        }         else if raw == 13 {
            Syn::KwBreak
        }         else if raw == 14 {
            Syn::KwConst
        }         else if raw == 15 {
            Syn::KwContinue
        }         else if raw == 16 {
            Syn::KwDo
        }         else if raw == 17 {
            Syn::KwElse
        }         else if raw == 18 {
            Syn::KwEnum
        }         else if raw == 19 {
            Syn::KwFail
        }         else if raw == 20 {
            Syn::KwFor
        }         else if raw == 21 {
            Syn::KwIf
        }         else if raw == 22 {
            Syn::KwGoto
        }         else if raw == 23 {
            Syn::KwNative
        }         else if raw == 24 {
            Syn::KwReplaces
        }         else if raw == 25 {
            Syn::KwReturn
        }         else if raw == 26 {
            Syn::KwStates
        }         else if raw == 27 {
            Syn::KwStop
        }         else if raw == 28 {
            Syn::KwSuper
        }         else if raw == 29 {
            Syn::KwVar
        }         else if raw == 30 {
            Syn::KwWhile
        }         else if raw == 31 {
            Syn::LitFalse
        }         else if raw == 32 {
            Syn::LitFloat
        }         else if raw == 33 {
            Syn::LitInt
        }         else if raw == 34 {
            Syn::LitName
        }         else if raw == 35 {
            Syn::LitString
        }         else if raw == 36 {
            Syn::LitTrue
        }         else if raw == 37 {
            Syn::Ampersand
        }         else if raw == 38 {
            Syn::Ampersand2
        }         else if raw == 39 {
            Syn::AngleL
        }         else if raw == 40 {
            Syn::AngleL2
        }         else if raw == 41 {
            Syn::AngleL2Eq
        }         else if raw == 42 {
            Syn::AngleLEq
        }         else if raw == 43 {
            Syn::AngleR
        }         else if raw == 44 {
            Syn::AngleR2
        }         else if raw == 45 {
            Syn::AngleR2Eq
        }         else if raw == 46 {
            Syn::AngleR3
        }         else if raw == 47 {
            Syn::AngleR3Eq
        }         else if raw == 48 {
            Syn::AngleREq
        }         else if raw == 49 {
            Syn::Asterisk
        }         else if raw == 50 {
            Syn::AsteriskEq
        }         else if raw == 51 {
            Syn::Bang
        }         else if raw == 52 {
            Syn::BangEq
        }         else if raw == 53 {
            Syn::BraceL
        }         else if raw == 54 {
            Syn::BraceR
        }         else if raw == 55 {
            Syn::BracketL
        }         else if raw == 56 {
            Syn::BracketR
        }         else if raw == 57 {
            Syn::Caret
        }         else if raw == 58 {
            Syn::CaretEq
        }         else if raw == 59 {
            Syn::Colon
        }         else if raw == 60 {
            Syn::Colon2
        }         else if raw == 61 {
            Syn::Comma
        }         else if raw == 62 {
            Syn::Eq
        }         else if raw == 63 {
            Syn::Eq2
        }         else if raw == 64 {
            Syn::Grave
        }         else if raw == 65 {
            Syn::Minus
        }         else if raw == 66 {
            Syn::MinusEq
        }         else if raw == 67 {
            Syn::Minus2
        }         else if raw == 68 {
            Syn::ParenL
        }         else if raw == 69 {
            Syn::ParenR
        }         else if raw == 70 {
            Syn::Period
        }         else if raw == 71 {
            Syn::Pipe
        }         else if raw == 72 {
            Syn::PipeEq
        }         else if raw == 73 {
            Syn::PercentEq
        }         else if raw == 74 {
            Syn::Pipe2
        }         else if raw == 75 {
            Syn::Plus
        }         else if raw == 76 {
            Syn::Plus2
        }         else if raw == 77 {
            Syn::PlusEq
        }         else if raw == 78 {
            Syn::Question
        }         else if raw == 79 {
            Syn::Semicolon
        }         else if raw == 80 {
            Syn::Slash
        }         else if raw == 81 {
            Syn::SlashEq
        }         else if raw == 82 {
            Syn::Comment
        }         else if raw == 83 {
            Syn::Ident
        }         else if raw == 84 {
            Syn::Unknown
        }         else if raw == 85 {
            Syn::Whitespace
        } else {
            Syn::Root
        }
    }
}

impl From<Syn> for rowan::SyntaxKind {
    fn from(value: Syn) -> (kind: Self) {
        rowan::SyntaxKind(value.to_raw())
    }
}

impl FromSpecImpl<Syn> for rowan::SyntaxKind {
    open spec fn obeys_from_spec() -> bool {
        true
    }

    open spec fn from_spec(value: Syn) -> Self {
        rowan::SyntaxKind(value.raw())
    }
}

impl rowan::Language for Syn {
    type Kind = Self;

    /// Reads a tag back from its number. A number above [`ROOT_RAW`] names
    /// no tag: it is a defect of the caller, never turned into some tag.
    fn kind_from_raw(raw: rowan::SyntaxKind) -> (kind: Self)
        requires
            raw.0 <= ROOT_RAW,
        ensures
            kind.raw() == raw.0,
    {
        match raw.0 {
            0 => Syn::EnumDef,
            1 => Syn::EnumVariant,
            2 => Syn::ExprBinary,
            3 => Syn::ExprCall,
            4 => Syn::ExprIndex,
            5 => Syn::ExprPostfix,
            6 => Syn::ExprPrefix,
            7 => Syn::ExprTernary,
            8 => Syn::Name,
            9 => Syn::Label,
            10 => Syn::Literal,
            11 => Syn::KwAction,
            12 => Syn::KwActor,
            13 => Syn::KwBreak,
            14 => Syn::KwConst,
            15 => Syn::KwContinue,
            16 => Syn::KwDo,
            17 => Syn::KwElse,
            18 => Syn::KwEnum,
            19 => Syn::KwFail,
            20 => Syn::KwFor,
            21 => Syn::KwIf,
            22 => Syn::KwGoto,
            23 => Syn::KwNative,
            24 => Syn::KwReplaces,
            25 => Syn::KwReturn,
            26 => Syn::KwStates,
            27 => Syn::KwStop,
            28 => Syn::KwSuper,
            29 => Syn::KwVar,
            30 => Syn::KwWhile,
            31 => Syn::LitFalse,
            32 => Syn::LitFloat,
            33 => Syn::LitInt,
            34 => Syn::LitName,
            35 => Syn::LitString,
            36 => Syn::LitTrue,
            37 => Syn::Ampersand,
            38 => Syn::Ampersand2,
            39 => Syn::AngleL,
            40 => Syn::AngleL2,
            41 => Syn::AngleL2Eq,
            42 => Syn::AngleLEq,
            43 => Syn::AngleR,
            44 => Syn::AngleR2,
            45 => Syn::AngleR2Eq,
            46 => Syn::AngleR3,
            47 => Syn::AngleR3Eq,
            48 => Syn::AngleREq,
            49 => Syn::Asterisk,
            50 => Syn::AsteriskEq,
            51 => Syn::Bang,
            52 => Syn::BangEq,
            53 => Syn::BraceL,
            54 => Syn::BraceR,
            55 => Syn::BracketL,
            56 => Syn::BracketR,
            57 => Syn::Caret,
            58 => Syn::CaretEq,
            59 => Syn::Colon,
            60 => Syn::Colon2,
            61 => Syn::Comma,
            62 => Syn::Eq,
            63 => Syn::Eq2,
            64 => Syn::Grave,
            65 => Syn::Minus,
            66 => Syn::MinusEq,
            67 => Syn::Minus2,
            68 => Syn::ParenL,
            69 => Syn::ParenR,
            70 => Syn::Period,
            71 => Syn::Pipe,
            72 => Syn::PipeEq,
            73 => Syn::PercentEq,
            74 => Syn::Pipe2,
            75 => Syn::Plus,
            76 => Syn::Plus2,
            77 => Syn::PlusEq,
            78 => Syn::Question,
            79 => Syn::Semicolon,
            80 => Syn::Slash,
            81 => Syn::SlashEq,
            82 => Syn::Comment,
            83 => Syn::Ident,
            84 => Syn::Unknown,
            85 => Syn::Whitespace,
            86 => Syn::Root,
            _ => vstd::pervasive::unreached(),
        }
    }

    fn kind_to_raw(kind: Self) -> (raw: rowan::SyntaxKind)
        ensures
            raw.0 == kind.raw(),
    {
        rowan::SyntaxKind::from(kind)
    }
}

impl LangExt for Syn {
    const SYN_WHITESPACE: u16 = 85;
    const SYN_ROOT: u16 = 86;
}

impl LangComment for Syn {
    const SYN_COMMENT: u16 = 82;
}

/// The tags that the scanners hand out are those of this language, and the
/// number of its root is the largest of its tags.
pub proof fn lemma_trivia_tags()
    ensures
        <Syn as LangExt>::SYN_WHITESPACE == Syn::Whitespace.raw(),
        <Syn as LangExt>::SYN_ROOT == Syn::Root.raw(),
        <Syn as LangExt>::SYN_ROOT == ROOT_RAW,
        <Syn as LangComment>::SYN_COMMENT == Syn::Comment.raw(),
{
}

} // verus!
