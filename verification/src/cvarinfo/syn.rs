//! Syntax tags.

use vstd::prelude::*;
use vstd::std_specs::convert::FromSpecImpl;

use crate::{LangComment, LangExt};

verus! {

/// CVARINFO syntax nodes, from low-level primitives to high-level composites.
///
/// A tag's number is its position in this list, counted from zero, so
/// [`Syn::Root`] carries the largest valid number.
#[derive(Debug, Clone, Copy, PartialEq, Eq, PartialOrd, Ord, Hash, Structural)]
pub enum Syn {
    /// A whole CVar definition.
    Definition,
    /// An `=` followed by a literal to optionally set a custom default value.
    DefaultDef,
    /// The set of flags qualifying a definition, scope specifiers included.
    Flags,
    /// The type specifier is always followed by the identifier.
    TypeSpec,
    /// The boolean literal `false`.
    LitFalse,
    /// A (G)ZDoom (i.e. C/C++-style) floating-point literal.
    LitFloat,
    /// A (G)ZDoom (i.e. C/C++-style) integer literal.
    LitInt,
    /// Delimited by double quotes. Also used for defining default color values.
    LitString,
    /// The boolean literal `true`.
    LitTrue,
    /// The type specifier `bool`.
    TypeBool,
    /// The type specifier `color`.
    TypeColor,
    /// The type specifier `float`.
    TypeFloat,
    /// The type specifier `int`.
    TypeInt,
    /// The type specifier `string`.
    TypeString,
    /// The configuration flag `cheat`.
    KwCheat,
    /// The configuration flag `noarchive`.
    KwNoArchive,
    /// The scope specifier `nosave`.
    KwNoSave,
    /// The configuration flag `latch`.
    KwLatch,
    /// The scope specifier `server`.
    KwServer,
    /// The scope specifier `user`.
    KwUser,
    /// The `=` character.
    Eq,
    /// A name for a defined CVar.
    Ident,
    /// The `;` character, used as a terminator.
    Semicolon,
    /// CVARINFO comments use C++ syntax and are treated like whitespace.
    Comment,
    /// Input that the lexer considered to be invalid.
    Unknown,
    /// Spaces, carriage returns, newlines, and tabs are ignored by CVARINFO.
    Whitespace,
    /// The top-level node, representing the whole file.
    Root,  // Ensure this is always the last variant!
}

/// The number of [`Syn::Root`]: no larger number stands for a tag.
pub const ROOT_RAW: u16 = 26;

impl Syn {
    /// The number of a tag.
    pub open spec fn raw(self) -> u16 {
        match self {
            Syn::Definition => 0,
            Syn::DefaultDef => 1,
            Syn::Flags => 2,
            Syn::TypeSpec => 3,
            Syn::LitFalse => 4,
            Syn::LitFloat => 5,
            Syn::LitInt => 6,
            Syn::LitString => 7,
            Syn::LitTrue => 8,
            Syn::TypeBool => 9,
            Syn::TypeColor => 10,
            Syn::TypeFloat => 11,
            Syn::TypeInt => 12,
            Syn::TypeString => 13,
            Syn::KwCheat => 14,
            Syn::KwNoArchive => 15,
            Syn::KwNoSave => 16,
            Syn::KwLatch => 17,
            Syn::KwServer => 18,
            Syn::KwUser => 19,
            Syn::Eq => 20,
            Syn::Ident => 21,
            Syn::Semicolon => 22,
            Syn::Comment => 23,
            Syn::Unknown => 24,
            Syn::Whitespace => 25,
            Syn::Root => 26,
        }
    }

    /// The number of a tag.
    pub fn to_raw(self) -> (raw: u16)
        ensures
            raw == self.raw(),
    {
        match self {
            Syn::Definition => 0,
            Syn::DefaultDef => 1,
            Syn::Flags => 2,
            Syn::TypeSpec => 3,
            Syn::LitFalse => 4,
            Syn::LitFloat => 5,
            Syn::LitInt => 6,
            Syn::LitString => 7,
            Syn::LitTrue => 8,
            Syn::TypeBool => 9,
            Syn::TypeColor => 10,
            Syn::TypeFloat => 11,
            Syn::TypeInt => 12,
            Syn::TypeString => 13,
            Syn::KwCheat => 14,
            Syn::KwNoArchive => 15,
            Syn::KwNoSave => 16,
            Syn::KwLatch => 17,
            Syn::KwServer => 18,
            Syn::KwUser => 19,
            Syn::Eq => 20,
            Syn::Ident => 21,
            Syn::Semicolon => 22,
            Syn::Comment => 23,
            Syn::Unknown => 24,
            Syn::Whitespace => 25,
            Syn::Root => 26,
        }
    }

    /// No tag has a number above that of the root.
    pub proof fn lemma_raw_bounded(self)
        ensures
            self.raw() <= ROOT_RAW,
    {
    }

    /// Two tags with one number are one tag.
    pub proof fn lemma_raw_injective(self, other: Syn)
        requires
            self.raw() == other.raw(),
        ensures
            self == other,
    {
    }

    /// Every number up to that of the root is the number of some tag.
    pub proof fn lemma_raw_surjective(raw: u16) -> (kind: Syn)
        requires
            raw <= ROOT_RAW,
        ensures
            kind.raw() == raw,
    {
        if raw == 0 {
            Syn::Definition
        }         else if raw == 1 {
            Syn::DefaultDef
        }         else if raw == 2 {
            Syn::Flags
        }         else if raw == 3 {
            Syn::TypeSpec
        }         else if raw == 4 {
            Syn::LitFalse
        }         else if raw == 5 {
            Syn::LitFloat
        }         else if raw == 6 {
            Syn::LitInt
        }         else if raw == 7 {
            Syn::LitString
        }         else if raw == 8 {
            Syn::LitTrue
        }         else if raw == 9 {
            Syn::TypeBool
        }         else if raw == 10 {
            Syn::TypeColor
        }         else if raw == 11 {
            Syn::TypeFloat
        }         else if raw == 12 {
            Syn::TypeInt
        }         else if raw == 13 {
            Syn::TypeString
        }         else if raw == 14 {
            Syn::KwCheat
        }         else if raw == 15 {
            Syn::KwNoArchive
        }         else if raw == 16 {
            Syn::KwNoSave
        }         else if raw == 17 {
            Syn::KwLatch
        }         else if raw == 18 {
            Syn::KwServer
        }         else if raw == 19 {
            Syn::KwUser
        }         else if raw == 20 {
            Syn::Eq
        }         else if raw == 21 {
            Syn::Ident
        }         else if raw == 22 {
            Syn::Semicolon
        }         else if raw == 23 {
            Syn::Comment
        }         else if raw == 24 {
            Syn::Unknown
        }         else if raw == 25 {
            Syn::Whitespace
        } else {
            Syn::Root
        }
    }
}

impl From<Syn> for rowan::SyntaxKind {
    fn from(value: Syn) -> (kind: Self) {
        rowan::SyntaxKind(value.to_raw())
    }
}

impl FromSpecImpl<Syn> for rowan::SyntaxKind {
    open spec fn obeys_from_spec() -> bool {
        true
    }

    open spec fn from_spec(value: Syn) -> Self {
        rowan::SyntaxKind(value.raw())
    }
}

impl rowan::Language for Syn {
    type Kind = Self;

    /// Reads a tag back from its number. A number above [`ROOT_RAW`] names
    /// no tag: it is a defect of the caller, never turned into some tag.
    fn kind_from_raw(raw: rowan::SyntaxKind) -> (kind: Self)
        requires
            raw.0 <= ROOT_RAW,
        ensures
            kind.raw() == raw.0,
    {
        match raw.0 {
            0 => Syn::Definition,
            1 => Syn::DefaultDef,
            2 => Syn::Flags,
            3 => Syn::TypeSpec,
            4 => Syn::LitFalse,
            5 => Syn::LitFloat,
            6 => Syn::LitInt,
            7 => Syn::LitString,
            8 => Syn::LitTrue,
            9 => Syn::TypeBool,
            10 => Syn::TypeColor,
            11 => Syn::TypeFloat,
            12 => Syn::TypeInt,
            13 => Syn::TypeString,
            14 => Syn::KwCheat,
            15 => Syn::KwNoArchive,
            16 => Syn::KwNoSave,
            17 => Syn::KwLatch,
            18 => Syn::KwServer,
            19 => Syn::KwUser,
            20 => Syn::Eq,
            21 => Syn::Ident,
            22 => Syn::Semicolon,
            23 => Syn::Comment,
            24 => Syn::Unknown,
            25 => Syn::Whitespace,
            26 => Syn::Root,
            _ => vstd::pervasive::unreached(),
        }
    }

    fn kind_to_raw(kind: Self) -> (raw: rowan::SyntaxKind)
        ensures
            raw.0 == kind.raw(),
    {
        rowan::SyntaxKind::from(kind)
    }
}

impl LangExt for Syn {
    const SYN_WHITESPACE: u16 = 25;
    const SYN_ROOT: u16 = 26;
}

impl LangComment for Syn {
    const SYN_COMMENT: u16 = 23;
}

/// The tags that the scanners hand out are those of this language, and the
/// number of its root is the largest of its tags.
pub proof fn lemma_trivia_tags()
    ensures
        <Syn as LangExt>::SYN_WHITESPACE == Syn::Whitespace.raw(),
        <Syn as LangExt>::SYN_ROOT == Syn::Root.raw(),
        <Syn as LangExt>::SYN_ROOT == ROOT_RAW,
        <Syn as LangComment>::SYN_COMMENT == Syn::Comment.raw(),
{
}

} // verus!
