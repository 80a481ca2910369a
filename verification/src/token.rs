use vstd::prelude::*;

verus! {

/// A lexical token of the source language.
///
/// Variable identity is encoded by repetition counts rather than names:
/// `Eo(n)` is a reference to the variable written with `n` repeated
/// reference syllables, and `Eom(n)` is the assignment marker preceded by
/// `n` reference syllables.
#[derive(Debug, Clone, Copy, PartialEq, Eq, Structural)]
pub enum Token {
    /// Program start marker.
    Eotteohke,
    /// Program end marker.
    IEotteonSaram,
    /// Assignment marker carrying the count of adjacent reference syllables.
    Eom(usize),
    /// Variable reference carrying its repetition count.
    Eo(usize),
    /// Goto keyword.
    Joon,
    /// Console operation keyword.
    Sik,
    /// Conditional keyword.
    Dongtan,
    /// Return keyword.
    Hwaiting,
    /// `.` - increment.
    Dot,
    /// `,` - decrement.
    Comma,
    /// ` ` - visual separator between adjacent terms of a product.
    Space,
    /// `~` - line separator for one-line programs.
    Tilde,
    /// `?` - input.
    Question,
    /// `!` - print as number.
    Exclamation,
    /// `ㅋ` - print as character / newline terminator.
    Kek,
    /// A numeric literal.
    Number(i64),
    /// Physical line break.
    Newline,
    /// End of input.
    EOF,
}

/// A token together with its 1-based source line and column.
#[derive(Debug, Clone, Copy, PartialEq, Eq, Structural)]
pub struct TokenWithPos {
    pub token: Token,
    pub line: usize,
    pub col: usize,
}

} // verus!
