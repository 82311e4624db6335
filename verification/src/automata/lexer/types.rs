use vstd::prelude::*;

verus! {

/// Whether a character may stand inside a string literal as it is.
pub open spec fn behaved(c: char) -> bool {
    c != '\\' && c != '"' && c != '\n'
}

/// Whether a character may stand inside a string literal as it is.
pub fn is_behaved(c: char) -> (r: bool)
    ensures
        r == behaved(c),
{
    (c != '\\') && (c != '"') && (c != '\n')
}

/// A class of characters that a regular expression can read.
#[derive(Clone, Copy, PartialEq, Eq, Structural, Debug)]
pub enum Character {
    /// Exactly this character.
    Char(char),
    /// An ASCII letter.
    Alpha,
    /// An ASCII digit.
    Num,
    /// Any character but a backslash, a double quote or a newline.
    Behaved,
    /// Any character.
    Any,
}

/// A regular expression.
pub enum Regexp {
    Epsilon,
    Character(Character),
    Union(Box<Regexp>, Box<Regexp>),
    Concat(Box<Regexp>, Box<Regexp>),
    Star(Box<Regexp>),
}

/// A position of a regular expression: a character class with the index
/// of its occurrence, or the end marker of the expression of token `id`.
#[derive(Clone, Copy, PartialEq, Eq, Structural, Debug)]
pub enum IChar {
    Char(Character, usize),
    Hash(usize),
}

/// A regular expression whose positions are numbered.
pub enum IRegexp {
    Epsilon,
    Character(IChar),
    Union(Box<IRegexp>, Box<IRegexp>),
    Concat(Box<IRegexp>, Box<IRegexp>),
    Star(Box<IRegexp>),
}

/// A character class to read, or the end of the token `id`.
#[derive(Clone, Copy, PartialEq, Eq, Structural, Debug)]
pub enum CharOrEof {
    Char(Character),
    Eof(usize),
}

/// Whether `c` is an ASCII letter.
pub open spec fn ascii_alpha(c: char) -> bool {
    ('a' <= c && c <= 'z') || ('A' <= c && c <= 'Z')
}

/// Whether `c` is an ASCII digit.
pub open spec fn ascii_digit(c: char) -> bool {
    '0' <= c && c <= '9'
}

/// Whether `c` is an ASCII letter.
pub fn is_ascii_alpha(c: char) -> (r: bool)
    ensures
        r == ascii_alpha(c),
{
    ('a' <= c && c <= 'z') || ('A' <= c && c <= 'Z')
}

/// Whether `c` is an ASCII digit.
pub fn is_ascii_digit(c: char) -> (r: bool)
    ensures
        r == ascii_digit(c),
{
    '0' <= c && c <= '9'
}

} // verus!
