use vstd::prelude::*;

pub mod lexer;
pub mod line_counter;
pub mod read_error;
pub mod parser;

verus! {

/// What a tokenizer hands out: a token, or the end of the input.
pub enum TokenOrEof<T> {
    Token(T),
    Eof,
}

} // verus!
