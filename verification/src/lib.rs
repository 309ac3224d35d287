use vstd::prelude::*;

pub mod errors;
pub mod types;
pub mod machine;
pub mod printer;
pub mod parser;
pub mod mcparser;
pub mod assembler;
pub mod linker;
pub mod relocator;

verus! {

/// A source location: 1-based line and column within the input text.
#[derive(Clone, Copy, Debug, PartialEq, Eq, Structural)]
pub struct Position {
    pub line: usize,
    pub column: usize,
}

impl Position {
    pub fn new(line: usize, column: usize) -> (r: Position)
        ensures
            r.line == line,
            r.column == column,
    {
        Position { line, column }
    }
}

/// A value together with the source position it was read from.
#[derive(Clone, Copy, Debug, PartialEq, Eq)]
pub struct Token<T> {
    pub position: Position,
    pub value: T,
}

impl<T> Token<T> {
    pub fn new(position: Position, value: T) -> (r: Token<T>)
        ensures
            r.position == position,
            r.value == value,
    {
        Token { position, value }
    }
}

/// Mathematical model of a token: the model of its value at its position.
pub struct TokenV<V> {
    pub position: Position,
    pub value: V,
}

impl<T: View> View for Token<T> {
    type V = TokenV<T::V>;

    open spec fn view(&self) -> TokenV<T::V> {
        TokenV { position: self.position, value: self.value.view() }
    }
}

} // verus!
