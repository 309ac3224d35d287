use vstd::prelude::*;
use crate::Position;
use crate::types::Label;

verus! {

/// The kinds of error a pass can report. Each pass stops at the first error.
#[derive(Clone, Copy, Debug, PartialEq, Eq, Structural)]
pub enum ErrorKind {
    /// A malformed token, such as a number with non-digit characters.
    LexError,
    /// A token sequence that matches no production of the grammar.
    ParseError,
    /// An identifier that begins with a digit or contains other
    /// non-identifier characters.
    BadLabel,
    /// An identifier standing where a mnemonic is required.
    UnknownMnemonic,
    /// A label defined twice within one unit.
    DuplicateLabel,
    /// A symbolic operand with no local binding and no import annotation.
    UnresolvedSymbol,
    /// An imported word with no matching export.
    UnresolvedImport,
    /// The same label exported by more than one unit.
    DuplicateExport,
    /// Two absolute segments of different units occupying the same address.
    AddressCollision,
    /// An address or operand that no longer fits its field.
    OverflowError,
    /// Emitting content after the end directive.
    EndAfterContent,
}

/// An error with the position it originates from and, where one applies,
/// the offending label or address.
#[derive(Clone, Debug, PartialEq, Eq)]
pub struct MvnError {
    pub kind: ErrorKind,
    pub position: Position,
    pub label: Option<Label>,
    pub address: Option<u16>,
}

/// Mathematical model of an error: the label is a byte sequence.
pub struct ErrV {
    pub kind: ErrorKind,
    pub position: Position,
    pub label: Option<Seq<u8>>,
    pub address: Option<u16>,
}

impl View for MvnError {
    type V = ErrV;

    open spec fn view(&self) -> ErrV {
        ErrV {
            kind: self.kind,
            position: self.position,
            label: match self.label {
                Some(ref l) => Some(l@),
                None => None,
            },
            address: self.address,
        }
    }
}

/// The model of a plain error: a kind at a position, naming nothing else.
pub open spec fn err_at(kind: ErrorKind, position: Position) -> ErrV {
    ErrV { kind, position, label: None, address: None }
}

/// The model of an error that names a label.
pub open spec fn err_label(kind: ErrorKind, position: Position, label: Seq<u8>) -> ErrV {
    ErrV { kind, position, label: Some(label), address: None }
}

/// The model of an error that names an address.
pub open spec fn err_address(kind: ErrorKind, position: Position, address: u16) -> ErrV {
    ErrV { kind, position, label: None, address: Some(address) }
}

impl MvnError {
    pub fn at(kind: ErrorKind, position: Position) -> (r: MvnError)
        ensures
            r@ == err_at(kind, position),
    {
        MvnError { kind, position, label: None, address: None }
    }

    pub fn with_label(kind: ErrorKind, position: Position, label: Label) -> (r: MvnError)
        ensures
            r@ == err_label(kind, position, label@),
    {
        MvnError { kind, position, label: Some(label), address: None }
    }

    pub fn with_address(kind: ErrorKind, position: Position, address: u16) -> (r: MvnError)
        ensures
            r@ == err_address(kind, position, address),
    {
        MvnError { kind, position, label: None, address: Some(address) }
    }
}

} // verus!
