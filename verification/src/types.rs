use vstd::prelude::*;
use crate::Token;

verus! {

/// The instructions that emit one machine word each; every one carries a
/// 4-bit opcode.
#[derive(Clone, Copy, Debug, PartialEq, Eq, Structural)]
pub enum NormalMneumonic {
    Jump,
    JumpIfZero,
    JumpIfNegative,
    LoadValue,
    Add,
    Subtract,
    Multiply,
    Divide,
    Load,
    Memory,
    Subroutine,
    ReturnFromSubrotine,
    HaltMachine,
    GetData,
    PutData,
    OperatingSystem,
    SetConstant,
}

/// The directives that steer the address counter and emit no opcoded word.
#[derive(Clone, Copy, Debug, PartialEq, Eq, Structural)]
pub enum PositionalMneumonic {
    SetAbsoluteOrigin,
    SetRelocatableOrigin,
    ReserveMemory,
    SetEnd,
}

/// The annotations that tie a line to the inter-unit symbol table; they
/// occupy no address space.
#[derive(Clone, Copy, Debug, PartialEq, Eq, Structural)]
pub enum RelationalMneumonic {
    Export,
    Import,
}

/// A mnemonic of any of the three families.
#[derive(Clone, Copy, Debug, PartialEq, Eq, Structural)]
pub enum Instruction {
    Normal(NormalMneumonic),
    Positional(PositionalMneumonic),
    Relational(RelationalMneumonic),
}

impl View for Instruction {
    type V = Instruction;

    open spec fn view(&self) -> Instruction {
        *self
    }
}

/// The opcode of a normal mnemonic, in the high nibble of the emitted word.
pub open spec fn spec_opcode(m: NormalMneumonic) -> u8 {
    match m {
        NormalMneumonic::Jump => 0x0,
        NormalMneumonic::JumpIfZero => 0x1,
        NormalMneumonic::JumpIfNegative => 0x2,
        NormalMneumonic::LoadValue => 0x3,
        NormalMneumonic::Add => 0x4,
        NormalMneumonic::Subtract => 0x5,
        NormalMneumonic::Multiply => 0x6,
        NormalMneumonic::Divide => 0x7,
        NormalMneumonic::Load => 0x8,
        NormalMneumonic::Memory => 0x9,
        NormalMneumonic::Subroutine => 0xA,
        NormalMneumonic::ReturnFromSubrotine => 0xB,
        NormalMneumonic::HaltMachine => 0xC,
        NormalMneumonic::GetData => 0xD,
        NormalMneumonic::PutData => 0xE,
        NormalMneumonic::OperatingSystem => 0xF,
        NormalMneumonic::SetConstant => 0xF,
    }
}

/// The spelling of a mnemonic, as it stands in source text.
pub open spec fn spec_spelling(i: Instruction) -> Seq<u8> {
    match i {
        Instruction::Normal(m) => match m {
            NormalMneumonic::Jump => seq![0x4Au8, 0x50u8],
            NormalMneumonic::JumpIfZero => seq![0x4Au8, 0x5Au8],
            NormalMneumonic::JumpIfNegative => seq![0x4Au8, 0x4Eu8],
            NormalMneumonic::LoadValue => seq![0x4Cu8, 0x56u8],
            NormalMneumonic::Add => seq![0x41u8, 0x44u8],
            NormalMneumonic::Subtract => seq![0x53u8, 0x42u8],
            NormalMneumonic::Multiply => seq![0x4Du8, 0x4Cu8],
            NormalMneumonic::Divide => seq![0x44u8, 0x56u8],
            NormalMneumonic::Load => seq![0x4Cu8, 0x44u8],
            NormalMneumonic::Memory => seq![0x4Du8, 0x4Du8],
            NormalMneumonic::Subroutine => seq![0x53u8, 0x43u8],
            NormalMneumonic::ReturnFromSubrotine => seq![0x52u8, 0x53u8],
            NormalMneumonic::HaltMachine => seq![0x48u8, 0x4Du8],
            NormalMneumonic::GetData => seq![0x47u8, 0x44u8],
            NormalMneumonic::PutData => seq![0x50u8, 0x44u8],
            NormalMneumonic::OperatingSystem => seq![0x4Fu8, 0x53u8],
            NormalMneumonic::SetConstant => seq![0x4Bu8],
        },
        Instruction::Positional(m) => match m {
            PositionalMneumonic::SetAbsoluteOrigin => seq![0x40u8],
            PositionalMneumonic::SetRelocatableOrigin => seq![0x26u8],
            PositionalMneumonic::ReserveMemory => seq![0x24u8],
            PositionalMneumonic::SetEnd => seq![0x23u8],
        },
        Instruction::Relational(m) => match m {
            RelationalMneumonic::Export => seq![0x3Eu8],
            RelationalMneumonic::Import => seq![0x3Cu8],
        },
    }
}

/// The mnemonic a token spells, if it spells one: a token is a mnemonic iff
/// it exactly matches a spelling of the closed set.
pub open spec fn spec_mnemonic_of(s: Seq<u8>) -> Option<Instruction> {
    if s.len() == 1 {
        if s[0] == 0x4B {
            Some(Instruction::Normal(NormalMneumonic::SetConstant))
        } else if s[0] == 0x40 {
            Some(Instruction::Positional(PositionalMneumonic::SetAbsoluteOrigin))
        } else if s[0] == 0x26 {
            Some(Instruction::Positional(PositionalMneumonic::SetRelocatableOrigin))
        } else if s[0] == 0x24 {
            Some(Instruction::Positional(PositionalMneumonic::ReserveMemory))
        } else if s[0] == 0x23 {
            Some(Instruction::Positional(PositionalMneumonic::SetEnd))
        } else if s[0] == 0x3E {
            Some(Instruction::Relational(RelationalMneumonic::Export))
        } else if s[0] == 0x3C {
            Some(Instruction::Relational(RelationalMneumonic::Import))
        } else {
            None
        }
    } else if s.len() == 2 {
        if s == seq![0x4Au8, 0x50u8] { Some(Instruction::Normal(NormalMneumonic::Jump)) }
        else if s == seq![0x4Au8, 0x5Au8] { Some(Instruction::Normal(NormalMneumonic::JumpIfZero)) }
        else if s == seq![0x4Au8, 0x4Eu8] { Some(Instruction::Normal(NormalMneumonic::JumpIfNegative)) }
        else if s == seq![0x4Cu8, 0x56u8] { Some(Instruction::Normal(NormalMneumonic::LoadValue)) }
        else if s == seq![0x41u8, 0x44u8] { Some(Instruction::Normal(NormalMneumonic::Add)) }
        else if s == seq![0x53u8, 0x42u8] { Some(Instruction::Normal(NormalMneumonic::Subtract)) }
        else if s == seq![0x4Du8, 0x4Cu8] { Some(Instruction::Normal(NormalMneumonic::Multiply)) }
        else if s == seq![0x44u8, 0x56u8] { Some(Instruction::Normal(NormalMneumonic::Divide)) }
        else if s == seq![0x4Cu8, 0x44u8] { Some(Instruction::Normal(NormalMneumonic::Load)) }
        else if s == seq![0x4Du8, 0x4Du8] { Some(Instruction::Normal(NormalMneumonic::Memory)) }
        else if s == seq![0x53u8, 0x43u8] { Some(Instruction::Normal(NormalMneumonic::Subroutine)) }
        else if s == seq![0x52u8, 0x53u8] { Some(Instruction::Normal(NormalMneumonic::ReturnFromSubrotine)) }
        else if s == seq![0x48u8, 0x4Du8] { Some(Instruction::Normal(NormalMneumonic::HaltMachine)) }
        else if s == seq![0x47u8, 0x44u8] { Some(Instruction::Normal(NormalMneumonic::GetData)) }
        else if s == seq![0x50u8, 0x44u8] { Some(Instruction::Normal(NormalMneumonic::PutData)) }
        else if s == seq![0x4Fu8, 0x53u8] { Some(Instruction::Normal(NormalMneumonic::OperatingSystem)) }
        else { None }
    } else {
        None
    }
}

impl NormalMneumonic {
    /// The 4-bit opcode of this mnemonic.
    pub fn opcode(&self) -> (r: u8)
        ensures
            r == spec_opcode(*self),
            r < 0x10,
    {
        match self {
            NormalMneumonic::Jump => 0x0,
            NormalMneumonic::JumpIfZero => 0x1,
            NormalMneumonic::JumpIfNegative => 0x2,
            NormalMneumonic::LoadValue => 0x3,
            NormalMneumonic::Add => 0x4,
            NormalMneumonic::Subtract => 0x5,
            NormalMneumonic::Multiply => 0x6,
            NormalMneumonic::Divide => 0x7,
            NormalMneumonic::Load => 0x8,
            NormalMneumonic::Memory => 0x9,
            NormalMneumonic::Subroutine => 0xA,
            NormalMneumonic::ReturnFromSubrotine => 0xB,
            NormalMneumonic::HaltMachine => 0xC,
            NormalMneumonic::GetData => 0xD,
            NormalMneumonic::PutData => 0xE,
            NormalMneumonic::OperatingSystem => 0xF,
            NormalMneumonic::SetConstant => 0xF,
        }
    }
}

impl Instruction {
    /// The spelling of this mnemonic as source text.
    pub fn spelling(&self) -> (r: Vec<u8>)
        ensures
            r@ == spec_spelling(*self),
    {
        let mut v: Vec<u8> = Vec::new();
        match self {
            Instruction::Normal(m) => match m {
                NormalMneumonic::Jump => { v.push(0x4A); v.push(0x50); }
                NormalMneumonic::JumpIfZero => { v.push(0x4A); v.push(0x5A); }
                NormalMneumonic::JumpIfNegative => { v.push(0x4A); v.push(0x4E); }
                NormalMneumonic::LoadValue => { v.push(0x4C); v.push(0x56); }
                NormalMneumonic::Add => { v.push(0x41); v.push(0x44); }
                NormalMneumonic::Subtract => { v.push(0x53); v.push(0x42); }
                NormalMneumonic::Multiply => { v.push(0x4D); v.push(0x4C); }
                NormalMneumonic::Divide => { v.push(0x44); v.push(0x56); }
                NormalMneumonic::Load => { v.push(0x4C); v.push(0x44); }
                NormalMneumonic::Memory => { v.push(0x4D); v.push(0x4D); }
                NormalMneumonic::Subroutine => { v.push(0x53); v.push(0x43); }
                NormalMneumonic::ReturnFromSubrotine => { v.push(0x52); v.push(0x53); }
                NormalMneumonic::HaltMachine => { v.push(0x48); v.push(0x4D); }
                NormalMneumonic::GetData => { v.push(0x47); v.push(0x44); }
                NormalMneumonic::PutData => { v.push(0x50); v.push(0x44); }
                NormalMneumonic::OperatingSystem => { v.push(0x4F); v.push(0x53); }
                NormalMneumonic::SetConstant => { v.push(0x4B); }
            },
            Instruction::Positional(m) => match m {
                PositionalMneumonic::SetAbsoluteOrigin => { v.push(0x40); }
                PositionalMneumonic::SetRelocatableOrigin => { v.push(0x26); }
                PositionalMneumonic::ReserveMemory => { v.push(0x24); }
                PositionalMneumonic::SetEnd => { v.push(0x23); }
            },
            Instruction::Relational(m) => match m {
                RelationalMneumonic::Export => { v.push(0x3E); }
                RelationalMneumonic::Import => { v.push(0x3C); }
            },
        }
        proof {
            assert(v@ =~= spec_spelling(*self));
        }
        v
    }
}

/// Whether a byte is an ASCII letter.
pub open spec fn is_letter(b: u8) -> bool {
    (0x41 <= b && b <= 0x5A) || (0x61 <= b && b <= 0x7A)
}

/// Whether a byte is an ASCII digit.
pub open spec fn is_digit(b: u8) -> bool {
    0x30 <= b && b <= 0x39
}

/// Whether a byte may start an identifier.
pub open spec fn is_ident_start(b: u8) -> bool {
    is_letter(b) || b == 0x5F
}

/// Whether a byte may continue an identifier.
pub open spec fn is_ident_char(b: u8) -> bool {
    is_letter(b) || is_digit(b) || b == 0x5F
}

/// Whether a byte sequence is an identifier: non-empty, a letter or
/// underscore first, then letters, digits or underscores.
pub open spec fn is_identifier(s: Seq<u8>) -> bool {
    &&& s.len() > 0
    &&& is_ident_start(s[0])
    &&& forall|i: int| 0 <= i < s.len() ==> is_ident_char(#[trigger] s[i])
}

/// Whether a byte sequence names a label: an identifier that spells no
/// mnemonic.
pub open spec fn is_label(s: Seq<u8>) -> bool {
    is_identifier(s) && spec_mnemonic_of(s) is None
}

/// A symbol name. A valid one satisfies `is_label` of its bytes.
#[derive(Clone, Debug, PartialEq, Eq)]
pub struct Label {
    pub name: Vec<u8>,
}

impl View for Label {
    type V = Seq<u8>;

    open spec fn view(&self) -> Seq<u8> {
        self.name@
    }
}

impl Label {
    pub fn new(name: Vec<u8>) -> (r: Label)
        ensures
            r@ == name@,
    {
        Label { name }
    }
}

/// An operand: either a symbol to resolve or a literal value.
#[derive(Clone, Debug, PartialEq, Eq)]
pub enum Operand {
    Symbolic(Label),
    Numeric(u32),
}

/// Mathematical model of an operand.
pub enum OperandV {
    Symbolic(Seq<u8>),
    Numeric(u32),
}

impl View for Operand {
    type V = OperandV;

    open spec fn view(&self) -> OperandV {
        match self {
            Operand::Symbolic(l) => OperandV::Symbolic(l@),
            Operand::Numeric(n) => OperandV::Numeric(*n),
        }
    }
}

impl Operand {
    pub fn new_numeric(value: u32) -> (r: Operand)
        ensures
            r@ == OperandV::Numeric(value),
    {
        Operand::Numeric(value)
    }

    pub fn new_symbolic(label: Label) -> (r: Operand)
        ensures
            r@ == OperandV::Symbolic(label@),
    {
        Operand::Symbolic(label)
    }
}

impl From<u32> for Operand {
    fn from(value: u32) -> (r: Operand)
        ensures
            r@ == OperandV::Numeric(value),
    {
        Operand::Numeric(value)
    }
}

impl vstd::std_specs::convert::FromSpecImpl<u32> for Operand {
    open spec fn obeys_from_spec() -> bool {
        true
    }

    open spec fn from_spec(value: u32) -> Operand {
        Operand::Numeric(value)
    }
}

impl From<Label> for Operand {
    fn from(value: Label) -> (r: Operand)
        ensures
            r@ == OperandV::Symbolic(value@),
    {
        Operand::Symbolic(value)
    }
}

impl vstd::std_specs::convert::FromSpecImpl<Label> for Operand {
    open spec fn obeys_from_spec() -> bool {
        true
    }

    open spec fn from_spec(value: Label) -> Operand {
        Operand::Symbolic(value)
    }
}

/// A mnemonic paired with its operand; every emitting line carries exactly
/// one operation.
#[derive(Clone, Debug, PartialEq, Eq)]
pub struct Operation {
    pub instruction: Token<Instruction>,
    pub operand: Token<Operand>,
}

/// Mathematical model of an operation.
pub struct OperationV {
    pub instruction: crate::TokenV<Instruction>,
    pub operand: crate::TokenV<OperandV>,
}

impl View for Operation {
    type V = OperationV;

    open spec fn view(&self) -> OperationV {
        OperationV { instruction: self.instruction@, operand: self.operand@ }
    }
}

impl Operation {
    pub fn new(instruction: Token<Instruction>, operand: Token<Operand>) -> (r: Operation)
        ensures
            r.instruction == instruction,
            r.operand == operand,
    {
        Operation { instruction, operand }
    }
}

/// One parsed source line: an optional label and an operation.
#[derive(Clone, Debug, PartialEq, Eq)]
pub struct Line {
    pub label: Option<Token<Label>>,
    pub operation: Operation,
}

/// Mathematical model of a line.
pub struct LineV {
    pub label: Option<crate::TokenV<Seq<u8>>>,
    pub operation: OperationV,
}

/// The model of the optional label of a line.
pub open spec fn opt_label_view(o: Option<Token<Label>>) -> Option<crate::TokenV<Seq<u8>>> {
    match o {
        Some(t) => Some(t@),
        None => None,
    }
}

impl View for Line {
    type V = LineV;

    open spec fn view(&self) -> LineV {
        LineV { label: opt_label_view(self.label), operation: self.operation@ }
    }
}

impl Line {
    pub fn new(label: Option<Token<Label>>, operation: Operation) -> (r: Line)
        ensures
            r.label == label,
            r.operation == operation,
    {
        Line { label, operation }
    }
}

/// The model of a relational line that carries mnemonic `m` and label `l`
/// and no leading label of its own: the shape of every annotation. Both
/// tokens stand at position `p`.
pub open spec fn annotation_view(m: RelationalMneumonic, l: Seq<u8>, p: crate::Position) -> LineV {
    LineV {
        label: None,
        operation: OperationV {
            instruction: crate::TokenV { position: p, value: Instruction::Relational(m) },
            operand: crate::TokenV { position: p, value: OperandV::Symbolic(l) },
        },
    }
}

} // verus!
