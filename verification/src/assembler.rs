use vstd::prelude::*;
use vstd::pervasive::VecAdditionalExecFns;
use crate::{Position, Token};
use crate::errors::{ErrorKind, MvnError, ErrV, err_at, err_label};
use crate::types::{
    Instruction, Label, Line, LineV, NormalMneumonic, Operand, OperandV, PositionalMneumonic,
    RelationalMneumonic, spec_opcode, annotation_view,
};
use crate::machine::{
    AddressedLine, ALineV, MachineAddress, MachineAddressProperties, Operation,
};
use crate::parser::{lines_v, spec_parse_source, parse_program};
use crate::mcparser::mlines_v;

verus! {

/// One bound symbol: its name, its address, and whether the segment that
/// defined it was relocatable.
pub struct SymbolEntry {
    pub name: Label,
    pub address: u16,
    pub relocatable: bool,
}

/// Model of a bound symbol.
pub struct SymV {
    pub name: Seq<u8>,
    pub address: u16,
    pub relocatable: bool,
}

impl View for SymbolEntry {
    type V = SymV;

    open spec fn view(&self) -> SymV {
        SymV { name: self.name@, address: self.address, relocatable: self.relocatable }
    }
}

/// One exported label, with the position of the export line for
/// diagnostics.
pub struct ExportEntry {
    pub name: Label,
    pub position: Position,
}

/// Model of an exported label.
pub struct ExpV {
    pub name: Seq<u8>,
    pub position: Position,
}

impl View for ExportEntry {
    type V = ExpV;

    open spec fn view(&self) -> ExpV {
        ExpV { name: self.name@, position: self.position }
    }
}

/// The operand of an emitted word before resolution: a literal that
/// already fits its field, or a symbol still to look up.
pub enum PendOp {
    Num(u16),
    Sym(Token<Label>),
}

/// Model of a pending operand.
pub enum PendOpV {
    Num(u16),
    Sym(Seq<u8>, Position),
}

impl View for PendOp {
    type V = PendOpV;

    open spec fn view(&self) -> PendOpV {
        match self {
            PendOp::Num(v) => PendOpV::Num(*v),
            PendOp::Sym(t) => PendOpV::Sym(t.value@, t.position),
        }
    }
}

/// One emitted word awaiting resolution.
pub struct PendingLine {
    pub line_relocatable: bool,
    pub address: u16,
    pub opcode: u8,
    pub operand: PendOp,
}

/// Model of an emitted word awaiting resolution.
pub struct PendV {
    pub line_relocatable: bool,
    pub address: u16,
    pub opcode: u8,
    pub operand: PendOpV,
}

impl View for PendingLine {
    type V = PendV;

    open spec fn view(&self) -> PendV {
        PendV {
            line_relocatable: self.line_relocatable,
            address: self.address,
            opcode: self.opcode,
            operand: self.operand@,
        }
    }
}

/// The assembler's whole state while it walks the parsed lines.
pub struct AsmState {
    pub pc: u16,
    pub relocatable: bool,
    pub ended: bool,
    pub symbols: Vec<SymbolEntry>,
    pub imports: Vec<Label>,
    pub exports: Vec<ExportEntry>,
    pub pending: Vec<PendingLine>,
}

/// Model of the assembler's state.
pub struct AsmStateV {
    pub pc: u16,
    pub relocatable: bool,
    pub ended: bool,
    pub symbols: Seq<SymV>,
    pub imports: Seq<Seq<u8>>,
    pub exports: Seq<ExpV>,
    pub pending: Seq<PendV>,
}

impl View for AsmState {
    type V = AsmStateV;

    open spec fn view(&self) -> AsmStateV {
        AsmStateV {
            pc: self.pc,
            relocatable: self.relocatable,
            ended: self.ended,
            symbols: self.symbols@.map_values(|s: SymbolEntry| s@),
            imports: self.imports@.map_values(|s: Label| s@),
            exports: self.exports@.map_values(|s: ExportEntry| s@),
            pending: self.pending@.map_values(|s: PendingLine| s@),
        }
    }
}

/// The state every unit starts in: counter zero, relocatable mode, nothing
/// bound.
pub open spec fn init_state() -> AsmStateV {
    AsmStateV {
        pc: 0,
        relocatable: true,
        ended: false,
        symbols: Seq::empty(),
        imports: Seq::empty(),
        exports: Seq::empty(),
        pending: Seq::empty(),
    }
}

/// The first binding of `name`, if one stands in the table.
pub open spec fn sym_lookup(syms: Seq<SymV>, name: Seq<u8>) -> Option<SymV>
    decreases syms.len(),
{
    if syms.len() == 0 {
        None
    } else if syms[0].name == name {
        Some(syms[0])
    } else {
        sym_lookup(syms.skip(1), name)
    }
}

/// Bind the line's label, if it has one, to `addr` under `reloc`;
/// rebinding a bound name is fatal.
pub open spec fn spec_bind_label(
    syms: Seq<SymV>,
    label: Option<crate::TokenV<Seq<u8>>>,
    addr: u16,
    reloc: bool,
) -> Result<Seq<SymV>, ErrV> {
    match label {
        None => Ok(syms),
        Some(t) => {
            if sym_lookup(syms, t.value) is Some {
                Err(err_label(ErrorKind::DuplicateLabel, t.position, t.value))
            } else {
                Ok(syms.push(SymV { name: t.value, address: addr, relocatable: reloc }))
            }
        }
    }
}

/// Emit one word at the counter: the label binds to the counter first, the
/// counter must still fit the twelve-bit address field, and it advances by
/// two — one word of two bytes.
pub open spec fn spec_emit(st: AsmStateV, l: LineV, opcode: u8, pop: PendOpV)
    -> Result<AsmStateV, ErrV> {
    match spec_bind_label(st.symbols, l.label, st.pc, st.relocatable) {
        Err(e) => Err(e),
        Ok(syms) => {
            if st.pc > 0xFFF {
                Err(err_at(ErrorKind::OverflowError, l.operation.instruction.position))
            } else {
                Ok(AsmStateV {
                    pc: (st.pc + 2) as u16,
                    symbols: syms,
                    pending: st.pending.push(PendV {
                        line_relocatable: st.relocatable,
                        address: st.pc,
                        opcode,
                        operand: pop,
                    }),
                    ..st
                })
            }
        }
    }
}

/// An origin directive: a numeric operand becomes the new counter, the
/// mode switches, and the line's label binds at the new counter.
pub open spec fn spec_origin(st: AsmStateV, l: LineV, reloc: bool) -> Result<AsmStateV, ErrV> {
    match l.operation.operand.value {
        OperandV::Numeric(n) => {
            if n > 0xFFFF {
                Err(err_at(ErrorKind::OverflowError, l.operation.operand.position))
            } else {
                match spec_bind_label(st.symbols, l.label, n as u16, reloc) {
                    Err(e) => Err(e),
                    Ok(syms) => Ok(AsmStateV {
                        pc: n as u16,
                        relocatable: reloc,
                        symbols: syms,
                        ..st
                    }),
                }
            }
        }
        OperandV::Symbolic(_) => Err(err_at(
            ErrorKind::ParseError, l.operation.operand.position,
        )),
    }
}

/// One step of address assignment over one parsed line.
///
/// Origin directives move the counter and set the mode; `$` reserves
/// zero-valued words; `#` ends the unit, after which any line is fatal;
/// relational lines record an export or import and touch no address;
/// normal instructions emit one word each, the constant directive only
/// over a literal.
pub open spec fn spec_step(st: AsmStateV, l: LineV) -> Result<AsmStateV, ErrV> {
    if st.ended {
        Err(err_at(ErrorKind::EndAfterContent, l.operation.instruction.position))
    } else {
        let op_pos = l.operation.operand.position;
        match l.operation.instruction.value {
            Instruction::Positional(p) => match p {
                PositionalMneumonic::SetAbsoluteOrigin => spec_origin(st, l, false),
                PositionalMneumonic::SetRelocatableOrigin => spec_origin(st, l, true),
                PositionalMneumonic::ReserveMemory => match l.operation.operand.value {
                    OperandV::Numeric(n) => {
                        match spec_bind_label(st.symbols, l.label, st.pc, st.relocatable) {
                            Err(e) => Err(e),
                            Ok(syms) => {
                                if n == 0 {
                                    Ok(AsmStateV { symbols: syms, ..st })
                                } else if st.pc + 2 * n > 0x1000 {
                                    Err(err_at(
                                        ErrorKind::OverflowError,
                                        l.operation.instruction.position,
                                    ))
                                } else {
                                    Ok(AsmStateV {
                                        pc: (st.pc + 2 * n) as u16,
                                        symbols: syms,
                                        pending: st.pending + Seq::new(
                                            n as nat,
                                            |q: int| PendV {
                                                line_relocatable: st.relocatable,
                                                address: (st.pc + 2 * q) as u16,
                                                opcode: 0,
                                                operand: PendOpV::Num(0),
                                            },
                                        ),
                                        ..st
                                    })
                                }
                            }
                        }
                    }
                    OperandV::Symbolic(_) => Err(err_at(ErrorKind::ParseError, op_pos)),
                },
                PositionalMneumonic::SetEnd => {
                    match spec_bind_label(st.symbols, l.label, st.pc, st.relocatable) {
                        Err(e) => Err(e),
                        Ok(syms) => Ok(AsmStateV { ended: true, symbols: syms, ..st }),
                    }
                }
            },
            Instruction::Relational(rm) => match l.operation.operand.value {
                OperandV::Symbolic(lbl) => match rm {
                    RelationalMneumonic::Export => Ok(AsmStateV {
                        exports: st.exports.push(ExpV { name: lbl, position: op_pos }),
                        ..st
                    }),
                    RelationalMneumonic::Import => Ok(AsmStateV {
                        imports: st.imports.push(lbl),
                        ..st
                    }),
                },
                OperandV::Numeric(_) => Err(err_at(ErrorKind::ParseError, op_pos)),
            },
            Instruction::Normal(m) => match l.operation.operand.value {
                OperandV::Numeric(v) => {
                    if v > 0xFFF {
                        Err(err_at(ErrorKind::OverflowError, op_pos))
                    } else {
                        spec_emit(st, l, spec_opcode(m), PendOpV::Num(v as u16))
                    }
                }
                OperandV::Symbolic(lbl) => {
                    if m == NormalMneumonic::SetConstant {
                        Err(err_at(ErrorKind::ParseError, op_pos))
                    } else {
                        spec_emit(st, l, spec_opcode(m), PendOpV::Sym(lbl, op_pos))
                    }
                }
            },
        }
    }
}

/// Address assignment over all lines, from a given state.
pub open spec fn spec_phase_a(lines: Seq<LineV>, st: AsmStateV) -> Result<AsmStateV, ErrV>
    decreases lines.len(),
{
    if lines.len() == 0 {
        Ok(st)
    } else {
        match spec_step(st, lines[0]) {
            Err(e) => Err(e),
            Ok(st2) => spec_phase_a(lines.skip(1), st2),
        }
    }
}

/// Resolution of one pending word. A literal operand stands as it is; a
/// symbol takes the bound address and the binding segment's relocatability;
/// an unbound symbol that the unit imports becomes a zero operand marked
/// imported, its annotation attached; anything else is fatal.
pub open spec fn spec_resolve_one(p: PendV, syms: Seq<SymV>, imports: Seq<Seq<u8>>)
    -> Result<ALineV, ErrV> {
    match p.operand {
        PendOpV::Num(v) => Ok(ALineV {
            address: crate::TokenV {
                position: Position { line: 0, column: 0 },
                value: MachineAddress {
                    properties: MachineAddressProperties {
                        line_relocatable: p.line_relocatable,
                        operand_relocatable: false,
                        imported: false,
                    },
                    position: p.address,
                },
            },
            instruction: crate::TokenV { position: Position { line: 0, column: 0 }, value: p.opcode },
            operand: crate::TokenV { position: Position { line: 0, column: 0 }, value: v },
            annotation: None,
        }),
        PendOpV::Sym(name, pos) => match sym_lookup(syms, name) {
            Some(s) => {
                if s.address > 0xFFF {
                    Err(err_label(ErrorKind::OverflowError, pos, name))
                } else {
                    Ok(ALineV {
                        address: crate::TokenV {
                            position: Position { line: 0, column: 0 },
                            value: MachineAddress {
                                properties: MachineAddressProperties {
                                    line_relocatable: p.line_relocatable,
                                    operand_relocatable: s.relocatable,
                                    imported: false,
                                },
                                position: p.address,
                            },
                        },
                        instruction: crate::TokenV {
                            position: Position { line: 0, column: 0 },
                            value: p.opcode,
                        },
                        operand: crate::TokenV { position: pos, value: s.address },
                        annotation: None,
                    })
                }
            }
            None => {
                if imports.contains(name) {
                    Ok(ALineV {
                        address: crate::TokenV {
                            position: Position { line: 0, column: 0 },
                            value: MachineAddress {
                                properties: MachineAddressProperties {
                                    line_relocatable: p.line_relocatable,
                                    operand_relocatable: false,
                                    imported: true,
                                },
                                position: p.address,
                            },
                        },
                        instruction: crate::TokenV {
                            position: Position { line: 0, column: 0 },
                            value: p.opcode,
                        },
                        operand: crate::TokenV { position: pos, value: 0u16 },
                        annotation: Some(annotation_view(
                            RelationalMneumonic::Import, name, pos,
                        )),
                    })
                } else {
                    Err(err_label(ErrorKind::UnresolvedSymbol, pos, name))
                }
            }
        },
    }
}

/// Resolution of all pending words, in order; the first failure is the
/// result.
pub open spec fn spec_resolve_all(ps: Seq<PendV>, syms: Seq<SymV>, imports: Seq<Seq<u8>>)
    -> Result<Seq<ALineV>, ErrV>
    decreases ps.len(),
{
    if ps.len() == 0 {
        Ok(Seq::empty())
    } else {
        match spec_resolve_one(ps[0], syms, imports) {
            Err(e) => Err(e),
            Ok(l) => match spec_resolve_all(ps.skip(1), syms, imports) {
                Err(e) => Err(e),
                Ok(rest) => Ok(seq![l] + rest),
            },
        }
    }
}

/// The first line whose address is `a` and which carries no annotation
/// yet, or -1.
pub open spec fn find_target(ls: Seq<ALineV>, a: u16) -> int
    decreases ls.len(),
{
    if ls.len() == 0 {
        -1
    } else if ls[0].address.value.position == a && ls[0].annotation is None {
        0
    } else {
        let r = find_target(ls.skip(1), a);
        if r < 0 { -1 } else { r + 1 }
    }
}

/// Attach the export annotation for `name` to the first line at address
/// `a` that carries no annotation yet; the annotation's tokens stand at
/// position `p`. Where no word was emitted at `a` — the label stands on an
/// origin or end directive — or the line at `a` already carries an import
/// annotation, the listing is returned unchanged and the export is not
/// embedded: only emitted words can carry annotations.
pub open spec fn spec_attach(ls: Seq<ALineV>, a: u16, name: Seq<u8>, p: Position)
    -> Seq<ALineV> {
    let idx = find_target(ls, a);
    if idx < 0 {
        ls
    } else {
        ls.update(idx, ALineV {
            annotation: Some(annotation_view(RelationalMneumonic::Export, name, p)),
            ..ls[idx]
        })
    }
}

/// Attach every export annotation to its defining line; exporting an
/// unbound label is fatal. An export whose label is bound at an address
/// with no emitted word is recorded in the symbol table but appears on no
/// serialized line (see `spec_attach`).
pub open spec fn spec_attach_exports(
    ls: Seq<ALineV>,
    exports: Seq<ExpV>,
    syms: Seq<SymV>,
) -> Result<Seq<ALineV>, ErrV>
    decreases exports.len(),
{
    if exports.len() == 0 {
        Ok(ls)
    } else {
        match sym_lookup(syms, exports[0].name) {
            None => Err(err_label(
                ErrorKind::UnresolvedSymbol, exports[0].position, exports[0].name,
            )),
            Some(s) => spec_attach_exports(
                spec_attach(ls, s.address, exports[0].name, exports[0].position),
                exports.skip(1),
                syms,
            ),
        }
    }
}

/// The whole semantic pass over parsed lines: address assignment, symbol
/// resolution, export annotation.
pub open spec fn spec_assemble(lines: Seq<LineV>) -> Result<Seq<ALineV>, ErrV> {
    match spec_phase_a(lines, init_state()) {
        Err(e) => Err(e),
        Ok(st) => match spec_resolve_all(st.pending, st.symbols, st.imports) {
            Err(e) => Err(e),
            Ok(out) => spec_attach_exports(out, st.exports, st.symbols),
        },
    }
}

/// What assembling whole source text means: parse it, then assemble the
/// parsed lines.
pub open spec fn spec_process(s: Seq<u8>) -> Result<Seq<ALineV>, ErrV> {
    match spec_parse_source(s, 0, 1) {
        Err(e) => Err(e),
        Ok(ls) => spec_assemble(ls),
    }
}

/// The model of a symbol table.
pub open spec fn syms_v(s: Seq<SymbolEntry>) -> Seq<SymV> {
    s.map_values(|x: SymbolEntry| x@)
}

/// Whether the bytes of two vectors are equal.
pub fn bytes_eq(a: &Vec<u8>, b: &Vec<u8>) -> (r: bool)
    ensures
        r == (a@ == b@),
{
    if a.len() != b.len() {
        return false;
    }
    let mut i: usize = 0;
    while i < a.len()
        invariant
            i <= a@.len(),
            a@.len() == b@.len(),
            forall|j: int| 0 <= j < i ==> a@[j] == b@[j],
        decreases a@.len() - i,
    {
        if a[i] != b[i] {
            return false;
        }
        i += 1;
    }
    proof {
        assert(a@ =~= b@);
    }
    true
}

impl Label {
    /// A fresh label with the same bytes.
    pub fn duplicate(&self) -> (r: Label)
        ensures
            r@ == self@,
    {
        let name = crate::parser::copy_range(&self.name, 0, self.name.len());
        proof {
            assert(self.name@.subrange(0, self.name@.len() as int) =~= self.name@);
        }
        Label { name }
    }
}

/// The first binding of `name`, if one stands in the table.
pub fn sym_find(syms: &Vec<SymbolEntry>, name: &Label) -> (r: Option<(u16, bool)>)
    ensures
        match sym_lookup(syms_v(syms@), name@) {
            Some(s) => r == Some((s.address, s.relocatable)),
            None => r is None,
        },
{
    proof {
        assert(syms_v(syms@).skip(0) =~= syms_v(syms@));
    }
    let mut i: usize = 0;
    while i < syms.len()
        invariant
            i <= syms@.len(),
            sym_lookup(syms_v(syms@), name@)
                == sym_lookup(syms_v(syms@).skip(i as int), name@),
        decreases syms@.len() - i,
    {
        proof {
            assert(syms_v(syms@).skip(i as int)[0] == syms@[i as int]@);
            assert(syms_v(syms@).skip(i as int).skip(1) =~= syms_v(syms@).skip(i + 1));
        }
        if bytes_eq(&syms[i].name.name, &name.name) {
            return Some((syms[i].address, syms[i].relocatable));
        }
        i += 1;
    }
    proof {
        assert(syms_v(syms@).skip(syms@.len() as int) =~= Seq::<SymV>::empty());
    }
    None
}

/// Bind the line's label, if it has one, onto the table.
fn bind_label(syms: &mut Vec<SymbolEntry>, label: &Option<Token<Label>>, addr: u16, reloc: bool)
    -> (r: Result<(), MvnError>)
    ensures
        match r {
            Ok(_) => spec_bind_label(
                syms_v(old(syms)@), crate::types::opt_label_view(*label), addr, reloc,
            ) == Ok::<Seq<SymV>, ErrV>(syms_v(final(syms)@)),
            Err(e) => spec_bind_label(
                syms_v(old(syms)@), crate::types::opt_label_view(*label), addr, reloc,
            ) == Err::<Seq<SymV>, ErrV>(e@) && final(syms)@ == old(syms)@,
        },
{
    match label {
        None => Ok(()),
        Some(t) => {
            match sym_find(syms, &t.value) {
                Some(_) => Err(MvnError::with_label(
                    ErrorKind::DuplicateLabel, t.position, t.value.duplicate(),
                )),
                None => {
                    syms.push(SymbolEntry {
                        name: t.value.duplicate(),
                        address: addr,
                        relocatable: reloc,
                    });
                    proof {
                        assert(syms_v(syms@) =~= syms_v(old(syms)@).push(
                            SymV { name: t.value@, address: addr, relocatable: reloc },
                        ));
                    }
                    Ok(())
                }
            }
        }
    }
}

/// One step of address assignment over one parsed line.
#[verifier::rlimit(100)]
fn step_line(st: AsmState, l: &Line) -> (r: Result<AsmState, MvnError>)
    ensures
        match r {
            Ok(s2) => spec_step(st@, l@) == Ok::<AsmStateV, ErrV>(s2@),
            Err(e) => spec_step(st@, l@) == Err::<AsmStateV, ErrV>(e@),
        },
{
    let AsmState { pc, relocatable, ended, mut symbols, imports, exports, mut pending } = st;
    if ended {
        return Err(MvnError::at(ErrorKind::EndAfterContent, l.operation.instruction.position));
    }
    let op_pos = l.operation.operand.position;
    match l.operation.instruction.value {
        Instruction::Positional(p) => match p {
            PositionalMneumonic::SetAbsoluteOrigin | PositionalMneumonic::SetRelocatableOrigin => {
                let reloc = matches!(p, PositionalMneumonic::SetRelocatableOrigin);
                match &l.operation.operand.value {
                    Operand::Numeric(n) => {
                        let n = *n;
                        if n > 0xFFFF {
                            return Err(MvnError::at(ErrorKind::OverflowError, op_pos));
                        }
                        match bind_label(&mut symbols, &l.label, n as u16, reloc) {
                            Err(e) => Err(e),
                            Ok(_) => Ok(AsmState {
                                pc: n as u16,
                                relocatable: reloc,
                                ended,
                                symbols,
                                imports,
                                exports,
                                pending,
                            }),
                        }
                    }
                    Operand::Symbolic(_) => Err(MvnError::at(ErrorKind::ParseError, op_pos)),
                }
            }
            PositionalMneumonic::ReserveMemory => match &l.operation.operand.value {
                Operand::Numeric(n) => {
                    let n = *n;
                    match bind_label(&mut symbols, &l.label, pc, relocatable) {
                        Err(e) => Err(e),
                        Ok(_) => {
                            if n == 0 {
                                Ok(AsmState {
                                    pc, relocatable, ended, symbols, imports, exports, pending,
                                })
                            } else if n > 0x800 || (pc as u32) + 2 * n > 0x1000 {
                                Err(MvnError::at(
                                    ErrorKind::OverflowError,
                                    l.operation.instruction.position,
                                ))
                            } else {
                                let ghost pend0 = pending@.map_values(|s: PendingLine| s@);
                                let ghost words = Seq::new(
                                    n as nat,
                                    |q: int| PendV {
                                        line_relocatable: relocatable,
                                        address: (pc + 2 * q) as u16,
                                        opcode: 0,
                                        operand: PendOpV::Num(0),
                                    },
                                );
                                let mut q: u32 = 0;
                                while q < n
                                    invariant
                                        q <= n,
                                        n <= 0x800,
                                        pc + 2 * n <= 0x1000,
                                        words == Seq::new(
                                            n as nat,
                                            |x: int| PendV {
                                                line_relocatable: relocatable,
                                                address: (pc + 2 * x) as u16,
                                                opcode: 0,
                                                operand: PendOpV::Num(0),
                                            },
                                        ),
                                        pending@.map_values(|s: PendingLine| s@)
                                            == pend0 + words.take(q as int),
                                    decreases n - q,
                                {
                                    let elem = PendingLine {
                                        line_relocatable: relocatable,
                                        address: pc + 2 * (q as u16),
                                        opcode: 0,
                                        operand: PendOp::Num(0),
                                    };
                                    let ghost pbefore = pending@;
                                    pending.push(elem);
                                    q += 1;
                                    proof {
                                        assert(pending@.map_values(|s: PendingLine| s@)
                                            =~= pbefore.map_values(|s: PendingLine| s@)
                                                .push(elem@));
                                        assert(elem@ == words[q - 1]);
                                        assert(words.take(q as int)
                                            =~= words.take(q - 1).push(words[q - 1]));
                                        assert(pending@.map_values(|s: PendingLine| s@)
                                            =~= pend0 + words.take(q as int));
                                    }
                                }
                                proof {
                                    assert(words.take(n as int) =~= words);
                                }
                                Ok(AsmState {
                                    pc: ((pc as u32 + 2 * n) as u16),
                                    relocatable, ended, symbols, imports, exports, pending,
                                })
                            }
                        }
                    }
                }
                Operand::Symbolic(_) => Err(MvnError::at(ErrorKind::ParseError, op_pos)),
            },
            PositionalMneumonic::SetEnd => {
                match bind_label(&mut symbols, &l.label, pc, relocatable) {
                    Err(e) => Err(e),
                    Ok(_) => Ok(AsmState {
                        pc, relocatable, ended: true, symbols, imports, exports, pending,
                    }),
                }
            }
        },
        Instruction::Relational(rm) => match &l.operation.operand.value {
            Operand::Symbolic(lbl) => match rm {
                RelationalMneumonic::Export => {
                    let mut exports = exports;
                    exports.push(ExportEntry { name: lbl.duplicate(), position: op_pos });
                    proof {
                        assert(exports@.map_values(|s: ExportEntry| s@)
                            =~= st@.exports.push(ExpV { name: lbl@, position: op_pos }));
                    }
                    Ok(AsmState { pc, relocatable, ended, symbols, imports, exports, pending })
                }
                RelationalMneumonic::Import => {
                    let mut imports = imports;
                    imports.push(lbl.duplicate());
                    proof {
                        assert(imports@.map_values(|s: Label| s@)
                            =~= st@.imports.push(lbl@));
                    }
                    Ok(AsmState { pc, relocatable, ended, symbols, imports, exports, pending })
                }
            },
            Operand::Numeric(_) => Err(MvnError::at(ErrorKind::ParseError, op_pos)),
        },
        Instruction::Normal(m) => {
            let pop: PendOp = match &l.operation.operand.value {
                Operand::Numeric(v) => {
                    let v = *v;
                    if v > 0xFFF {
                        return Err(MvnError::at(ErrorKind::OverflowError, op_pos));
                    }
                    PendOp::Num(v as u16)
                }
                Operand::Symbolic(lbl) => {
                    if matches!(m, NormalMneumonic::SetConstant) {
                        return Err(MvnError::at(ErrorKind::ParseError, op_pos));
                    }
                    PendOp::Sym(Token { position: op_pos, value: lbl.duplicate() })
                }
            };
            match bind_label(&mut symbols, &l.label, pc, relocatable) {
                Err(e) => Err(e),
                Ok(_) => {
                    if pc > 0xFFF {
                        Err(MvnError::at(
                            ErrorKind::OverflowError, l.operation.instruction.position,
                        ))
                    } else {
                        let ghost popv = pop@;
                        pending.push(PendingLine {
                            line_relocatable: relocatable,
                            address: pc,
                            opcode: m.opcode(),
                            operand: pop,
                        });
                        proof {
                            assert(pending@.map_values(|s: PendingLine| s@)
                                =~= st@.pending.push(PendV {
                                    line_relocatable: relocatable,
                                    address: pc,
                                    opcode: spec_opcode(m),
                                    operand: popv,
                                }));
                        }
                        Ok(AsmState {
                            pc: pc + 2, relocatable, ended, symbols, imports, exports, pending,
                        })
                    }
                }
            }
        }
    }
}

/// Resolve one pending word against the symbol table and the imports.
fn resolve_one(p: &PendingLine, syms: &Vec<SymbolEntry>, imports: &Vec<Label>)
    -> (r: Result<AddressedLine, MvnError>)
    ensures
        match r {
            Ok(l) => spec_resolve_one(
                p@,
                syms_v(syms@),
                imports@.map_values(|s: Label| s@),
            ) == Ok::<ALineV, ErrV>(l@),
            Err(e) => spec_resolve_one(
                p@,
                syms_v(syms@),
                imports@.map_values(|s: Label| s@),
            ) == Err::<ALineV, ErrV>(e@),
        },
{
    let zero = Position::new(0, 0);
    match &p.operand {
        PendOp::Num(v) => Ok(AddressedLine {
            address: Token::new(zero, MachineAddress {
                properties: MachineAddressProperties {
                    line_relocatable: p.line_relocatable,
                    operand_relocatable: false,
                    imported: false,
                },
                position: p.address,
            }),
            operation: Operation {
                instruction: Token::new(zero, p.opcode),
                operand: Token::new(zero, *v),
            },
            relational_annotation: None,
        }),
        PendOp::Sym(t) => match sym_find(syms, &t.value) {
            Some((a, reloc)) => {
                if a > 0xFFF {
                    Err(MvnError::with_label(
                        ErrorKind::OverflowError, t.position, t.value.duplicate(),
                    ))
                } else {
                    Ok(AddressedLine {
                        address: Token::new(zero, MachineAddress {
                            properties: MachineAddressProperties {
                                line_relocatable: p.line_relocatable,
                                operand_relocatable: reloc,
                                imported: false,
                            },
                            position: p.address,
                        }),
                        operation: Operation {
                            instruction: Token::new(zero, p.opcode),
                            operand: Token::new(t.position, a),
                        },
                        relational_annotation: None,
                    })
                }
            }
            None => {
                let mut found: bool = false;
                let mut k: usize = 0;
                while k < imports.len()
                    invariant
                        k <= imports@.len(),
                        found == exists|j: int| 0 <= j < k
                            && #[trigger] imports@[j]@ == t.value@,
                    decreases imports@.len() - k,
                {
                    if bytes_eq(&imports[k].name, &t.value.name) {
                        proof {
                            assert(imports@[k as int]@ == t.value@);
                        }
                        found = true;
                    } else {
                        proof {
                            assert(imports@[k as int]@ != t.value@);
                        }
                    }
                    k += 1;
                }
                proof {
                    let imps = imports@.map_values(|s: Label| s@);
                    if found {
                        let j = choose|j: int| 0 <= j < imports@.len()
                            && #[trigger] imports@[j]@ == t.value@;
                        assert(imps[j] == t.value@);
                        assert(imps.contains(t.value@));
                    } else {
                        if imps.contains(t.value@) {
                            let j = choose|j: int| 0 <= j < imps.len()
                                && #[trigger] imps[j] == t.value@;
                            assert(imports@[j]@ == t.value@);
                            assert(false);
                        }
                    }
                    assert(found == imps.contains(t.value@));
                }
                if found {
                    Ok(AddressedLine {
                        address: Token::new(zero, MachineAddress {
                            properties: MachineAddressProperties {
                                line_relocatable: p.line_relocatable,
                                operand_relocatable: false,
                                imported: true,
                            },
                            position: p.address,
                        }),
                        operation: Operation {
                            instruction: Token::new(zero, p.opcode),
                            operand: Token::new(t.position, 0),
                        },
                        relational_annotation: Some(Line {
                            label: None,
                            operation: crate::types::Operation {
                                instruction: Token::new(
                                    t.position,
                                    Instruction::Relational(RelationalMneumonic::Import),
                                ),
                                operand: Token::new(
                                    t.position,
                                    Operand::Symbolic(t.value.duplicate()),
                                ),
                            },
                        }),
                    })
                } else {
                    Err(MvnError::with_label(
                        ErrorKind::UnresolvedSymbol, t.position, t.value.duplicate(),
                    ))
                }
            }
        },
    }
}

/// The first line of `ls` at address `a` that carries no annotation.
fn find_target_exec(ls: &Vec<AddressedLine>, a: u16) -> (r: Option<usize>)
    ensures
        match r {
            Some(i) => i < ls@.len() && find_target(mlines_v(ls@), a) == i as int,
            None => find_target(mlines_v(ls@), a) < 0,
        },
{
    proof {
        assert(mlines_v(ls@).skip(0) =~= mlines_v(ls@));
    }
    let mut i: usize = 0;
    while i < ls.len()
        invariant
            i <= ls@.len(),
            find_target(mlines_v(ls@), a) == (if find_target(
                mlines_v(ls@).skip(i as int), a,
            ) < 0 {
                -1int
            } else {
                find_target(mlines_v(ls@).skip(i as int), a) + i
            }),
        decreases ls@.len() - i,
    {
        proof {
            assert(mlines_v(ls@).skip(i as int)[0] == ls@[i as int]@);
            assert(mlines_v(ls@).skip(i as int).skip(1) =~= mlines_v(ls@).skip(i + 1));
        }
        if ls[i].address.value.position == a && ls[i].relational_annotation.is_none() {
            return Some(i);
        }
        i += 1;
    }
    proof {
        assert(mlines_v(ls@).skip(ls@.len() as int) =~= Seq::<ALineV>::empty());
    }
    None
}

/// Assemble parsed lines into a relocatable listing: addresses assigned,
/// symbols resolved, exports annotated.
#[verifier::rlimit(100)]
pub fn assemble(lines: &Vec<Line>) -> (r: Result<Vec<AddressedLine>, MvnError>)
    ensures
        match r {
            Ok(v) => spec_assemble(lines_v(lines@)) == Ok::<Seq<ALineV>, ErrV>(mlines_v(v@)),
            Err(e) => spec_assemble(lines_v(lines@)) == Err::<Seq<ALineV>, ErrV>(e@),
        },
{
    let mut st = AsmState {
        pc: 0,
        relocatable: true,
        ended: false,
        symbols: Vec::new(),
        imports: Vec::new(),
        exports: Vec::new(),
        pending: Vec::new(),
    };
    proof {
        assert(st@.symbols =~= init_state().symbols);
        assert(st@.imports =~= init_state().imports);
        assert(st@.exports =~= init_state().exports);
        assert(st@.pending =~= init_state().pending);
        assert(st@ == init_state());
        assert(lines_v(lines@).skip(0) =~= lines_v(lines@));
    }
    let mut i: usize = 0;
    while i < lines.len()
        invariant
            i <= lines@.len(),
            spec_phase_a(lines_v(lines@), init_state())
                == spec_phase_a(lines_v(lines@).skip(i as int), st@),
        decreases lines@.len() - i,
    {
        proof {
            assert(lines_v(lines@).skip(i as int)[0] == lines@[i as int]@);
            assert(lines_v(lines@).skip(i as int).skip(1) =~= lines_v(lines@).skip(i + 1));
        }
        st = match step_line(st, &lines[i]) {
            Ok(s2) => s2,
            Err(e) => {
                return Err(e);
            }
        };
        i += 1;
    }
    proof {
        assert(lines_v(lines@).skip(lines@.len() as int) =~= Seq::<LineV>::empty());
    }
    let ghost stv = st@;
    let AsmState { pc: _, relocatable: _, ended: _, symbols, imports, exports, pending } = st;
    let ghost syms_g = syms_v(symbols@);
    let ghost imps_g = imports@.map_values(|s: Label| s@);
    let ghost pends_g = pending@.map_values(|s: PendingLine| s@);
    let ghost exps_g = exports@.map_values(|s: ExportEntry| s@);
    proof {
        assert(spec_phase_a(lines_v(lines@), init_state()) == Ok::<AsmStateV, ErrV>(stv));
        assert(stv.symbols == syms_g && stv.imports == imps_g && stv.pending == pends_g
            && stv.exports == exps_g);
    }
    let mut out: Vec<AddressedLine> = Vec::new();
    proof {
        assert(pends_g.skip(0) =~= pends_g);
    }
    let mut p: usize = 0;
    while p < pending.len()
        invariant
            p <= pending@.len(),
            spec_phase_a(lines_v(lines@), init_state()) == Ok::<AsmStateV, ErrV>(stv),
            stv.symbols == syms_g && stv.imports == imps_g && stv.pending == pends_g
                && stv.exports == exps_g,
            pends_g == pending@.map_values(|s: PendingLine| s@),
            syms_g == syms_v(symbols@),
            imps_g == imports@.map_values(|s: Label| s@),
            spec_resolve_all(pends_g, syms_g, imps_g) == match spec_resolve_all(
                pends_g.skip(p as int), syms_g, imps_g,
            ) {
                Ok(rest) => Ok::<Seq<ALineV>, ErrV>(mlines_v(out@) + rest),
                Err(e) => Err::<Seq<ALineV>, ErrV>(e),
            },
        decreases pending@.len() - p,
    {
        proof {
            assert(pends_g.skip(p as int)[0] == pending@[p as int]@);
            assert(pends_g.skip(p as int).skip(1) =~= pends_g.skip(p + 1));
        }
        let ghost out0 = out@;
        match resolve_one(&pending[p], &symbols, &imports) {
            Ok(l) => {
                let ghost lv = l@;
                out.push(l);
                proof {
                    assert(mlines_v(out@) =~= mlines_v(out0).push(lv));
                    match spec_resolve_all(pends_g.skip(p + 1), syms_g, imps_g) {
                        Ok(rest) => {
                            assert(mlines_v(out0) + (seq![lv] + rest)
                                =~= mlines_v(out@) + rest);
                        }
                        Err(_) => {}
                    }
                }
            }
            Err(e) => {
                return Err(e);
            }
        }
        p += 1;
    }
    proof {
        assert(pends_g.skip(pending@.len() as int) =~= Seq::<PendV>::empty());
        assert(spec_resolve_all(pends_g, syms_g, imps_g)
            == Ok::<Seq<ALineV>, ErrV>(mlines_v(out@) + Seq::empty()));
        assert(mlines_v(out@) + Seq::<ALineV>::empty() =~= mlines_v(out@));
        assert(exps_g.skip(0) =~= exps_g);
    }
    let ghost resolved = mlines_v(out@);
    let mut x: usize = 0;
    while x < exports.len()
        invariant
            x <= exports@.len(),
            spec_phase_a(lines_v(lines@), init_state()) == Ok::<AsmStateV, ErrV>(stv),
            stv.symbols == syms_g && stv.imports == imps_g && stv.pending == pends_g
                && stv.exports == exps_g,
            spec_resolve_all(pends_g, syms_g, imps_g) == Ok::<Seq<ALineV>, ErrV>(resolved),
            exps_g == exports@.map_values(|s: ExportEntry| s@),
            syms_g == syms_v(symbols@),
            spec_attach_exports(resolved, exps_g, syms_g)
                == spec_attach_exports(mlines_v(out@), exps_g.skip(x as int), syms_g),
        decreases exports@.len() - x,
    {
        proof {
            assert(exps_g.skip(x as int)[0] == exports@[x as int]@);
            assert(exps_g.skip(x as int).skip(1) =~= exps_g.skip(x + 1));
        }
        let ex_name = exports[x].name.duplicate();
        let ex_pos = exports[x].position;
        match sym_find(&symbols, &ex_name) {
            None => {
                return Err(MvnError::with_label(ErrorKind::UnresolvedSymbol, ex_pos, ex_name));
            }
            Some((a, _)) => {
                let ghost out_before = mlines_v(out@);
                match find_target_exec(&out, a) {
                    Some(idx) => {
                        let ann = Line {
                            label: None,
                            operation: crate::types::Operation {
                                instruction: Token::new(
                                    ex_pos,
                                    Instruction::Relational(RelationalMneumonic::Export),
                                ),
                                operand: Token::new(
                                    ex_pos,
                                    Operand::Symbolic(ex_name),
                                ),
                            },
                        };
                        let replaced = AddressedLine {
                            address: out[idx].address,
                            operation: out[idx].operation,
                            relational_annotation: Some(ann),
                        };
                        let ghost rv = replaced@;
                        out.set(idx, replaced);
                        proof {
                            assert(mlines_v(out@)
                                =~= out_before.update(idx as int, rv));
                            assert(mlines_v(out@)
                                =~= spec_attach(out_before, a, exports@[x as int]@.name, ex_pos));
                        }
                    }
                    None => {
                        proof {
                            assert(mlines_v(out@)
                                == spec_attach(out_before, a, exports@[x as int]@.name, ex_pos));
                        }
                    }
                }
            }
        }
        x += 1;
    }
    proof {
        assert(exps_g.skip(exports@.len() as int) =~= Seq::<ExpV>::empty());
    }
    Ok(out)
}

/// Assemble whole source text: parse it, then assemble the parsed lines.
/// Every line of a successful result is well formed, so it can be
/// serialized.
pub fn process(src: &Vec<u8>) -> (r: Result<Vec<AddressedLine>, MvnError>)
    requires
        src@.len() + 2 <= usize::MAX,
    ensures
        match r {
            Ok(v) => spec_process(src@) == Ok::<Seq<ALineV>, ErrV>(mlines_v(v@))
                && crate::printer::all_wf(mlines_v(v@)),
            Err(e) => spec_process(src@) == Err::<Seq<ALineV>, ErrV>(e@),
        },
{
    proof {
        crate::parser::lemma_parse_source_wf(src@, 0, 1);
    }
    match parse_program(src) {
        Err(e) => Err(e),
        Ok(lines) => {
            proof {
                lemma_assemble_wf(lines_v(lines@));
            }
            let r = assemble(&lines);
            proof {
                match r {
                    Ok(ref v) => {
                        let out = spec_assemble(lines_v(lines@))->Ok_0;
                        assert(out == mlines_v(v@));
                        assert forall|q: int| 0 <= q < mlines_v(v@).len()
                            implies crate::machine::line_wf(#[trigger] mlines_v(v@)[q]) by {
                            assert(crate::machine::line_unit_wf(out[q]));
                        }
                    }
                    Err(_) => {}
                }
            }
            r
        }
    }
}

/// No relational line moves the address counter or emits a word; every
/// normal line emits exactly one word at the counter and advances it by
/// exactly two; a reservation advances the counter by two for every word
/// it emits.
pub proof fn lemma_positional_invariants(st: AsmStateV, l: LineV)
    requires
        spec_step(st, l) is Ok,
    ensures
        l.operation.instruction.value is Relational ==> {
            let s2 = spec_step(st, l)->Ok_0;
            s2.pc == st.pc && s2.pending == st.pending
        },
        l.operation.instruction.value is Normal ==> {
            let s2 = spec_step(st, l)->Ok_0;
            s2.pc == st.pc + 2 && s2.pending.len() == st.pending.len() + 1
                && s2.pending.last().address == st.pc
        },
        l.operation.instruction.value == Instruction::Positional(
            PositionalMneumonic::ReserveMemory,
        ) ==> {
            let s2 = spec_step(st, l)->Ok_0;
            s2.pc == st.pc + 2 * (s2.pending.len() - st.pending.len())
        },
{
    match l.operation.instruction.value {
        Instruction::Positional(PositionalMneumonic::ReserveMemory) => {
            match l.operation.operand.value {
                OperandV::Numeric(n) => {
                    let s2 = spec_step(st, l)->Ok_0;
                    assert(s2.pending.len() == st.pending.len() + n);
                }
                OperandV::Symbolic(_) => {}
            }
        }
        _ => {}
    }
}

/// For one and the same input bytes the pass has one and the same result:
/// its behaviour is a function of the input text alone.
pub proof fn lemma_deterministic(
    s: Seq<u8>,
    r1: Result<Seq<ALineV>, ErrV>,
    r2: Result<Seq<ALineV>, ErrV>,
)
    requires
        r1 == spec_process(s),
        r2 == spec_process(s),
    ensures
        r1 == r2,
{
}

/// Every opcode fits its four-bit field.
pub proof fn lemma_opcode_bound(m: NormalMneumonic)
    ensures
        spec_opcode(m) < 0x10,
{
}

/// Whether a pending word is well formed: its address and literal operand
/// fit their fields, its opcode its nibble, and a symbolic operand names a
/// well-formed label.
pub open spec fn pending_wf(p: PendV) -> bool {
    &&& p.address < 0x1000
    &&& p.opcode < 0x10
    &&& match p.operand {
            PendOpV::Num(v) => v < 0x1000,
            PendOpV::Sym(n, _) => crate::types::is_label(n),
        }
}

/// Whether the assembler's state is well formed: every pending word is,
/// and every recorded import and export names a well-formed label.
pub open spec fn state_wf(st: AsmStateV) -> bool {
    &&& forall|i: int| 0 <= i < st.pending.len() ==> pending_wf(#[trigger] st.pending[i])
    &&& forall|i: int| 0 <= i < st.imports.len()
        ==> crate::types::is_label(#[trigger] st.imports[i])
    &&& forall|i: int| 0 <= i < st.exports.len()
        ==> crate::types::is_label((#[trigger] st.exports[i]).name)
}

/// One step over a grammar-accepted line keeps the state well formed.
pub proof fn lemma_step_wf(st: AsmStateV, l: LineV)
    requires
        state_wf(st),
        crate::parser::parsed_line_wf(l),
    ensures
        spec_step(st, l) matches Ok(s2) ==> state_wf(s2),
{
    if !st.ended {
        match l.operation.instruction.value {
            Instruction::Positional(PositionalMneumonic::ReserveMemory) => {
                match l.operation.operand.value {
                    OperandV::Numeric(n) => {
                        match spec_bind_label(st.symbols, l.label, st.pc, st.relocatable) {
                            Err(_) => {}
                            Ok(_) => {
                                if n != 0 && !(st.pc + 2 * n > 0x1000) {
                                    let words = Seq::new(
                                        n as nat,
                                        |q: int| PendV {
                                            line_relocatable: st.relocatable,
                                            address: (st.pc + 2 * q) as u16,
                                            opcode: 0,
                                            operand: PendOpV::Num(0),
                                        },
                                    );
                                    let p2 = st.pending + words;
                                    assert forall|i: int| 0 <= i < p2.len()
                                        implies pending_wf(#[trigger] p2[i]) by {
                                        if i < st.pending.len() {
                                            assert(p2[i] == st.pending[i]);
                                        } else {
                                            assert(p2[i] == words[i - st.pending.len()]);
                                        }
                                    }
                                }
                            }
                        }
                    }
                    OperandV::Symbolic(_) => {}
                }
            }
            Instruction::Normal(m) => {
                lemma_opcode_bound(m);
            }
            _ => {}
        }
    }
}

/// Address assignment from a well-formed state over grammar-accepted lines
/// ends in a well-formed state.
pub proof fn lemma_phase_a_wf(lines: Seq<LineV>, st: AsmStateV)
    requires
        state_wf(st),
        forall|i: int| 0 <= i < lines.len()
            ==> crate::parser::parsed_line_wf(#[trigger] lines[i]),
    ensures
        spec_phase_a(lines, st) matches Ok(s2) ==> state_wf(s2),
    decreases lines.len(),
{
    if lines.len() > 0 {
        lemma_step_wf(st, lines[0]);
        match spec_step(st, lines[0]) {
            Err(_) => {}
            Ok(s2) => {
                assert(forall|i: int| 0 <= i < lines.skip(1).len()
                    ==> crate::parser::parsed_line_wf(#[trigger] lines.skip(1)[i]));
                lemma_phase_a_wf(lines.skip(1), s2);
            }
        }
    }
}

/// Resolving a well-formed pending word gives a well-formed machine line.
pub proof fn lemma_resolve_one_wf(p: PendV, syms: Seq<SymV>, imports: Seq<Seq<u8>>)
    requires
        pending_wf(p),
        forall|i: int| 0 <= i < imports.len()
            ==> crate::types::is_label(#[trigger] imports[i]),
    ensures
        spec_resolve_one(p, syms, imports) matches Ok(l)
            ==> crate::machine::line_unit_wf(l),
{
    match p.operand {
        PendOpV::Num(_) => {}
        PendOpV::Sym(name, _) => {
            match sym_lookup(syms, name) {
                Some(_) => {}
                None => {
                    if imports.contains(name) {
                        let i = choose|i: int| 0 <= i < imports.len()
                            && #[trigger] imports[i] == name;
                        assert(crate::types::is_label(name));
                    }
                }
            }
        }
    }
}

/// Resolving all well-formed pending words gives well-formed lines.
pub proof fn lemma_resolve_all_wf(ps: Seq<PendV>, syms: Seq<SymV>, imports: Seq<Seq<u8>>)
    requires
        forall|i: int| 0 <= i < ps.len() ==> pending_wf(#[trigger] ps[i]),
        forall|i: int| 0 <= i < imports.len()
            ==> crate::types::is_label(#[trigger] imports[i]),
    ensures
        spec_resolve_all(ps, syms, imports) matches Ok(out)
            ==> forall|j: int| 0 <= j < out.len()
                ==> crate::machine::line_unit_wf(#[trigger] out[j]),
    decreases ps.len(),
{
    if ps.len() > 0 {
        lemma_resolve_one_wf(ps[0], syms, imports);
        assert(forall|i: int| 0 <= i < ps.skip(1).len()
            ==> pending_wf(#[trigger] ps.skip(1)[i]));
        lemma_resolve_all_wf(ps.skip(1), syms, imports);
        match spec_resolve_one(ps[0], syms, imports) {
            Err(_) => {}
            Ok(l) => {
                match spec_resolve_all(ps.skip(1), syms, imports) {
                    Err(_) => {}
                    Ok(rest) => {
                        let out = seq![l] + rest;
                        assert(crate::machine::line_unit_wf(out[0]));
                        assert(forall|j: int| 1 <= j < out.len()
                            ==> #[trigger] out[j] == rest[j - 1]);
                    }
                }
            }
        }
    }
}

/// The target the export annotation attaches to lies within the listing.
proof fn lemma_find_target_bounds(ls: Seq<ALineV>, a: u16)
    ensures
        find_target(ls, a) >= 0 ==> find_target(ls, a) < ls.len(),
    decreases ls.len(),
{
    if ls.len() > 0 && !(ls[0].address.value.position == a && ls[0].annotation is None) {
        lemma_find_target_bounds(ls.skip(1), a);
    }
}

/// Attaching an export annotation over a well-formed label keeps every
/// line well formed.
pub proof fn lemma_attach_wf(ls: Seq<ALineV>, a: u16, name: Seq<u8>, p: Position)
    requires
        forall|i: int| 0 <= i < ls.len() ==> crate::machine::line_unit_wf(#[trigger] ls[i]),
        crate::types::is_label(name),
    ensures
        forall|i: int| 0 <= i < spec_attach(ls, a, name, p).len()
            ==> crate::machine::line_unit_wf(#[trigger] spec_attach(ls, a, name, p)[i]),
        spec_attach(ls, a, name, p).len() == ls.len(),
{
    lemma_find_target_bounds(ls, a);
    let idx = find_target(ls, a);
    if idx >= 0 {
        let out = spec_attach(ls, a, name, p);
        assert forall|i: int| 0 <= i < out.len()
            implies crate::machine::line_unit_wf(#[trigger] out[i]) by {
            if i != idx {
                assert(out[i] == ls[i]);
            } else {
                assert(crate::machine::line_unit_wf(ls[idx]));
            }
        }
    }
}

/// Attaching every export over well-formed labels keeps every line well
/// formed.
pub proof fn lemma_attach_exports_wf(ls: Seq<ALineV>, exports: Seq<ExpV>, syms: Seq<SymV>)
    requires
        forall|i: int| 0 <= i < ls.len() ==> crate::machine::line_unit_wf(#[trigger] ls[i]),
        forall|i: int| 0 <= i < exports.len()
            ==> crate::types::is_label((#[trigger] exports[i]).name),
    ensures
        spec_attach_exports(ls, exports, syms) matches Ok(out)
            ==> forall|j: int| 0 <= j < out.len()
                ==> crate::machine::line_unit_wf(#[trigger] out[j]),
    decreases exports.len(),
{
    if exports.len() > 0 {
        match sym_lookup(syms, exports[0].name) {
            None => {}
            Some(s) => {
                lemma_attach_wf(ls, s.address, exports[0].name, exports[0].position);
                assert(forall|i: int| 0 <= i < exports.skip(1).len()
                    ==> crate::types::is_label((#[trigger] exports.skip(1)[i]).name));
                lemma_attach_exports_wf(
                    spec_attach(ls, s.address, exports[0].name, exports[0].position),
                    exports.skip(1),
                    syms,
                );
            }
        }
    }
}

/// Assembling grammar-accepted lines yields well-formed machine lines.
pub proof fn lemma_assemble_wf(lines: Seq<LineV>)
    requires
        forall|i: int| 0 <= i < lines.len()
            ==> crate::parser::parsed_line_wf(#[trigger] lines[i]),
    ensures
        spec_assemble(lines) matches Ok(out)
            ==> forall|j: int| 0 <= j < out.len()
                ==> crate::machine::line_unit_wf(#[trigger] out[j]),
{
    lemma_phase_a_wf(lines, init_state());
    match spec_phase_a(lines, init_state()) {
        Err(_) => {}
        Ok(st) => {
            lemma_resolve_all_wf(st.pending, st.symbols, st.imports);
            match spec_resolve_all(st.pending, st.symbols, st.imports) {
                Err(_) => {}
                Ok(out) => {
                    lemma_attach_exports_wf(out, st.exports, st.symbols);
                }
            }
        }
    }
}

} // verus!
