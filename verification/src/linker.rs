use vstd::prelude::*;
use crate::{Position, Token};
use crate::errors::{ErrorKind, MvnError, ErrV, err_at, err_label, err_address};
use crate::types::{Line, Operand, Instruction, RelationalMneumonic, OperandV, Label};
use crate::machine::{
    AddressedLine, ALineV, MachineAddress, MachineAddressProperties, Operation,
    shift_ok, spec_shift_line,
};
use crate::assembler::{SymV, sym_lookup, syms_v, bytes_eq};
use crate::mcparser::{mlines_v, spec_parse_machine, parse_machine_program};

verus! {

/// The lowest and highest address of the relocatable lines of a unit, if it
/// has any.
pub open spec fn spec_span_bounds(u: Seq<ALineV>) -> Option<(u16, u16)>
    decreases u.len(),
{
    if u.len() == 0 {
        None
    } else {
        let rest = spec_span_bounds(u.skip(1));
        if u[0].address.value.properties.line_relocatable {
            let a = u[0].address.value.position;
            match rest {
                None => Some((a, a)),
                Some((lo, hi)) => Some((
                    if a < lo { a } else { lo },
                    if a > hi { a } else { hi },
                )),
            }
        } else {
            rest
        }
    }
}

/// The length of a unit's relocatable span: from its lowest relocatable
/// address to just past its highest, or zero where none is relocatable.
pub open spec fn spec_span(u: Seq<ALineV>) -> int {
    match spec_span_bounds(u) {
        None => 0,
        Some((lo, hi)) => hi + 2 - lo,
    }
}

/// Shift one unit by `offset`, tags preserved; a field that leaves its
/// twelve-bit range is fatal.
pub open spec fn spec_shift_unit(u: Seq<ALineV>, offset: u16) -> Result<Seq<ALineV>, ErrV>
    decreases u.len(),
{
    if u.len() == 0 {
        Ok(Seq::empty())
    } else if !shift_ok(u[0], offset) {
        Err(err_at(ErrorKind::OverflowError, u[0].address.position))
    } else {
        match spec_shift_unit(u.skip(1), offset) {
            Err(e) => Err(e),
            Ok(rest) => Ok(seq![spec_shift_line(u[0], offset)] + rest),
        }
    }
}

/// Shift every unit: unit `k` moves by the sum of the relocatable span
/// lengths of the units before it.
pub open spec fn spec_shift_all(units: Seq<Seq<ALineV>>, offset: u16)
    -> Result<Seq<Seq<ALineV>>, ErrV>
    decreases units.len(),
{
    if units.len() == 0 {
        Ok(Seq::empty())
    } else {
        match spec_shift_unit(units[0], offset) {
            Err(e) => Err(e),
            Ok(u1) => {
                if units.len() == 1 {
                    Ok(seq![u1])
                } else if offset + spec_span(units[0]) > 0xFFFF {
                    Err(err_at(ErrorKind::OverflowError, Position { line: 0, column: 0 }))
                } else {
                    match spec_shift_all(
                        units.skip(1), (offset + spec_span(units[0])) as u16,
                    ) {
                        Err(e) => Err(e),
                        Ok(rest) => Ok(seq![u1] + rest),
                    }
                }
            }
        }
    }
}

/// All units' lines, laid end to end in input order.
pub open spec fn flatten_units(sh: Seq<Seq<ALineV>>) -> Seq<ALineV>
    decreases sh.len(),
{
    if sh.len() == 0 {
        Seq::empty()
    } else {
        sh[0] + flatten_units(sh.skip(1))
    }
}

/// The label a line exports, if its annotation is an export over a symbol.
pub open spec fn export_of(l: ALineV) -> Option<Seq<u8>> {
    match l.annotation {
        Some(a) => {
            if a.operation.instruction.value == Instruction::Relational(
                RelationalMneumonic::Export,
            ) {
                match a.operation.operand.value {
                    OperandV::Symbolic(s) => Some(s),
                    OperandV::Numeric(_) => None,
                }
            } else {
                None
            }
        }
        None => None,
    }
}

/// The label a line imports, if its annotation is an import over a symbol.
pub open spec fn import_of(l: ALineV) -> Option<Seq<u8>> {
    match l.annotation {
        Some(a) => {
            if a.operation.instruction.value == Instruction::Relational(
                RelationalMneumonic::Import,
            ) {
                match a.operation.operand.value {
                    OperandV::Symbolic(s) => Some(s),
                    OperandV::Numeric(_) => None,
                }
            } else {
                None
            }
        }
        None => None,
    }
}

/// The global export table over the shifted lines: each exported label with
/// its final address and the exporting line's relocatability. A label
/// published twice is fatal.
pub open spec fn spec_collect_exports(ls: Seq<ALineV>, table: Seq<SymV>)
    -> Result<Seq<SymV>, ErrV>
    decreases ls.len(),
{
    if ls.len() == 0 {
        Ok(table)
    } else {
        match export_of(ls[0]) {
            None => spec_collect_exports(ls.skip(1), table),
            Some(name) => {
                if sym_lookup(table, name) is Some {
                    Err(err_label(ErrorKind::DuplicateExport, ls[0].address.position, name))
                } else {
                    spec_collect_exports(ls.skip(1), table.push(SymV {
                        name,
                        address: ls[0].address.value.position,
                        relocatable: ls[0].address.value.properties.line_relocatable,
                    }))
                }
            }
        }
    }
}

/// Whether a unit holds an absolute line at address `a`.
pub open spec fn unit_has_abs(u: Seq<ALineV>, a: u16) -> bool {
    exists|i: int| 0 <= i < u.len()
        && !(#[trigger] u[i]).address.value.properties.line_relocatable
        && u[i].address.value.position == a
}

/// Whether any of the units holds an absolute line at address `a`.
pub open spec fn any_unit_has_abs(rest: Seq<Seq<ALineV>>, a: u16) -> bool {
    exists|k: int| 0 <= k < rest.len() && unit_has_abs(#[trigger] rest[k], a)
}

/// The first absolute line of `u` whose address an absolute line of a later
/// unit occupies too.
pub open spec fn first_colliding_line(u: Seq<ALineV>, rest: Seq<Seq<ALineV>>)
    -> Option<(u16, Position)>
    decreases u.len(),
{
    if u.len() == 0 {
        None
    } else if !u[0].address.value.properties.line_relocatable
        && any_unit_has_abs(rest, u[0].address.value.position) {
        Some((u[0].address.value.position, u[0].address.position))
    } else {
        first_colliding_line(u.skip(1), rest)
    }
}

/// The first collision of absolute segments across units, in input order.
pub open spec fn spec_first_collision(units: Seq<Seq<ALineV>>) -> Option<(u16, Position)>
    decreases units.len(),
{
    if units.len() == 0 {
        None
    } else {
        match first_colliding_line(units[0], units.skip(1)) {
            Some(x) => Some(x),
            None => spec_first_collision(units.skip(1)),
        }
    }
}

/// Resolve every import against the table: the operand takes the exported
/// address, the operand's relocatability the exporting segment's, the
/// imported tag clears and the annotation is stripped. A label without an
/// export is fatal.
pub open spec fn spec_resolve_imports(ls: Seq<ALineV>, table: Seq<SymV>)
    -> Result<Seq<ALineV>, ErrV>
    decreases ls.len(),
{
    if ls.len() == 0 {
        Ok(Seq::empty())
    } else {
        let step: Result<ALineV, ErrV> = match import_of(ls[0]) {
            None => Ok(ls[0]),
            Some(name) => match sym_lookup(table, name) {
                None => Err(err_label(
                    ErrorKind::UnresolvedImport, ls[0].address.position, name,
                )),
                Some(s) => Ok(ALineV {
                    address: crate::TokenV {
                        position: ls[0].address.position,
                        value: MachineAddress {
                            properties: MachineAddressProperties {
                                line_relocatable:
                                    ls[0].address.value.properties.line_relocatable,
                                operand_relocatable: s.relocatable,
                                imported: false,
                            },
                            position: ls[0].address.value.position,
                        },
                    },
                    instruction: ls[0].instruction,
                    operand: crate::TokenV {
                        position: ls[0].operand.position,
                        value: s.address,
                    },
                    annotation: None,
                }),
            },
        };
        match step {
            Err(e) => Err(e),
            Ok(l) => match spec_resolve_imports(ls.skip(1), table) {
                Err(e) => Err(e),
                Ok(rest) => Ok(seq![l] + rest),
            },
        }
    }
}

/// The whole link: shift the units end to end, build the export table,
/// refuse colliding absolute segments, then resolve every import.
pub open spec fn spec_link(units: Seq<Seq<ALineV>>) -> Result<Seq<ALineV>, ErrV> {
    match spec_shift_all(units, 0) {
        Err(e) => Err(e),
        Ok(sh) => {
            let flat = flatten_units(sh);
            match spec_collect_exports(flat, Seq::empty()) {
                Err(e) => Err(e),
                Ok(table) => match spec_first_collision(sh) {
                    Some((a, p)) => Err(err_address(ErrorKind::AddressCollision, p, a)),
                    None => spec_resolve_imports(flat, table),
                },
            }
        }
    }
}

/// What linking whole object texts means: parse each unit, then link them
/// in order.
pub open spec fn spec_link_texts(texts: Seq<Seq<u8>>, parsed: Seq<Seq<ALineV>>, i: int)
    -> Result<Seq<ALineV>, ErrV>
    recommends
        0 <= i <= texts.len(),
    decreases texts.len() - i,
{
    if i >= texts.len() {
        spec_link(parsed)
    } else {
        match spec_parse_machine(texts[i], 0, 1) {
            Err(e) => Err(e),
            Ok(u) => spec_link_texts(texts, parsed.push(u), i + 1),
        }
    }
}

/// The model of a sequence of units.
pub open spec fn units_v(s: Seq<Vec<AddressedLine>>) -> Seq<Seq<ALineV>> {
    s.map_values(|u: Vec<AddressedLine>| mlines_v(u@))
}

/// Laying units end to end appends unit by unit.
pub proof fn lemma_flatten_push(s: Seq<Seq<ALineV>>, u: Seq<ALineV>)
    ensures
        flatten_units(s.push(u)) == flatten_units(s) + u,
    decreases s.len(),
{
    if s.len() == 0 {
        assert(s.push(u).skip(1) =~= Seq::<Seq<ALineV>>::empty());
        assert(s.push(u)[0] == u);
        assert(flatten_units(s.push(u))
            == s.push(u)[0] + flatten_units(s.push(u).skip(1)));
        assert(flatten_units(s.push(u)) =~= u);
        assert(flatten_units(s) + u =~= u);
    } else {
        assert(s.push(u).skip(1) =~= s.skip(1).push(u));
        lemma_flatten_push(s.skip(1), u);
        assert(flatten_units(s.push(u)) =~= flatten_units(s) + u);
    }
}

impl Operand {
    /// A fresh operand with the same content.
    pub fn duplicate(&self) -> (r: Operand)
        ensures
            r@ == self@,
    {
        match self {
            Operand::Numeric(v) => Operand::Numeric(*v),
            Operand::Symbolic(l) => Operand::Symbolic(l.duplicate()),
        }
    }
}

impl Line {
    /// A fresh line with the same content and positions.
    pub fn duplicate(&self) -> (r: Line)
        ensures
            r@ == self@,
    {
        let label = match &self.label {
            None => None,
            Some(t) => Some(Token::new(t.position, t.value.duplicate())),
        };
        Line {
            label,
            operation: crate::types::Operation {
                instruction: self.operation.instruction,
                operand: Token::new(
                    self.operation.operand.position,
                    self.operation.operand.value.duplicate(),
                ),
            },
        }
    }
}

impl AddressedLine {
    /// A fresh machine line with the same content and positions.
    pub fn duplicate(&self) -> (r: AddressedLine)
        ensures
            r@ == self@,
    {
        AddressedLine {
            address: self.address,
            operation: self.operation,
            relational_annotation: match &self.relational_annotation {
                None => None,
                Some(a) => Some(a.duplicate()),
            },
        }
    }
}

/// The lowest and highest relocatable address of a unit.
fn span_bounds(u: &Vec<AddressedLine>) -> (r: Option<(u16, u16)>)
    ensures
        r == spec_span_bounds(mlines_v(u@)),
{
    let ghost uv = mlines_v(u@);
    let mut bounds: Option<(u16, u16)> = None;
    let mut i: usize = u.len();
    proof {
        assert(uv.skip(u@.len() as int) =~= Seq::<ALineV>::empty());
    }
    while i > 0
        invariant
            i <= u@.len(),
            uv == mlines_v(u@),
            bounds == spec_span_bounds(uv.skip(i as int)),
        decreases i,
    {
        i -= 1;
        proof {
            assert(uv.skip(i as int)[0] == u@[i as int]@);
            assert(uv.skip(i as int).skip(1) =~= uv.skip(i + 1));
        }
        if u[i].address.value.properties.line_relocatable {
            let a = u[i].address.value.position;
            bounds = match bounds {
                None => Some((a, a)),
                Some((lo, hi)) => Some((
                    if a < lo { a } else { lo },
                    if a > hi { a } else { hi },
                )),
            };
        }
    }
    proof {
        assert(uv.skip(0) =~= uv);
    }
    bounds
}

/// Whether a unit holds an absolute line at address `a`.
fn unit_has_abs_exec(u: &Vec<AddressedLine>, a: u16) -> (r: bool)
    ensures
        r == unit_has_abs(mlines_v(u@), a),
{
    let mut i: usize = 0;
    let mut found: bool = false;
    while i < u.len()
        invariant
            i <= u@.len(),
            found == exists|j: int| 0 <= j < i
                && !(#[trigger] mlines_v(u@)[j]).address.value.properties.line_relocatable
                && mlines_v(u@)[j].address.value.position == a,
        decreases u@.len() - i,
    {
        if !u[i].address.value.properties.line_relocatable && u[i].address.value.position == a {
            proof {
                assert(mlines_v(u@)[i as int] == u@[i as int]@);
            }
            found = true;
        }
        i += 1;
    }
    found
}

/// Whether any unit after index `k` holds an absolute line at address `a`.
fn later_has_abs(shifted: &Vec<Vec<AddressedLine>>, k: usize, a: u16) -> (r: bool)
    requires
        k < shifted@.len(),
    ensures
        r == any_unit_has_abs(units_v(shifted@).skip(k + 1), a),
{
    let n = shifted.len();
    let ghost rest = units_v(shifted@).skip(k + 1);
    let mut k2: usize = k + 1;
    let mut found: bool = false;
    while k2 < shifted.len()
        invariant
            k + 1 <= k2 <= shifted@.len(),
            rest == units_v(shifted@).skip(k + 1),
            found == exists|j: int| 0 <= j < k2 - (k + 1)
                && unit_has_abs(#[trigger] rest[j], a),
        decreases shifted@.len() - k2,
    {
        if unit_has_abs_exec(&shifted[k2], a) {
            proof {
                assert(rest[k2 - (k + 1)] == units_v(shifted@)[k2 as int]);
                assert(units_v(shifted@)[k2 as int] == mlines_v(shifted@[k2 as int]@));
            }
            found = true;
        }
        k2 += 1;
    }
    found
}

/// The first collision of absolute segments across units, in input order.
fn find_collision(shifted: &Vec<Vec<AddressedLine>>) -> (r: Option<(u16, Position)>)
    ensures
        r == spec_first_collision(units_v(shifted@)),
{
    let ghost sv = units_v(shifted@);
    proof {
        assert(sv.skip(0) =~= sv);
    }
    let mut k: usize = 0;
    while k < shifted.len()
        invariant
            k <= shifted@.len(),
            sv == units_v(shifted@),
            spec_first_collision(sv) == spec_first_collision(sv.skip(k as int)),
        decreases shifted@.len() - k,
    {
        proof {
            assert(sv.skip(k as int)[0] == mlines_v(shifted@[k as int]@));
            assert(sv.skip(k as int).skip(1) =~= sv.skip(k + 1));
        }
        let u = &shifted[k];
        let ghost uv = mlines_v(u@);
        proof {
            assert(uv.skip(0) =~= uv);
        }
        let mut i: usize = 0;
        while i < u.len()
            invariant
                i <= u@.len(),
                k < shifted@.len(),
                sv == units_v(shifted@),
                uv == mlines_v(u@),
                u == &shifted[k as int],
                spec_first_collision(sv) == spec_first_collision(sv.skip(k as int)),
                first_colliding_line(uv, sv.skip(k as int).skip(1))
                    == first_colliding_line(uv.skip(i as int), sv.skip(k as int).skip(1)),
            decreases u@.len() - i,
        {
            proof {
                assert(uv.skip(i as int)[0] == u@[i as int]@);
                assert(uv.skip(i as int).skip(1) =~= uv.skip(i + 1));
                assert(sv.skip(k as int).skip(1) =~= sv.skip(k + 1));
            }
            if !u[i].address.value.properties.line_relocatable {
                let a = u[i].address.value.position;
                if later_has_abs(shifted, k, a) {
                    proof {
                        assert(any_unit_has_abs(sv.skip(k as int).skip(1), a));
                        assert(first_colliding_line(uv.skip(i as int), sv.skip(k as int).skip(1))
                            == Some((a, u@[i as int]@.address.position)));
                        assert(spec_first_collision(sv.skip(k as int))
                            == Some((a, u@[i as int]@.address.position)));
                    }
                    return Some((a, u[i].address.position));
                } else {
                    proof {
                        assert(!any_unit_has_abs(sv.skip(k as int).skip(1), a));
                    }
                }
            }
            i += 1;
        }
        proof {
            assert(uv.skip(u@.len() as int) =~= Seq::<ALineV>::empty());
        }
        k += 1;
    }
    proof {
        assert(sv.skip(shifted@.len() as int) =~= Seq::<Seq<ALineV>>::empty());
    }
    None
}

/// The bounds of a relocatable span stand in order.
pub proof fn lemma_span_bounds(u: Seq<ALineV>)
    ensures
        spec_span_bounds(u) matches Some((lo, hi)) ==> lo <= hi,
    decreases u.len(),
{
    if u.len() > 0 {
        lemma_span_bounds(u.skip(1));
    }
}

/// Shift one unit by `offset` into a fresh vector.
fn shift_unit(u: &Vec<AddressedLine>, offset: u16) -> (r: Result<Vec<AddressedLine>, MvnError>)
    ensures
        match r {
            Ok(v) => spec_shift_unit(mlines_v(u@), offset) == Ok::<Seq<ALineV>, ErrV>(
                mlines_v(v@),
            ),
            Err(e) => spec_shift_unit(mlines_v(u@), offset) == Err::<Seq<ALineV>, ErrV>(e@),
        },
{
    let ghost uv = mlines_v(u@);
    proof {
        assert(uv.skip(0) =~= uv);
    }
    let mut out: Vec<AddressedLine> = Vec::new();
    let mut i: usize = 0;
    while i < u.len()
        invariant
            i <= u@.len(),
            uv == mlines_v(u@),
            spec_shift_unit(uv, offset) == match spec_shift_unit(uv.skip(i as int), offset) {
                Ok(rest) => Ok::<Seq<ALineV>, ErrV>(mlines_v(out@) + rest),
                Err(e) => Err::<Seq<ALineV>, ErrV>(e),
            },
        decreases u@.len() - i,
    {
        proof {
            assert(uv.skip(i as int)[0] == u@[i as int]@);
            assert(uv.skip(i as int).skip(1) =~= uv.skip(i + 1));
        }
        let l = &u[i];
        let props = l.address.value.properties;
        let ok = (!props.line_relocatable
            || (l.address.value.position as u32) + (offset as u32) < 0x1000)
            && (!props.operand_relocatable
                || (l.operation.operand.value as u32) + (offset as u32) < 0x1000);
        if !ok {
            return Err(MvnError::at(ErrorKind::OverflowError, l.address.position));
        }
        let shifted = AddressedLine {
            address: Token::new(l.address.position, MachineAddress {
                properties: props,
                position: if props.line_relocatable {
                    l.address.value.position + offset
                } else {
                    l.address.value.position
                },
            }),
            operation: Operation {
                instruction: l.operation.instruction,
                operand: Token::new(
                    l.operation.operand.position,
                    if props.operand_relocatable {
                        l.operation.operand.value + offset
                    } else {
                        l.operation.operand.value
                    },
                ),
            },
            relational_annotation: match &l.relational_annotation {
                None => None,
                Some(a) => Some(a.duplicate()),
            },
        };
        let ghost shv = shifted@;
        let ghost out0 = out@;
        out.push(shifted);
        proof {
            assert(shv == spec_shift_line(uv.skip(i as int)[0], offset));
            assert(mlines_v(out@) =~= mlines_v(out0).push(shv));
            match spec_shift_unit(uv.skip(i + 1), offset) {
                Ok(rest) => {
                    assert(mlines_v(out0) + (seq![shv] + rest) =~= mlines_v(out@) + rest);
                }
                Err(_) => {}
            }
        }
        i += 1;
    }
    proof {
        assert(uv.skip(u@.len() as int) =~= Seq::<ALineV>::empty());
        assert(mlines_v(out@) + Seq::<ALineV>::empty() =~= mlines_v(out@));
    }
    Ok(out)
}

/// Link assembled units into one relocatable listing.
#[verifier::rlimit(100)]
pub fn link(units: &Vec<Vec<AddressedLine>>) -> (r: Result<Vec<AddressedLine>, MvnError>)
    ensures
        match r {
            Ok(v) => spec_link(units_v(units@)) == Ok::<Seq<ALineV>, ErrV>(mlines_v(v@)),
            Err(e) => spec_link(units_v(units@)) == Err::<Seq<ALineV>, ErrV>(e@),
        },
{
    let ghost usv = units_v(units@);
    proof {
        assert(usv.skip(0) =~= usv);
    }
    // shift the units end to end
    let mut shifted: Vec<Vec<AddressedLine>> = Vec::new();
    let mut offset: u16 = 0;
    let mut k: usize = 0;
    while k < units.len()
        invariant
            k <= units@.len(),
            usv == units_v(units@),
            spec_shift_all(usv, 0) == match spec_shift_all(usv.skip(k as int), offset) {
                Ok(rest) => Ok::<Seq<Seq<ALineV>>, ErrV>(units_v(shifted@) + rest),
                Err(e) => Err::<Seq<Seq<ALineV>>, ErrV>(e),
            },
        decreases units@.len() - k,
    {
        proof {
            assert(usv.skip(k as int)[0] == mlines_v(units@[k as int]@));
            assert(usv.skip(k as int).skip(1) =~= usv.skip(k + 1));
        }
        let u1 = match shift_unit(&units[k], offset) {
            Ok(v) => v,
            Err(e) => {
                return Err(e);
            }
        };
        let ghost u1v = mlines_v(u1@);
        let ghost sh0 = units_v(shifted@);
        if k + 1 < units.len() {
            proof {
                lemma_span_bounds(mlines_v(units@[k as int]@));
            }
            let span: u32 = match span_bounds(&units[k]) {
                None => 0,
                Some((lo, hi)) => (hi as u32) + 2 - (lo as u32),
            };
            if (offset as u32) + span > 0xFFFF {
                shifted.push(u1);
                return Err(MvnError::at(
                    ErrorKind::OverflowError, Position::new(0, 0),
                ));
            }
            offset = offset + (span as u16);
        }
        shifted.push(u1);
        proof {
            assert(units_v(shifted@) =~= sh0.push(u1v));
            match spec_shift_all(usv.skip(k + 1), offset) {
                Ok(rest) => {
                    assert(sh0 + (seq![u1v] + rest) =~= units_v(shifted@) + rest);
                }
                Err(_) => {}
            }
            if k + 1 == units@.len() {
                assert(sh0 + seq![u1v] =~= units_v(shifted@));
            }
        }
        k += 1;
    }
    proof {
        assert(usv.skip(units@.len() as int) =~= Seq::<Seq<ALineV>>::empty());
        if units@.len() == 0 {
            assert(units_v(shifted@) + Seq::<Seq<ALineV>>::empty() =~= units_v(shifted@));
        }
    }
    let ghost shv = units_v(shifted@);
    proof {
        assert(spec_shift_all(usv, 0) == Ok::<Seq<Seq<ALineV>>, ErrV>(shv));
    }
    // lay the lines end to end
    let mut flat: Vec<AddressedLine> = Vec::new();
    let mut k2: usize = 0;
    while k2 < shifted.len()
        invariant
            k2 <= shifted@.len(),
            shv == units_v(shifted@),
            mlines_v(flat@) == flatten_units(shv.take(k2 as int)),
        decreases shifted@.len() - k2,
    {
        let u = &shifted[k2];
        let ghost f0 = mlines_v(flat@);
        let mut i: usize = 0;
        while i < u.len()
            invariant
                i <= u@.len(),
                k2 < shifted@.len(),
                u == &shifted[k2 as int],
                shv == units_v(shifted@),
                mlines_v(flat@) == f0 + mlines_v(u@).take(i as int),
            decreases u@.len() - i,
        {
            let ghost fb = mlines_v(flat@);
            let dup = u[i].duplicate();
            let ghost dv = dup@;
            flat.push(dup);
            proof {
                assert(dv == mlines_v(u@)[i as int]);
                assert(mlines_v(flat@) =~= fb.push(dv));
                assert(mlines_v(u@).take(i + 1) =~= mlines_v(u@).take(i as int).push(dv));
                assert(mlines_v(flat@) =~= f0 + mlines_v(u@).take(i + 1));
            }
            i += 1;
        }
        proof {
            assert(mlines_v(u@).take(u@.len() as int) =~= mlines_v(u@));
            lemma_flatten_push(shv.take(k2 as int), mlines_v(u@));
            assert(shv.take(k2 as int).push(mlines_v(u@)) =~= shv.take(k2 + 1));
        }
        k2 += 1;
    }
    proof {
        assert(shv.take(shifted@.len() as int) =~= shv);
    }
    let ghost flatv = mlines_v(flat@);
    // the global export table
    let mut table: Vec<crate::assembler::SymbolEntry> = Vec::new();
    proof {
        assert(flatv.skip(0) =~= flatv);
        assert(syms_v(table@) =~= Seq::<SymV>::empty());
    }
    let mut e: usize = 0;
    while e < flat.len()
        invariant
            e <= flat@.len(),
            usv == units_v(units@),
            shv == units_v(shifted@),
            spec_shift_all(usv, 0) == Ok::<Seq<Seq<ALineV>>, ErrV>(shv),
            flatv == flatten_units(shv),
            flatv == mlines_v(flat@),
            spec_collect_exports(flatv, Seq::empty())
                == spec_collect_exports(flatv.skip(e as int), syms_v(table@)),
        decreases flat@.len() - e,
    {
        proof {
            assert(flatv.skip(e as int)[0] == flat@[e as int]@);
            assert(flatv.skip(e as int).skip(1) =~= flatv.skip(e + 1));
        }
        let l = &flat[e];
        let mut exported: Option<Label> = None;
        match &l.relational_annotation {
            Some(a) => {
                if matches!(
                    a.operation.instruction.value,
                    Instruction::Relational(RelationalMneumonic::Export)
                ) {
                    match &a.operation.operand.value {
                        Operand::Symbolic(lbl) => {
                            exported = Some(lbl.duplicate());
                        }
                        Operand::Numeric(_) => {}
                    }
                }
            }
            None => {}
        }
        match exported {
            None => {
                proof {
                    assert(export_of(flat@[e as int]@) is None);
                }
            }
            Some(name) => {
                proof {
                    assert(export_of(flat@[e as int]@) == Some(name@));
                }
                match crate::assembler::sym_find(&table, &name) {
                    Some(_) => {
                        return Err(MvnError::with_label(
                            ErrorKind::DuplicateExport, l.address.position, name,
                        ));
                    }
                    None => {
                        let ghost t0 = syms_v(table@);
                        let ghost namev = name@;
                        table.push(crate::assembler::SymbolEntry {
                            name,
                            address: l.address.value.position,
                            relocatable: l.address.value.properties.line_relocatable,
                        });
                        proof {
                            assert(syms_v(table@) =~= t0.push(SymV {
                                name: namev,
                                address: flat@[e as int]@.address.value.position,
                                relocatable: flat@[e as int]@
                                    .address.value.properties.line_relocatable,
                            }));
                        }
                    }
                }
            }
        }
        e += 1;
    }
    proof {
        assert(flatv.skip(flat@.len() as int) =~= Seq::<ALineV>::empty());
    }
    let ghost tablev = syms_v(table@);
    // colliding absolute segments are fatal
    match find_collision(&shifted) {
        Some((a, p)) => {
            return Err(MvnError::with_address(ErrorKind::AddressCollision, p, a));
        }
        None => {}
    }
    // resolve the imports
    let mut out: Vec<AddressedLine> = Vec::new();
    proof {
        assert(flatv.skip(0) =~= flatv);
    }
    let mut q: usize = 0;
    while q < flat.len()
        invariant
            q <= flat@.len(),
            usv == units_v(units@),
            shv == units_v(shifted@),
            spec_shift_all(usv, 0) == Ok::<Seq<Seq<ALineV>>, ErrV>(shv),
            flatv == flatten_units(shv),
            spec_collect_exports(flatv, Seq::empty()) == Ok::<Seq<SymV>, ErrV>(tablev),
            spec_first_collision(shv) is None,
            flatv == mlines_v(flat@),
            tablev == syms_v(table@),
            spec_resolve_imports(flatv, tablev) == match spec_resolve_imports(
                flatv.skip(q as int), tablev,
            ) {
                Ok(rest) => Ok::<Seq<ALineV>, ErrV>(mlines_v(out@) + rest),
                Err(e) => Err::<Seq<ALineV>, ErrV>(e),
            },
        decreases flat@.len() - q,
    {
        proof {
            assert(flatv.skip(q as int)[0] == flat@[q as int]@);
            assert(flatv.skip(q as int).skip(1) =~= flatv.skip(q + 1));
        }
        let l = &flat[q];
        let mut importing: Option<Label> = None;
        match &l.relational_annotation {
            Some(a) => {
                if matches!(
                    a.operation.instruction.value,
                    Instruction::Relational(RelationalMneumonic::Import)
                ) {
                    match &a.operation.operand.value {
                        Operand::Symbolic(lbl) => {
                            importing = Some(lbl.duplicate());
                        }
                        Operand::Numeric(_) => {}
                    }
                }
            }
            None => {}
        }
        let ghost out0 = out@;
        let resolved_line: AddressedLine = match importing {
            None => {
                proof {
                    assert(import_of(flat@[q as int]@) is None);
                }
                l.duplicate()
            }
            Some(name) => {
                proof {
                    assert(import_of(flat@[q as int]@) == Some(name@));
                }
                match crate::assembler::sym_find(&table, &name) {
                    None => {
                        return Err(MvnError::with_label(
                            ErrorKind::UnresolvedImport, l.address.position, name,
                        ));
                    }
                    Some((addr, reloc)) => AddressedLine {
                        address: Token::new(l.address.position, MachineAddress {
                            properties: MachineAddressProperties {
                                line_relocatable:
                                    l.address.value.properties.line_relocatable,
                                operand_relocatable: reloc,
                                imported: false,
                            },
                            position: l.address.value.position,
                        }),
                        operation: Operation {
                            instruction: l.operation.instruction,
                            operand: Token::new(l.operation.operand.position, addr),
                        },
                        relational_annotation: None,
                    },
                }
            }
        };
        let ghost rv = resolved_line@;
        out.push(resolved_line);
        proof {
            assert(mlines_v(out@) =~= mlines_v(out0).push(rv));
            match spec_resolve_imports(flatv.skip(q + 1), tablev) {
                Ok(rest) => {
                    assert(mlines_v(out0) + (seq![rv] + rest) =~= mlines_v(out@) + rest);
                }
                Err(_) => {}
            }
        }
        q += 1;
    }
    proof {
        assert(flatv.skip(flat@.len() as int) =~= Seq::<ALineV>::empty());
        assert(mlines_v(out@) + Seq::<ALineV>::empty() =~= mlines_v(out@));
    }
    Ok(out)
}

/// The model of a sequence of unit texts.
pub open spec fn texts_v(s: Seq<Vec<u8>>) -> Seq<Seq<u8>> {
    s.map_values(|t: Vec<u8>| t@)
}

/// Link whole object texts: parse each unit, then link them in order.
/// Every line of a successful result is well formed, so it can be
/// serialized.
pub fn process(texts: &Vec<Vec<u8>>) -> (r: Result<Vec<AddressedLine>, MvnError>)
    requires
        forall|i: int| 0 <= i < texts@.len()
            ==> (#[trigger] texts@[i])@.len() + 2 <= usize::MAX,
    ensures
        match r {
            Ok(v) => spec_link_texts(texts_v(texts@), Seq::empty(), 0)
                == Ok::<Seq<ALineV>, ErrV>(mlines_v(v@))
                && crate::printer::all_wf(mlines_v(v@)),
            Err(e) => spec_link_texts(texts_v(texts@), Seq::empty(), 0)
                == Err::<Seq<ALineV>, ErrV>(e@),
        },
{
    let mut parsed: Vec<Vec<AddressedLine>> = Vec::new();
    proof {
        assert(units_v(parsed@) =~= Seq::<Seq<ALineV>>::empty());
    }
    let mut i: usize = 0;
    while i < texts.len()
        invariant
            i <= texts@.len(),
            forall|j: int| 0 <= j < texts@.len()
                ==> (#[trigger] texts@[j])@.len() + 2 <= usize::MAX,
            spec_link_texts(texts_v(texts@), Seq::empty(), 0)
                == spec_link_texts(texts_v(texts@), units_v(parsed@), i as int),
            forall|k: int| 0 <= k < units_v(parsed@).len()
                ==> unit_wf(#[trigger] units_v(parsed@)[k]),
        decreases texts@.len() - i,
    {
        proof {
            assert(texts_v(texts@)[i as int] == texts@[i as int]@);
        }
        match parse_machine_program(&texts[i]) {
            Err(e) => {
                return Err(e);
            }
            Ok(u) => {
                let ghost p0 = units_v(parsed@);
                let ghost uv = mlines_v(u@);
                parsed.push(u);
                proof {
                    crate::mcparser::lemma_parse_machine_wf(texts@[i as int]@, 0, 1);
                    assert(unit_wf(uv));
                    assert(units_v(parsed@) =~= p0.push(uv));
                    assert forall|k: int| 0 <= k < units_v(parsed@).len()
                        implies unit_wf(#[trigger] units_v(parsed@)[k]) by {
                        if k < p0.len() {
                            assert(units_v(parsed@)[k] == p0[k]);
                        } else {
                            assert(units_v(parsed@)[k] == uv);
                        }
                    }
                }
            }
        }
        i += 1;
    }
    proof {
        lemma_link_wf(units_v(parsed@));
    }
    let r = link(&parsed);
    proof {
        match r {
            Ok(ref v) => {
                let out = spec_link(units_v(parsed@))->Ok_0;
                assert(out == mlines_v(v@));
                assert forall|q: int| 0 <= q < mlines_v(v@).len()
                    implies crate::machine::line_wf(#[trigger] mlines_v(v@)[q]) by {
                    assert(crate::machine::line_unit_wf(out[q]));
                }
            }
            Err(_) => {}
        }
    }
    r
}

/// Export and import are symmetric: where the table publishes label `name`
/// at the exporting line's address, every line importing `name` leaves
/// resolution with that address as its operand, the exporting segment's
/// relocatability, its imported tag cleared and its annotation stripped —
/// the importing word reads as if the definition had been written into it
/// by hand. (The whole listings differ from literal inlining: the linker
/// lays the exporting unit first and keeps its export annotation.)
pub proof fn lemma_export_import_symmetry(ls: Seq<ALineV>, table: Seq<SymV>, i: int, s: SymV)
    requires
        0 <= i < ls.len(),
        spec_resolve_imports(ls, table) is Ok,
        import_of(ls[i]) matches Some(name) && sym_lookup(table, name) == Some(s),
    ensures
        ({
            let out = spec_resolve_imports(ls, table)->Ok_0;
            &&& out.len() == ls.len()
            &&& out[i].operand.value == s.address
            &&& out[i].address.value.properties.operand_relocatable == s.relocatable
            &&& !out[i].address.value.properties.imported
            &&& out[i].annotation is None
            &&& out[i].address.value.position == ls[i].address.value.position
            &&& out[i].instruction == ls[i].instruction
        }),
    decreases ls.len(),
{
    let out = spec_resolve_imports(ls, table)->Ok_0;
    if i == 0 {
        assert(out =~= seq![out[0]] + spec_resolve_imports(ls.skip(1), table)->Ok_0);
        lemma_resolve_len(ls.skip(1), table);
    } else {
        lemma_export_import_symmetry(ls.skip(1), table, i - 1, s);
        assert(out[i] == spec_resolve_imports(ls.skip(1), table)->Ok_0[i - 1]);
        lemma_resolve_len(ls.skip(1), table);
    }
}

/// Resolution keeps the number of lines.
pub proof fn lemma_resolve_len(ls: Seq<ALineV>, table: Seq<SymV>)
    requires
        spec_resolve_imports(ls, table) is Ok,
    ensures
        spec_resolve_imports(ls, table)->Ok_0.len() == ls.len(),
    decreases ls.len(),
{
    if ls.len() > 0 {
        lemma_resolve_len(ls.skip(1), table);
    }
}

/// Whether every line of a unit is well formed for a unit.
pub open spec fn unit_wf(u: Seq<ALineV>) -> bool {
    forall|i: int| 0 <= i < u.len() ==> crate::machine::line_unit_wf(#[trigger] u[i])
}

/// Shifting a well-formed unit yields a well-formed unit.
pub proof fn lemma_shift_unit_wf(u: Seq<ALineV>, offset: u16)
    requires
        unit_wf(u),
    ensures
        spec_shift_unit(u, offset) matches Ok(out) ==> unit_wf(out),
    decreases u.len(),
{
    if u.len() > 0 && shift_ok(u[0], offset) {
        assert(unit_wf(u.skip(1)));
        lemma_shift_unit_wf(u.skip(1), offset);
        match spec_shift_unit(u.skip(1), offset) {
            Err(_) => {}
            Ok(rest) => {
                let out = seq![spec_shift_line(u[0], offset)] + rest;
                assert(crate::machine::line_unit_wf(out[0]));
                assert(forall|j: int| 1 <= j < out.len() ==> #[trigger] out[j] == rest[j - 1]);
            }
        }
    }
}

/// Shifting well-formed units end to end yields well-formed units.
pub proof fn lemma_shift_all_wf(units: Seq<Seq<ALineV>>, offset: u16)
    requires
        forall|k: int| 0 <= k < units.len() ==> unit_wf(#[trigger] units[k]),
    ensures
        spec_shift_all(units, offset) matches Ok(sh)
            ==> forall|k: int| 0 <= k < sh.len() ==> unit_wf(#[trigger] sh[k]),
    decreases units.len(),
{
    if units.len() > 0 {
        lemma_shift_unit_wf(units[0], offset);
        match spec_shift_unit(units[0], offset) {
            Err(_) => {}
            Ok(u1) => {
                if units.len() == 1 {
                    let sh = seq![u1];
                    assert(sh[0] == u1);
                } else if !(offset + spec_span(units[0]) > 0xFFFF) {
                    assert(forall|k: int| 0 <= k < units.skip(1).len()
                        ==> unit_wf(#[trigger] units.skip(1)[k]));
                    lemma_shift_all_wf(units.skip(1), (offset + spec_span(units[0])) as u16);
                    match spec_shift_all(units.skip(1), (offset + spec_span(units[0])) as u16) {
                        Err(_) => {}
                        Ok(rest) => {
                            let sh = seq![u1] + rest;
                            assert(sh[0] == u1);
                            assert(forall|k: int| 1 <= k < sh.len()
                                ==> #[trigger] sh[k] == rest[k - 1]);
                        }
                    }
                }
            }
        }
    }
}

/// Laying well-formed units end to end keeps every line well formed.
pub proof fn lemma_flatten_wf(sh: Seq<Seq<ALineV>>)
    requires
        forall|k: int| 0 <= k < sh.len() ==> unit_wf(#[trigger] sh[k]),
    ensures
        unit_wf(flatten_units(sh)),
    decreases sh.len(),
{
    if sh.len() > 0 {
        assert(forall|k: int| 0 <= k < sh.skip(1).len()
            ==> unit_wf(#[trigger] sh.skip(1)[k]));
        lemma_flatten_wf(sh.skip(1));
        let flat = sh[0] + flatten_units(sh.skip(1));
        assert(unit_wf(sh[0]));
        assert forall|i: int| 0 <= i < flat.len()
            implies crate::machine::line_unit_wf(#[trigger] flat[i]) by {
            if i < sh[0].len() {
                assert(flat[i] == sh[0][i]);
            } else {
                assert(flat[i] == flatten_units(sh.skip(1))[i - sh[0].len()]);
            }
        }
    }
}

/// The export table built over well-formed lines publishes only twelve-bit
/// addresses.
pub proof fn lemma_collect_exports_bounds(ls: Seq<ALineV>, table: Seq<SymV>)
    requires
        unit_wf(ls),
        forall|t: int| 0 <= t < table.len() ==> (#[trigger] table[t]).address < 0x1000,
    ensures
        spec_collect_exports(ls, table) matches Ok(t2)
            ==> forall|t: int| 0 <= t < t2.len() ==> (#[trigger] t2[t]).address < 0x1000,
    decreases ls.len(),
{
    if ls.len() > 0 {
        assert(unit_wf(ls.skip(1)));
        match export_of(ls[0]) {
            None => {
                lemma_collect_exports_bounds(ls.skip(1), table);
            }
            Some(name) => {
                if !(sym_lookup(table, name) is Some) {
                    let entry = SymV {
                        name,
                        address: ls[0].address.value.position,
                        relocatable: ls[0].address.value.properties.line_relocatable,
                    };
                    assert(crate::machine::line_unit_wf(ls[0]));
                    let t1 = table.push(entry);
                    assert(forall|t: int| 0 <= t < t1.len()
                        ==> (#[trigger] t1[t]).address < 0x1000);
                    lemma_collect_exports_bounds(ls.skip(1), t1);
                }
            }
        }
    }
}

/// Resolving imports over well-formed lines against a twelve-bit table
/// yields well-formed lines.
pub proof fn lemma_resolve_imports_wf(ls: Seq<ALineV>, table: Seq<SymV>)
    requires
        unit_wf(ls),
        forall|t: int| 0 <= t < table.len() ==> (#[trigger] table[t]).address < 0x1000,
    ensures
        spec_resolve_imports(ls, table) matches Ok(out) ==> unit_wf(out),
    decreases ls.len(),
{
    if ls.len() > 0 {
        assert(unit_wf(ls.skip(1)));
        lemma_resolve_imports_wf(ls.skip(1), table);
        match import_of(ls[0]) {
            None => {}
            Some(name) => {
                match sym_lookup(table, name) {
                    None => {}
                    Some(st) => {
                        lemma_sym_lookup_found(table, name);
                    }
                }
            }
        }
        match spec_resolve_imports(ls, table) {
            Err(_) => {}
            Ok(out) => {
                let rest = spec_resolve_imports(ls.skip(1), table)->Ok_0;
                assert(crate::machine::line_unit_wf(out[0]));
                assert(forall|j: int| 1 <= j < out.len() ==> #[trigger] out[j] == rest[j - 1]);
            }
        }
    }
}

/// A found table entry is one of the table's entries.
pub proof fn lemma_sym_lookup_found(table: Seq<SymV>, name: Seq<u8>)
    ensures
        sym_lookup(table, name) matches Some(s) ==> exists|t: int|
            0 <= t < table.len() && #[trigger] table[t] == s,
    decreases table.len(),
{
    if table.len() > 0 && table[0].name != name {
        lemma_sym_lookup_found(table.skip(1), name);
        match sym_lookup(table.skip(1), name) {
            None => {}
            Some(s) => {
                let t = choose|t: int| 0 <= t < table.skip(1).len()
                    && #[trigger] table.skip(1)[t] == s;
                assert(table[t + 1] == s);
            }
        }
    }
}

/// Linking well-formed units yields well-formed lines.
pub proof fn lemma_link_wf(units: Seq<Seq<ALineV>>)
    requires
        forall|k: int| 0 <= k < units.len() ==> unit_wf(#[trigger] units[k]),
    ensures
        spec_link(units) matches Ok(out) ==> unit_wf(out),
{
    lemma_shift_all_wf(units, 0);
    match spec_shift_all(units, 0) {
        Err(_) => {}
        Ok(sh) => {
            lemma_flatten_wf(sh);
            let flat = flatten_units(sh);
            lemma_collect_exports_bounds(flat, Seq::empty());
            match spec_collect_exports(flat, Seq::empty()) {
                Err(_) => {}
                Ok(table) => {
                    lemma_resolve_imports_wf(flat, table);
                }
            }
        }
    }
}

} // verus!
