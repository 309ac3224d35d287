use vstd::prelude::*;
use crate::Token;
use crate::errors::{ErrorKind, MvnError, ErrV, err_at, err_label};
use crate::machine::{
    AddressedLine, ALineV, MachineAddress, MachineAddressProperties, Operation,
    reloc_ok, spec_relocate_line, no_props,
};
use crate::types::{Instruction, RelationalMneumonic, Operand, OperandV};
use crate::linker::import_of;
use crate::mcparser::{mlines_v, spec_parse_machine, parse_machine_program};

verus! {

/// Rebind a whole image to base `base`: every import still pending is
/// fatal; every line shifts per its tags, which clear; annotations are
/// stripped; a field that leaves its range is fatal.
pub open spec fn spec_relocate_image(ls: Seq<ALineV>, base: u16) -> Result<Seq<ALineV>, ErrV>
    decreases ls.len(),
{
    if ls.len() == 0 {
        Ok(Seq::empty())
    } else if import_of(ls[0]) is Some {
        Err(err_label(
            ErrorKind::UnresolvedImport, ls[0].address.position, import_of(ls[0])->Some_0,
        ))
    } else if !reloc_ok(ls[0], base) {
        Err(err_at(ErrorKind::OverflowError, ls[0].address.position))
    } else {
        match spec_relocate_image(ls.skip(1), base) {
            Err(e) => Err(e),
            Ok(rest) => Ok(seq![spec_relocate_line(ls[0], base)] + rest),
        }
    }
}

/// Rebind a listing to an absolute base.
pub fn relocate_image(lines: &Vec<AddressedLine>, base: u16)
    -> (r: Result<Vec<AddressedLine>, MvnError>)
    ensures
        match r {
            Ok(v) => spec_relocate_image(mlines_v(lines@), base)
                == Ok::<Seq<ALineV>, ErrV>(mlines_v(v@)),
            Err(e) => spec_relocate_image(mlines_v(lines@), base)
                == Err::<Seq<ALineV>, ErrV>(e@),
        },
{
    let ghost lv = mlines_v(lines@);
    proof {
        assert(lv.skip(0) =~= lv);
    }
    let mut out: Vec<AddressedLine> = Vec::new();
    let mut i: usize = 0;
    while i < lines.len()
        invariant
            i <= lines@.len(),
            lv == mlines_v(lines@),
            spec_relocate_image(lv, base) == match spec_relocate_image(
                lv.skip(i as int), base,
            ) {
                Ok(rest) => Ok::<Seq<ALineV>, ErrV>(mlines_v(out@) + rest),
                Err(e) => Err::<Seq<ALineV>, ErrV>(e),
            },
        decreases lines@.len() - i,
    {
        proof {
            assert(lv.skip(i as int)[0] == lines@[i as int]@);
            assert(lv.skip(i as int).skip(1) =~= lv.skip(i + 1));
        }
        let l = &lines[i];
        match &l.relational_annotation {
            Some(a) => {
                if matches!(
                    a.operation.instruction.value,
                    Instruction::Relational(RelationalMneumonic::Import)
                ) {
                    match &a.operation.operand.value {
                        Operand::Symbolic(lbl) => {
                            return Err(MvnError::with_label(
                                ErrorKind::UnresolvedImport,
                                l.address.position,
                                lbl.duplicate(),
                            ));
                        }
                        Operand::Numeric(_) => {}
                    }
                }
            }
            None => {}
        }
        proof {
            assert(import_of(lines@[i as int]@) is None);
        }
        let props = l.address.value.properties;
        let ok = (!props.line_relocatable
            || (l.address.value.position as u32) + (base as u32) < 0x10000)
            && (!props.operand_relocatable
                || (l.operation.operand.value as u32) + (base as u32) < 0x1000);
        if !ok {
            return Err(MvnError::at(ErrorKind::OverflowError, l.address.position));
        }
        let moved = AddressedLine {
            address: Token::new(l.address.position, MachineAddress {
                properties: MachineAddressProperties {
                    line_relocatable: false,
                    operand_relocatable: false,
                    imported: false,
                },
                position: if props.line_relocatable {
                    l.address.value.position + base
                } else {
                    l.address.value.position
                },
            }),
            operation: Operation {
                instruction: l.operation.instruction,
                operand: Token::new(
                    l.operation.operand.position,
                    if props.operand_relocatable {
                        l.operation.operand.value + base
                    } else {
                        l.operation.operand.value
                    },
                ),
            },
            relational_annotation: None,
        };
        let ghost mv = moved@;
        let ghost out0 = out@;
        out.push(moved);
        proof {
            assert(mv == spec_relocate_line(lines@[i as int]@, base));
            assert(mlines_v(out@) =~= mlines_v(out0).push(mv));
            match spec_relocate_image(lv.skip(i + 1), base) {
                Ok(rest) => {
                    assert(mlines_v(out0) + (seq![mv] + rest) =~= mlines_v(out@) + rest);
                }
                Err(_) => {}
            }
        }
        i += 1;
    }
    proof {
        assert(lv.skip(lines@.len() as int) =~= Seq::<ALineV>::empty());
        assert(mlines_v(out@) + Seq::<ALineV>::empty() =~= mlines_v(out@));
    }
    Ok(out)
}

/// What relocating whole object text means: parse it, then rebind every
/// line to the base.
pub open spec fn spec_relocate_text(s: Seq<u8>, base: u16) -> Result<Seq<ALineV>, ErrV> {
    match spec_parse_machine(s, 0, 1) {
        Err(e) => Err(e),
        Ok(ls) => spec_relocate_image(ls, base),
    }
}

/// Every line a relocation yields is well formed: untagged, its annotation
/// stripped, its fields within their bounds.
pub proof fn lemma_relocate_image_wf(ls: Seq<ALineV>, base: u16)
    requires
        forall|i: int| 0 <= i < ls.len() ==> crate::machine::line_wf(#[trigger] ls[i]),
    ensures
        spec_relocate_image(ls, base) matches Ok(out)
            ==> forall|j: int| 0 <= j < out.len()
                ==> crate::machine::line_wf(#[trigger] out[j]),
    decreases ls.len(),
{
    if ls.len() > 0 && import_of(ls[0]) is None && reloc_ok(ls[0], base) {
        assert(forall|i: int| 0 <= i < ls.skip(1).len()
            ==> crate::machine::line_wf(#[trigger] ls.skip(1)[i]));
        lemma_relocate_image_wf(ls.skip(1), base);
        match spec_relocate_image(ls.skip(1), base) {
            Err(_) => {}
            Ok(rest) => {
                let out = seq![spec_relocate_line(ls[0], base)] + rest;
                assert(crate::machine::line_wf(out[0]));
                assert(forall|j: int| 1 <= j < out.len() ==> #[trigger] out[j] == rest[j - 1]);
            }
        }
    }
}

/// Relocate whole object text: parse it, then rebind it to `base`. Every
/// line of a successful result is well formed, so it can be serialized.
pub fn process(src: &Vec<u8>, base: u16) -> (r: Result<Vec<AddressedLine>, MvnError>)
    requires
        src@.len() + 2 <= usize::MAX,
    ensures
        match r {
            Ok(v) => spec_relocate_text(src@, base) == Ok::<Seq<ALineV>, ErrV>(mlines_v(v@))
                && crate::printer::all_wf(mlines_v(v@)),
            Err(e) => spec_relocate_text(src@, base) == Err::<Seq<ALineV>, ErrV>(e@),
        },
{
    proof {
        crate::mcparser::lemma_parse_machine_wf(src@, 0, 1);
    }
    match parse_machine_program(src) {
        Err(e) => Err(e),
        Ok(lines) => {
            proof {
                lemma_relocate_image_wf(mlines_v(lines@), base);
            }
            let r = relocate_image(&lines, base);
            proof {
                match r {
                    Ok(ref v) => {
                        let out = spec_relocate_image(mlines_v(lines@), base)->Ok_0;
                        assert(out == mlines_v(v@));
                        assert forall|i: int| 0 <= i < mlines_v(v@).len()
                            implies crate::machine::line_wf(#[trigger] mlines_v(v@)[i]) by {
                            assert(crate::machine::line_wf(out[i]));
                        }
                    }
                    Err(_) => {}
                }
            }
            r
        }
    }
}

/// Rebinding a whole image at base zero keeps every word's value: it only
/// clears the tags and strips the annotations.
pub proof fn lemma_image_relocate_zero(ls: Seq<ALineV>)
    requires
        forall|i: int| 0 <= i < ls.len() ==> (#[trigger] ls[i]).operand.value < 0x1000,
        forall|i: int| 0 <= i < ls.len() ==> import_of(#[trigger] ls[i]) is None,
    ensures
        spec_relocate_image(ls, 0) matches Ok(out) && out.len() == ls.len()
            && forall|i: int| 0 <= i < ls.len() ==> {
                let l = #[trigger] ls[i];
                let o = out[i];
                o.address.value.position == l.address.value.position
                    && o.operand.value == l.operand.value
                    && o.instruction == l.instruction
                    && o.address.value.properties == no_props()
                    && o.annotation is None
            },
    decreases ls.len(),
{
    if ls.len() > 0 {
        assert(reloc_ok(ls[0], 0));
        assert(forall|i: int| 0 <= i < ls.skip(1).len()
            ==> (#[trigger] ls.skip(1)[i]).operand.value < 0x1000
                && import_of(ls.skip(1)[i]) is None);
        lemma_image_relocate_zero(ls.skip(1));
        let rest = spec_relocate_image(ls.skip(1), 0)->Ok_0;
        let out = spec_relocate_image(ls, 0)->Ok_0;
        assert(out == seq![spec_relocate_line(ls[0], 0)] + rest);
        assert forall|i: int| 0 <= i < ls.len() implies {
            let l = #[trigger] ls[i];
            let o = out[i];
            o.address.value.position == l.address.value.position
                && o.operand.value == l.operand.value
                && o.instruction == l.instruction
                && o.address.value.properties == no_props()
                && o.annotation is None
        } by {
            if i == 0 {
                crate::machine::lemma_relocate_zero_is_identity(ls[0]);
                assert(out[0] == spec_relocate_line(ls[0], 0));
            } else {
                assert(out[i] == rest[i - 1]);
                assert(ls.skip(1)[i - 1] == ls[i]);
            }
        }
    }
}

/// Relocation is additive over a whole image: the linker's tag-preserving
/// shift by one base, followed by relocation by another, equals one
/// relocation by the sum of the bases.
pub proof fn lemma_image_relocate_additive(ls: Seq<ALineV>, b1: u16, b2: u16)
    requires
        b1 + b2 < 0x10000,
        forall|i: int| 0 <= i < ls.len() ==> import_of(#[trigger] ls[i]) is None,
        forall|i: int| 0 <= i < ls.len()
            ==> crate::machine::shift_ok(#[trigger] ls[i], b2),
        forall|i: int| 0 <= i < ls.len()
            ==> reloc_ok(#[trigger] ls[i], (b1 + b2) as u16),
    ensures
        crate::linker::spec_shift_unit(ls, b2) matches Ok(sh)
            && spec_relocate_image(sh, b1) == spec_relocate_image(ls, (b1 + b2) as u16),
    decreases ls.len(),
{
    if ls.len() > 0 {
        crate::machine::lemma_relocate_additive(ls[0], b1, b2);
        assert(forall|i: int| 0 <= i < ls.skip(1).len() ==> {
            &&& import_of(#[trigger] ls.skip(1)[i]) is None
            &&& crate::machine::shift_ok(ls.skip(1)[i], b2)
            &&& reloc_ok(ls.skip(1)[i], (b1 + b2) as u16)
        });
        lemma_image_relocate_additive(ls.skip(1), b1, b2);
        let sh = crate::linker::spec_shift_unit(ls, b2)->Ok_0;
        let sh_rest = crate::linker::spec_shift_unit(ls.skip(1), b2)->Ok_0;
        assert(sh == seq![crate::machine::spec_shift_line(ls[0], b2)] + sh_rest);
        let h = crate::machine::spec_shift_line(ls[0], b2);
        assert(sh[0] == h);
        assert(import_of(h) == import_of(ls[0]));
        assert(sh.skip(1) =~= sh_rest);
        assert(spec_relocate_image(ls, (b1 + b2) as u16) == match spec_relocate_image(
            ls.skip(1), (b1 + b2) as u16,
        ) {
            Ok(rest) => Ok::<Seq<ALineV>, crate::errors::ErrV>(
                seq![crate::machine::spec_relocate_line(ls[0], (b1 + b2) as u16)] + rest,
            ),
            Err(e) => Err::<Seq<ALineV>, crate::errors::ErrV>(e),
        });
    }
}

} // verus!
