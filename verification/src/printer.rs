use vstd::prelude::*;
use crate::machine::{
    AddressedLine, ALineV, MachineAddress, props_value, line_wf, annotation_wf,
};
use crate::types::{LineV, OperandV, spec_spelling, Operand};

verus! {

/// The uppercase hex digit byte of a value below sixteen.
pub open spec fn hex_digit(v: u16) -> u8
    recommends
        v < 16,
{
    if v < 10 { (0x30 + v) as u8 } else { (0x37 + v) as u8 }
}

/// The four uppercase hex digits of a 16-bit word, high digit first.
pub open spec fn spec_hex4(w: u16) -> Seq<u8> {
    seq![
        hex_digit(w / 0x1000),
        hex_digit((w / 0x100) % 16),
        hex_digit((w / 16) % 16),
        hex_digit(w % 16),
    ]
}

/// The serialized address word: the three tags in the top nibble, the
/// address in the low twelve bits. An untagged address keeps all sixteen
/// bits.
pub open spec fn spec_addr_word(a: MachineAddress) -> u16
    recommends
        props_value(a.properties) == 0 || a.position < 0x1000,
{
    (props_value(a.properties) * 0x1000 + a.position) as u16
}

/// The serialized instruction word: opcode in the top nibble, operand in
/// the low twelve bits.
pub open spec fn spec_instr_word(l: ALineV) -> u16
    recommends
        l.instruction.value < 0x10 && l.operand.value < 0x1000,
{
    ((l.instruction.value as u16) * 0x1000 + l.operand.value) as u16
}

/// The canonical text of an annotation: its mnemonic, one space, its label.
pub open spec fn spec_annotation_text(a: LineV) -> Seq<u8>
    recommends
        annotation_wf(a),
{
    spec_spelling(a.operation.instruction.value) + seq![0x20u8] + match a.operation.operand.value {
        OperandV::Symbolic(s) => s,
        OperandV::Numeric(_) => Seq::empty(),
    }
}

/// One serialized line without its newline: address word, one space,
/// instruction word, and the annotation after ` ; ` where one is attached.
pub open spec fn spec_print_body(l: ALineV) -> Seq<u8>
    recommends
        line_wf(l),
{
    spec_hex4(spec_addr_word(l.address.value)) + seq![0x20u8] + spec_hex4(spec_instr_word(l))
        + match l.annotation {
            Some(a) => seq![0x20u8, 0x3Bu8, 0x20u8] + spec_annotation_text(a),
            None => Seq::empty(),
        }
}

/// One serialized line, newline included.
pub open spec fn spec_print_line(l: ALineV) -> Seq<u8>
    recommends
        line_wf(l),
{
    spec_print_body(l) + seq![0x0Au8]
}

/// A whole serialized listing: one line per machine word.
pub open spec fn spec_print_program(ls: Seq<ALineV>) -> Seq<u8>
    decreases ls.len(),
{
    if ls.len() == 0 {
        Seq::empty()
    } else {
        spec_print_line(ls[0]) + spec_print_program(ls.skip(1))
    }
}

/// Serialization appends line by line.
pub proof fn lemma_print_program_push(ls: Seq<ALineV>, l: ALineV)
    ensures
        spec_print_program(ls.push(l)) == spec_print_program(ls) + spec_print_line(l),
    decreases ls.len(),
{
    assert(ls.push(l).len() == ls.len() + 1);
    assert(ls.push(l)[0] == if ls.len() == 0 { l } else { ls[0] });
    if ls.len() == 0 {
        assert(ls.push(l).skip(1) =~= Seq::<ALineV>::empty());
        assert(spec_print_program(ls.push(l))
            == spec_print_line(l) + spec_print_program(Seq::<ALineV>::empty()));
        assert(spec_print_program(ls.push(l)) =~= spec_print_line(l));
        assert(spec_print_program(ls) + spec_print_line(l) =~= spec_print_line(l));
    } else {
        assert(ls.push(l).skip(1) =~= ls.skip(1).push(l));
        lemma_print_program_push(ls.skip(1), l);
        assert(spec_print_program(ls.push(l))
            == spec_print_line(ls[0]) + (spec_print_program(ls.skip(1)) + spec_print_line(l)));
        assert(spec_print_program(ls.push(l)) =~= spec_print_program(ls) + spec_print_line(l));
    }
}

/// The uppercase hex digit of `v`.
pub fn hex_digit_byte(v: u16) -> (r: u8)
    requires
        v < 16,
    ensures
        r == hex_digit(v),
{
    if v < 10 { (0x30 + v) as u8 } else { (0x37 + v) as u8 }
}

/// Push the four hex digits of `w` onto `out`.
pub fn push_hex4(out: &mut Vec<u8>, w: u16)
    ensures
        final(out)@ == old(out)@ + spec_hex4(w),
{
    out.push(hex_digit_byte(w / 0x1000));
    out.push(hex_digit_byte((w / 0x100) % 16));
    out.push(hex_digit_byte((w / 16) % 16));
    out.push(hex_digit_byte(w % 16));
    proof {
        assert(out@ =~= old(out)@ + spec_hex4(w));
    }
}

/// Push a copy of `v` onto `out`.
pub fn push_bytes(out: &mut Vec<u8>, v: &Vec<u8>)
    ensures
        final(out)@ == old(out)@ + v@,
{
    let mut k: usize = 0;
    while k < v.len()
        invariant
            k <= v.len(),
            out@ == old(out)@ + v@.take(k as int),
        decreases v.len() - k,
    {
        out.push(v[k]);
        k += 1;
        proof {
            assert(out@ =~= old(out)@ + v@.take(k as int));
        }
    }
    proof {
        assert(out@ =~= old(out)@ + v@);
    }
}

/// Serialize one line, newline included, onto `out`.
pub fn push_line(out: &mut Vec<u8>, l: &AddressedLine)
    requires
        line_wf(l@),
    ensures
        final(out)@ == old(out)@ + spec_print_line(l@),
{
    let props = l.address.value.properties;
    let flags: u16 = (if props.imported { 4u16 } else { 0u16 })
        + (if props.operand_relocatable { 2u16 } else { 0u16 })
        + (if props.line_relocatable { 1u16 } else { 0u16 });
    let addr_word: u16 = flags * 0x1000 + l.address.value.position;
    push_hex4(out, addr_word);
    out.push(0x20);
    let instr_word: u16 = (l.operation.instruction.value as u16) * 0x1000
        + l.operation.operand.value;
    push_hex4(out, instr_word);
    match &l.relational_annotation {
        Some(a) => {
            out.push(0x20);
            out.push(0x3B);
            out.push(0x20);
            let spelling = a.operation.instruction.value.spelling();
            push_bytes(out, &spelling);
            out.push(0x20);
            match &a.operation.operand.value {
                Operand::Symbolic(lbl) => {
                    push_bytes(out, &lbl.name);
                }
                Operand::Numeric(_) => {}
            }
        }
        None => {}
    }
    out.push(0x0A);
    proof {
        assert(out@ =~= old(out)@ + spec_print_line(l@));
    }
}

/// Whether every line of a listing is well formed.
pub open spec fn all_wf(ls: Seq<ALineV>) -> bool {
    forall|i: int| 0 <= i < ls.len() ==> line_wf(#[trigger] ls[i])
}

/// The model of a vector of machine lines.
pub open spec fn lines_view(s: Seq<AddressedLine>) -> Seq<ALineV> {
    s.map_values(|l: AddressedLine| l@)
}

/// Serialize a whole listing to its canonical text.
pub fn print(lines: &Vec<AddressedLine>) -> (r: Vec<u8>)
    requires
        all_wf(lines_view(lines@)),
    ensures
        r@ == spec_print_program(lines_view(lines@)),
{
    let mut out: Vec<u8> = Vec::new();
    let mut i: usize = 0;
    while i < lines.len()
        invariant
            i <= lines.len(),
            all_wf(lines_view(lines@)),
            out@ == spec_print_program(lines_view(lines@).take(i as int)),
        decreases lines.len() - i,
    {
        proof {
            assert(lines_view(lines@)[i as int] == lines@[i as int]@);
            assert(line_wf(lines@[i as int]@));
            lemma_print_program_push(lines_view(lines@).take(i as int), lines@[i as int]@);
            assert(lines_view(lines@).take(i as int).push(lines@[i as int]@)
                =~= lines_view(lines@).take(i + 1));
        }
        push_line(&mut out, &lines[i]);
        i += 1;
    }
    proof {
        assert(lines_view(lines@).take(lines@.len() as int) =~= lines_view(lines@));
    }
    out
}

} // verus!
