use vstd::prelude::*;
use crate::{Position, Token};
use crate::errors::{ErrorKind, MvnError, ErrV, err_at};
use crate::types::LineV;
use crate::machine::{AddressedLine, ALineV, MachineAddress, MachineAddressProperties, Operation, opt_line_view, props_value};
use crate::parser::{
    is_hex_byte, hex_val, is_space, spec_skip_spaces, spec_token_end, spec_parse_line_at,
    spec_line_end, line_slice, pos_at, skip_spaces, parse_line_at, line_end, copy_range,
    lemma_skip_spaces, lemma_line_end,
};

verus! {

/// Whether four hex digits stand at index `i`.
pub open spec fn is_hex4_at(s: Seq<u8>, i: int) -> bool
    recommends
        0 <= i,
{
    &&& i + 4 <= s.len()
    &&& is_hex_byte(s[i])
    &&& is_hex_byte(s[i + 1])
    &&& is_hex_byte(s[i + 2])
    &&& is_hex_byte(s[i + 3])
}

/// The value of the four hex digits at index `i`, high digit first.
pub open spec fn spec_hex4_value(s: Seq<u8>, i: int) -> u16
    recommends
        is_hex4_at(s, i),
{
    (hex_val(s[i]) * 0x1000 + hex_val(s[i + 1]) * 0x100 + hex_val(s[i + 2]) * 16
        + hex_val(s[i + 3])) as u16
}

/// The properties packed into an address word's top nibble:
/// `{0, imported, operand_relocatable, line_relocatable}`.
pub open spec fn props_of_nibble(f: u16) -> MachineAddressProperties
    recommends
        f < 8,
{
    MachineAddressProperties {
        line_relocatable: f % 2 == 1,
        operand_relocatable: (f / 2) % 2 == 1,
        imported: f >= 4,
    }
}

/// Whether a parsed line has the shape of a relational annotation:
/// no label of its own, a relational mnemonic, a symbolic operand.
pub open spec fn annotation_shape(lv: LineV) -> bool {
    &&& lv.label is None
    &&& lv.operation.instruction.value is Relational
    &&& lv.operation.operand.value is Symbolic
}

/// What parsing one line of object text yields: nothing for a blank or
/// comment-only line; otherwise an address word, an instruction word, and,
/// where the comment parses as a relational line, that annotation. A
/// comment that parses any other way is discarded.
pub open spec fn spec_parse_machine_line(s: Seq<u8>, line_no: usize)
    -> Result<Option<ALineV>, ErrV>
    recommends
        s.len() + 1 <= usize::MAX,
{
    let i = spec_skip_spaces(s, 0);
    if i >= s.len() || s[i] == 0x3B {
        Ok(None)
    } else if !is_hex4_at(s, i) {
        Err(err_at(ErrorKind::LexError, pos_at(line_no, i)))
    } else {
        let w1 = spec_hex4_value(s, i);
        if w1 >= 0x8000 {
            Err(err_at(ErrorKind::ParseError, pos_at(line_no, i)))
        } else {
            let j = i + 4;
            if !(j < s.len() && is_space(s[j])) {
                Err(err_at(ErrorKind::LexError, pos_at(line_no, j)))
            } else {
                let k = spec_skip_spaces(s, j);
                if !is_hex4_at(s, k) {
                    Err(err_at(ErrorKind::LexError, pos_at(line_no, k)))
                } else {
                    let w2 = spec_hex4_value(s, k);
                    let m = spec_skip_spaces(s, k + 4);
                    if m < s.len() && s[m] != 0x3B {
                        Err(err_at(ErrorKind::ParseError, pos_at(line_no, m)))
                    } else {
                        let ann = if m < s.len() {
                            match spec_parse_line_at(s, m + 1, line_no) {
                                Ok(Some(lv)) => if annotation_shape(lv) {
                                    Some(lv)
                                } else {
                                    None
                                },
                                _ => None,
                            }
                        } else {
                            None
                        };
                        Ok(Some(ALineV {
                            address: crate::TokenV {
                                position: pos_at(line_no, i),
                                value: MachineAddress {
                                    properties: props_of_nibble(w1 / 0x1000),
                                    position: (w1 % 0x1000) as u16,
                                },
                            },
                            instruction: crate::TokenV {
                                position: pos_at(line_no, k),
                                value: (w2 / 0x1000) as u8,
                            },
                            operand: crate::TokenV {
                                position: pos_at(line_no, k + 1),
                                value: (w2 % 0x1000) as u16,
                            },
                            annotation: ann,
                        }))
                    }
                }
            }
        }
    }
}

/// The model of a machine-line parse result, positions erased.
pub open spec fn res_mline_view(r: Result<Option<AddressedLine>, MvnError>)
    -> Result<Option<ALineV>, ErrV> {
    match r {
        Ok(Some(l)) => Ok(Some(l@)),
        Ok(None) => Ok(None),
        Err(e) => Err(e@),
    }
}

/// The value of the hex digit `b`.
pub fn hex_val_byte(b: u8) -> (r: u32)
    requires
        is_hex_byte(b),
    ensures
        r == hex_val(b),
{
    if b <= 0x39 { (b - 0x30) as u32 }
    else if b <= 0x46 { (b - 0x37) as u32 }
    else { (b - 0x57) as u32 }
}

/// Whether `b` is a hex digit.
pub fn hex_byte_check(b: u8) -> (r: bool)
    ensures
        r == is_hex_byte(b),
{
    (0x30 <= b && b <= 0x39) || (0x41 <= b && b <= 0x46) || (0x61 <= b && b <= 0x66)
}

/// Read the four hex digits at `i`, if four stand there.
pub fn read_hex4(s: &Vec<u8>, i: usize) -> (r: Option<u16>)
    requires
        i <= s@.len(),
    ensures
        match r {
            Some(w) => is_hex4_at(s@, i as int) && w == spec_hex4_value(s@, i as int),
            None => !is_hex4_at(s@, i as int),
        },
{
    if s.len() < 4 || i > s.len() - 4 {
        return None;
    }
    let b0 = s[i];
    let b1 = s[i + 1];
    let b2 = s[i + 2];
    let b3 = s[i + 3];
    if !(hex_byte_check(b0) && hex_byte_check(b1) && hex_byte_check(b2) && hex_byte_check(b3)) {
        return None;
    }
    let v: u32 = hex_val_byte(b0) * 0x1000 + hex_val_byte(b1) * 0x100 + hex_val_byte(b2) * 16
        + hex_val_byte(b3);
    Some(v as u16)
}

/// Parse one line of object text.
pub fn parse_machine_line(s: &Vec<u8>, line_no: usize)
    -> (r: Result<Option<AddressedLine>, MvnError>)
    requires
        s@.len() + 1 <= usize::MAX,
    ensures
        res_mline_view(r) == spec_parse_machine_line(s@, line_no),
{
    let i = skip_spaces(s, 0);
    if i >= s.len() || s[i] == 0x3B {
        return Ok(None);
    }
    let w1 = match read_hex4(s, i) {
        Some(w) => w,
        None => {
            return Err(MvnError::at(ErrorKind::LexError, Position::new(line_no, i + 1)));
        }
    };
    if w1 >= 0x8000 {
        return Err(MvnError::at(ErrorKind::ParseError, Position::new(line_no, i + 1)));
    }
    let j = i + 4;
    if !(j < s.len() && (s[j] == 0x20 || s[j] == 0x09)) {
        return Err(MvnError::at(ErrorKind::LexError, Position::new(line_no, j + 1)));
    }
    let k = skip_spaces(s, j);
    let w2 = match read_hex4(s, k) {
        Some(w) => w,
        None => {
            return Err(MvnError::at(ErrorKind::LexError, Position::new(line_no, k + 1)));
        }
    };
    let m = skip_spaces(s, k + 4);
    if m < s.len() && s[m] != 0x3B {
        return Err(MvnError::at(ErrorKind::ParseError, Position::new(line_no, m + 1)));
    }
    let ann = if m < s.len() {
        match parse_line_at(s, m + 1, line_no) {
            Ok(Some(lv)) => {
                let shape_ok = lv.label.is_none()
                    && matches!(lv.operation.instruction.value, crate::types::Instruction::Relational(_))
                    && matches!(lv.operation.operand.value, crate::types::Operand::Symbolic(_));
                if shape_ok { Some(lv) } else { None }
            }
            _ => None,
        }
    } else {
        None
    };
    let flags = w1 / 0x1000;
    let line = AddressedLine {
        address: Token::new(
            Position::new(line_no, i + 1),
            MachineAddress {
                properties: MachineAddressProperties {
                    line_relocatable: flags % 2 == 1,
                    operand_relocatable: (flags / 2) % 2 == 1,
                    imported: flags >= 4,
                },
                position: w1 % 0x1000,
            },
        ),
        operation: Operation {
            instruction: Token::new(Position::new(line_no, k + 1), (w2 / 0x1000) as u8),
            operand: Token::new(Position::new(line_no, k + 2), w2 % 0x1000),
        },
        relational_annotation: ann,
    };
    Ok(Some(line))
}

/// What parsing a whole object text from index `i` as line `line_no` on
/// yields: the machine lines in order, or the first error.
pub open spec fn spec_parse_machine(s: Seq<u8>, i: int, line_no: usize)
    -> Result<Seq<ALineV>, ErrV>
    recommends
        0 <= i <= s.len(),
        s.len() + 2 <= usize::MAX,
    decreases s.len() - i,
        when 0 <= i <= s.len()
        via spec_parse_machine_decreases
{
    match spec_parse_machine_line(line_slice(s, i), line_no) {
        Err(e) => Err(e),
        Ok(opt) => {
            let e = spec_line_end(s, i);
            if e >= s.len() {
                match opt {
                    Some(l) => Ok(seq![l]),
                    None => Ok(Seq::empty()),
                }
            } else {
                match spec_parse_machine(s, e + 1, (line_no + 1) as usize) {
                    Err(er) => Err(er),
                    Ok(rest) => Ok(
                        match opt {
                            Some(l) => seq![l] + rest,
                            None => rest,
                        },
                    ),
                }
            }
        }
    }
}

#[via_fn]
proof fn spec_parse_machine_decreases(s: Seq<u8>, i: int, line_no: usize) {
    lemma_line_end(s, i);
}

/// The model of a vector of machine lines.
pub open spec fn mlines_v(s: Seq<AddressedLine>) -> Seq<ALineV> {
    s.map_values(|l: AddressedLine| l@)
}

/// Parse a whole object text into its machine lines, blank and comment-only
/// lines dropped; the first error, if any, is the result.
#[verifier::rlimit(100)]
pub fn parse_machine_program(s: &Vec<u8>) -> (r: Result<Vec<AddressedLine>, MvnError>)
    requires
        s@.len() + 2 <= usize::MAX,
    ensures
        match r {
            Ok(v) => spec_parse_machine(s@, 0, 1) == Ok::<Seq<ALineV>, ErrV>(mlines_v(v@)),
            Err(e) => spec_parse_machine(s@, 0, 1) == Err::<Seq<ALineV>, ErrV>(e@),
        },
{
    let mut out: Vec<AddressedLine> = Vec::new();
    let mut i: usize = 0;
    let mut line_no: usize = 1;
    let mut done: bool = false;
    proof {
        match spec_parse_machine(s@, 0, 1) {
            Ok(rest) => {
                assert(mlines_v(out@) + rest =~= rest);
                assert(mlines_v(out@) =~= Seq::<ALineV>::empty());
            }
            Err(_) => {}
        }
    }
    while !done
        invariant
            i <= s@.len(),
            s@.len() + 2 <= usize::MAX,
            1 <= line_no <= i + 1,
            done ==> spec_parse_machine(s@, 0, 1) == Ok::<Seq<ALineV>, ErrV>(mlines_v(out@)),
            !done ==> spec_parse_machine(s@, 0, 1) == match spec_parse_machine(
                s@, i as int, line_no,
            ) {
                Ok(rest) => Ok::<Seq<ALineV>, ErrV>(mlines_v(out@) + rest),
                Err(e) => Err::<Seq<ALineV>, ErrV>(e),
            },
        decreases s@.len() - i + (if done { 0int } else { 1int }),
    {
        let e = line_end(s, i);
        proof {
            lemma_line_end(s@, i as int);
        }
        let e2: usize = if e > i && s[e - 1] == 0x0D { e - 1 } else { e };
        let slice = copy_range(s, i, e2);
        proof {
            assert(slice@ == line_slice(s@, i as int));
        }
        match parse_machine_line(&slice, line_no) {
            Err(err) => {
                return Err(err);
            }
            Ok(opt) => {
                let ghost out0 = out@;
                let ghost opt_v: Option<ALineV> = match opt {
                    Some(ref l) => Some(l@),
                    None => None,
                };
                match opt {
                    Some(l) => out.push(l),
                    None => {}
                }
                proof {
                    match opt_v {
                        Some(lv) => {
                            assert(mlines_v(out@) =~= mlines_v(out0).push(lv));
                        }
                        None => {}
                    }
                }
                if e >= s.len() {
                    done = true;
                    proof {
                        match opt_v {
                            Some(lv) => {
                                assert(mlines_v(out0) + seq![lv] =~= mlines_v(out@));
                            }
                            None => {}
                        }
                    }
                } else {
                    i = e + 1;
                    line_no += 1;
                    proof {
                        match spec_parse_machine(s@, i as int, line_no) {
                            Ok(rest) => {
                                match opt_v {
                                    Some(lv) => {
                                        assert(mlines_v(out0) + (seq![lv] + rest)
                                            =~= mlines_v(out@) + rest);
                                    }
                                    None => {}
                                }
                            }
                            Err(_) => {}
                        }
                    }
                }
            }
        }
    }
    Ok(out)
}

impl AddressedLine {
    /// Parse one line of object text: the form every assembled or linked
    /// listing is written in.
    pub fn parse_machine_code(input: &Vec<u8>, line_no: usize)
        -> (r: Result<Option<AddressedLine>, MvnError>)
        requires
            input@.len() + 1 <= usize::MAX,
        ensures
            res_mline_view(r) == spec_parse_machine_line(input@, line_no),
    {
        parse_machine_line(input, line_no)
    }
}

/// The content of a machine line with every position erased: what the
/// serialized form carries.
pub struct LineCore {
    pub properties: MachineAddressProperties,
    pub address: u16,
    pub opcode: u8,
    pub operand: u16,
    pub annotation: Option<(crate::types::RelationalMneumonic, Seq<u8>)>,
}

/// The position-erased content of a machine line.
pub open spec fn core_of(l: ALineV) -> LineCore {
    LineCore {
        properties: l.address.value.properties,
        address: l.address.value.position,
        opcode: l.instruction.value,
        operand: l.operand.value,
        annotation: match l.annotation {
            Some(a) => match a.operation.instruction.value {
                crate::types::Instruction::Relational(m) => match a.operation.operand.value {
                    crate::types::OperandV::Symbolic(s) => Some((m, s)),
                    crate::types::OperandV::Numeric(_) => None,
                },
                _ => None,
            },
            None => None,
        },
    }
}

/// A hex digit byte is a hex digit and nothing else the scanner cares
/// about, and its value reads back.
pub proof fn lemma_hex_digit_byte(v: u16)
    requires
        v < 16,
    ensures
        is_hex_byte(crate::printer::hex_digit(v)),
        !is_space(crate::printer::hex_digit(v)),
        crate::printer::hex_digit(v) != 0x3B,
        crate::printer::hex_digit(v) != 0x0A,
        hex_val(crate::printer::hex_digit(v)) == v,
{
}

/// A sixteen-bit word reassembles from its four hex digits.
pub proof fn lemma_hex4_recompose(w: u16)
    ensures
        (w / 0x1000) * 0x1000 + ((w / 0x100) % 16) * 0x100 + ((w / 16) % 16) * 16 + w % 16
            == w,
{
    assert((w / 0x1000) * 0x1000 + ((w / 0x100) % 16) * 0x100 + ((w / 16) % 16) * 16
        + w % 16 == w) by (bit_vector);
}

/// Reading the four digits of a printed word gives the word back.
pub proof fn lemma_hex4_read_back(s: Seq<u8>, i: int, w: u16)
    requires
        0 <= i,
        i + 4 <= s.len(),
        s.subrange(i, i + 4) == crate::printer::spec_hex4(w),
    ensures
        is_hex4_at(s, i),
        spec_hex4_value(s, i) == w,
{
    assert(s[i] == crate::printer::spec_hex4(w)[0]);
    assert(s[i + 1] == crate::printer::spec_hex4(w)[1]);
    assert(s[i + 2] == crate::printer::spec_hex4(w)[2]);
    assert(s[i + 3] == crate::printer::spec_hex4(w)[3]);
    lemma_hex_digit_byte(w / 0x1000);
    lemma_hex_digit_byte((w / 0x100) % 16);
    lemma_hex_digit_byte((w / 16) % 16);
    lemma_hex_digit_byte(w % 16);
    lemma_hex4_recompose(w);
}

/// A token that runs to an index whose byte ends it.
pub proof fn lemma_token_end_until(s: Seq<u8>, i: int, e: int)
    requires
        0 <= i <= e <= s.len(),
        forall|j: int| i <= j < e ==> crate::parser::is_token_byte(#[trigger] s[j]),
        e < s.len() ==> !crate::parser::is_token_byte(s[e]),
    ensures
        spec_token_end(s, i) == e,
    decreases e - i,
{
    if i < e {
        lemma_token_end_until(s, i + 1, e);
    }
}

/// Identifier bytes belong to tokens.
pub proof fn lemma_ident_bytes_are_token_bytes(b: u8)
    requires
        crate::types::is_ident_char(b),
    ensures
        crate::parser::is_token_byte(b),
        b != 0x0A,
{
}

/// Packing the three tags and reading them back gives the same tags.
pub proof fn lemma_props_roundtrip(p: MachineAddressProperties)
    ensures
        props_value(p) < 8,
        props_of_nibble(props_value(p)) == p,
{
}

/// Round trip: a well-formed machine line, serialized by the printer and
/// read back by the object-text reader, is the same line — the same tags,
/// address, opcode, operand and annotation; only source positions differ.
#[verifier::rlimit(100)]
pub proof fn lemma_print_parse_round_trip(l: ALineV, line_no: usize)
    requires
        crate::machine::line_unit_wf(l),
    ensures
        spec_parse_machine_line(crate::printer::spec_print_body(l), line_no)
            matches Ok(Some(p)) && core_of(p) == core_of(l),
{
    let props = l.address.value.properties;
    let w1 = crate::printer::spec_addr_word(l.address.value);
    let w2 = crate::printer::spec_instr_word(l);
    let h1 = crate::printer::spec_hex4(w1);
    let h2 = crate::printer::spec_hex4(w2);
    let s = crate::printer::spec_print_body(l);
    let pv = crate::machine::props_value(props);
    lemma_props_roundtrip(props);
    assert(w1 == pv * 0x1000 + l.address.value.position);
    assert(w2 == (l.instruction.value as u16) * 0x1000 + l.operand.value);
    lemma_hex_digit_byte(w1 / 0x1000);
    lemma_hex_digit_byte((w1 / 0x100) % 16);
    lemma_hex_digit_byte((w1 / 16) % 16);
    lemma_hex_digit_byte(w1 % 16);
    lemma_hex_digit_byte(w2 / 0x1000);
    lemma_hex_digit_byte((w2 / 0x100) % 16);
    lemma_hex_digit_byte((w2 / 16) % 16);
    lemma_hex_digit_byte(w2 % 16);
    // the shape of the printed bytes
    assert(s.subrange(0, 4) =~= h1);
    assert(s[4] == 0x20u8);
    assert(s.subrange(5, 9) =~= h2);
    // the scanner stays at the first digit
    assert(spec_skip_spaces(s, 0) == 0);
    assert(s[0] == h1[0] && !is_space(s[0]) && s[0] != 0x3B);
    lemma_hex4_read_back(s, 0, w1);
    // the tag nibble is below eight, so the word is below 0x8000
    assert(w1 < 0x8000);
    assert(is_space(s[4]));
    assert(spec_skip_spaces(s, 5) == 5);
    assert(spec_skip_spaces(s, 4) == 5);
    lemma_hex4_read_back(s, 5, w2);
    // the fields read back
    assert(w1 / 0x1000 == pv && w1 % 0x1000 == l.address.value.position) by (nonlinear_arith)
        requires
            pv < 8,
            l.address.value.position < 0x1000,
            w1 == pv * 0x1000 + l.address.value.position,
    ;
    assert(w2 / 0x1000 == l.instruction.value as u16 && w2 % 0x1000 == l.operand.value)
        by (nonlinear_arith)
        requires
            l.instruction.value < 0x10,
            l.operand.value < 0x1000,
            w2 == (l.instruction.value as u16) * 0x1000 + l.operand.value,
    ;
    match l.annotation {
        None => {
            assert(s.len() == 9);
            assert(spec_skip_spaces(s, 9) == 9);
        }
        Some(a) => {
            let m = a.operation.instruction.value->Relational_0;
            let name = a.operation.operand.value->Symbolic_0;
            let spelling = crate::types::spec_spelling(a.operation.instruction.value);
            assert(spelling.len() == 1 && (spelling[0] == 0x3Eu8 || spelling[0] == 0x3Cu8));
            let ann_text = crate::printer::spec_annotation_text(a);
            assert(ann_text =~= spelling + seq![0x20u8] + name);
            assert(s.len() == 14 + name.len());
            assert(s[9] == 0x20u8 && s[10] == 0x3Bu8 && s[11] == 0x20u8);
            assert(s[12] == spelling[0]);
            assert(s[13] == 0x20u8);
            assert(forall|j: int| 0 <= j < name.len() ==> s[14 + j] == #[trigger] name[j]);
            assert(spec_skip_spaces(s, 10) == 10);
            assert(spec_skip_spaces(s, 9) == 10);
            // the annotation parses as a relational line over the label
            assert(spec_skip_spaces(s, 12) == 12);
            assert(spec_skip_spaces(s, 11) == 12);
            assert(crate::parser::is_token_byte(s[12]));
            assert(!crate::parser::is_token_byte(s[13]));
            lemma_token_end_until(s, 12, 13);
            let t1 = s.subrange(12, 13);
            assert(t1 =~= seq![spelling[0]]);
            assert(crate::types::spec_mnemonic_of(t1)
                == Some(crate::types::Instruction::Relational(m)));
            assert(crate::parser::spec_classify(t1)
                == crate::parser::TokenClass::Mnemonic(crate::types::Instruction::Relational(m)));
            assert(spec_skip_spaces(s, 14) == 14) by {
                assert(crate::types::is_identifier(name));
                assert(crate::types::is_ident_char(name[0]));
                assert(s[14] == name[0]);
            }
            assert(spec_skip_spaces(s, 13) == 14);
            assert(s[14] != 0x3B) by {
                assert(crate::types::is_ident_char(name[0]));
            }
            assert(forall|j: int| 14 <= j < s.len()
                ==> crate::parser::is_token_byte(#[trigger] s[j])) by {
                assert(forall|j: int| 14 <= j < s.len() ==> {
                    crate::types::is_ident_char(#[trigger] name[j - 14]) && s[j] == name[j - 14]
                });
            }
            lemma_token_end_until(s, 14, s.len() as int);
            let t = s.subrange(14, s.len() as int);
            assert(t =~= name);
            assert(crate::types::is_label(name));
            assert(crate::parser::spec_classify(t) == crate::parser::TokenClass::Ident);
            assert(spec_skip_spaces(s, s.len() as int) == s.len());
            let lv = spec_parse_line_at(s, 11, line_no)->Ok_0->Some_0;
            assert(annotation_shape(lv));
            assert(lv.operation.instruction.value
                == crate::types::Instruction::Relational(m));
            assert(lv.operation.operand.value == crate::types::OperandV::Symbolic(name));
        }
    }
    let p = spec_parse_machine_line(s, line_no)->Ok_0->Some_0;
    assert(p.address.value.properties == props);
    assert(p.address.value.position == l.address.value.position);
    assert(p.instruction.value == l.instruction.value);
    assert(p.operand.value == l.operand.value);
}

/// A line ends where the first newline stands.
pub proof fn lemma_line_end_until(s: Seq<u8>, i: int, e: int)
    requires
        0 <= i <= e <= s.len(),
        forall|j: int| i <= j < e ==> #[trigger] s[j] != 0x0A,
        e < s.len() ==> s[e] == 0x0A,
    ensures
        spec_line_end(s, i) == e,
    decreases e - i,
{
    if i < e {
        lemma_line_end_until(s, i + 1, e);
    }
}

/// A printed line body holds no newline and no trailing carriage return.
pub proof fn lemma_body_bytes(l: ALineV)
    requires
        crate::machine::line_unit_wf(l),
    ensures
        crate::printer::spec_print_body(l).len() >= 9,
        forall|j: int| 0 <= j < crate::printer::spec_print_body(l).len()
            ==> #[trigger] crate::printer::spec_print_body(l)[j] != 0x0A,
        crate::printer::spec_print_body(l).last() != 0x0D,
{
    let s = crate::printer::spec_print_body(l);
    let w1 = crate::printer::spec_addr_word(l.address.value);
    let w2 = crate::printer::spec_instr_word(l);
    lemma_hex_digit_byte(w1 / 0x1000);
    lemma_hex_digit_byte((w1 / 0x100) % 16);
    lemma_hex_digit_byte((w1 / 16) % 16);
    lemma_hex_digit_byte(w1 % 16);
    lemma_hex_digit_byte(w2 / 0x1000);
    lemma_hex_digit_byte((w2 / 0x100) % 16);
    lemma_hex_digit_byte((w2 / 16) % 16);
    lemma_hex_digit_byte(w2 % 16);
    match l.annotation {
        None => {
            assert(s.len() == 9);
            assert(forall|j: int| 0 <= j < 9 ==> #[trigger] s[j] != 0x0A);
        }
        Some(a) => {
            let name = a.operation.operand.value->Symbolic_0;
            let spelling = crate::types::spec_spelling(a.operation.instruction.value);
            assert(spelling.len() == 1 && (spelling[0] == 0x3Eu8 || spelling[0] == 0x3Cu8));
            assert(crate::printer::spec_annotation_text(a)
                =~= spelling + seq![0x20u8] + name);
            assert(s.len() == 14 + name.len());
            assert(forall|j: int| 0 <= j < name.len() ==> s[14 + j] == #[trigger] name[j]);
            assert(crate::types::is_identifier(name));
            assert(forall|j: int| 0 <= j < s.len() ==> #[trigger] s[j] != 0x0A) by {
                assert(forall|j: int| 14 <= j < s.len() ==> {
                    crate::types::is_ident_char(#[trigger] name[j - 14]) && s[j] == name[j - 14]
                });
            }
            assert(s.last() == name.last());
            assert(crate::types::is_ident_char(name.last()));
        }
    }
}

/// Scanning for the end of a line is unmoved by what stands before it.
pub proof fn lemma_line_end_offset(pre: Seq<u8>, t: Seq<u8>, i: int)
    requires
        0 <= i <= t.len(),
    ensures
        spec_line_end(pre + t, pre.len() + i) == pre.len() + spec_line_end(t, i),
    decreases t.len() - i,
{
    assert((pre + t).len() == pre.len() + t.len());
    if i < t.len() {
        assert((pre + t)[pre.len() + i] == t[i]);
        if t[i] != 0x0A {
            lemma_line_end_offset(pre, t, i + 1);
        }
    }
}

/// Reading machine lines is unmoved by what stands before the cursor.
pub proof fn lemma_parse_machine_offset(pre: Seq<u8>, t: Seq<u8>, i: int, n: usize)
    requires
        0 <= i <= t.len(),
    ensures
        spec_parse_machine(pre + t, pre.len() + i, n) == spec_parse_machine(t, i, n),
    decreases t.len() - i,
{
    let s = pre + t;
    lemma_line_end_offset(pre, t, i);
    let e = spec_line_end(t, i);
    lemma_line_end(t, i);
    lemma_line_end(s, pre.len() + i);
    assert(line_slice(s, pre.len() + i) =~= line_slice(t, i));
    if e < t.len() {
        lemma_parse_machine_offset(pre, t, e + 1, (n + 1) as usize);
    }
}

/// The position-erased cores of a listing.
pub open spec fn cores_of(ls: Seq<ALineV>) -> Seq<LineCore> {
    ls.map_values(|l: ALineV| core_of(l))
}

/// Round trip over a whole listing: a well-formed image, serialized by the
/// printer and read back by the object-text reader, is the same sequence of
/// lines — tags, addresses, opcodes, operands and annotations all equal;
/// only source positions differ.
#[verifier::rlimit(100)]
pub proof fn lemma_program_round_trip(ls: Seq<ALineV>, n: usize)
    requires
        forall|i: int| 0 <= i < ls.len() ==> crate::machine::line_unit_wf(#[trigger] ls[i]),
        n + ls.len() <= usize::MAX,
    ensures
        spec_parse_machine(crate::printer::spec_print_program(ls), 0, n)
            matches Ok(out) && cores_of(out) == cores_of(ls),
    decreases ls.len(),
{
    let s = crate::printer::spec_print_program(ls);
    if ls.len() == 0 {
        assert(s =~= Seq::<u8>::empty());
        assert(line_slice(s, 0) =~= Seq::<u8>::empty());
        assert(spec_parse_machine_line(line_slice(s, 0), n) == Ok::<Option<ALineV>, crate::errors::ErrV>(None));
        assert(cores_of(Seq::<ALineV>::empty()) =~= cores_of(ls));
    } else {
        let l = ls[0];
        let body = crate::printer::spec_print_body(l);
        let pre = crate::printer::spec_print_line(l);
        let rest = crate::printer::spec_print_program(ls.skip(1));
        assert(s == pre + rest);
        assert(pre == body + seq![0x0Au8]);
        lemma_body_bytes(l);
        assert(forall|j: int| 0 <= j < body.len() ==> s[j] == #[trigger] body[j]);
        assert(s[body.len() as int] == 0x0A);
        lemma_line_end_until(s, 0, body.len() as int);
        let e = spec_line_end(s, 0);
        assert(e == body.len());
        assert(s[e - 1] == body.last());
        assert(line_slice(s, 0) =~= body);
        lemma_print_parse_round_trip(l, n);
        let p = spec_parse_machine_line(body, n)->Ok_0->Some_0;
        assert(e < s.len());
        assert(pre.len() == e + 1);
        lemma_parse_machine_offset(pre, rest, 0, (n + 1) as usize);
        assert(spec_parse_machine(s, e + 1, (n + 1) as usize)
            == spec_parse_machine(rest, 0, (n + 1) as usize));
        lemma_program_round_trip(ls.skip(1), (n + 1) as usize);
        let out_rest = spec_parse_machine(rest, 0, (n + 1) as usize)->Ok_0;
        assert(spec_parse_machine(s, 0, n) == Ok::<Seq<ALineV>, crate::errors::ErrV>(
            seq![p] + out_rest,
        ));
        let out = seq![p] + out_rest;
        assert(cores_of(out) =~= cores_of(ls)) by {
            assert(cores_of(out_rest) == cores_of(ls.skip(1)));
            assert(out.len() == 1 + out_rest.len());
            assert(cores_of(out_rest).len() == out_rest.len());
            assert(cores_of(ls.skip(1)).len() == ls.skip(1).len());
            assert(forall|i: int| 0 <= i < out.len() ==> #[trigger] cores_of(out)[i] == core_of(out[i]));
            assert(forall|i: int| 0 <= i < ls.len() ==> #[trigger] cores_of(ls)[i] == core_of(ls[i]));
            assert(forall|i: int| 1 <= i < out.len() ==> {
                &&& out[i] == out_rest[i - 1]
                &&& core_of(#[trigger] out[i]) == cores_of(out_rest)[i - 1]
                &&& cores_of(ls.skip(1))[i - 1] == core_of(ls[i])
            });
        }
    }
}

/// Every machine line the reader accepts is well formed for a unit: its
/// fields fit, and its annotation names a well-formed label.
pub proof fn lemma_parse_machine_line_wf(s: Seq<u8>, line_no: usize)
    ensures
        spec_parse_machine_line(s, line_no) matches Ok(Some(p))
            ==> crate::machine::line_unit_wf(p),
{
    let i = spec_skip_spaces(s, 0);
    lemma_skip_spaces(s, 0);
    if !(i >= s.len() || s[i] == 0x3B) && is_hex4_at(s, i) {
        let w1 = spec_hex4_value(s, i);
        if w1 < 0x8000 {
            let j = i + 4;
            if j < s.len() && is_space(s[j]) {
                let k = spec_skip_spaces(s, j);
                lemma_skip_spaces(s, j);
                if is_hex4_at(s, k) {
                    let w2 = spec_hex4_value(s, k);
                    assert(w2 / 0x1000 < 0x10 && w2 % 0x1000 < 0x1000) by (bit_vector);
                    assert(w1 % 0x1000 < 0x1000) by (bit_vector);
                    let m = spec_skip_spaces(s, k + 4);
                    lemma_skip_spaces(s, k + 4);
                    if !(m < s.len() && s[m] != 0x3B) {
                        if m < s.len() {
                            crate::parser::lemma_parse_line_wf(s, m + 1, line_no);
                        }
                    }
                }
            }
        }
    }
}

/// Every line of a parsed object text is well formed for a unit.
pub proof fn lemma_parse_machine_wf(s: Seq<u8>, i: int, line_no: usize)
    requires
        0 <= i <= s.len(),
    ensures
        spec_parse_machine(s, i, line_no) matches Ok(ls)
            ==> forall|j: int| 0 <= j < ls.len()
                ==> crate::machine::line_unit_wf(#[trigger] ls[j]),
    decreases s.len() - i,
{
    let sl = line_slice(s, i);
    lemma_line_end(s, i);
    lemma_parse_machine_line_wf(sl, line_no);
    match spec_parse_machine_line(sl, line_no) {
        Err(_) => {}
        Ok(opt) => {
            let e = spec_line_end(s, i);
            if e < s.len() {
                lemma_parse_machine_wf(s, e + 1, (line_no + 1) as usize);
                match spec_parse_machine(s, e + 1, (line_no + 1) as usize) {
                    Err(_) => {}
                    Ok(rest) => {
                        match opt {
                            Some(l) => {
                                let ls = seq![l] + rest;
                                assert(forall|j: int| 1 <= j < ls.len()
                                    ==> #[trigger] ls[j] == rest[j - 1]);
                            }
                            None => {}
                        }
                    }
                }
            }
        }
    }
}

} // verus!
