use mvn::errors::ErrorKind;
use mvn::machine::Relocate;
use mvn::printer::print;
use mvn::{assembler, linker, relocator, Position};

fn assemble_text(src: &[u8]) -> Vec<u8> {
    let lines = assembler::process(&src.to_vec()).unwrap();
    print(&lines)
}

#[test]
fn linked_program() {
    let program: &[u8] = b"0000 0004 ;         JP  MAIN\n\
0002 0000 ; RESULT  $   /1\n\
0004 3003 ; MAIN    LV  /3\n\
2006 A110 ;         SC  ADD_TWO\n\
000A C000 ;         HM  /0\n\
000C 0000 ; # MAIN\n\
000E 0000 ;         &   /100\n\
410E 0002 ; TWO     K   /2\n\
4110 0000 ; ADD_TWO $   /1\n\
6112 410E ;         AD  TWO\n\
4114 9002 ;         MM  RESULT\n\
6116 B110 ;         RS  ADD_TWO\n";
    let processor_output = relocator::process(&program.to_vec(), 0x10);
    assert!(processor_output.is_ok());
}

#[test]
fn minimal_assemble() {
    // MAIN lives in a relocatable segment, so the word is line-relocatable
    // and its operand is relocatable too: tag nibble 3
    let out = assemble_text(b"& /0\nMAIN JP MAIN\n#\n");
    assert_eq!(out, b"3000 0000\n".to_vec());
}

#[test]
fn constant_with_label() {
    let out = assemble_text(b"& /0\nX K /5\n#\n");
    assert_eq!(out, b"1000 F005\n".to_vec());
}

#[test]
fn absolute_origin_not_tagged() {
    let out = assemble_text(b"@ /100\nHM /0\n#\n");
    assert_eq!(out, b"0100 C000\n".to_vec());
}

#[test]
fn reserved_words_and_symbolic_operand() {
    let out = assemble_text(b"& /0\nX $ /2\nJP X\n#\n");
    assert_eq!(out, b"1000 0000\n1002 0000\n3004 0000\n".to_vec());
}

#[test]
fn decimal_operand() {
    let out = assemble_text(b"& /0\nLV 10\n#\n");
    assert_eq!(out, b"1000 300A\n".to_vec());
}

#[test]
fn export_annotation_emitted() {
    let out = assemble_text(b"& /0\n> FOO\nFOO K /1\n#\n");
    assert_eq!(out, b"1000 F001 ; > FOO\n".to_vec());
}

#[test]
fn import_annotation_emitted() {
    let out = assemble_text(b"& /0\nJP FOO\n< FOO\n#\n");
    assert_eq!(out, b"5000 0000 ; < FOO\n".to_vec());
}

#[test]
fn duplicate_label_fails() {
    let src: &[u8] = b"& /0\nX JP X\nX HM /0\n";
    let err = assembler::process(&src.to_vec()).unwrap_err();
    assert_eq!(err.kind, ErrorKind::DuplicateLabel);
    assert_eq!(err.position, Position::new(3, 1));
}

#[test]
fn unresolved_symbol_fails() {
    let err = assembler::process(&b"& /0\nJP FOO\n#\n".to_vec()).unwrap_err();
    assert_eq!(err.kind, ErrorKind::UnresolvedSymbol);
}

#[test]
fn content_after_end_fails() {
    let err = assembler::process(&b"#\nJP /0\n".to_vec()).unwrap_err();
    assert_eq!(err.kind, ErrorKind::EndAfterContent);
}

#[test]
fn bad_label_fails() {
    let err = assembler::process(&b"1V JP /0\n".to_vec()).unwrap_err();
    assert_eq!(err.kind, ErrorKind::BadLabel);
}

#[test]
fn unknown_mnemonic_fails() {
    let err = assembler::process(&b"FOO BAR /0\n".to_vec()).unwrap_err();
    assert_eq!(err.kind, ErrorKind::UnknownMnemonic);
}

#[test]
fn empty_hex_literal_fails() {
    let err = assembler::process(&b"JP /\n".to_vec()).unwrap_err();
    assert_eq!(err.kind, ErrorKind::LexError);
}

#[test]
fn mnemonic_as_operand_fails() {
    let err = assembler::process(&b"JP JP\n".to_vec()).unwrap_err();
    assert_eq!(err.kind, ErrorKind::ParseError);
}

#[test]
fn constant_too_wide_fails() {
    let err = assembler::process(&b"K /FFFF\n".to_vec()).unwrap_err();
    assert_eq!(err.kind, ErrorKind::OverflowError);
}

#[test]
fn symbolic_constant_fails() {
    let err = assembler::process(&b"K FOO\n".to_vec()).unwrap_err();
    assert_eq!(err.kind, ErrorKind::ParseError);
}

#[test]
fn relocate_shifts_tagged_fields_only() {
    let out = relocator::process(&b"0004 3003\n2006 A110\n".to_vec(), 0x10).unwrap();
    assert_eq!(print(&out), b"0004 3003\n0006 A120\n".to_vec());
}

#[test]
fn relocate_at_base_zero_only_clears_tags() {
    let out = relocator::process(&b"1002 4005 ; > FOO\n".to_vec(), 0).unwrap();
    assert_eq!(print(&out), b"0002 4005\n".to_vec());
}

#[test]
fn relocation_is_additive() {
    // the linker's tag-preserving shift by one base, then a relocation by
    // another, equals one relocation by the sum
    let src: &[u8] = b"3002 0004\n";
    let unit = mvn::mcparser::parse_machine_program(&src.to_vec()).unwrap();
    let shifted: Vec<mvn::machine::AddressedLine> =
        unit.iter().map(|l| l.duplicate().shifted(0x10)).collect();
    let once = relocator::relocate_image(&shifted, 0x20).unwrap();
    let both = relocator::relocate_image(&unit, 0x30).unwrap();
    assert_eq!(print(&once), print(&both));
    assert_eq!(print(&once), b"0032 0034\n".to_vec());
}

#[test]
fn relocate_refuses_pending_import() {
    let assembled = assemble_text(b"& /0\nJP FOO\n< FOO\n#\n");
    let err = relocator::process(&assembled, 0x10).unwrap_err();
    assert_eq!(err.kind, ErrorKind::UnresolvedImport);
}

#[test]
fn relocate_overflow_fails() {
    let err = relocator::process(&b"1FFF 0000\n".to_vec(), 0xF001).unwrap_err();
    assert_eq!(err.kind, ErrorKind::OverflowError);
    let err = relocator::process(&b"2000 0FFF\n".to_vec(), 0x10).unwrap_err();
    assert_eq!(err.kind, ErrorKind::OverflowError);
}

#[test]
fn link_resolves_import_against_export() {
    // one unit exports LBL, the next imports it: the import line takes the
    // exported address and its relocatability, as if the definition had
    // been written in by hand
    let unit1 = assemble_text(b"& /0\n> LBL\nLBL K /5\n#\n");
    let unit2 = assemble_text(b"& /0\nJP LBL\n< LBL\n#\n");
    assert_eq!(unit1, b"1000 F005 ; > LBL\n".to_vec());
    assert_eq!(unit2, b"5000 0000 ; < LBL\n".to_vec());
    let out = linker::process(&vec![unit1, unit2]).unwrap();
    assert_eq!(print(&out), b"1000 F005 ; > LBL\n3002 0000\n".to_vec());
}

#[test]
fn link_self_import_resolves_locally() {
    let unit = assemble_text(b"& /0\n> LBL\nLBL JP FOO\n< FOO\nFOO HM /0\n#\n");
    let out = linker::process(&vec![unit]).unwrap();
    assert_eq!(print(&out), b"3000 0002 ; > LBL\n1002 C000\n".to_vec());
}

#[test]
fn link_duplicate_export_fails() {
    let unit1 = assemble_text(b"& /0\n> LBL\nLBL K /1\n#\n");
    let unit2 = assemble_text(b"& /0\n> LBL\nLBL K /2\n#\n");
    let err = linker::process(&vec![unit1, unit2]).unwrap_err();
    assert_eq!(err.kind, ErrorKind::DuplicateExport);
}

#[test]
fn link_unresolved_import_fails() {
    let unit = assemble_text(b"& /0\nJP FOO\n< FOO\n#\n");
    let err = linker::process(&vec![unit]).unwrap_err();
    assert_eq!(err.kind, ErrorKind::UnresolvedImport);
}

#[test]
fn link_address_collision_fails() {
    let unit1 = assemble_text(b"@ /100\nHM /0\n#\n");
    let unit2 = assemble_text(b"@ /100\nHM /0\n#\n");
    let err = linker::process(&vec![unit1, unit2]).unwrap_err();
    assert_eq!(err.kind, ErrorKind::AddressCollision);
    assert_eq!(err.address, Some(0x100));
}

#[test]
fn link_lays_units_end_to_end() {
    let unit1 = assemble_text(b"& /0\nK /1\nK /2\n#\n");
    let unit2 = assemble_text(b"& /0\nK /3\n#\n");
    let out = linker::process(&vec![unit1, unit2]).unwrap();
    assert_eq!(
        print(&out),
        b"1000 F001\n1002 F002\n1004 F003\n".to_vec(),
    );
}

#[test]
fn assembled_listing_reparses_identically() {
    // round trip: assembled, printed, re-parsed by the linker's reader
    let src: &[u8] = b"& /0\n> LBL\nLBL K /5\nJP FOO\n< FOO\nHM /0\n#\n";
    let lines = assembler::process(&src.to_vec()).unwrap();
    let text = print(&lines);
    let reparsed = mvn::mcparser::parse_machine_program(&text).unwrap();
    assert_eq!(print(&reparsed), text);
    assert_eq!(reparsed.len(), lines.len());
}

#[test]
fn identical_input_gives_identical_output() {
    let src: &[u8] = b"& /0\nMAIN JP MAIN\nK /5\n#\n";
    let first = assemble_text(src);
    let second = assemble_text(src);
    assert_eq!(first, second);
}

#[test]
fn line_relocate_shifts_only_tagged_fields() {
    // the tag-preserving shift of one line: the operand rises per its tag,
    // the address stays per its tag, the tags themselves are kept
    let line = mvn::machine::AddressedLine::parse_machine_code(&b"2006 A110".to_vec(), 1)
        .unwrap()
        .unwrap();
    let shifted = line.clone().relocate(0x10);
    assert_eq!(shifted.address.value.position, 0x006);
    assert_eq!(shifted.operation.operand.value, 0x120);
    assert_eq!(shifted.address.value.properties, line.address.value.properties);
    assert_eq!(shifted.operation.instruction, line.operation.instruction);
    assert_eq!(shifted.relational_annotation, None);
}

#[test]
fn line_relocate_at_base_zero_is_identity() {
    let line = mvn::machine::AddressedLine::parse_machine_code(
        &b"3002 0004 ; > FOO".to_vec(), 1,
    )
    .unwrap()
    .unwrap();
    let shifted = line.clone().relocate(0);
    assert_eq!(shifted, line);
}
