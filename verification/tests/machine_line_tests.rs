use mvn::machine::{AddressedLine, MachineAddress, MachineAddressProperties, Operation};
use mvn::types::{Instruction, Label, Line, Operand, RelationalMneumonic};
use mvn::{Position, Token};

#[test]
fn should_parse_lines_with_varying_spacing() {
    let inputs_positions: Vec<(&[u8], usize)> = vec![
        (b"0000 0000", 6),
        (b"0000  0000", 7),
        (b"0000\t0000", 6),
    ];
    for (input, position) in inputs_positions {
        assert_eq!(
            AddressedLine::parse_machine_code(&input.to_vec(), 1)
                .unwrap()
                .unwrap(),
            AddressedLine::new(
                Token::new(
                    Position::new(1, 1),
                    MachineAddress::new(MachineAddressProperties::new(false, false, false), 0),
                ),
                Operation::new(
                    Token::new(Position::new(1, position), 0u8),
                    Token::new(Position::new(1, position + 1), 0u16),
                ),
                None,
            )
        )
    }
}

#[test]
fn should_parse_lines_with_relational_annotations() {
    let inputs_outputs: Vec<(&[u8], (usize, RelationalMneumonic, &[u8]))> = vec![
        (b"0000 0000 ; > FOO", (13, RelationalMneumonic::Export, b"FOO")),
        (b"0000 0000; < BAR", (12, RelationalMneumonic::Import, b"BAR")),
        (b"0000 0000 ;> BAZ", (12, RelationalMneumonic::Export, b"BAZ")),
        (b"0000 0000;< FOOBAR", (11, RelationalMneumonic::Import, b"FOOBAR")),
    ];
    for (input, (position, mneumonic, label)) in inputs_outputs {
        let relational_annotation = Some(Line::new(
            None,
            mvn::types::Operation::new(
                Token::new(Position::new(1, position), Instruction::Relational(mneumonic)),
                Token::new(
                    Position::new(1, position + 2),
                    Operand::new_symbolic(Label::new(label.to_vec())),
                ),
            ),
        ));
        assert_eq!(
            AddressedLine::parse_machine_code(&input.to_vec(), 1)
                .unwrap()
                .unwrap(),
            AddressedLine::new(
                Token::new(
                    Position::new(1, 1),
                    MachineAddress::new(MachineAddressProperties::new(false, false, false), 0),
                ),
                Operation::new(
                    Token::new(Position::new(1, 6), 0u8),
                    Token::new(Position::new(1, 7), 0u16),
                ),
                relational_annotation,
            )
        )
    }
}

#[test]
fn non_relational_comments_should_not_lead_to_relational_annotations() {
    let inputs: Vec<&[u8]> = vec![
        b"0000 0000 ; Foo bar",
        b"0000 0000 ; K /0",
        b"0000 0000 ; K /0 ; Nested comments",
        b"0000 0000 ; K ZERO ",
        b"0000 0000 ; XX FOOBAR",
    ];
    for input in inputs {
        assert_eq!(
            AddressedLine::parse_machine_code(&input.to_vec(), 1)
                .unwrap()
                .unwrap(),
            AddressedLine::new(
                Token::new(
                    Position::new(1, 1),
                    MachineAddress::new(MachineAddressProperties::new(false, false, false), 0),
                ),
                Operation::new(
                    Token::new(Position::new(1, 6), 0u8),
                    Token::new(Position::new(1, 7), 0u16),
                ),
                None,
            )
        )
    }
}
