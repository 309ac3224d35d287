use mvn::types::{Instruction, Label, NormalMneumonic, PositionalMneumonic, RelationalMneumonic};
use mvn::Position;

fn normal_mneumonics() -> [NormalMneumonic; 17] {
    [
        NormalMneumonic::Jump,
        NormalMneumonic::JumpIfZero,
        NormalMneumonic::JumpIfNegative,
        NormalMneumonic::LoadValue,
        NormalMneumonic::Add,
        NormalMneumonic::Subtract,
        NormalMneumonic::Multiply,
        NormalMneumonic::Divide,
        NormalMneumonic::Load,
        NormalMneumonic::Memory,
        NormalMneumonic::Subroutine,
        NormalMneumonic::ReturnFromSubrotine,
        NormalMneumonic::HaltMachine,
        NormalMneumonic::GetData,
        NormalMneumonic::PutData,
        NormalMneumonic::OperatingSystem,
        NormalMneumonic::SetConstant,
    ]
}

fn positional_mneumonics() -> [PositionalMneumonic; 4] {
    [
        PositionalMneumonic::SetAbsoluteOrigin,
        PositionalMneumonic::SetRelocatableOrigin,
        PositionalMneumonic::ReserveMemory,
        PositionalMneumonic::SetEnd,
    ]
}

fn relational_mneumonics() -> [RelationalMneumonic; 2] {
    [RelationalMneumonic::Export, RelationalMneumonic::Import]
}

#[test]
fn should_parse_label() {
    let inputs: [&[u8]; 2] = [b"VAL_A", b"V1"];
    for input in inputs.into_iter() {
        let output = Label::new(input.to_vec());
        assert_eq!(
            Label::parse(&input.to_vec(), Position::new(1, 1)).unwrap(),
            output,
        );
    }
    assert!(Label::parse(&b"1V".to_vec(), Position::new(1, 1)).is_err());
}

#[test]
fn should_not_parse_normal_mneumonic() {
    for mneumonic in normal_mneumonics().into_iter() {
        let spelling = Instruction::Normal(mneumonic).spelling();
        assert!(Label::parse(&spelling, Position::new(1, 1)).is_err());
    }
}

#[test]
fn should_not_parse_positional_mneumonic() {
    for mneumonic in positional_mneumonics().into_iter() {
        let spelling = Instruction::Positional(mneumonic).spelling();
        assert!(Label::parse(&spelling, Position::new(1, 1)).is_err());
    }
}

#[test]
fn should_not_parse_relational_mneumonic() {
    for mneumonic in relational_mneumonics().into_iter() {
        let spelling = Instruction::Relational(mneumonic).spelling();
        assert!(Label::parse(&spelling, Position::new(1, 1)).is_err());
    }
}
