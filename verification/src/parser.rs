use vstd::prelude::*;
use crate::{Position, Token};
use crate::errors::{ErrorKind, MvnError, ErrV, err_at};
use crate::types::{
    Instruction, Label, Line, LineV, Operand, OperandV, Operation, OperationV,
    NormalMneumonic, PositionalMneumonic, RelationalMneumonic,
    is_digit, is_identifier, is_label, spec_mnemonic_of,
};

verus! {

/// Whether a byte separates tokens: a space or a tab.
pub open spec fn is_space(b: u8) -> bool {
    b == 0x20 || b == 0x09
}

/// Whether a byte can stand inside a token: anything but a separator or the
/// comment mark.
pub open spec fn is_token_byte(b: u8) -> bool {
    !is_space(b) && b != 0x3B
}

/// The first index at or after `i` that holds no separator.
pub open spec fn spec_skip_spaces(s: Seq<u8>, i: int) -> int
    recommends
        0 <= i <= s.len(),
    decreases s.len() - i,
{
    if i < s.len() && is_space(s[i]) {
        spec_skip_spaces(s, i + 1)
    } else {
        i
    }
}

/// Where skipping separators lands: between `i` and the length, on a
/// non-separator if anywhere short of the end.
pub proof fn lemma_skip_spaces(s: Seq<u8>, i: int)
    requires
        0 <= i <= s.len(),
    ensures
        i <= spec_skip_spaces(s, i) <= s.len(),
        spec_skip_spaces(s, i) < s.len() ==> !is_space(s[spec_skip_spaces(s, i)]),
    decreases s.len() - i,
{
    if i < s.len() && is_space(s[i]) {
        lemma_skip_spaces(s, i + 1);
    }
}

/// The first index at or after `i` that ends the token there.
pub open spec fn spec_token_end(s: Seq<u8>, i: int) -> int
    recommends
        0 <= i <= s.len(),
    decreases s.len() - i,
{
    if i < s.len() && is_token_byte(s[i]) {
        spec_token_end(s, i + 1)
    } else {
        i
    }
}

/// Where a token ends: at or after its start, at the length at most, and
/// past the start wherever the start byte belongs to a token.
pub proof fn lemma_token_end(s: Seq<u8>, i: int)
    requires
        0 <= i <= s.len(),
    ensures
        i <= spec_token_end(s, i) <= s.len(),
        spec_token_end(s, i) < s.len() ==> !is_token_byte(s[spec_token_end(s, i)]),
        forall|j: int| i <= j < spec_token_end(s, i) ==> is_token_byte(#[trigger] s[j]),
        i < s.len() && is_token_byte(s[i]) ==> spec_token_end(s, i) > i,
    decreases s.len() - i,
{
    if i < s.len() && is_token_byte(s[i]) {
        lemma_token_end(s, i + 1);
    }
}

/// Whether a byte is an uppercase or lowercase hex digit.
pub open spec fn is_hex_byte(b: u8) -> bool {
    is_digit(b) || (0x41 <= b && b <= 0x46) || (0x61 <= b && b <= 0x66)
}

/// The value of a hex digit byte.
pub open spec fn hex_val(b: u8) -> u32
    recommends
        is_hex_byte(b),
{
    if is_digit(b) {
        (b - 0x30) as u32
    } else if b <= 0x46 {
        (b - 0x37) as u32
    } else {
        (b - 0x57) as u32
    }
}

/// The value of the hex digits of `t` from `i` on, folded onto `acc`;
/// nothing if a byte is no hex digit or the value leaves 32 bits.
pub open spec fn spec_hex_value(t: Seq<u8>, i: int, acc: u32) -> Option<u32>
    recommends
        0 <= i <= t.len(),
    decreases t.len() - i,
{
    if i >= t.len() {
        Some(acc)
    } else if !is_hex_byte(t[i]) {
        None
    } else if acc > 0x0FFF_FFFF {
        None
    } else {
        spec_hex_value(t, i + 1, ((acc * 16) + hex_val(t[i])) as u32)
    }
}

/// The value of a `/`-prefixed hex literal's digits.
pub open spec fn spec_parse_hex_token(t: Seq<u8>) -> Option<u32> {
    if t.len() == 0 {
        None
    } else {
        spec_hex_value(t, 0, 0)
    }
}

/// The value of the decimal digits of `t` from `i` on, folded onto `acc`;
/// nothing if a byte is no digit or the value leaves 32 bits.
pub open spec fn spec_dec_value(t: Seq<u8>, i: int, acc: u32) -> Option<u32>
    recommends
        0 <= i <= t.len(),
    decreases t.len() - i,
{
    if i >= t.len() {
        Some(acc)
    } else if !is_digit(t[i]) {
        None
    } else if acc > 429496729 || (acc == 429496729 && t[i] > 0x35) {
        None
    } else {
        spec_dec_value(t, i + 1, ((acc * 10) + (t[i] - 0x30)) as u32)
    }
}

/// Whether every byte of a token is a decimal digit.
pub open spec fn all_digits(t: Seq<u8>) -> bool {
    forall|i: int| 0 <= i < t.len() ==> is_digit(#[trigger] t[i])
}

/// Whether a token holds a byte outside seven-bit ASCII.
pub open spec fn has_non_ascii(t: Seq<u8>) -> bool {
    exists|i: int| 0 <= i < t.len() && #[trigger] t[i] >= 0x80
}

/// What a token is: a mnemonic, an identifier, a number, or an error.
#[derive(Clone, Copy, Debug, PartialEq, Eq, Structural)]
pub enum TokenClass {
    Mnemonic(Instruction),
    Ident,
    Number(u32),
    Bad(ErrorKind),
}

/// The class of a token: mnemonics take precedence over identifiers, a
/// leading `/` opens a hex literal, a leading digit a decimal one. A token
/// that starts with a digit but is no number, or that holds a byte outside
/// ASCII, is a bad label; any other failure is lexical.
pub open spec fn spec_classify(t: Seq<u8>) -> TokenClass
    recommends
        t.len() > 0,
{
    match spec_mnemonic_of(t) {
        Some(m) => TokenClass::Mnemonic(m),
        None => {
            if is_identifier(t) {
                TokenClass::Ident
            } else if t.len() > 0 && t[0] == 0x2F {
                match spec_parse_hex_token(t.skip(1)) {
                    Some(v) => TokenClass::Number(v),
                    None => TokenClass::Bad(ErrorKind::LexError),
                }
            } else if t.len() > 0 && is_digit(t[0]) {
                if all_digits(t) {
                    match spec_dec_value(t, 0, 0) {
                        Some(v) => TokenClass::Number(v),
                        None => TokenClass::Bad(ErrorKind::LexError),
                    }
                } else {
                    TokenClass::Bad(ErrorKind::BadLabel)
                }
            } else if has_non_ascii(t) {
                TokenClass::Bad(ErrorKind::BadLabel)
            } else {
                TokenClass::Bad(ErrorKind::LexError)
            }
        }
    }
}

/// The position of the byte at index `i` of line `line_no`: columns are
/// 1-based.
pub open spec fn pos_at(line_no: usize, i: int) -> Position
    recommends
        0 <= i,
        i + 1 <= usize::MAX,
{
    Position { line: line_no, column: (i + 1) as usize }
}

/// What parsing the rest of a line after its operand yields: the line, if
/// only separators or a comment remain; an error otherwise.
pub open spec fn spec_parse_line_close(s: Seq<u8>, j: int, line_no: usize, line: LineV)
    -> Result<Option<LineV>, ErrV>
    recommends
        0 <= j <= s.len(),
        s.len() + 1 <= usize::MAX,
{
    let k = spec_skip_spaces(s, j);
    if k >= s.len() || s[k] == 0x3B {
        Ok(Some(line))
    } else {
        Err(err_at(ErrorKind::ParseError, pos_at(line_no, k)))
    }
}

/// What parsing an operand and the close of the line yields. A missing
/// operand stands for the literal zero.
pub open spec fn spec_parse_operand(
    s: Seq<u8>,
    j: int,
    line_no: usize,
    label: Option<crate::TokenV<Seq<u8>>>,
    m: crate::TokenV<Instruction>,
) -> Result<Option<LineV>, ErrV>
    recommends
        0 <= j <= s.len(),
        s.len() + 1 <= usize::MAX,
{
    let k = spec_skip_spaces(s, j);
    if k >= s.len() || s[k] == 0x3B {
        Ok(Some(LineV {
            label,
            operation: OperationV {
                instruction: m,
                operand: crate::TokenV { position: pos_at(line_no, k), value: OperandV::Numeric(0) },
            },
        }))
    } else {
        let e = spec_token_end(s, k);
        let t = s.subrange(k, e);
        match spec_classify(t) {
            TokenClass::Ident => spec_parse_line_close(s, e, line_no, LineV {
                label,
                operation: OperationV {
                    instruction: m,
                    operand: crate::TokenV {
                        position: pos_at(line_no, k),
                        value: OperandV::Symbolic(t),
                    },
                },
            }),
            TokenClass::Number(v) => spec_parse_line_close(s, e, line_no, LineV {
                label,
                operation: OperationV {
                    instruction: m,
                    operand: crate::TokenV {
                        position: pos_at(line_no, k),
                        value: OperandV::Numeric(v),
                    },
                },
            }),
            TokenClass::Mnemonic(_) => Err(err_at(ErrorKind::ParseError, pos_at(line_no, k))),
            TokenClass::Bad(kind) => Err(err_at(kind, pos_at(line_no, k))),
        }
    }
}

/// What parsing one source line from index `start` yields: nothing for a
/// blank or comment-only line, a line of the grammar, or the first error.
/// A leading identifier is a label exactly when a mnemonic follows it.
pub open spec fn spec_parse_line_at(s: Seq<u8>, start: int, line_no: usize)
    -> Result<Option<LineV>, ErrV>
    recommends
        0 <= start <= s.len(),
        s.len() + 1 <= usize::MAX,
{
    let i = spec_skip_spaces(s, start);
    if i >= s.len() || s[i] == 0x3B {
        Ok(None)
    } else {
        let e1 = spec_token_end(s, i);
        let t1 = s.subrange(i, e1);
        match spec_classify(t1) {
            TokenClass::Mnemonic(m) => spec_parse_operand(
                s, e1, line_no, None,
                crate::TokenV { position: pos_at(line_no, i), value: m },
            ),
            TokenClass::Ident => {
                let j = spec_skip_spaces(s, e1);
                if j >= s.len() || s[j] == 0x3B {
                    Err(err_at(ErrorKind::ParseError, pos_at(line_no, j)))
                } else {
                    let e2 = spec_token_end(s, j);
                    let t2 = s.subrange(j, e2);
                    match spec_classify(t2) {
                        TokenClass::Mnemonic(m) => spec_parse_operand(
                            s, e2, line_no,
                            Some(crate::TokenV { position: pos_at(line_no, i), value: t1 }),
                            crate::TokenV { position: pos_at(line_no, j), value: m },
                        ),
                        TokenClass::Ident => Err(err_at(
                            ErrorKind::UnknownMnemonic, pos_at(line_no, j),
                        )),
                        TokenClass::Number(_) => Err(err_at(
                            ErrorKind::ParseError, pos_at(line_no, j),
                        )),
                        TokenClass::Bad(kind) => Err(err_at(kind, pos_at(line_no, j))),
                    }
                }
            }
            TokenClass::Number(_) => Err(err_at(ErrorKind::ParseError, pos_at(line_no, i))),
            TokenClass::Bad(kind) => Err(err_at(kind, pos_at(line_no, i))),
        }
    }
}

/// The model of a parse result, positions of tokens erased.
pub open spec fn res_line_view(r: Result<Option<Line>, MvnError>) -> Result<Option<LineV>, ErrV> {
    match r {
        Ok(Some(l)) => Ok(Some(l@)),
        Ok(None) => Ok(None),
        Err(e) => Err(e@),
    }
}

/// The first non-separator index at or after `i`.
pub fn skip_spaces(s: &Vec<u8>, i: usize) -> (r: usize)
    requires
        i <= s@.len(),
    ensures
        r == spec_skip_spaces(s@, i as int),
        i <= r <= s@.len(),
{
    let mut j: usize = i;
    while j < s.len() && (s[j] == 0x20 || s[j] == 0x09)
        invariant
            i <= j <= s@.len(),
            spec_skip_spaces(s@, i as int) == spec_skip_spaces(s@, j as int),
        decreases s@.len() - j,
    {
        j += 1;
    }
    j
}

/// The end of the token that starts at `i`.
pub fn token_end(s: &Vec<u8>, i: usize) -> (r: usize)
    requires
        i <= s@.len(),
    ensures
        r == spec_token_end(s@, i as int),
        i <= r <= s@.len(),
{
    let mut j: usize = i;
    while j < s.len() && !(s[j] == 0x20 || s[j] == 0x09 || s[j] == 0x3B)
        invariant
            i <= j <= s@.len(),
            spec_token_end(s@, i as int) == spec_token_end(s@, j as int),
        decreases s@.len() - j,
    {
        j += 1;
    }
    j
}

/// A copy of the bytes of `s` between `i` and `j`.
pub fn copy_range(s: &Vec<u8>, i: usize, j: usize) -> (r: Vec<u8>)
    requires
        i <= j <= s@.len(),
    ensures
        r@ == s@.subrange(i as int, j as int),
{
    let mut out: Vec<u8> = Vec::new();
    let mut k: usize = i;
    while k < j
        invariant
            i <= k <= j <= s@.len(),
            out@ == s@.subrange(i as int, k as int),
        decreases j - k,
    {
        out.push(s[k]);
        k += 1;
        proof {
            assert(out@ =~= s@.subrange(i as int, k as int));
        }
    }
    out
}

/// The mnemonic a token spells, if any.
pub fn token_to_mnemonic(t: &Vec<u8>) -> (r: Option<Instruction>)
    ensures
        r == spec_mnemonic_of(t@),
{
    if t.len() == 1 {
        let b = t[0];
        proof {
            assert(t@ =~= seq![t@[0]]);
        }
        if b == 0x4B { Some(Instruction::Normal(NormalMneumonic::SetConstant)) }
        else if b == 0x40 { Some(Instruction::Positional(PositionalMneumonic::SetAbsoluteOrigin)) }
        else if b == 0x26 { Some(Instruction::Positional(PositionalMneumonic::SetRelocatableOrigin)) }
        else if b == 0x24 { Some(Instruction::Positional(PositionalMneumonic::ReserveMemory)) }
        else if b == 0x23 { Some(Instruction::Positional(PositionalMneumonic::SetEnd)) }
        else if b == 0x3E { Some(Instruction::Relational(RelationalMneumonic::Export)) }
        else if b == 0x3C { Some(Instruction::Relational(RelationalMneumonic::Import)) }
        else { None }
    } else if t.len() == 2 {
        let a = t[0];
        let b = t[1];
        proof {
            assert(t@ =~= seq![t@[0], t@[1]]);
            assert(forall|x: u8, y: u8| t@ == seq![x, y] <==> (a == x && b == y)) by {
                assert forall|x: u8, y: u8| t@ == seq![x, y] <==> (a == x && b == y) by {
                    if a == x && b == y {
                        assert(t@ =~= seq![x, y]);
                    }
                }
            }
        }
        if a == 0x4A && b == 0x50 { Some(Instruction::Normal(NormalMneumonic::Jump)) }
        else if a == 0x4A && b == 0x5A { Some(Instruction::Normal(NormalMneumonic::JumpIfZero)) }
        else if a == 0x4A && b == 0x4E { Some(Instruction::Normal(NormalMneumonic::JumpIfNegative)) }
        else if a == 0x4C && b == 0x56 { Some(Instruction::Normal(NormalMneumonic::LoadValue)) }
        else if a == 0x41 && b == 0x44 { Some(Instruction::Normal(NormalMneumonic::Add)) }
        else if a == 0x53 && b == 0x42 { Some(Instruction::Normal(NormalMneumonic::Subtract)) }
        else if a == 0x4D && b == 0x4C { Some(Instruction::Normal(NormalMneumonic::Multiply)) }
        else if a == 0x44 && b == 0x56 { Some(Instruction::Normal(NormalMneumonic::Divide)) }
        else if a == 0x4C && b == 0x44 { Some(Instruction::Normal(NormalMneumonic::Load)) }
        else if a == 0x4D && b == 0x4D { Some(Instruction::Normal(NormalMneumonic::Memory)) }
        else if a == 0x53 && b == 0x43 { Some(Instruction::Normal(NormalMneumonic::Subroutine)) }
        else if a == 0x52 && b == 0x53 { Some(Instruction::Normal(NormalMneumonic::ReturnFromSubrotine)) }
        else if a == 0x48 && b == 0x4D { Some(Instruction::Normal(NormalMneumonic::HaltMachine)) }
        else if a == 0x47 && b == 0x44 { Some(Instruction::Normal(NormalMneumonic::GetData)) }
        else if a == 0x50 && b == 0x44 { Some(Instruction::Normal(NormalMneumonic::PutData)) }
        else if a == 0x4F && b == 0x53 { Some(Instruction::Normal(NormalMneumonic::OperatingSystem)) }
        else { None }
    } else {
        None
    }
}

/// Whether `t` is an identifier.
pub fn check_identifier(t: &Vec<u8>) -> (r: bool)
    ensures
        r == is_identifier(t@),
{
    if t.len() == 0 {
        return false;
    }
    let b0 = t[0];
    let start_ok = (0x41 <= b0 && b0 <= 0x5A) || (0x61 <= b0 && b0 <= 0x7A) || b0 == 0x5F;
    if !start_ok {
        return false;
    }
    let mut k: usize = 0;
    while k < t.len()
        invariant
            k <= t@.len(),
            forall|j: int| 0 <= j < k ==> crate::types::is_ident_char(#[trigger] t@[j]),
        decreases t@.len() - k,
    {
        let b = t[k];
        if !((0x41 <= b && b <= 0x5A) || (0x61 <= b && b <= 0x7A)
            || (0x30 <= b && b <= 0x39) || b == 0x5F)
        {
            return false;
        }
        k += 1;
    }
    true
}

/// The value of the hex digits of `t` from `start` on.
pub fn parse_hex_value(t: &Vec<u8>, start: usize) -> (r: Option<u32>)
    requires
        start <= t@.len(),
    ensures
        r == spec_hex_value(t@, start as int, 0),
{
    let mut acc: u32 = 0;
    let mut k: usize = start;
    while k < t.len()
        invariant
            start <= k <= t@.len(),
            spec_hex_value(t@, start as int, 0) == spec_hex_value(t@, k as int, acc),
        decreases t@.len() - k,
    {
        let b = t[k];
        let hex_ok = (0x30 <= b && b <= 0x39) || (0x41 <= b && b <= 0x46)
            || (0x61 <= b && b <= 0x66);
        if !hex_ok {
            return None;
        }
        if acc > 0x0FFF_FFFF {
            return None;
        }
        let d: u32 = if b <= 0x39 { (b - 0x30) as u32 }
            else if b <= 0x46 { (b - 0x37) as u32 }
            else { (b - 0x57) as u32 };
        acc = acc * 16 + d;
        k += 1;
    }
    Some(acc)
}

/// The value of the decimal digits of `t` from `start` on.
pub fn parse_dec_value(t: &Vec<u8>, start: usize) -> (r: Option<u32>)
    requires
        start <= t@.len(),
    ensures
        r == spec_dec_value(t@, start as int, 0),
{
    let mut acc: u32 = 0;
    let mut k: usize = start;
    while k < t.len()
        invariant
            start <= k <= t@.len(),
            spec_dec_value(t@, start as int, 0) == spec_dec_value(t@, k as int, acc),
        decreases t@.len() - k,
    {
        let b = t[k];
        if !(0x30 <= b && b <= 0x39) {
            return None;
        }
        if acc > 429496729 || (acc == 429496729 && b > 0x35) {
            return None;
        }
        acc = acc * 10 + (b - 0x30) as u32;
        k += 1;
    }
    Some(acc)
}

/// The class of a token.
pub fn classify_token(t: &Vec<u8>) -> (r: TokenClass)
    requires
        t@.len() > 0,
    ensures
        r == spec_classify(t@),
{
    match token_to_mnemonic(t) {
        Some(m) => {
            return TokenClass::Mnemonic(m);
        }
        None => {}
    }
    if check_identifier(t) {
        return TokenClass::Ident;
    }
    let b0 = t[0];
    if b0 == 0x2F {
        if t.len() == 1 {
            proof {
                assert(t@.skip(1) =~= Seq::<u8>::empty());
            }
            return TokenClass::Bad(ErrorKind::LexError);
        }
        proof {
            assert(t@.skip(1).len() > 0);
        }
        let v = parse_hex_value(t, 1);
        proof {
            lemma_hex_value_align(t@, 1, 0);
            assert(spec_parse_hex_token(t@.skip(1)) == spec_hex_value(t@, 1, 0));
        }
        match v {
            Some(v) => {
                return TokenClass::Number(v);
            }
            None => {
                return TokenClass::Bad(ErrorKind::LexError);
            }
        }
    }
    if 0x30 <= b0 && b0 <= 0x39 {
        let mut all: bool = true;
        let mut k: usize = 0;
        while k < t.len()
            invariant
                k <= t@.len(),
                all == (forall|j: int| 0 <= j < k ==> is_digit(#[trigger] t@[j])),
            decreases t@.len() - k,
        {
            let b = t[k];
            if !(0x30 <= b && b <= 0x39) {
                all = false;
            }
            k += 1;
        }
        if all {
            match parse_dec_value(t, 0) {
                Some(v) => {
                    return TokenClass::Number(v);
                }
                None => {
                    return TokenClass::Bad(ErrorKind::LexError);
                }
            }
        } else {
            return TokenClass::Bad(ErrorKind::BadLabel);
        }
    }
    let mut k: usize = 0;
    let mut non_ascii: bool = false;
    while k < t.len()
        invariant
            k <= t@.len(),
            non_ascii == (exists|j: int| 0 <= j < k && #[trigger] t@[j] >= 0x80),
        decreases t@.len() - k,
    {
        if t[k] >= 0x80 {
            non_ascii = true;
        }
        k += 1;
    }
    if non_ascii {
        TokenClass::Bad(ErrorKind::BadLabel)
    } else {
        TokenClass::Bad(ErrorKind::LexError)
    }
}

/// Parse the close of a line: only separators or a comment may remain.
fn parse_close(s: &Vec<u8>, j: usize, line_no: usize, line: Line)
    -> (r: Result<Option<Line>, MvnError>)
    requires
        j <= s@.len(),
        s@.len() + 1 <= usize::MAX,
    ensures
        res_line_view(r) == spec_parse_line_close(s@, j as int, line_no, line@),
{
    let k = skip_spaces(s, j);
    if k >= s.len() || s[k] == 0x3B {
        Ok(Some(line))
    } else {
        Err(MvnError::at(ErrorKind::ParseError, Position::new(line_no, k + 1)))
    }
}

/// Parse the operand, if one stands there, and the close of the line.
fn parse_operand_close(
    s: &Vec<u8>,
    j: usize,
    line_no: usize,
    label: Option<Token<Label>>,
    instr: Token<Instruction>,
) -> (r: Result<Option<Line>, MvnError>)
    requires
        j <= s@.len(),
        s@.len() + 1 <= usize::MAX,
    ensures
        res_line_view(r) == spec_parse_operand(
            s@, j as int, line_no, crate::types::opt_label_view(label), instr@,
        ),
{
    let k = skip_spaces(s, j);
    if k >= s.len() || s[k] == 0x3B {
        let operand = Token::new(Position::new(line_no, k + 1), Operand::Numeric(0));
        return Ok(Some(Line { label, operation: Operation { instruction: instr, operand } }));
    }
    let e = token_end(s, k);
    proof {
        lemma_skip_spaces(s@, j as int);
        lemma_token_end(s@, k as int);
        assert(is_token_byte(s@[k as int]));
    }
    let t = copy_range(s, k, e);
    match classify_token(&t) {
        TokenClass::Ident => {
            let operand = Token::new(
                Position::new(line_no, k + 1),
                Operand::Symbolic(Label::new(t)),
            );
            parse_close(s, e, line_no, Line {
                label,
                operation: Operation { instruction: instr, operand },
            })
        }
        TokenClass::Number(v) => {
            let operand = Token::new(Position::new(line_no, k + 1), Operand::Numeric(v));
            parse_close(s, e, line_no, Line {
                label,
                operation: Operation { instruction: instr, operand },
            })
        }
        TokenClass::Mnemonic(_) => {
            Err(MvnError::at(ErrorKind::ParseError, Position::new(line_no, k + 1)))
        }
        TokenClass::Bad(kind) => {
            Err(MvnError::at(kind, Position::new(line_no, k + 1)))
        }
    }
}

/// Parse one source line from index `start`: nothing for a blank or
/// comment-only line, a line of the grammar, or the first error.
pub fn parse_line_at(s: &Vec<u8>, start: usize, line_no: usize)
    -> (r: Result<Option<Line>, MvnError>)
    requires
        start <= s@.len(),
        s@.len() + 1 <= usize::MAX,
    ensures
        res_line_view(r) == spec_parse_line_at(s@, start as int, line_no),
{
    let i = skip_spaces(s, start);
    if i >= s.len() || s[i] == 0x3B {
        return Ok(None);
    }
    let e1 = token_end(s, i);
    proof {
        lemma_skip_spaces(s@, start as int);
        lemma_token_end(s@, i as int);
        assert(is_token_byte(s@[i as int]));
    }
    let t1 = copy_range(s, i, e1);
    match classify_token(&t1) {
        TokenClass::Mnemonic(m) => {
            let instr = Token::new(Position::new(line_no, i + 1), m);
            parse_operand_close(s, e1, line_no, None, instr)
        }
        TokenClass::Ident => {
            let j = skip_spaces(s, e1);
            if j >= s.len() || s[j] == 0x3B {
                return Err(MvnError::at(ErrorKind::ParseError, Position::new(line_no, j + 1)));
            }
            let e2 = token_end(s, j);
            proof {
                lemma_skip_spaces(s@, e1 as int);
                lemma_token_end(s@, j as int);
                assert(is_token_byte(s@[j as int]));
            }
            let t2 = copy_range(s, j, e2);
            match classify_token(&t2) {
                TokenClass::Mnemonic(m) => {
                    let label = Some(Token::new(Position::new(line_no, i + 1), Label::new(t1)));
                    let instr = Token::new(Position::new(line_no, j + 1), m);
                    parse_operand_close(s, e2, line_no, label, instr)
                }
                TokenClass::Ident => {
                    Err(MvnError::at(ErrorKind::UnknownMnemonic, Position::new(line_no, j + 1)))
                }
                TokenClass::Number(_) => {
                    Err(MvnError::at(ErrorKind::ParseError, Position::new(line_no, j + 1)))
                }
                TokenClass::Bad(kind) => {
                    Err(MvnError::at(kind, Position::new(line_no, j + 1)))
                }
            }
        }
        TokenClass::Number(_) => {
            Err(MvnError::at(ErrorKind::ParseError, Position::new(line_no, i + 1)))
        }
        TokenClass::Bad(kind) => {
            Err(MvnError::at(kind, Position::new(line_no, i + 1)))
        }
    }
}

impl Label {
    /// Parse a whole token as a label: an identifier that spells no
    /// mnemonic. Anything else is a bad label.
    pub fn parse(input: &Vec<u8>, position: Position) -> (r: Result<Label, MvnError>)
        ensures
            is_label(input@) ==> (r matches Ok(l) && l@ == input@),
            !is_label(input@) ==> (r matches Err(e)
                && e@ == err_at(ErrorKind::BadLabel, position)),
    {
        match token_to_mnemonic(input) {
            Some(_) => Err(MvnError::at(ErrorKind::BadLabel, position)),
            None => {
                if check_identifier(input) {
                    let name = copy_range(input, 0, input.len());
                    proof {
                        assert(input@.subrange(0, input@.len() as int) =~= input@);
                    }
                    Ok(Label::new(name))
                } else {
                    Err(MvnError::at(ErrorKind::BadLabel, position))
                }
            }
        }
    }
}

/// The index of the newline that ends the line starting at `i`, or the
/// length where none follows.
pub open spec fn spec_line_end(s: Seq<u8>, i: int) -> int
    recommends
        0 <= i <= s.len(),
    decreases s.len() - i,
{
    if i < s.len() && s[i] != 0x0A {
        spec_line_end(s, i + 1)
    } else {
        i
    }
}

/// Where a line ends: between its start and the length.
pub proof fn lemma_line_end(s: Seq<u8>, i: int)
    requires
        0 <= i <= s.len(),
    ensures
        i <= spec_line_end(s, i) <= s.len(),
        spec_line_end(s, i) < s.len() ==> s[spec_line_end(s, i)] == 0x0A,
    decreases s.len() - i,
{
    if i < s.len() && s[i] != 0x0A {
        lemma_line_end(s, i + 1);
    }
}

/// The bytes of the line starting at `i`, any trailing carriage return
/// dropped.
pub open spec fn line_slice(s: Seq<u8>, i: int) -> Seq<u8>
    recommends
        0 <= i <= s.len(),
{
    let e = spec_line_end(s, i);
    let e2 = if e > i && s[e - 1] == 0x0D { e - 1 } else { e };
    s.subrange(i, e2)
}

/// What parsing a whole source text from index `i` as line `line_no` on
/// yields: the parsed lines in order, or the first error.
pub open spec fn spec_parse_source(s: Seq<u8>, i: int, line_no: usize)
    -> Result<Seq<LineV>, ErrV>
    recommends
        0 <= i <= s.len(),
        s.len() + 2 <= usize::MAX,
    decreases s.len() - i,
        when 0 <= i <= s.len()
        via spec_parse_source_decreases
{
    match spec_parse_line_at(line_slice(s, i), 0, line_no) {
        Err(e) => Err(e),
        Ok(opt) => {
            let e = spec_line_end(s, i);
            if e >= s.len() {
                match opt {
                    Some(l) => Ok(seq![l]),
                    None => Ok(Seq::empty()),
                }
            } else {
                match spec_parse_source(s, e + 1, (line_no + 1) as usize) {
                    Err(er) => Err(er),
                    Ok(rest) => Ok(
                        match opt {
                            Some(l) => seq![l] + rest,
                            None => rest,
                        },
                    ),
                }
            }
        }
    }
}

#[via_fn]
proof fn spec_parse_source_decreases(s: Seq<u8>, i: int, line_no: usize) {
    lemma_line_end(s, i);
}

/// The model of a vector of parsed lines.
pub open spec fn lines_v(s: Seq<Line>) -> Seq<LineV> {
    s.map_values(|l: Line| l@)
}

/// The index of the newline that ends the line starting at `i`.
pub fn line_end(s: &Vec<u8>, i: usize) -> (r: usize)
    requires
        i <= s@.len(),
    ensures
        r == spec_line_end(s@, i as int),
        i <= r <= s@.len(),
{
    let mut j: usize = i;
    while j < s.len() && s[j] != 0x0A
        invariant
            i <= j <= s@.len(),
            spec_line_end(s@, i as int) == spec_line_end(s@, j as int),
        decreases s@.len() - j,
    {
        j += 1;
    }
    j
}

/// Parse a whole source text into its lines, blank and comment-only lines
/// dropped; the first error, if any, is the result.
#[verifier::rlimit(100)]
pub fn parse_program(s: &Vec<u8>) -> (r: Result<Vec<Line>, MvnError>)
    requires
        s@.len() + 2 <= usize::MAX,
    ensures
        match r {
            Ok(v) => spec_parse_source(s@, 0, 1) == Ok::<Seq<LineV>, ErrV>(lines_v(v@)),
            Err(e) => spec_parse_source(s@, 0, 1) == Err::<Seq<LineV>, ErrV>(e@),
        },
{
    let mut out: Vec<Line> = Vec::new();
    let mut i: usize = 0;
    let mut line_no: usize = 1;
    let mut done: bool = false;
    proof {
        match spec_parse_source(s@, 0, 1) {
            Ok(rest) => {
                assert(lines_v(out@) + rest =~= rest);
                assert(lines_v(out@) =~= Seq::<LineV>::empty());
            }
            Err(_) => {}
        }
    }
    while !done
        invariant
            i <= s@.len(),
            s@.len() + 2 <= usize::MAX,
            1 <= line_no <= i + 1,
            done ==> spec_parse_source(s@, 0, 1) == Ok::<Seq<LineV>, ErrV>(lines_v(out@)),
            !done ==> spec_parse_source(s@, 0, 1) == match spec_parse_source(
                s@, i as int, line_no,
            ) {
                Ok(rest) => Ok::<Seq<LineV>, ErrV>(lines_v(out@) + rest),
                Err(e) => Err::<Seq<LineV>, ErrV>(e),
            },
        decreases s@.len() - i + (if done { 0int } else { 1int }),
    {
        let e = line_end(s, i);
        proof {
            lemma_line_end(s@, i as int);
        }
        let e2: usize = if e > i && s[e - 1] == 0x0D { e - 1 } else { e };
        let slice = copy_range(s, i, e2);
        proof {
            assert(slice@ == line_slice(s@, i as int));
        }
        match parse_line_at(&slice, 0, line_no) {
            Err(err) => {
                return Err(err);
            }
            Ok(opt) => {
                let ghost out0 = out@;
                let ghost opt_v: Option<LineV> = match opt {
                    Some(ref l) => Some(l@),
                    None => None,
                };
                match opt {
                    Some(l) => out.push(l),
                    None => {}
                }
                proof {
                    match opt_v {
                        Some(lv) => {
                            assert(lines_v(out@) =~= lines_v(out0).push(lv));
                        }
                        None => {}
                    }
                }
                if e >= s.len() {
                    done = true;
                    proof {
                        match opt_v {
                            Some(lv) => {
                                assert(lines_v(out0) + seq![lv] =~= lines_v(out@));
                            }
                            None => {}
                        }
                    }
                } else {
                    i = e + 1;
                    line_no += 1;
                    proof {
                        match spec_parse_source(s@, i as int, line_no) {
                            Ok(rest) => {
                                match opt_v {
                                    Some(lv) => {
                                        assert(lines_v(out0) + (seq![lv] + rest)
                                            =~= lines_v(out@) + rest);
                                    }
                                    None => {}
                                }
                            }
                            Err(_) => {}
                        }
                    }
                }
            }
        }
    }
    Ok(out)
}

/// Folding hex digits from `i` over `t` equals folding from 0 over
/// `t.skip(i)`.
pub proof fn lemma_hex_value_align(t: Seq<u8>, i: int, acc: u32)
    requires
        0 <= i <= t.len(),
    ensures
        spec_hex_value(t, i, acc) == spec_hex_value(t.skip(i), 0, acc),
    decreases t.len() - i, i,
{
    if i >= t.len() {
        assert(t.skip(i).len() == 0);
    } else if i == 0 {
        assert(t.skip(0) =~= t);
    } else {
        assert(t.skip(i)[0] == t[i]);
        if is_hex_byte(t[i]) && acc <= 0x0FFF_FFFF {
            let acc2 = ((acc * 16) + hex_val(t[i])) as u32;
            lemma_hex_value_align(t, i + 1, acc2);
            assert(t.skip(i).skip(1) =~= t.skip(i + 1));
            lemma_hex_value_align(t.skip(i), 1, acc2);
        }
    }
}

/// Whether a parsed line binds and names only well-formed labels: the
/// grammar admits nothing else.
pub open spec fn parsed_line_wf(lv: LineV) -> bool {
    &&& match lv.label {
            Some(t) => is_label(t.value),
            None => true,
        }
    &&& match lv.operation.operand.value {
            OperandV::Symbolic(s) => is_label(s),
            OperandV::Numeric(_) => true,
        }
}

/// A token of the identifier class is a well-formed label.
pub proof fn lemma_ident_class_is_label(t: Seq<u8>)
    requires
        spec_classify(t) == TokenClass::Ident,
    ensures
        is_label(t),
{
}

/// Every line the grammar accepts binds and names only well-formed labels.
pub proof fn lemma_parse_line_wf(s: Seq<u8>, start: int, line_no: usize)
    requires
        0 <= start <= s.len(),
    ensures
        spec_parse_line_at(s, start, line_no) matches Ok(Some(lv)) ==> parsed_line_wf(lv),
{
    let i = spec_skip_spaces(s, start);
    lemma_skip_spaces(s, start);
    if !(i >= s.len() || s[i] == 0x3B) {
        let e1 = spec_token_end(s, i);
        lemma_token_end(s, i);
        let t1 = s.subrange(i, e1);
        match spec_classify(t1) {
            TokenClass::Mnemonic(m) => {
                lemma_parse_operand_wf(s, e1, line_no, None, crate::TokenV {
                    position: pos_at(line_no, i),
                    value: m,
                });
            }
            TokenClass::Ident => {
                lemma_ident_class_is_label(t1);
                let j = spec_skip_spaces(s, e1);
                lemma_skip_spaces(s, e1);
                if !(j >= s.len() || s[j] == 0x3B) {
                    let e2 = spec_token_end(s, j);
                    lemma_token_end(s, j);
                    let t2 = s.subrange(j, e2);
                    match spec_classify(t2) {
                        TokenClass::Mnemonic(m) => {
                            lemma_parse_operand_wf(
                                s, e2, line_no,
                                Some(crate::TokenV { position: pos_at(line_no, i), value: t1 }),
                                crate::TokenV { position: pos_at(line_no, j), value: m },
                            );
                        }
                        _ => {}
                    }
                }
            }
            _ => {}
        }
    }
}

/// The operand production too admits only well-formed labels.
proof fn lemma_parse_operand_wf(
    s: Seq<u8>,
    j: int,
    line_no: usize,
    label: Option<crate::TokenV<Seq<u8>>>,
    m: crate::TokenV<Instruction>,
)
    requires
        0 <= j <= s.len(),
        match label {
            Some(t) => is_label(t.value),
            None => true,
        },
    ensures
        spec_parse_operand(s, j, line_no, label, m) matches Ok(Some(lv))
            ==> parsed_line_wf(lv),
{
    let k = spec_skip_spaces(s, j);
    lemma_skip_spaces(s, j);
    if !(k >= s.len() || s[k] == 0x3B) {
        let e = spec_token_end(s, k);
        lemma_token_end(s, k);
        let t = s.subrange(k, e);
        match spec_classify(t) {
            TokenClass::Ident => {
                lemma_ident_class_is_label(t);
            }
            _ => {}
        }
    }
}

/// Every line of a parsed source text binds and names only well-formed
/// labels.
pub proof fn lemma_parse_source_wf(s: Seq<u8>, i: int, line_no: usize)
    requires
        0 <= i <= s.len(),
    ensures
        spec_parse_source(s, i, line_no) matches Ok(ls)
            ==> forall|j: int| 0 <= j < ls.len() ==> parsed_line_wf(#[trigger] ls[j]),
    decreases s.len() - i,
{
    let sl = line_slice(s, i);
    lemma_line_end(s, i);
    assert(sl.len() <= s.len());
    lemma_parse_line_wf(sl, 0, line_no);
    match spec_parse_line_at(sl, 0, line_no) {
        Err(_) => {}
        Ok(opt) => {
            let e = spec_line_end(s, i);
            if e < s.len() {
                lemma_parse_source_wf(s, e + 1, (line_no + 1) as usize);
                match spec_parse_source(s, e + 1, (line_no + 1) as usize) {
                    Err(_) => {}
                    Ok(rest) => {
                        match opt {
                            Some(l) => {
                                let ls = seq![l] + rest;
                                assert(forall|j: int| 1 <= j < ls.len()
                                    ==> #[trigger] ls[j] == rest[j - 1]);
                            }
                            None => {}
                        }
                    }
                }
            }
        }
    }
}

} // verus!
