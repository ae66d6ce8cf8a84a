use topaz::chunk::{make_short, Chunk, Instruction, Operand};
use topaz::opcode::{from_u8, Opcode};
use topaz::operator::Operator;
use topaz::parse_rule::{Handler, ParseRule};
use topaz::precedence::Precedence;
use topaz::token::{Token, TokenType};
use topaz::value::Value;

fn opcodes() -> Vec<Opcode> {
    vec![
        Opcode::Return,
        Opcode::Constant,
        Opcode::Negate,
        Opcode::Add,
        Opcode::Subtract,
        Opcode::Multiply,
        Opcode::Divide,
        Opcode::Nil,
        Opcode::True,
        Opcode::False,
        Opcode::Not,
        Opcode::Equal,
        Opcode::Greater,
        Opcode::Less,
        Opcode::Mod,
        Opcode::Print,
        Opcode::Pop,
        Opcode::DefineGlobal,
        Opcode::GetGlobal,
        Opcode::SetGlobal,
        Opcode::GetLocal,
        Opcode::SetLocal,
        Opcode::JumpIfFalse,
        Opcode::Jump,
        Opcode::Loop,
        Opcode::Call,
        Opcode::LogicalAnd,
        Opcode::LogicalOr,
        Opcode::BitwiseAnd,
        Opcode::BitwiseOr,
    ]
}

#[test]
fn first_fourteen_bytes_decode_as_listed() {
    assert_eq!(from_u8(0), Opcode::Return);
    assert_eq!(from_u8(1), Opcode::Constant);
    assert_eq!(from_u8(2), Opcode::Negate);
    assert_eq!(from_u8(3), Opcode::Add);
    assert_eq!(from_u8(4), Opcode::Subtract);
    assert_eq!(from_u8(5), Opcode::Multiply);
    assert_eq!(from_u8(6), Opcode::Divide);
    assert_eq!(from_u8(7), Opcode::Nil);
    assert_eq!(from_u8(8), Opcode::True);
    assert_eq!(from_u8(9), Opcode::False);
    assert_eq!(from_u8(10), Opcode::Not);
    assert_eq!(from_u8(11), Opcode::Equal);
    assert_eq!(from_u8(12), Opcode::Greater);
    assert_eq!(from_u8(13), Opcode::Less);
}

#[test]
fn opcodes_come_back_from_their_bytes() {
    let all = opcodes();
    assert_eq!(all.len(), 30);
    for (index, op) in all.iter().enumerate() {
        assert_eq!(op.to_u8() as usize, index);
        assert_eq!(from_u8(op.to_u8()), *op);
    }
}

#[test]
fn other_bytes_are_unknown() {
    let mut byte: u8 = 30;
    loop {
        assert_eq!(from_u8(byte), Opcode::Unknown);
        if byte == 255 {
            break;
        }
        byte += 1;
    }
    assert_eq!(Opcode::Unknown.to_u8(), 255);
}

#[test]
fn operand_widths() {
    for op in opcodes() {
        let expected = match op {
            Opcode::Constant
            | Opcode::DefineGlobal
            | Opcode::GetGlobal
            | Opcode::SetGlobal
            | Opcode::GetLocal
            | Opcode::SetLocal
            | Opcode::Call => 1,
            Opcode::JumpIfFalse | Opcode::Jump | Opcode::Loop => 2,
            _ => 0,
        };
        assert_eq!(op.width(), expected, "{:?}", op);
    }
    assert_eq!(Opcode::Unknown.width(), 0);
}

#[test]
fn operators_are_read_from_their_spelling() {
    assert_eq!(Operator::from("+"), Some(Operator::Plus));
    assert_eq!(Operator::from("-"), Some(Operator::Minus));
    assert_eq!(Operator::from("*"), Some(Operator::Star));
    assert_eq!(Operator::from("/"), Some(Operator::Slash));
    assert_eq!(Operator::from("%"), Some(Operator::Mod));
    assert_eq!(Operator::from("<"), Some(Operator::LessThan));
    assert_eq!(Operator::from(">"), Some(Operator::GreaterThan));
    assert_eq!(Operator::from("&"), Some(Operator::Amp));
    assert_eq!(Operator::from("&&"), Some(Operator::AmpAmp));
    assert_eq!(Operator::from("|"), Some(Operator::Pipe));
    assert_eq!(Operator::from("||"), Some(Operator::PipePipe));
}

#[test]
fn other_spellings_are_no_operators() {
    assert_eq!(Operator::from(""), None);
    assert_eq!(Operator::from("="), None);
    assert_eq!(Operator::from("++"), None);
    assert_eq!(Operator::from("&|"), None);
    assert_eq!(Operator::from("|&"), None);
    assert_eq!(Operator::from("&&&"), None);
    assert_eq!(Operator::from("+ "), None);
    assert_eq!(Operator::from("é"), None);
}

#[test]
fn operators_spell_themselves() {
    let all = [
        (Operator::Plus, "+"),
        (Operator::Minus, "-"),
        (Operator::Star, "*"),
        (Operator::Slash, "/"),
        (Operator::Mod, "%"),
        (Operator::LessThan, "<"),
        (Operator::GreaterThan, ">"),
        (Operator::Amp, "&"),
        (Operator::AmpAmp, "&&"),
        (Operator::Pipe, "|"),
        (Operator::PipePipe, "||"),
    ];
    for (op, text) in all {
        assert_eq!(op.to_str(), text);
        assert_eq!(Operator::from(op.to_str()), Some(op));
    }
}

#[test]
fn precedence_levels_are_in_order() {
    let all = [
        Precedence::Lowest,
        Precedence::Assignment,
        Precedence::Or,
        Precedence::And,
        Precedence::Equality,
        Precedence::Comparison,
        Precedence::Term,
        Precedence::Factor,
        Precedence::Unary,
        Precedence::Call,
        Precedence::Primary,
    ];
    for (rank, level) in all.iter().enumerate() {
        assert_eq!(level.level() as usize, rank);
        assert_eq!(Precedence::from(rank), *level);
        if rank < 10 {
            assert_eq!(level.next(), all[rank + 1]);
        }
    }
    assert_eq!(Precedence::Primary.next(), Precedence::Primary);
    assert_eq!(Precedence::from(11), Precedence::Primary);
    assert_eq!(Precedence::from(usize::MAX), Precedence::Primary);
}

fn rule(prefix: Option<Handler>, infix: Option<Handler>, precedence: Precedence) -> ParseRule {
    ParseRule { prefix, infix, precedence }
}

#[test]
fn rules_of_the_operators() {
    let binary = Some(Handler::Binary);
    assert_eq!(TokenType::Minus.rule(), rule(Some(Handler::Unary), binary, Precedence::Term));
    assert_eq!(TokenType::Plus.rule(), rule(None, binary, Precedence::Term));
    assert_eq!(TokenType::Slash.rule(), rule(None, binary, Precedence::Factor));
    assert_eq!(TokenType::Star.rule(), rule(None, binary, Precedence::Factor));
    assert_eq!(TokenType::Mod.rule(), rule(None, binary, Precedence::Factor));
    assert_eq!(TokenType::BitwiseAnd.rule(), rule(None, binary, Precedence::Term));
    assert_eq!(TokenType::BitwiseOr.rule(), rule(None, binary, Precedence::Term));
    assert_eq!(TokenType::LogicalAnd.rule(), rule(None, binary, Precedence::Term));
    assert_eq!(TokenType::LogicalOr.rule(), rule(None, binary, Precedence::Term));
    assert_eq!(TokenType::Bang.rule(), rule(Some(Handler::Unary), None, Precedence::Lowest));
    assert_eq!(TokenType::BangEqual.rule(), rule(None, binary, Precedence::Equality));
    assert_eq!(TokenType::EqualEqual.rule(), rule(None, binary, Precedence::Comparison));
    assert_eq!(TokenType::Greater.rule(), rule(None, binary, Precedence::Comparison));
    assert_eq!(TokenType::GreaterEqual.rule(), rule(None, binary, Precedence::Comparison));
    assert_eq!(TokenType::Less.rule(), rule(None, binary, Precedence::Comparison));
    assert_eq!(TokenType::LessEqual.rule(), rule(None, binary, Precedence::Comparison));
}

#[test]
fn rules_of_what_starts_an_expression() {
    let lowest = Precedence::Lowest;
    assert_eq!(TokenType::LeftParen.rule(), rule(Some(Handler::Grouping), None, lowest));
    assert_eq!(
        TokenType::Identifier(String::from("x")).rule(),
        rule(Some(Handler::Variable), None, lowest)
    );
    assert_eq!(
        TokenType::String(String::from("s")).rule(),
        rule(Some(Handler::String), None, lowest)
    );
    assert_eq!(
        TokenType::Number(String::from("1")).rule(),
        rule(Some(Handler::Number), None, lowest)
    );
    assert_eq!(TokenType::False.rule(), rule(Some(Handler::Literal), None, lowest));
    assert_eq!(TokenType::Nil.rule(), rule(Some(Handler::Literal), None, lowest));
    assert_eq!(TokenType::True.rule(), rule(Some(Handler::Literal), None, lowest));
}

#[test]
fn every_other_token_has_no_rule() {
    let none = rule(None, None, Precedence::Lowest);
    let others = vec![
        TokenType::RightParen,
        TokenType::LeftBrace,
        TokenType::RightBrace,
        TokenType::Comma,
        TokenType::Dot,
        TokenType::Semicolon,
        TokenType::Equal,
        TokenType::And,
        TokenType::Class,
        TokenType::Else,
        TokenType::For,
        TokenType::Fn,
        TokenType::If,
        TokenType::Or,
        TokenType::Print,
        TokenType::Return,
        TokenType::Super,
        TokenType::This,
        TokenType::Var,
        TokenType::While,
        TokenType::Error(String::from("message")),
        TokenType::Eof,
    ];
    for kind in others {
        assert_eq!(kind.rule(), none, "{:?}", kind);
    }
}

#[test]
fn token_kinds_compare_with_their_text() {
    assert!(TokenType::Plus.is(&TokenType::Plus));
    assert!(!TokenType::Plus.is(&TokenType::Minus));
    assert!(TokenType::Identifier(String::from("a")).is(&TokenType::Identifier(String::from("a"))));
    assert!(!TokenType::Identifier(String::from("a")).is(&TokenType::Identifier(String::from("b"))));
    assert!(!TokenType::Identifier(String::from("a")).is(&TokenType::String(String::from("a"))));
    assert_eq!(TokenType::Number(String::from("12")).duplicate(), TokenType::Number(String::from("12")));
    let token = Token::new(TokenType::String(String::from("hi")), 3, 4, 5);
    assert_eq!(token.token_type, TokenType::String(String::from("hi")));
    assert_eq!(token.line, 3);
    assert_eq!(token.col, 4);
    assert_eq!(token.len, 5);
    assert_eq!(token.duplicate(), token);
}

#[test]
fn write_keeps_a_line_for_each_byte() {
    let mut chunk = Chunk::new();
    assert!(chunk.code.is_empty() && chunk.lines.is_empty() && chunk.constants.is_empty());
    chunk.write(1, 10);
    chunk.write(0, 10);
    chunk.write(15, 11);
    assert_eq!(chunk.code, vec![1, 0, 15]);
    assert_eq!(chunk.lines, vec![10, 10, 11]);
    assert!(chunk.constants.is_empty());
}

#[test]
fn add_constant_returns_the_index() {
    let mut chunk = Chunk::new();
    assert_eq!(chunk.add_constant(Value::Number(1.2f64.to_bits())), 0);
    assert_eq!(chunk.add_constant(Value::String(String::from("x"))), 1);
    assert_eq!(chunk.add_constant(Value::Nil), 2);
    assert_eq!(chunk.constants.len(), 3);
    assert!(chunk.constants[0].identical(&Value::Number(1.2f64.to_bits())));
    assert!(chunk.constants[1].identical(&Value::String(String::from("x"))));
    assert!(chunk.code.is_empty());
}

#[test]
fn the_pool_itself_has_no_limit() {
    let mut chunk = Chunk::new();
    for i in 0..300usize {
        assert_eq!(chunk.add_constant(Value::Nil), i);
    }
}

#[test]
fn short_is_big_endian() {
    assert_eq!(make_short(0, 0), 0);
    assert_eq!(make_short(0, 7), 7);
    assert_eq!(make_short(1, 0), 256);
    assert_eq!(make_short(0x12, 0x34), 0x1234);
    assert_eq!(make_short(0xff, 0xff), 65535);
}

fn entry(offset: usize, line: usize, byte: u8, opcode: Opcode, operand: Operand) -> Instruction {
    Instruction { offset, line, byte, opcode, operand }
}

#[test]
fn disassembly_visits_every_instruction_once() {
    let mut chunk = Chunk::new();
    chunk.add_constant(Value::Number(1.2f64.to_bits()));
    let bytes: [(u8, usize); 12] = [
        (1, 1),
        (0, 1),
        (2, 1),
        (22, 2),
        (0x01, 2),
        (0x02, 2),
        (16, 2),
        (200, 3),
        (20, 4),
        (9, 4),
        (15, 4),
        (0, 5),
    ];
    for (byte, line) in bytes {
        chunk.write(byte, line);
    }
    let listing = chunk.disassemble();
    let expected = vec![
        entry(0, 1, 1, Opcode::Constant, Operand::Byte(0)),
        entry(2, 1, 2, Opcode::Negate, Operand::Nothing),
        entry(3, 2, 22, Opcode::JumpIfFalse, Operand::Short(0x0102)),
        entry(6, 2, 16, Opcode::Pop, Operand::Nothing),
        entry(7, 3, 200, Opcode::Unknown, Operand::Nothing),
        entry(8, 4, 20, Opcode::GetLocal, Operand::Byte(9)),
        entry(10, 4, 15, Opcode::Print, Operand::Nothing),
        entry(11, 5, 0, Opcode::Return, Operand::Nothing),
    ];
    assert_eq!(listing, expected);
    let mut next = 0;
    for instruction in &listing {
        assert_eq!(instruction.offset, next);
        next = instruction.offset + 1 + instruction.opcode.width();
    }
    assert_eq!(next, chunk.code.len());
}

#[test]
fn disassembly_of_nothing_is_empty() {
    assert!(Chunk::new().disassemble().is_empty());
}

#[test]
fn disassembly_stops_at_a_missing_operand() {
    let mut chunk = Chunk::new();
    chunk.write(0, 1);
    chunk.write(1, 2);
    assert_eq!(
        chunk.disassemble(),
        vec![
            entry(0, 1, 0, Opcode::Return, Operand::Nothing),
            entry(1, 2, 1, Opcode::Constant, Operand::Missing),
        ]
    );
    let mut jump = Chunk::new();
    jump.write(23, 7);
    jump.write(0, 7);
    assert_eq!(jump.disassemble(), vec![entry(0, 7, 23, Opcode::Jump, Operand::Missing)]);
    assert_eq!(jump.disassemble_instruction(0), (entry(0, 7, 23, Opcode::Jump, Operand::Missing), 2));
}

#[test]
fn disassemble_instruction_says_where_the_next_starts() {
    let mut chunk = Chunk::new();
    for byte in [24u8, 0xab, 0xcd, 7, 25, 3] {
        chunk.write(byte, 1);
    }
    assert_eq!(
        chunk.disassemble_instruction(0),
        (entry(0, 1, 24, Opcode::Loop, Operand::Short(0xabcd)), 3)
    );
    assert_eq!(chunk.disassemble_instruction(3), (entry(3, 1, 7, Opcode::Nil, Operand::Nothing), 4));
    assert_eq!(chunk.disassemble_instruction(4), (entry(4, 1, 25, Opcode::Call, Operand::Byte(3)), 6));
}

#[test]
fn chunks_compare_and_copy() {
    let mut chunk = Chunk::new();
    chunk.write(1, 1);
    chunk.write(0, 1);
    chunk.add_constant(Value::String(String::from("k")));
    let copy = chunk.duplicate();
    assert!(chunk.identical(&copy));
    assert_eq!(copy.code, chunk.code);
    assert_eq!(copy.lines, chunk.lines);
    let mut lines = chunk.duplicate();
    lines.lines[1] = 2;
    assert!(!chunk.identical(&lines));
    let mut code = chunk.duplicate();
    code.code[1] = 1;
    assert!(!chunk.identical(&code));
    let mut pool = chunk.duplicate();
    pool.constants[0] = Value::String(String::from("j"));
    assert!(!chunk.identical(&pool));
    let mut longer = chunk.duplicate();
    longer.add_constant(Value::Nil);
    assert!(!chunk.identical(&longer));
}
