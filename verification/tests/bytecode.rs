//! Tests of the bytecode core's pieces: the lexer, the chunk, the compiled
//! code's exact shape, and the disassembler.

use toylox::bytecode::chunk::{Chunk, OpCode};
use toylox::bytecode::compiler::Parser;
use toylox::bytecode::debug::{disassemble, disassemble_instruction, InstrInfo};
use toylox::bytecode::scanner::{ScanNote, Scanner, TokenType};
use toylox::bytecode::value::{Rational, Value, ValueArray};

fn kinds_of(source: &str) -> Vec<TokenType> {
    let mut sc = Scanner::new();
    sc.init(source.to_string());
    let mut out = Vec::new();
    loop {
        let t = sc.scan_token();
        let kind = t.type_of;
        out.push(kind);
        if kind == TokenType::EOF {
            return out;
        }
    }
}

#[test]
fn scanner_punctuation_and_operators() {
    assert_eq!(
        kinds_of("( ) { } ; , . - + / * ! != = == < <= > >="),
        vec![
            TokenType::LeftParen,
            TokenType::RightParen,
            TokenType::LeftBrace,
            TokenType::RightBrace,
            TokenType::Semicolon,
            TokenType::Comma,
            TokenType::Dot,
            TokenType::Minus,
            TokenType::Plus,
            TokenType::Slash,
            TokenType::Star,
            TokenType::Bang,
            TokenType::BangEqual,
            TokenType::Equal,
            TokenType::EqualEqual,
            TokenType::Less,
            TokenType::LessEqual,
            TokenType::Greater,
            TokenType::GreaterEqual,
            TokenType::EOF,
        ]
    );
}

#[test]
fn scanner_keywords_and_identifiers() {
    assert_eq!(
        kinds_of("and class else false for func if null or print return super this true let while foo f4_x"),
        vec![
            TokenType::And,
            TokenType::Class,
            TokenType::Else,
            TokenType::False,
            TokenType::For,
            TokenType::Func,
            TokenType::If,
            TokenType::Null,
            TokenType::Or,
            TokenType::Print,
            TokenType::Return,
            TokenType::Super,
            TokenType::This,
            TokenType::True,
            TokenType::Var,
            TokenType::While,
            TokenType::Identifier,
            TokenType::Identifier,
            TokenType::EOF,
        ]
    );
}

#[test]
fn scanner_number_spans() {
    let mut sc = Scanner::new();
    sc.init("12.5 7 8.".to_string());
    let t = sc.scan_token();
    assert_eq!(t.type_of, TokenType::Number);
    assert_eq!((t.start, t.length, t.line), (0, 4, 1));
    assert_eq!(sc.substr(t.start, t.start + t.length), "12.5");
    let t2 = sc.scan_token();
    assert_eq!(t2.type_of, TokenType::Number);
    assert_eq!(sc.substr(t2.start, t2.start + t2.length), "7");
    // A dot with no digit after it is not part of the number.
    let t3 = sc.scan_token();
    assert_eq!(t3.type_of, TokenType::Number);
    assert_eq!(sc.substr(t3.start, t3.start + t3.length), "8");
    assert_eq!(sc.scan_token().type_of, TokenType::Dot);
    assert_eq!(sc.scan_token().type_of, TokenType::EOF);
}

#[test]
fn scanner_strings_and_lines() {
    let mut sc = Scanner::new();
    sc.init("\"ab\ncd\" x".to_string());
    let t = sc.scan_token();
    assert_eq!(t.type_of, TokenType::Str);
    assert_eq!(t.start, 0);
    assert_eq!(t.length, 7);
    assert_eq!(t.line, 2); // the embedded newline advanced the line count
    let x = sc.scan_token();
    assert_eq!(x.type_of, TokenType::Identifier);
    assert_eq!(x.line, 2);
}

#[test]
fn scanner_unterminated_string_token() {
    let mut sc = Scanner::new();
    sc.init("\"abc".to_string());
    let t = sc.scan_token();
    assert_eq!(t.type_of, TokenType::Error);
    assert_eq!(t.note, ScanNote::UnterminatedString);
}

#[test]
fn scanner_unexpected_character_token() {
    let mut sc = Scanner::new();
    sc.init("@".to_string());
    let t = sc.scan_token();
    assert_eq!(t.type_of, TokenType::Error);
    assert_eq!(t.note, ScanNote::UnexpectedCharacter);
}

#[test]
fn scanner_comments_and_nul_sentinel() {
    assert_eq!(
        kinds_of("1 // rest is comment * /\n2"),
        vec![TokenType::Number, TokenType::Number, TokenType::EOF]
    );
    // A NUL byte acts as an end-of-input sentinel.
    assert_eq!(kinds_of("\0"), vec![TokenType::EOF]);
}

#[test]
fn chunk_is_append_only_and_parallel() {
    let mut chunk = Chunk::new();
    assert_eq!(chunk.code_len(), 0);
    chunk.write(OpCode::Return, 3);
    chunk.write_constant(9, 3);
    assert_eq!(chunk.code_len(), 2);
    assert_eq!(chunk.code_at(0), 6);
    assert_eq!(chunk.code_at(1), 9);
    assert_eq!(chunk.line_at(0), 3);
    assert_eq!(chunk.line_at(1), 3);
    let idx = chunk.add_constant(Value::Number(Rational::from_i64(4)));
    assert_eq!(idx, 0);
    assert_eq!(chunk.const_count(), 1);
    assert_eq!(chunk.const_at(0), Value::Number(Rational::from_i64(4)));
    chunk.free();
    assert_eq!(chunk.code_len(), 0);
    assert_eq!(chunk.const_count(), 0);
}

#[test]
fn opcode_byte_round_trip() {
    for byte in 0u8..7u8 {
        let op = OpCode::from(byte);
        assert_eq!(u8::from(op), byte);
    }
    assert_eq!(OpCode::from(0u8), OpCode::Constant);
    assert_eq!(OpCode::from(6u8), OpCode::Return);
    assert_eq!(OpCode::from(42u8), OpCode::Unknown);
}

#[test]
fn compiled_shape_of_one_plus_two_times_three() {
    let mut parser = Parser::new();
    assert!(parser.compile("1 + 2 * 3".to_string()));
    let chunk = parser.chunk();
    // Constants [1, 2, 3].
    assert_eq!(chunk.const_count(), 3);
    for (i, expected) in [1i64, 2, 3].iter().enumerate() {
        assert_eq!(chunk.const_at(i), Value::Number(Rational::from_i64(*expected)));
    }
    // Constant 0, Constant 1, Constant 2, Multiply, Add, Return.
    let expected_code = [0u8, 0, 0, 1, 0, 2, 4, 2, 6];
    assert_eq!(chunk.code_len(), expected_code.len());
    for (i, byte) in expected_code.iter().enumerate() {
        assert_eq!(chunk.code_at(i), *byte, "byte {i}");
    }
}

#[test]
fn disassembler_visits_every_byte_once() {
    let mut parser = Parser::new();
    assert!(parser.compile("(1 + 2) * 3.5".to_string()));
    let chunk = parser.chunk();
    let d = disassemble(chunk, "code".to_string());
    assert_eq!(d.title, "code");
    assert!(!d.entries.is_empty());
    assert_eq!(d.entries[0].offset, 0);
    // Offsets are strictly increasing and the spans tile the code exactly.
    let mut covered = 0usize;
    for (i, e) in d.entries.iter().enumerate() {
        assert_eq!(e.offset, covered, "entry {i}");
        let width = match e.info {
            InstrInfo::Constant { .. } => 2,
            _ => 1,
        };
        covered += width;
        if i > 0 {
            assert!(e.offset > d.entries[i - 1].offset);
        }
    }
    assert_eq!(covered, chunk.code_len());
    // Every constant entry shows the pooled value at its index.
    for e in d.entries.iter() {
        if let InstrInfo::Constant { index, value } = e.info {
            assert!((index as usize) < chunk.const_count());
            assert_eq!(value, chunk.const_at(index as usize));
        }
    }
}

#[test]
fn disassemble_instruction_renders_simple_and_constant() {
    let mut chunk = Chunk::new();
    let idx = chunk.add_constant(Value::Number(Rational::from_i64(5)));
    chunk.write(OpCode::Constant, 1);
    chunk.write_constant(idx, 1);
    chunk.write(OpCode::Negate, 2);
    let (first, next) = disassemble_instruction(&chunk, 0);
    assert_eq!(first.offset, 0);
    assert_eq!(first.line, 1);
    assert!(!first.same_line);
    match first.info {
        InstrInfo::Constant { index, value } => {
            assert_eq!(index, 0);
            assert_eq!(value, Value::Number(Rational::from_i64(5)));
        }
        other => panic!("unexpected rendering {other:?}"),
    }
    assert_eq!(next, 2);
    let (second, next2) = disassemble_instruction(&chunk, 2);
    assert_eq!(second.info, InstrInfo::Simple(OpCode::Negate));
    assert!(!second.same_line);
    assert_eq!(next2, 3);
}

#[test]
fn disassembler_marks_unknown_opcodes() {
    let mut chunk = Chunk::new();
    chunk.write(OpCode::Unknown, 1);
    chunk.write(OpCode::Return, 1);
    let (entry, next) = disassemble_instruction(&chunk, 0);
    assert_eq!(entry.info, InstrInfo::Unknown(7));
    assert_eq!(next, 1);
    let (entry2, _) = disassemble_instruction(&chunk, 1);
    assert_eq!(entry2.info, InstrInfo::Simple(OpCode::Return));
    assert!(entry2.same_line);
}

#[test]
fn rational_arithmetic_is_exact_and_reduced() {
    let a = Rational::from_fraction(1, 3).unwrap();
    let b = Rational::from_fraction(1, 6).unwrap();
    let sum = a.add(&b).unwrap();
    assert_eq!((sum.num(), sum.den()), (1, 2));
    let diff = a.sub(&b).unwrap();
    assert_eq!((diff.num(), diff.den()), (1, 6));
    let prod = a.mul(&b).unwrap();
    assert_eq!((prod.num(), prod.den()), (1, 18));
    let quot = a.div(&b).unwrap();
    assert_eq!((quot.num(), quot.den()), (2, 1));
    let neg = a.neg().unwrap();
    assert_eq!((neg.num(), neg.den()), (-1, 3));
    // Saturation: the largest magnitudes refuse to overflow silently.
    let top = Rational::from_i64(i64::MAX);
    assert!(top.add(&Rational::from_i64(1)).is_none());
    assert!(top.mul(&top).is_none());
}

#[test]
fn value_array_is_append_only_until_freed() {
    let mut a = ValueArray::new();
    assert_eq!(a.len(), 0);
    a.write(Value::Number(Rational::from_i64(1)));
    a.write(Value::Nil);
    a.write(Value::Bool(true));
    assert_eq!(a.len(), 3);
    assert_eq!(a.at(0), Value::Number(Rational::from_i64(1)));
    assert_eq!(a.at(1), Value::Nil);
    assert_eq!(a.at(2), Value::Bool(true));
    a.free();
    assert_eq!(a.len(), 0);
}

#[test]
fn scanner_rescan_needs_a_fresh_init() {
    let mut sc = Scanner::new();
    sc.init("1".to_string());
    assert_eq!(sc.scan_token().type_of, TokenType::Number);
    assert_eq!(sc.scan_token().type_of, TokenType::EOF);
    // The sequence is one-shot; a fresh init rewinds it.
    sc.init("2".to_string());
    let t = sc.scan_token();
    assert_eq!(t.type_of, TokenType::Number);
    assert_eq!((t.start, t.length, t.line), (0, 1, 1));
}
