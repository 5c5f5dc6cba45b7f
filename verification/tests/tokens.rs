use chasm::token::TokenType::{Number, Register};
use chasm::token::{Command, Token, TokenType};
use std::rc::Rc;

fn label(name: &str) -> TokenType {
    TokenType::Label(String::from(name))
}

#[test]
fn all_lists_every_mnemonic_once() {
    let all = Command::all();
    assert_eq!(all.len(), 31);
    for (i, a) in all.iter().enumerate() {
        for b in &all[i + 1..] {
            assert_ne!(a, b);
        }
    }
    assert!(all.contains(&Command::CHIP));
    assert!(all.contains(&Command::STORE));
}

#[test]
fn mnemonics_are_written_as_they_are_named() {
    for cmd in Command::all() {
        assert_eq!(cmd.mnemonic(), format!("{:?}", cmd));
    }
}

#[test]
fn token_new_keeps_its_parts() {
    let file = Rc::new(String::from("a.chasm"));
    let t = Token::new(TokenType::Number(7), Rc::clone(&file), 3, (4, 5));
    assert_eq!(t.token, TokenType::Number(7));
    assert_eq!(t.position.line, 3);
    assert_eq!(t.position.column, (4, 5));
    assert!(Rc::ptr_eq(&t.position.file, &file));
}

#[test]
fn cloned_tokens_are_equal_and_share_the_file() {
    let t = Token::new(label("loop"), Rc::new(String::from("a.chasm")), 1, (1, 5));
    let u = t.clone();
    assert_eq!(u.token, t.token);
    assert_eq!(u.position.line, 1);
    assert_eq!(u.position.column, (1, 5));
    assert!(Rc::ptr_eq(&t.position.file, &u.position.file));
}

#[test]
fn arithmetic_and_comparison_patterns() {
    for cmd in [Command::ADD, Command::JMPNE, Command::JMPEQ] {
        assert!(cmd.is_valid_chip8_instruction(&[Number(0xFF), Register(1)]));
        assert!(cmd.is_valid_chip8_instruction(&[Register(1), Number(0)]));
        assert!(cmd.is_valid_chip8_instruction(&[Register(1), Register(2)]));
        assert!(!cmd.is_valid_chip8_instruction(&[Register(1), Number(0x100)]));
        assert!(!cmd.is_valid_chip8_instruction(&[Number(1), Number(2)]));
        assert!(!cmd.is_valid_chip8_instruction(&[Register(1)]));
        assert!(!cmd.is_valid_chip8_instruction(&[Register(1), label("x")]));
    }
}

#[test]
fn patterns_without_operands() {
    for cmd in [Command::RET, Command::CLR] {
        assert!(cmd.is_valid_chip8_instruction(&[]));
        assert!(!cmd.is_valid_chip8_instruction(&[TokenType::Register(0)]));
    }
}

#[test]
fn address_patterns() {
    for cmd in [Command::CALL, Command::JMP, Command::OFFJMP, Command::POINT] {
        assert!(cmd.is_valid_chip8_instruction(&[label("main")]));
        assert!(cmd.is_valid_chip8_instruction(&[TokenType::Number(0)]));
        assert!(cmd.is_valid_chip8_instruction(&[TokenType::Number(0x6FF)]));
        assert!(!cmd.is_valid_chip8_instruction(&[TokenType::Number(0x700)]));
        assert!(!cmd.is_valid_chip8_instruction(&[TokenType::Register(0)]));
        assert!(!cmd.is_valid_chip8_instruction(&[]));
        assert!(!cmd.is_valid_chip8_instruction(&[label("a"), label("b")]));
    }
}

#[test]
fn set_rand_and_draw_patterns() {
    assert!(Command::SET.is_valid_chip8_instruction(&[Register(0), Number(0x12)]));
    assert!(Command::SET.is_valid_chip8_instruction(&[Register(0), Register(1)]));
    assert!(!Command::SET.is_valid_chip8_instruction(&[Number(0x12), Register(0)]));
    assert!(Command::RAND.is_valid_chip8_instruction(&[Register(0), Number(0xFF)]));
    assert!(!Command::RAND.is_valid_chip8_instruction(&[Register(0), Register(1)]));
    let draw = |n: u16| {
        Command::DRAW.is_valid_chip8_instruction(&[
            TokenType::Register(0),
            TokenType::Register(1),
            TokenType::Number(n),
        ])
    };
    assert!(draw(0));
    assert!(draw(0xF));
    assert!(!draw(0x10));
}

#[test]
fn register_patterns() {
    let two = [
        Command::OR,
        Command::AND,
        Command::XOR,
        Command::SUB,
        Command::SUBFROM,
        Command::SHL,
        Command::SHR,
    ];
    for cmd in two {
        assert!(cmd.is_valid_chip8_instruction(&[TokenType::Register(0), TokenType::Register(15)]));
        assert!(!cmd.is_valid_chip8_instruction(&[TokenType::Register(0)]));
        assert!(!cmd.is_valid_chip8_instruction(&[TokenType::Register(0), TokenType::Number(1)]));
    }
    let one = [
        Command::LOAD,
        Command::STORE,
        Command::ADDPTR,
        Command::SETPTRCHR,
        Command::SETPTRDEC,
        Command::GETDELAY,
        Command::GETKEY,
        Command::SETDELAY,
        Command::JMPEQKEY,
        Command::JMPNEKEY,
        Command::SETSOUND,
    ];
    for cmd in one {
        assert!(cmd.is_valid_chip8_instruction(&[TokenType::Register(15)]));
        assert!(!cmd.is_valid_chip8_instruction(&[TokenType::Register(16)]));
        assert!(!cmd.is_valid_chip8_instruction(&[TokenType::Number(1)]));
        assert!(!cmd.is_valid_chip8_instruction(&[]));
    }
}

#[test]
fn pass_through_pattern() {
    assert!(Command::CHIP.is_valid_chip8_instruction(&[TokenType::Number(0xFFFF)]));
    assert!(!Command::CHIP.is_valid_chip8_instruction(&[TokenType::Register(0)]));
    assert!(!Command::CHIP.is_valid_chip8_instruction(&[]));
}

#[test]
fn tokens_that_are_no_operands_fit_no_pattern() {
    for cmd in Command::all() {
        assert!(!cmd.is_valid_chip8_instruction(&[TokenType::Colon]));
        assert!(!cmd.is_valid_chip8_instruction(&[TokenType::Eol]));
        assert!(!cmd.is_valid_chip8_instruction(&[TokenType::Comment(String::new())]));
    }
}
