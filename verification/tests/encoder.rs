use chasm::instruction::{convert_to_chip8, encode, to_bytes, InstructionArg};
use chasm::instruction::InstructionArg::{Chip8, Label, Num, Reg};
use chasm::token::Command;

fn word(cmd: Command, args: &[InstructionArg]) -> u16 {
    encode(cmd, args).unwrap()
}

#[test]
fn set_packs_register_and_number() {
    assert_eq!(word(Command::SET, &[Reg(0), Num(0x12)]), 0x6012);
    assert_eq!(word(Command::SET, &[Reg(0xA), Num(0xFF)]), 0x6AFF);
    assert_eq!(word(Command::SET, &[Reg(1), Reg(2)]), 0x8120);
}

#[test]
fn add_and_compare_take_either_order() {
    assert_eq!(word(Command::ADD, &[Reg(1), Num(5)]), 0x7105);
    assert_eq!(word(Command::ADD, &[Num(5), Reg(1)]), 0x7105);
    assert_eq!(word(Command::JMPNE, &[Reg(2), Num(0x34)]), 0x4234);
    assert_eq!(word(Command::JMPNE, &[Num(0x34), Reg(2)]), 0x4234);
    assert_eq!(word(Command::JMPEQ, &[Reg(3), Num(0x56)]), 0x3356);
    assert_eq!(word(Command::JMPEQ, &[Num(0x56), Reg(3)]), 0x3356);
}

#[test]
fn register_forms_have_their_own_family() {
    assert_eq!(word(Command::ADD, &[Reg(1), Reg(2)]), 0x8124);
    assert_eq!(word(Command::JMPNE, &[Reg(1), Reg(2)]), 0x9120);
    assert_eq!(word(Command::JMPEQ, &[Reg(1), Reg(2)]), 0x5120);
}

#[test]
fn register_forms_never_share_a_word_with_immediate_forms() {
    let a = convert_to_chip8(vec![(Command::ADD, vec![Reg(1), Reg(2)])]);
    let b = convert_to_chip8(vec![(Command::ADD, vec![Reg(1), Num(0x24)])]);
    let c = convert_to_chip8(vec![(Command::JMPNE, vec![Reg(1), Reg(2)])]);
    let d = convert_to_chip8(vec![(Command::ADD, vec![Reg(1), Num(0x20)])]);
    assert_ne!(a, b);
    assert_ne!(c, d);
    assert_eq!(b, vec![0x7124]);
    assert_eq!(d, vec![0x7120]);
}

#[test]
fn shifts_take_one_register_or_two() {
    assert_eq!(word(Command::SHR, &[Reg(1)]), 0x8106);
    assert_eq!(word(Command::SHL, &[Reg(1)]), 0x810E);
}

#[test]
fn set_and_rand_do_not_commute() {
    assert_eq!(encode(Command::SET, &[Num(1), Reg(0)]), None);
    assert_eq!(encode(Command::RAND, &[Num(1), Reg(0)]), None);
}

#[test]
fn instructions_without_operands() {
    assert_eq!(word(Command::RET, &[]), 0x00EE);
    assert_eq!(word(Command::CLR, &[]), 0x00E0);
}

#[test]
fn addresses_are_origin_plus_twice_the_index() {
    assert_eq!(word(Command::JMP, &[Label(3)]), 0x1206);
    assert_eq!(word(Command::JMP, &[Num(3)]), 0x1206);
    assert_eq!(word(Command::CALL, &[Label(0)]), 0x2200);
    assert_eq!(word(Command::POINT, &[Num(0x10)]), 0xA220);
    assert_eq!(word(Command::OFFJMP, &[Label(0x6FF)]), 0xBFFE);
}

#[test]
fn addresses_beyond_the_field_are_refused() {
    assert_eq!(encode(Command::JMP, &[Label(0x700)]), None);
    assert_eq!(encode(Command::CALL, &[Num(0xFFFF)]), None);
}

#[test]
fn rand_and_draw() {
    assert_eq!(word(Command::RAND, &[Reg(4), Num(0x0F)]), 0xC40F);
    assert_eq!(word(Command::DRAW, &[Reg(1), Reg(2), Num(5)]), 0xD125);
    assert_eq!(encode(Command::DRAW, &[Reg(1), Reg(2), Num(16)]), None);
}

#[test]
fn two_register_instructions() {
    assert_eq!(word(Command::OR, &[Reg(1), Reg(2)]), 0x8121);
    assert_eq!(word(Command::AND, &[Reg(1), Reg(2)]), 0x8122);
    assert_eq!(word(Command::XOR, &[Reg(1), Reg(2)]), 0x8123);
    assert_eq!(word(Command::SUB, &[Reg(1), Reg(2)]), 0x8125);
    assert_eq!(word(Command::SHR, &[Reg(1), Reg(2)]), 0x8126);
    assert_eq!(word(Command::SUBFROM, &[Reg(1), Reg(2)]), 0x8127);
    assert_eq!(word(Command::SHL, &[Reg(1), Reg(2)]), 0x812E);
}

#[test]
fn one_register_instructions() {
    assert_eq!(word(Command::JMPEQKEY, &[Reg(7)]), 0xE79E);
    assert_eq!(word(Command::JMPNEKEY, &[Reg(7)]), 0xE7A1);
    assert_eq!(word(Command::GETDELAY, &[Reg(7)]), 0xF707);
    assert_eq!(word(Command::GETKEY, &[Reg(7)]), 0xF70A);
    assert_eq!(word(Command::SETDELAY, &[Reg(7)]), 0xF715);
    assert_eq!(word(Command::SETSOUND, &[Reg(7)]), 0xF718);
    assert_eq!(word(Command::ADDPTR, &[Reg(7)]), 0xF71E);
    assert_eq!(word(Command::SETPTRCHR, &[Reg(7)]), 0xF729);
    assert_eq!(word(Command::SETPTRDEC, &[Reg(7)]), 0xF733);
    assert_eq!(word(Command::STORE, &[Reg(7)]), 0xF755);
    assert_eq!(word(Command::LOAD, &[Reg(7)]), 0xF765);
}

#[test]
fn pass_through_word() {
    assert_eq!(word(Command::CHIP, &[Chip8(0xABCD)]), 0xABCD);
    assert_eq!(encode(Command::CHIP, &[Num(0xABCD)]), None);
}

#[test]
fn registers_beyond_fifteen_are_refused() {
    assert_eq!(encode(Command::LOAD, &[Reg(16)]), None);
    assert_eq!(encode(Command::SET, &[Reg(16), Num(0)]), None);
}

#[test]
fn numbers_beyond_a_byte_are_refused() {
    assert_eq!(encode(Command::SET, &[Reg(0), Num(0x100)]), None);
    assert_eq!(encode(Command::ADD, &[Num(0x100), Reg(0)]), None);
}

#[test]
fn wrong_shapes_are_refused() {
    assert_eq!(encode(Command::RET, &[Reg(0)]), None);
    assert_eq!(encode(Command::JMP, &[]), None);
    assert_eq!(encode(Command::JMP, &[Reg(0)]), None);
    assert_eq!(encode(Command::OR, &[Reg(0)]), None);
    assert_eq!(encode(Command::LOAD, &[Reg(0), Reg(1)]), None);
    assert_eq!(encode(Command::DRAW, &[Reg(0), Reg(1), Num(1), Num(1)]), None);
}

#[test]
fn every_instruction_gives_one_word_in_order() {
    let words = convert_to_chip8(vec![
        (Command::CALL, vec![Label(2)]),
        (Command::JMP, vec![Label(1)]),
        (Command::CLR, vec![]),
        (Command::CHIP, vec![Chip8(0x1234)]),
        (Command::DRAW, vec![Reg(0xA), Reg(0xB), Num(0xC)]),
    ]);
    assert_eq!(words, vec![0x2204, 0x1202, 0x00E0, 0x1234, 0xDABC]);
    assert_eq!(convert_to_chip8(vec![]), Vec::<u16>::new());
}

#[test]
fn words_are_kept_high_byte_first() {
    assert_eq!(to_bytes(&[0x2204, 0x00EE]), vec![0x22, 0x04, 0x00, 0xEE]);
    assert_eq!(to_bytes(&[]), Vec::<u8>::new());
}
