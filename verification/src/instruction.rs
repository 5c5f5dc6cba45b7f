//! Instructions with resolved operands, and their encoding as code words.
//!
//! A code word has sixteen bits. Its highest four bits select the family of the
//! instruction; register operands fill four bits each, numbers four or eight,
//! and addresses twelve.
use crate::token::{Command, MAX_TARGET};
use vstd::prelude::*;

verus! {

/// The byte address of the first code word.
pub const ORIGIN: u16 = 0x200;

/// The number of bytes in a code word.
pub const WORD_SIZE: u16 = 2;

/// An operand of an instruction: a register, a number, the instruction index
/// that a label stands for, or a code word to be taken as it is.
#[derive(Debug, PartialEq, Eq, Structural, Clone, Copy)]
pub enum InstructionArg {
    Reg(u8),
    Num(u16),
    Label(u16),
    Chip8(u16),
}

/// The byte address of the instruction with the given index.
pub open spec fn address(index: int) -> int {
    ORIGIN + WORD_SIZE * index
}

pub open spec fn is_reg(a: InstructionArg) -> bool {
    a matches InstructionArg::Reg(x) && x <= 15
}

pub open spec fn is_num(a: InstructionArg, limit: int) -> bool {
    a matches InstructionArg::Num(n) && n <= limit
}

/// An instruction index, given by a label or as a number, whose byte address
/// fits an address field.
pub open spec fn is_index(a: InstructionArg) -> bool {
    (a matches InstructionArg::Label(n) && n <= MAX_TARGET) || (a matches InstructionArg::Num(n)
        && n <= MAX_TARGET)
}

/// The number that an operand holds.
pub open spec fn value(a: InstructionArg) -> int {
    match a {
        InstructionArg::Reg(x) => x as int,
        InstructionArg::Num(n) => n as int,
        InstructionArg::Label(n) => n as int,
        InstructionArg::Chip8(w) => w as int,
    }
}

/// The code word, without its operands, of a mnemonic that takes an address.
pub open spec fn address_base(cmd: Command) -> Option<int> {
    match cmd {
        Command::JMP => Some(0x1000),
        Command::CALL => Some(0x2000),
        Command::POINT => Some(0xA000),
        Command::OFFJMP => Some(0xB000),
        _ => None,
    }
}

/// The code word, without its operands, of a mnemonic applied to a register and
/// an eight-bit number.
pub open spec fn immediate_base(cmd: Command) -> Option<int> {
    match cmd {
        Command::JMPEQ => Some(0x3000),
        Command::JMPNE => Some(0x4000),
        Command::SET => Some(0x6000),
        Command::ADD => Some(0x7000),
        Command::RAND => Some(0xC000),
        _ => None,
    }
}

/// Whether the register and the number of the mnemonic may be written in
/// either order.
pub open spec fn commutes(cmd: Command) -> bool {
    cmd == Command::ADD || cmd == Command::JMPNE || cmd == Command::JMPEQ
}

/// The code word, without its operands, of a mnemonic applied to two registers.
pub open spec fn pair_base(cmd: Command) -> Option<int> {
    match cmd {
        Command::JMPEQ => Some(0x5000),
        Command::SET => Some(0x8000),
        Command::OR => Some(0x8001),
        Command::AND => Some(0x8002),
        Command::XOR => Some(0x8003),
        Command::ADD => Some(0x8004),
        Command::SUB => Some(0x8005),
        Command::SHR => Some(0x8006),
        Command::SUBFROM => Some(0x8007),
        Command::SHL => Some(0x800E),
        Command::JMPNE => Some(0x9000),
        _ => None,
    }
}

/// The code word, without its operand, of a mnemonic applied to one register.
/// The shifts take one register or two.
pub open spec fn single_base(cmd: Command) -> Option<int> {
    match cmd {
        Command::SHR => Some(0x8006),
        Command::SHL => Some(0x800E),
        Command::JMPEQKEY => Some(0xE09E),
        Command::JMPNEKEY => Some(0xE0A1),
        Command::GETDELAY => Some(0xF007),
        Command::GETKEY => Some(0xF00A),
        Command::SETDELAY => Some(0xF015),
        Command::SETSOUND => Some(0xF018),
        Command::ADDPTR => Some(0xF01E),
        Command::SETPTRCHR => Some(0xF029),
        Command::SETPTRDEC => Some(0xF033),
        Command::STORE => Some(0xF055),
        Command::LOAD => Some(0xF065),
        _ => None,
    }
}

/// The code word of an instruction, where its operands fit the mnemonic.
pub open spec fn code_word(cmd: Command, args: Seq<InstructionArg>) -> Option<int> {
    if args.len() == 0 {
        match cmd {
            Command::RET => Some(0x00EE),
            Command::CLR => Some(0x00E0),
            _ => None,
        }
    } else if args.len() == 1 {
        if cmd == Command::CHIP {
            if args[0] is Chip8 {
                Some(value(args[0]))
            } else {
                None
            }
        } else if address_base(cmd) is Some && is_index(args[0]) {
            Some(address_base(cmd)->0 + address(value(args[0])))
        } else if single_base(cmd) is Some && is_reg(args[0]) {
            Some(single_base(cmd)->0 + 0x100 * value(args[0]))
        } else {
            None
        }
    } else if args.len() == 2 {
        if pair_base(cmd) is Some && is_reg(args[0]) && is_reg(args[1]) {
            Some(pair_base(cmd)->0 + 0x100 * value(args[0]) + 0x10 * value(args[1]))
        } else if immediate_base(cmd) is Some && is_reg(args[0]) && is_num(args[1], 0xFF) {
            Some(immediate_base(cmd)->0 + 0x100 * value(args[0]) + value(args[1]))
        } else if commutes(cmd) && is_num(args[0], 0xFF) && is_reg(args[1]) {
            Some(immediate_base(cmd)->0 + 0x100 * value(args[1]) + value(args[0]))
        } else {
            None
        }
    } else if args.len() == 3 {
        if cmd == Command::DRAW && is_reg(args[0]) && is_reg(args[1]) && is_num(args[2], 0xF) {
            Some(0xD000 + 0x100 * value(args[0]) + 0x10 * value(args[1]) + value(args[2]))
        } else {
            None
        }
    } else {
        None
    }
}

/// Whether the instruction has a code word.
pub open spec fn encodable(cmd: Command, args: Seq<InstructionArg>) -> bool {
    code_word(cmd, args) is Some
}

/// The code words of a list of instructions, one for each, in order.
pub open spec fn code_words(instructions: Seq<(Command, Vec<InstructionArg>)>) -> Seq<u16> {
    Seq::new(
        instructions.len(),
        |i: int| code_word(instructions[i].0, instructions[i].1@)->0 as u16,
    )
}

fn base_for_address(cmd: Command) -> (r: Option<u16>)
    ensures
        r is Some == address_base(cmd) is Some,
        r matches Some(b) ==> b == address_base(cmd)->0,
{
    match cmd {
        Command::JMP => Some(0x1000),
        Command::CALL => Some(0x2000),
        Command::POINT => Some(0xA000),
        Command::OFFJMP => Some(0xB000),
        _ => None,
    }
}

fn base_for_immediate(cmd: Command) -> (r: Option<u16>)
    ensures
        r is Some == immediate_base(cmd) is Some,
        r matches Some(b) ==> b == immediate_base(cmd)->0,
{
    match cmd {
        Command::JMPEQ => Some(0x3000),
        Command::JMPNE => Some(0x4000),
        Command::SET => Some(0x6000),
        Command::ADD => Some(0x7000),
        Command::RAND => Some(0xC000),
        _ => None,
    }
}

fn base_for_pair(cmd: Command) -> (r: Option<u16>)
    ensures
        r is Some == pair_base(cmd) is Some,
        r matches Some(b) ==> b == pair_base(cmd)->0,
{
    match cmd {
        Command::JMPEQ => Some(0x5000),
        Command::SET => Some(0x8000),
        Command::OR => Some(0x8001),
        Command::AND => Some(0x8002),
        Command::XOR => Some(0x8003),
        Command::ADD => Some(0x8004),
        Command::SUB => Some(0x8005),
        Command::SHR => Some(0x8006),
        Command::SUBFROM => Some(0x8007),
        Command::SHL => Some(0x800E),
        Command::JMPNE => Some(0x9000),
        _ => None,
    }
}

fn base_for_single(cmd: Command) -> (r: Option<u16>)
    ensures
        r is Some == single_base(cmd) is Some,
        r matches Some(b) ==> b == single_base(cmd)->0,
{
    match cmd {
        Command::SHR => Some(0x8006),
        Command::SHL => Some(0x800E),
        Command::JMPEQKEY => Some(0xE09E),
        Command::JMPNEKEY => Some(0xE0A1),
        Command::GETDELAY => Some(0xF007),
        Command::GETKEY => Some(0xF00A),
        Command::SETDELAY => Some(0xF015),
        Command::SETSOUND => Some(0xF018),
        Command::ADDPTR => Some(0xF01E),
        Command::SETPTRCHR => Some(0xF029),
        Command::SETPTRDEC => Some(0xF033),
        Command::STORE => Some(0xF055),
        Command::LOAD => Some(0xF065),
        _ => None,
    }
}

fn register(a: &InstructionArg) -> (r: Option<u16>)
    ensures
        r is Some == is_reg(*a),
        r matches Some(x) ==> x == value(*a),
{
    match a {
        InstructionArg::Reg(x) => if *x <= 15 {
            Some(*x as u16)
        } else {
            None
        },
        _ => None,
    }
}

fn number(a: &InstructionArg, limit: u16) -> (r: Option<u16>)
    ensures
        r is Some == is_num(*a, limit as int),
        r matches Some(n) ==> n == value(*a),
{
    match a {
        InstructionArg::Num(n) => if *n <= limit {
            Some(*n)
        } else {
            None
        },
        _ => None,
    }
}

fn index(a: &InstructionArg) -> (r: Option<u16>)
    ensures
        r is Some == is_index(*a),
        r matches Some(n) ==> n == value(*a),
{
    match a {
        InstructionArg::Label(n) | InstructionArg::Num(n) => if *n <= MAX_TARGET {
            Some(*n)
        } else {
            None
        },
        _ => None,
    }
}

/// The code word of one instruction, or `None` where the operands do not fit
/// the mnemonic.
pub fn encode(cmd: Command, args: &[InstructionArg]) -> (word: Option<u16>)
    ensures
        word is Some == encodable(cmd, args@),
        word matches Some(w) ==> w == code_word(cmd, args@)->0,
{
    let n = args.len();
    if n == 0 {
        match cmd {
            Command::RET => Some(0x00EE),
            Command::CLR => Some(0x00E0),
            _ => None,
        }
    } else if n == 1 {
        if cmd == Command::CHIP {
            match args[0] {
                InstructionArg::Chip8(w) => Some(w),
                _ => None,
            }
        } else {
            match (base_for_address(cmd), index(&args[0])) {
                (Some(base), Some(i)) => Some(base + (ORIGIN + WORD_SIZE * i)),
                _ => match (base_for_single(cmd), register(&args[0])) {
                    (Some(base), Some(x)) => Some(base + 0x100 * x),
                    _ => None,
                },
            }
        }
    } else if n == 2 {
        let first = register(&args[0]);
        let second = register(&args[1]);
        match (base_for_pair(cmd), first, second) {
            (Some(base), Some(x), Some(y)) => Some(base + 0x100 * x + 0x10 * y),
            _ => match (base_for_immediate(cmd), first, number(&args[1], 0xFF)) {
                (Some(base), Some(x), Some(nn)) => Some(base + 0x100 * x + nn),
                _ => {
                    let commutes = cmd == Command::ADD || cmd == Command::JMPNE || cmd
                        == Command::JMPEQ;
                    match (base_for_immediate(cmd), number(&args[0], 0xFF), second) {
                        (Some(base), Some(nn), Some(x)) => if commutes {
                            Some(base + 0x100 * x + nn)
                        } else {
                            None
                        },
                        _ => None,
                    }
                },
            },
        }
    } else if n == 3 {
        if cmd == Command::DRAW {
            match (register(&args[0]), register(&args[1]), number(&args[2], 0xF)) {
                (Some(x), Some(y), Some(k)) => Some(0xD000 + 0x100 * x + 0x10 * y + k),
                _ => None,
            }
        } else {
            None
        }
    } else {
        None
    }
}

/// The code words of a list of instructions, one for each, in order.
///
/// Every instruction has to be encodable, which [`encode`] tests.
pub fn convert_to_chip8(instructions: Vec<(Command, Vec<InstructionArg>)>) -> (words: Vec<u16>)
    requires
        forall|i: int|
            0 <= i < instructions.len() ==> encodable(
                #[trigger] instructions[i].0,
                instructions[i].1@,
            ),
    ensures
        words@ == code_words(instructions@),
{
    let mut words: Vec<u16> = Vec::new();
    let mut k: usize = 0;
    while k < instructions.len()
        invariant
            k <= instructions.len(),
            words@.len() == k,
            forall|i: int|
                0 <= i < instructions.len() ==> encodable(
                    #[trigger] instructions[i].0,
                    instructions[i].1@,
                ),
            forall|i: int|
                0 <= i < k ==> #[trigger] words@[i] as int == code_word(
                    instructions[i].0,
                    instructions[i].1@,
                )->0,
        decreases instructions.len() - k,
    {
        let word = encode(instructions[k].0, instructions[k].1.as_slice());
        assert(encodable(instructions[k as int].0, instructions[k as int].1@));
        match word {
            Some(w) => words.push(w),
            None => {},
        }
        k += 1;
    }
    assert(words@ =~= code_words(instructions@));
    words
}


/// The bytes of the code words, each word with its high byte first.
pub open spec fn word_bytes(words: Seq<u16>) -> Seq<u8> {
    Seq::new(
        2 * words.len(),
        |k: int|
            if k % 2 == 0 {
                (words[k / 2] / 0x100) as u8
            } else {
                (words[k / 2] % 0x100) as u8
            },
    )
}

/// The bytes of the code words as they are kept in a file: each word with its
/// high byte first.
pub fn to_bytes(words: &[u16]) -> (bytes: Vec<u8>)
    ensures
        bytes@ == word_bytes(words@),
{
    let mut bytes: Vec<u8> = Vec::new();
    let mut i: usize = 0;
    while i < words.len()
        invariant
            i <= words.len(),
            bytes@.len() == 2 * i,
            forall|k: int| 0 <= k < 2 * i ==> bytes@[k] == #[trigger] word_bytes(words@)[k],
        decreases words.len() - i,
    {
        let w = words[i];
        bytes.push((w / 0x100) as u8);
        bytes.push((w % 0x100) as u8);
        i += 1;
    }
    assert(bytes@ =~= word_bytes(words@));
    bytes
}

/// Every code word fits sixteen bits.
pub proof fn lemma_code_word_fits(cmd: Command, args: Seq<InstructionArg>)
    requires
        encodable(cmd, args),
    ensures
        0 <= code_word(cmd, args)->0 <= 0xFFFF,
{
}

/// Where the register and the number of a mnemonic may be written in either
/// order, both orders give the same code word.
pub proof fn lemma_operands_commute(cmd: Command, r: InstructionArg, n: InstructionArg)
    requires
        commutes(cmd),
        is_reg(r),
        is_num(n, 0xFF),
    ensures
        code_word(cmd, seq![r, n]) is Some,
        code_word(cmd, seq![r, n]) == code_word(cmd, seq![n, r]),
{
}

/// No form with two registers belongs to the family of a form with a register
/// and a number, whatever the two mnemonics are: their code words without
/// operands differ in the highest four bits.
pub proof fn lemma_register_forms_have_their_own_families(a: Command, b: Command)
    requires
        pair_base(a) is Some,
        immediate_base(b) is Some,
    ensures
        pair_base(a)->0 / 0x1000 != immediate_base(b)->0 / 0x1000,
{
}

/// An instruction of two registers and an instruction of a register and a
/// number never have the same code word, in whichever order the register and
/// the number are written: the words differ in the highest four bits.
pub proof fn lemma_register_form_never_collides(
    a: Command,
    x: InstructionArg,
    y: InstructionArg,
    b: Command,
    r: InstructionArg,
    n: InstructionArg,
)
    requires
        pair_base(a) is Some,
        is_reg(x),
        is_reg(y),
        immediate_base(b) is Some,
        is_reg(r),
        is_num(n, 0xFF),
    ensures
        code_word(a, seq![x, y]) is Some,
        code_word(b, seq![r, n]) is Some,
        code_word(a, seq![x, y])->0 / 0x1000 != code_word(b, seq![r, n])->0 / 0x1000,
        code_word(a, seq![x, y]) != code_word(b, seq![r, n]),
        commutes(b) ==> code_word(a, seq![x, y]) != code_word(b, seq![n, r]),
{
}

/// A label and a number in the place of an address are taken alike: the code
/// word holds the family of the mnemonic in its highest four bits and the byte
/// address of the instruction, `ORIGIN + WORD_SIZE * index`, in the other twelve.
pub proof fn lemma_address_field(cmd: Command, index: u16)
    requires
        address_base(cmd) is Some,
        index <= MAX_TARGET,
    ensures
        code_word(cmd, seq![InstructionArg::Label(index)]) == code_word(
            cmd,
            seq![InstructionArg::Num(index)],
        ),
        code_word(cmd, seq![InstructionArg::Label(index)]) == Some(
            address_base(cmd)->0 + address(index as int),
        ),
        code_word(cmd, seq![InstructionArg::Label(index)])->0 % 0x1000 == address(index as int),
        code_word(cmd, seq![InstructionArg::Label(index)])->0 / 0x1000 == address_base(cmd)->0
            / 0x1000,
{
}

} // verus!
