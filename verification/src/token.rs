//! Tokens, mnemonics and directives, and the operand patterns of each mnemonic.
use crate::exception::{Position, Span};
use std::rc::Rc;
use vstd::prelude::*;

verus! {

/// The largest instruction index whose byte address, `0x200 + 2 * index`, still
/// fits the twelve bits of an address field.
pub const MAX_TARGET: u16 = 0x6FF;

/// One token with its place in the source.
#[derive(Debug)]
pub struct Token {
    pub token: TokenType,
    pub position: Position,
}

/// What a token is. Labels are kept in lower case; a comment holds its text
/// without the blanks at either end.
#[derive(Debug, PartialEq)]
pub enum TokenType {
    Number(u16),
    Register(u8),
    Command(Command),
    Label(String),
    MprocessorDirective(MprocessorDirective),
    Comment(String),
    Colon,
    Eof,
    Eol,
}

/// The mathematical value of a [`TokenType`].
pub enum Lexeme {
    Number(u16),
    Register(u8),
    Command(Command),
    Label(Seq<char>),
    Directive(MprocessorDirective),
    Comment(Seq<char>),
    Colon,
    Eof,
    Eol,
}

/// The mathematical value of a [`Token`].
pub struct TokenView {
    pub token: Lexeme,
    pub position: Span,
}

impl View for TokenType {
    type V = Lexeme;

    open spec fn view(&self) -> Lexeme {
        match self {
            TokenType::Number(n) => Lexeme::Number(*n),
            TokenType::Register(r) => Lexeme::Register(*r),
            TokenType::Command(c) => Lexeme::Command(*c),
            TokenType::Label(l) => Lexeme::Label(l@),
            TokenType::MprocessorDirective(d) => Lexeme::Directive(*d),
            TokenType::Comment(c) => Lexeme::Comment(c@),
            TokenType::Colon => Lexeme::Colon,
            TokenType::Eof => Lexeme::Eof,
            TokenType::Eol => Lexeme::Eol,
        }
    }
}

impl View for Token {
    type V = TokenView;

    open spec fn view(&self) -> TokenView {
        TokenView { token: self.token@, position: self.position@ }
    }
}

/// The values of a sequence of token types.
pub open spec fn lexemes(s: Seq<TokenType>) -> Seq<Lexeme> {
    Seq::new(s.len(), |i: int| s[i]@)
}

/// The values of a sequence of tokens.
pub open spec fn token_views(s: Seq<Token>) -> Seq<TokenView> {
    Seq::new(s.len(), |i: int| s[i]@)
}

impl Clone for TokenType {
    fn clone(&self) -> (r: Self)
        ensures
            r == *self,
    {
        match self {
            TokenType::Number(n) => TokenType::Number(*n),
            TokenType::Register(r) => TokenType::Register(*r),
            TokenType::Command(c) => TokenType::Command(*c),
            TokenType::Label(l) => TokenType::Label(l.clone()),
            TokenType::MprocessorDirective(d) => TokenType::MprocessorDirective(*d),
            TokenType::Comment(c) => TokenType::Comment(c.clone()),
            TokenType::Colon => TokenType::Colon,
            TokenType::Eof => TokenType::Eof,
            TokenType::Eol => TokenType::Eol,
        }
    }
}

impl Clone for Token {
    fn clone(&self) -> (r: Self)
        ensures
            r == *self,
    {
        Token { token: self.token.clone(), position: self.position.clone() }
    }
}

impl Token {
    pub fn new(token: TokenType, file: Rc<String>, line: usize, column: (usize, usize)) -> (t:
        Token)
        ensures
            t.token == token,
            t.position.line == line,
            t.position.column == column,
            t.position.file == file,
    {
        Token { token, position: Position::new(line, column, file) }
    }
}

/// The mnemonics. `CHIP` takes one number and stands for that number as a code
/// word, for instructions that no other mnemonic expresses.
#[derive(Debug, PartialEq, Eq, Structural, Clone, Copy)]
#[allow(clippy::upper_case_acronyms)]
pub enum Command {
    JMPNE,
    JMPEQ,
    JMP,
    ADD,
    CALL,
    RET,
    CLR,
    SET,
    RAND,
    DRAW,
    OR,
    AND,
    XOR,
    SUB,
    SUBFROM,
    SHR,
    SHL,
    LOAD,
    STORE,
    POINT,
    ADDPTR,
    SETPTRCHR,
    SETPTRDEC,
    OFFJMP,
    GETDELAY,
    GETKEY,
    SETDELAY,
    SETSOUND,
    JMPEQKEY,
    JMPNEKEY,
    CHIP,
}

/// The directives of the preprocessor.
#[derive(Debug, PartialEq, Eq, Structural, Clone, Copy)]
#[allow(non_camel_case_types)]
pub enum MprocessorDirective {
    M_include,
    M_error,
    M_define,
    M_undef,
    M_ifdef,
    M_ifndef,
    M_else,
    M_endif,
}

/// Every mnemonic, once.
pub open spec fn all_commands() -> Seq<Command> {
    seq![
        Command::JMPNE,
        Command::JMPEQ,
        Command::JMP,
        Command::ADD,
        Command::CALL,
        Command::RET,
        Command::CLR,
        Command::SET,
        Command::RAND,
        Command::DRAW,
        Command::OR,
        Command::AND,
        Command::XOR,
        Command::SUB,
        Command::SUBFROM,
        Command::SHR,
        Command::SHL,
        Command::LOAD,
        Command::STORE,
        Command::POINT,
        Command::ADDPTR,
        Command::SETPTRCHR,
        Command::SETPTRDEC,
        Command::OFFJMP,
        Command::GETDELAY,
        Command::GETKEY,
        Command::SETDELAY,
        Command::SETSOUND,
        Command::JMPEQKEY,
        Command::JMPNEKEY,
        Command::CHIP,
    ]
}

/// A register operand: one of the sixteen registers.
pub open spec fn is_register(l: Lexeme) -> bool {
    l matches Lexeme::Register(x) && x <= 15
}

/// A number that fits eight bits.
pub open spec fn is_byte(l: Lexeme) -> bool {
    l matches Lexeme::Number(n) && n <= 0xFF
}

/// A number that fits four bits.
pub open spec fn is_nibble(l: Lexeme) -> bool {
    l matches Lexeme::Number(n) && n <= 0xF
}

/// The target of a jump: a label, or a number that is an instruction index whose
/// byte address fits an address field.
pub open spec fn is_target(l: Lexeme) -> bool {
    l is Label || (l matches Lexeme::Number(n) && n <= MAX_TARGET)
}

/// Whether `args` is an operand list that the mnemonic accepts.
pub open spec fn valid_operands(cmd: Command, args: Seq<Lexeme>) -> bool {
    match cmd {
        Command::ADD | Command::JMPNE | Command::JMPEQ => args.len() == 2 && ((is_byte(args[0])
            && is_register(args[1])) || (is_register(args[0]) && is_byte(args[1])) || (is_register(
            args[0],
        ) && is_register(args[1]))),
        Command::RET | Command::CLR => args.len() == 0,
        Command::CALL | Command::JMP | Command::OFFJMP | Command::POINT => args.len() == 1
            && is_target(args[0]),
        Command::SET => args.len() == 2 && is_register(args[0]) && (is_byte(args[1])
            || is_register(args[1])),
        Command::RAND => args.len() == 2 && is_register(args[0]) && is_byte(args[1]),
        Command::DRAW => args.len() == 3 && is_register(args[0]) && is_register(args[1])
            && is_nibble(args[2]),
        Command::OR
        | Command::AND
        | Command::XOR
        | Command::SUB
        | Command::SUBFROM
        | Command::SHL
        | Command::SHR => args.len() == 2 && is_register(args[0]) && is_register(args[1]),
        Command::LOAD
        | Command::STORE
        | Command::ADDPTR
        | Command::SETPTRCHR
        | Command::SETPTRDEC
        | Command::GETDELAY
        | Command::GETKEY
        | Command::SETDELAY
        | Command::JMPEQKEY
        | Command::JMPNEKEY
        | Command::SETSOUND => args.len() == 1 && is_register(args[0]),
        Command::CHIP => args.len() == 1 && args[0] is Number,
    }
}

fn register_operand(t: &TokenType) -> (b: bool)
    ensures
        b == is_register(t@),
{
    match t {
        TokenType::Register(x) => *x <= 15,
        _ => false,
    }
}

fn number_operand(t: &TokenType, limit: u16) -> (b: bool)
    ensures
        b == (t@ matches Lexeme::Number(n) && n <= limit),
{
    match t {
        TokenType::Number(n) => *n <= limit,
        _ => false,
    }
}

fn target_operand(t: &TokenType) -> (b: bool)
    ensures
        b == is_target(t@),
{
    match t {
        TokenType::Label(_) => true,
        TokenType::Number(n) => *n <= MAX_TARGET,
        _ => false,
    }
}

impl Command {
    /// The mnemonic as it is written in source text, in upper case.
    pub open spec fn name(self) -> Seq<char> {
        match self {
            Command::JMPNE => "JMPNE"@,
            Command::JMPEQ => "JMPEQ"@,
            Command::JMP => "JMP"@,
            Command::ADD => "ADD"@,
            Command::CALL => "CALL"@,
            Command::RET => "RET"@,
            Command::CLR => "CLR"@,
            Command::SET => "SET"@,
            Command::RAND => "RAND"@,
            Command::DRAW => "DRAW"@,
            Command::OR => "OR"@,
            Command::AND => "AND"@,
            Command::XOR => "XOR"@,
            Command::SUB => "SUB"@,
            Command::SUBFROM => "SUBFROM"@,
            Command::SHR => "SHR"@,
            Command::SHL => "SHL"@,
            Command::LOAD => "LOAD"@,
            Command::STORE => "STORE"@,
            Command::POINT => "POINT"@,
            Command::ADDPTR => "ADDPTR"@,
            Command::SETPTRCHR => "SETPTRCHR"@,
            Command::SETPTRDEC => "SETPTRDEC"@,
            Command::OFFJMP => "OFFJMP"@,
            Command::GETDELAY => "GETDELAY"@,
            Command::GETKEY => "GETKEY"@,
            Command::SETDELAY => "SETDELAY"@,
            Command::SETSOUND => "SETSOUND"@,
            Command::JMPEQKEY => "JMPEQKEY"@,
            Command::JMPNEKEY => "JMPNEKEY"@,
            Command::CHIP => "CHIP"@,
        }
    }

    /// The mnemonic as it is written in source text, in upper case.
    pub fn mnemonic(&self) -> (s: &'static str)
        ensures
            s@ == self.name(),
    {
        match self {
            Command::JMPNE => "JMPNE",
            Command::JMPEQ => "JMPEQ",
            Command::JMP => "JMP",
            Command::ADD => "ADD",
            Command::CALL => "CALL",
            Command::RET => "RET",
            Command::CLR => "CLR",
            Command::SET => "SET",
            Command::RAND => "RAND",
            Command::DRAW => "DRAW",
            Command::OR => "OR",
            Command::AND => "AND",
            Command::XOR => "XOR",
            Command::SUB => "SUB",
            Command::SUBFROM => "SUBFROM",
            Command::SHR => "SHR",
            Command::SHL => "SHL",
            Command::LOAD => "LOAD",
            Command::STORE => "STORE",
            Command::POINT => "POINT",
            Command::ADDPTR => "ADDPTR",
            Command::SETPTRCHR => "SETPTRCHR",
            Command::SETPTRDEC => "SETPTRDEC",
            Command::OFFJMP => "OFFJMP",
            Command::GETDELAY => "GETDELAY",
            Command::GETKEY => "GETKEY",
            Command::SETDELAY => "SETDELAY",
            Command::SETSOUND => "SETSOUND",
            Command::JMPEQKEY => "JMPEQKEY",
            Command::JMPNEKEY => "JMPNEKEY",
            Command::CHIP => "CHIP",
        }
    }

    /// Every mnemonic, once.
    pub fn all() -> (list: [Command; 31])
        ensures
            list@ == all_commands(),
            forall|c: Command| list@.contains(c),
    {
        let list = [
            Command::JMPNE,
            Command::JMPEQ,
            Command::JMP,
            Command::ADD,
            Command::CALL,
            Command::RET,
            Command::CLR,
            Command::SET,
            Command::RAND,
            Command::DRAW,
            Command::OR,
            Command::AND,
            Command::XOR,
            Command::SUB,
            Command::SUBFROM,
            Command::SHR,
            Command::SHL,
            Command::LOAD,
            Command::STORE,
            Command::POINT,
            Command::ADDPTR,
            Command::SETPTRCHR,
            Command::SETPTRDEC,
            Command::OFFJMP,
            Command::GETDELAY,
            Command::GETKEY,
            Command::SETDELAY,
            Command::SETSOUND,
            Command::JMPEQKEY,
            Command::JMPNEKEY,
            Command::CHIP,
        ];
        assert(list@ =~= all_commands());
        assert forall|c: Command| list@.contains(c) by {
            match c {
                Command::JMPNE => assert(list@[0] == c),
                Command::JMPEQ => assert(list@[1] == c),
                Command::JMP => assert(list@[2] == c),
                Command::ADD => assert(list@[3] == c),
                Command::CALL => assert(list@[4] == c),
                Command::RET => assert(list@[5] == c),
                Command::CLR => assert(list@[6] == c),
                Command::SET => assert(list@[7] == c),
                Command::RAND => assert(list@[8] == c),
                Command::DRAW => assert(list@[9] == c),
                Command::OR => assert(list@[10] == c),
                Command::AND => assert(list@[11] == c),
                Command::XOR => assert(list@[12] == c),
                Command::SUB => assert(list@[13] == c),
                Command::SUBFROM => assert(list@[14] == c),
                Command::SHR => assert(list@[15] == c),
                Command::SHL => assert(list@[16] == c),
                Command::LOAD => assert(list@[17] == c),
                Command::STORE => assert(list@[18] == c),
                Command::POINT => assert(list@[19] == c),
                Command::ADDPTR => assert(list@[20] == c),
                Command::SETPTRCHR => assert(list@[21] == c),
                Command::SETPTRDEC => assert(list@[22] == c),
                Command::OFFJMP => assert(list@[23] == c),
                Command::GETDELAY => assert(list@[24] == c),
                Command::GETKEY => assert(list@[25] == c),
                Command::SETDELAY => assert(list@[26] == c),
                Command::SETSOUND => assert(list@[27] == c),
                Command::JMPEQKEY => assert(list@[28] == c),
                Command::JMPNEKEY => assert(list@[29] == c),
                Command::CHIP => assert(list@[30] == c),
            }
        }
        list
    }

    /// Whether `args` is an operand list that the mnemonic accepts.
    pub fn is_valid_chip8_instruction(&self, args: &[TokenType]) -> (valid: bool)
        ensures
            valid == valid_operands(*self, lexemes(args@)),
    {
        let n = args.len();
        match self {
            Command::ADD | Command::JMPNE | Command::JMPEQ => n == 2 && ((number_operand(
                &args[0],
                0xFF,
            ) && register_operand(&args[1])) || (register_operand(&args[0]) && number_operand(
                &args[1],
                0xFF,
            )) || (register_operand(&args[0]) && register_operand(&args[1]))),
            Command::RET | Command::CLR => n == 0,
            Command::CALL | Command::JMP | Command::OFFJMP | Command::POINT => n == 1
                && target_operand(&args[0]),
            Command::SET => n == 2 && register_operand(&args[0]) && (number_operand(&args[1], 0xFF)
                || register_operand(&args[1])),
            Command::RAND => n == 2 && register_operand(&args[0]) && number_operand(
                &args[1],
                0xFF,
            ),
            Command::DRAW => n == 3 && register_operand(&args[0]) && register_operand(&args[1])
                && number_operand(&args[2], 0xF),
            Command::OR
            | Command::AND
            | Command::XOR
            | Command::SUB
            | Command::SUBFROM
            | Command::SHL
            | Command::SHR => n == 2 && register_operand(&args[0]) && register_operand(&args[1]),
            Command::LOAD
            | Command::STORE
            | Command::ADDPTR
            | Command::SETPTRCHR
            | Command::SETPTRDEC
            | Command::GETDELAY
            | Command::GETKEY
            | Command::SETDELAY
            | Command::JMPEQKEY
            | Command::JMPNEKEY
            | Command::SETSOUND => n == 1 && register_operand(&args[0]),
            Command::CHIP => n == 1 && number_operand(&args[0], 0xFFFF),
        }
    }
}

} // verus!
