//! From tokens to instructions: the parser that carries out the machine of
//! [`crate::machine`] on the tokens of a program.
use crate::exception::{located, CompileError, ErrorKind, NoMain};
use crate::instruction::{encodable, InstructionArg};
use crate::lexer::{lemma_lex_ends_with_eof, lex, lex_tokens};
use crate::machine::{
    at_end, awaits_include, command_step, directive_step, drained, ends_line, halted, header,
    initial, label_step, lemma_pass, lemma_resolved_encodable, lemma_statement_end, lemma_step,
    lemma_stops_where_it_waits, moved, opened, operand_fault, operands, pass, placement_step,
    program, resolve, resolve_instruction, restarted, run, sound, spliced, statement_end, step,
    stray_text, suppressed, unreadable_text, well_formed, Outcome, ParserState, Step,
    MAX_PROGRAM,
};
use crate::text::{joined, quoted, share, trimmed};
use crate::token::{
    lexemes, token_views, Command, Lexeme, MprocessorDirective, Token, TokenType,
};
use std::rc::Rc;
use vstd::hash_map::StringHashMap;
use vstd::hash_set::StringHashSet;
use vstd::prelude::*;

verus! {

/// The values of a list of instructions as they were written.
pub open spec fn statement_views(s: Seq<(Command, Vec<TokenType>)>) -> Seq<
    (Command, Seq<Lexeme>),
> {
    Seq::new(s.len(), |i: int| (s[i].0, lexemes(s[i].1@)))
}

/// The values of a list of instructions.
pub open spec fn instruction_views(s: Seq<(Command, Vec<InstructionArg>)>) -> Seq<
    (Command, Seq<InstructionArg>),
> {
    Seq::new(s.len(), |i: int| (s[i].0, s[i].1@))
}

/// Whether the result `r` of a step, with the states before and after it, is
/// what `step` says. A step that does not lead on leaves the state as it was.
pub open spec fn follows(
    before: ParserState,
    after: ParserState,
    r: Result<Option<String>, CompileError>,
    step: Step,
) -> bool {
    match step {
        Step::Next(next) => r matches Ok(None) && after == next,
        Step::Include(path) => r matches Ok(Some(p)) && p@ == path && after == before,
        Step::Fail(d) => r matches Err(e) && e@ == d && after == before,
    }
}

/// Whether the result `r` of a call of `parse` is what `outcome` says.
pub open spec fn answers(r: Result<Progress, CompileError>, outcome: Outcome) -> bool {
    match outcome {
        Outcome::Complete(program) => r matches Ok(Progress::Complete(v)) && instruction_views(v@)
            == program,
        Outcome::Include(path) => r matches Ok(Progress::Include(p)) && p@ == path,
        Outcome::Fail(d) => r matches Err(e) && e@ == d,
    }
}

/// How far a call of `parse` came.
#[derive(Debug)]
pub enum Progress {
    /// The program is complete: the two instructions that start it, then the
    /// instructions of the source, with every label resolved.
    Complete(Vec<(Command, Vec<InstructionArg>)>),
    /// The text of the file with this path is needed: hand it to
    /// [`Parser::insert_file`], or report with [`Parser::file_unreadable`] that it
    /// cannot be had, and call `parse` again.
    Include(String),
}

/// The parser of one program.
pub struct Parser {
    tokens: Vec<Token>,
    current_token: usize,
    ifs: Vec<bool>,
    defined: StringHashSet,
    labels: StringHashMap<usize>,
    instructions: Vec<(Command, Vec<TokenType>)>,
    has_main: bool,
    second_pass: bool,
    outcomes: Vec<Option<bool>>,
}

impl View for Parser {
    type V = ParserState;

    closed spec fn view(&self) -> ParserState {
        ParserState {
            tokens: token_views(self.tokens@),
            cursor: self.current_token as int,
            ifs: self.ifs@,
            defined: self.defined@,
            labels: self.labels@,
            instructions: statement_views(self.instructions@),
            has_main: self.has_main,
            second_pass: self.second_pass,
            outcomes: self.outcomes@,
        }
    }
}

proof fn lemma_same_state(a: ParserState, b: ParserState)
    requires
        a.tokens =~= b.tokens,
        a.cursor == b.cursor,
        a.ifs =~= b.ifs,
        a.defined =~= b.defined,
        a.labels =~= b.labels,
        a.instructions =~~= b.instructions,
        a.has_main == b.has_main,
        a.second_pass == b.second_pass,
        a.outcomes =~= b.outcomes,
    ensures
        a == b,
{
}

/// As many entries as asked for, none of which holds an outcome.
fn blank(n: usize) -> (v: Vec<Option<bool>>)
    ensures
        v@ == Seq::new(n as nat, |i: int| None::<bool>),
{
    let mut v: Vec<Option<bool>> = Vec::new();
    while v.len() < n
        invariant
            v@.len() <= n,
            forall|i: int| 0 <= i < v@.len() ==> v@[i] is None,
        decreases n - v.len(),
    {
        v.push(None);
    }
    assert(v@ =~= Seq::new(n as nat, |i: int| None::<bool>));
    v
}

/// A token follows every token that is no `Eof`.
proof fn lemma_room(s: ParserState)
    requires
        well_formed(s),
        !at_end(s),
    ensures
        s.cursor + 1 < s.tokens.len(),
{
}

impl Parser {
    /// A parser for `tokens`, whose last token has to be an `Eof`.
    pub fn new(tokens: Vec<Token>) -> (parser: Parser)
        requires
            tokens@.len() > 0,
            tokens@.last().token@ is Eof,
        ensures
            parser@ == initial(token_views(tokens@)),
            well_formed(parser@),
    {
        let outcomes = blank(tokens.len());
        let parser = Parser {
            tokens,
            current_token: 0,
            ifs: Vec::new(),
            defined: StringHashSet::new(),
            labels: StringHashMap::new(),
            instructions: Vec::new(),
            has_main: false,
            second_pass: false,
            outcomes,
        };
        proof {
            lemma_same_state(parser@, initial(token_views(tokens@)));
        }
        parser
    }

    /// A token follows the one at the cursor, which is no `Eof`.
    proof fn room(&self)
        requires
            well_formed(self@),
            !at_end(self@),
        ensures
            self.current_token + 1 < self.tokens.len(),
            self@.tokens.len() == self.tokens.len(),
            self.outcomes.len() == self.tokens.len(),
            self@.cursor == self.current_token,
    {
        lemma_room(self@);
        assert(self@.tokens.len() == self.tokens.len());
    }

    /// Moves on to the next token.
    fn advance(&mut self)
        requires
            old(self).current_token < usize::MAX,
        ensures
            final(self)@ == moved(old(self)@, 1),
    {
        self.current_token += 1;
        proof {
            lemma_same_state(self@, moved(old(self)@, 1));
        }
    }

    /// Whether the tokens are read in a branch that is not taken.
    fn ignore(&self) -> (b: bool)
        ensures
            b == suppressed(self@.ifs),
    {
        let mut k: usize = 0;
        while k < self.ifs.len()
            invariant
                k <= self.ifs.len(),
                forall|j: int| 0 <= j < k ==> self.ifs@[j],
            decreases self.ifs.len() - k,
        {
            if !self.ifs[k] {
                return true;
            }
            k += 1;
        }
        false
    }

    /// The token at the cursor.
    fn current_token(&self) -> (t: &Token)
        requires
            self.current_token < self.tokens.len(),
        ensures
            t@ == self@.tokens[self@.cursor],
    {
        &self.tokens[self.current_token]
    }

    /// The failure of `kind` at the place of the token with the given index.
    fn fail_at(&self, kind: ErrorKind, details: String, index: usize) -> (e: CompileError)
        requires
            index < self.tokens.len(),
            kind != ErrorKind::MissingMain,
        ensures
            e@ == located(kind, details@, self@.tokens[index as int].position),
    {
        CompileError::at(kind, details, self.tokens[index].position.clone())
    }

    /// Takes the token at the cursor and the one behind it out of the tokens.
    fn drop_pair(&mut self)
        requires
            old(self).current_token + 1 < old(self).tokens.len(),
            old(self).outcomes.len() == old(self).tokens.len(),
        ensures
            final(self)@ == drained(old(self)@),
    {
        let k = self.current_token;
        self.tokens.remove(k + 1);
        self.tokens.remove(k);
        self.outcomes.remove(k + 1);
        self.outcomes.remove(k);
        proof {
            lemma_same_state(self@, drained(old(self)@));
        }
    }

    /// Puts the outcome of the condition at the cursor on the stack, where
    /// `found` is what the flags say. The cursor stays.
    fn open(&mut self, found: bool)
        requires
            old(self).current_token < old(self).outcomes.len(),
        ensures
            final(self)@ == (ParserState {
                cursor: old(self)@.cursor,
                ..opened(old(self)@, found)
            }),
    {
        let k = self.current_token;
        if self.second_pass {
            let taken = match self.outcomes[k] {
                Some(b) => b,
                None => found,
            };
            self.ifs.push(taken);
        } else {
            self.outcomes.set(k, Some(found));
            self.ifs.push(found);
        }
        proof {
            lemma_same_state(
                self@,
                ParserState { cursor: old(self)@.cursor, ..opened(old(self)@, found) },
            );
        }
    }

    /// Carries out the directive at the cursor.
    fn m_process(&mut self, d: MprocessorDirective) -> (r: Result<Option<String>, CompileError>)
        requires
            well_formed(old(self)@),
            old(self)@.tokens[old(self)@.cursor].token == Lexeme::Directive(d),
        ensures
            follows(old(self)@, final(self)@, r, directive_step(old(self)@, d)),
    {
        proof {
            self.room();
        }
        let ignore = self.ignore();
        let k = self.current_token;
        let arg = match &self.tokens[k + 1].token {
            TokenType::Comment(text) => trimmed(text.as_str()),
            _ => {
                return Err(
                    self.fail_at(
                        ErrorKind::Syntax,
                        String::from_str("Expected ';' after a preprocessor directive"),
                        k + 1,
                    ),
                );
            },
        };
        match d {
            MprocessorDirective::M_include => {
                if !ignore {
                    return Ok(Some(arg));
                }
            },
            MprocessorDirective::M_error => {
                if !ignore {
                    return Err(self.fail_at(ErrorKind::Preprocessor, arg, k + 1));
                }
            },
            MprocessorDirective::M_define => {
                if !ignore {
                    self.defined.insert(arg);
                    self.drop_pair();
                    return Ok(None);
                }
            },
            MprocessorDirective::M_undef => {
                if !ignore {
                    if !self.defined.contains(arg.as_str()) {
                        return Err(
                            self.fail_at(
                                ErrorKind::Preprocessor,
                                joined("Undefined flag: ", arg.as_str()),
                                k + 1,
                            ),
                        );
                    }
                    self.defined.remove(arg.as_str());
                    self.drop_pair();
                    return Ok(None);
                }
            },
            MprocessorDirective::M_ifdef => {
                let found = self.defined.contains(arg.as_str());
                self.open(found);
            },
            MprocessorDirective::M_ifndef => {
                let found = !self.defined.contains(arg.as_str());
                self.open(found);
            },
            MprocessorDirective::M_else => {
                let n = self.ifs.len();
                if n == 0 {
                    return Err(
                        self.fail_at(
                            ErrorKind::Syntax,
                            String::from_str("%?| without any %?# or %?!"),
                            k + 1,
                        ),
                    );
                }
                let top = self.ifs[n - 1];
                self.ifs.set(n - 1, !top);
            },
            MprocessorDirective::M_endif => {
                if self.ifs.len() == 0 {
                    return Err(
                        self.fail_at(
                            ErrorKind::Syntax,
                            String::from_str("%?- without any %?# or %?!"),
                            k + 1,
                        ),
                    );
                }
                self.ifs.pop();
            },
        }
        self.current_token = k + 2;
        proof {
            if let Step::Next(next) = directive_step(old(self)@, d) {
                lemma_same_state(self@, next);
            }
        }
        Ok(None)
    }

    /// Enters the label at the cursor among the labels.
    fn label(&mut self, name: String) -> (r: Result<Option<String>, CompileError>)
        requires
            well_formed(old(self)@),
            old(self)@.tokens[old(self)@.cursor].token == Lexeme::Label(name@),
        ensures
            follows(old(self)@, final(self)@, r, label_step(old(self)@, name@)),
    {
        proof {
            self.room();
        }
        let k = self.current_token;
        if !matches!(self.tokens[k + 1].token, TokenType::Colon) {
            return Err(
                self.fail_at(ErrorKind::Syntax, String::from_str("Expected : after label name"), k),
            );
        }
        if self.labels.contains_key(name.as_str()) {
            return Err(
                self.fail_at(
                    ErrorKind::Redefinition,
                    quoted(
                        "Label '",
                        name.as_str(),
                        "' has already been defined and cannot be redefined",
                    ),
                    k,
                ),
            );
        }
        if name == String::from_str("main") {
            self.has_main = true;
        }
        self.labels.insert(name, 0);
        self.current_token = k + 2;
        proof {
            if let Step::Next(next) = label_step(old(self)@, name@) {
                lemma_same_state(self@, next);
            }
        }
        Ok(None)
    }

    /// Gives the label at the cursor the index of the instruction that comes next.
    fn place(&mut self, name: String) -> (r: Result<Option<String>, CompileError>)
        requires
            well_formed(old(self)@),
            old(self)@.tokens[old(self)@.cursor].token == Lexeme::Label(name@),
        ensures
            follows(old(self)@, final(self)@, r, placement_step(old(self)@, name@)),
    {
        proof {
            self.room();
        }
        let k = self.current_token;
        if !matches!(self.tokens[k + 1].token, TokenType::Colon) {
            return Err(
                self.fail_at(ErrorKind::Syntax, String::from_str("Expected : after label name"), k),
            );
        }
        if self.labels.contains_key(name.as_str()) {
            self.labels.insert(name, self.instructions.len());
        }
        self.current_token = k + 2;
        proof {
            if let Step::Next(next) = placement_step(old(self)@, name@) {
                lemma_same_state(self@, next);
            }
        }
        Ok(None)
    }

    /// Reads the statement of the mnemonic at the cursor.
    fn command(&mut self, cmd: Command) -> (r: Result<Option<String>, CompileError>)
        requires
            well_formed(old(self)@),
            old(self)@.tokens[old(self)@.cursor].token == Lexeme::Command(cmd),
        ensures
            follows(old(self)@, final(self)@, r, command_step(old(self)@, cmd)),
    {
        let k = self.current_token;
        let ghost end = statement_end(self@.tokens, k + 1);
        proof {
            self.room();
            lemma_statement_end(self@.tokens, k + 1);
        }
        let mut args: Vec<TokenType> = Vec::new();
        let mut j: usize = k + 1;
        while !matches!(
            self.tokens[j].token,
            TokenType::Comment(_) | TokenType::Eol | TokenType::Eof
        )
            invariant
                *self == *old(self),
                well_formed(self@),
                k == self.current_token,
                k < j <= end < self.tokens.len(),
                end == statement_end(self@.tokens, k + 1),
                ends_line(self@.tokens[end].token),
                operand_fault(self@.tokens, self@.labels, k + 1, end) == operand_fault(
                    self@.tokens,
                    self@.labels,
                    j as int,
                    end,
                ),
                args@.len() == j - k - 1,
                lexemes(args@) == operands(self@.tokens, k + 1, j as int),
            decreases self.tokens.len() - j,
        {
            assert(j < end);
            match &self.tokens[j].token {
                TokenType::Register(_) | TokenType::Number(_) => {},
                TokenType::Label(l) => {
                    if !self.labels.contains_key(l.as_str()) {
                        return Err(
                            self.fail_at(
                                ErrorKind::UndefinedLabel,
                                quoted("label '", l.as_str(), "' is not defined anywhere"),
                                j,
                            ),
                        );
                    }
                },
                _ => {
                    return Err(
                        self.fail_at(
                            ErrorKind::Syntax,
                            String::from_str(
                                "Expected a register, label, or number as an argument",
                            ),
                            j,
                        ),
                    );
                },
            }
            let ghost earlier = args@;
            args.push(self.tokens[j].token.clone());
            assert forall|b: int| 0 <= b < args@.len() implies lexemes(args@)[b] == operands(
                self@.tokens,
                k + 1,
                j + 1,
            )[b] by {
                if b < earlier.len() {
                    assert(lexemes(earlier)[b] == operands(self@.tokens, k + 1, j as int)[b]);
                }
            }
            assert(lexemes(args@) =~= operands(self@.tokens, k + 1, j + 1));
            j += 1;
        }
        assert(j == end);
        if !cmd.is_valid_chip8_instruction(args.as_slice()) {
            return Err(
                self.fail_at(
                    ErrorKind::Syntax,
                    joined("Invalid arguments to command ", cmd.mnemonic()),
                    k,
                ),
            );
        }
        if self.instructions.len() >= MAX_PROGRAM {
            return Err(
                self.fail_at(
                    ErrorKind::NumberOverflow,
                    String::from_str("The program is too long"),
                    k,
                ),
            );
        }
        self.instructions.push((cmd, args));
        self.current_token = j;
        proof {
            if let Step::Next(next) = command_step(old(self)@, cmd) {
                lemma_same_state(self@, next);
            }
        }
        Ok(None)
    }

    /// The failure for a number, a register or a colon that stands by itself.
    fn stray(&self) -> (e: CompileError)
        requires
            self.current_token < self.tokens.len(),
            self@.tokens[self@.cursor].token is Number || self@.tokens[self@.cursor].token
                is Register || self@.tokens[self@.cursor].token is Colon,
        ensures
            e@ == located(
                ErrorKind::Syntax,
                stray_text(self@.tokens[self@.cursor].token),
                self@.tokens[self@.cursor].position,
            ),
    {
        let k = self.current_token;
        let details = match &self.tokens[k].token {
            TokenType::Number(_) => String::from_str(
                "You cant just randomly put numbers anywhere you like you know",
            ),
            TokenType::Register(_) => String::from_str(
                "You cant just randomly put registers anywhere you like you know",
            ),
            _ => String::from_str("You cant just randomly put colons anywhere you like you know"),
        };
        self.fail_at(ErrorKind::Syntax, details, k)
    }

    /// One step of the first pass.
    fn labels(&mut self) -> (r: Result<Option<String>, CompileError>)
        requires
            well_formed(old(self)@),
            !at_end(old(self)@),
            !old(self)@.second_pass,
        ensures
            follows(old(self)@, final(self)@, r, step(old(self)@)),
    {
        proof {
            self.room();
        }
        let ignore = self.ignore();
        let k = self.current_token;
        match &self.tokens[k].token {
            TokenType::MprocessorDirective(d) => {
                let d = *d;
                self.m_process(d)
            },
            TokenType::Command(_) => {
                if ignore {
                    self.advance();
                    return Ok(None);
                }
                proof {
                    lemma_statement_end(self@.tokens, k + 1);
                }
                let mut j: usize = k + 1;
                while !matches!(
                    self.tokens[j].token,
                    TokenType::Comment(_) | TokenType::Eol | TokenType::Eof
                )
                    invariant
                        *self == *old(self),
                        k < j < self.tokens.len(),
                        self@.tokens.last().token is Eof,
                        statement_end(self@.tokens, k + 1) == statement_end(
                            self@.tokens,
                            j as int,
                        ),
                    decreases self.tokens.len() - j,
                {
                    j += 1;
                }
                self.current_token = j;
                proof {
                    lemma_same_state(self@, ParserState { cursor: j as int, ..old(self)@ });
                }
                Ok(None)
            },
            TokenType::Label(l) => {
                if !ignore {
                    let name = l.clone();
                    self.label(name)
                } else {
                    self.advance();
                    Ok(None)
                }
            },
            TokenType::Number(_) | TokenType::Register(_) | TokenType::Colon => {
                if !ignore {
                    Err(self.stray())
                } else {
                    self.advance();
                    Ok(None)
                }
            },
            _ => {
                self.advance();
                Ok(None)
            },
        }
    }

    /// One step of the second pass.
    fn statement(&mut self) -> (r: Result<Option<String>, CompileError>)
        requires
            well_formed(old(self)@),
            !at_end(old(self)@),
            old(self)@.second_pass,
        ensures
            follows(old(self)@, final(self)@, r, step(old(self)@)),
    {
        proof {
            self.room();
        }
        let ignore = self.ignore();
        let k = self.current_token;
        match &self.tokens[k].token {
            TokenType::MprocessorDirective(d) => {
                let d = *d;
                self.m_process(d)
            },
            TokenType::Command(c) => {
                if !ignore {
                    let c = *c;
                    self.command(c)
                } else {
                    self.advance();
                    Ok(None)
                }
            },
            TokenType::Label(l) => {
                if !ignore {
                    let name = l.clone();
                    self.place(name)
                } else {
                    self.advance();
                    Ok(None)
                }
            },
            TokenType::Number(_) | TokenType::Register(_) | TokenType::Colon => {
                if !ignore {
                    Err(self.stray())
                } else {
                    self.advance();
                    Ok(None)
                }
            },
            _ => {
                self.advance();
                Ok(None)
            },
        }
    }

    /// Runs the pass that the parser is in up to its end, an include or a failure.
    fn statements(&mut self) -> (r: Result<Option<String>, CompileError>)
        requires
            well_formed(old(self)@),
        ensures
            well_formed(final(self)@),
            final(self)@ == pass(old(self)@).state,
            match halted(pass(old(self)@)) {
                Some(run) => match run.outcome {
                    Outcome::Include(path) => r matches Ok(Some(p)) && p@ == path,
                    Outcome::Fail(d) => r matches Err(e) && e@ == d,
                    Outcome::Complete(_) => false,
                },
                None => r matches Ok(None),
            },
    {
        while !matches!(self.tokens[self.current_token].token, TokenType::Eof)
            invariant
                well_formed(self@),
                self.current_token < self.tokens.len(),
                pass(self@) == pass(old(self)@),
            decreases self@.tokens.len() - self@.cursor,
        {
            proof {
                lemma_step(self@);
            }
            let r = if self.second_pass {
                self.statement()
            } else {
                self.labels()
            };
            match r {
                Ok(None) => {},
                Ok(Some(path)) => {
                    return Ok(Some(path));
                },
                Err(e) => {
                    return Err(e);
                },
            }
        }
        if self.ifs.len() > 0 {
            return Err(
                self.fail_at(
                    ErrorKind::Syntax,
                    String::from_str("%?# or %?! were not ended"),
                    self.current_token,
                ),
            );
        }
        if !self.has_main {
            return Err(
                CompileError::NoMain(NoMain(share(&self.current_token().position.file))),
            );
        }
        Ok(None)
    }

    /// The operands of the `i`-th instruction, resolved.
    fn resolve_args(&self, i: usize) -> (out: Vec<InstructionArg>)
        requires
            well_formed(self@),
            i < self.instructions.len(),
        ensures
            out@ == resolve_instruction(self@.labels, self@.instructions[i as int]).1,
    {
        let cmd = self.instructions[i].0;
        let args = &self.instructions[i].1;
        let mut out: Vec<InstructionArg> = Vec::new();
        let mut a: usize = 0;
        while a < args.len()
            invariant
                well_formed(self@),
                i < self.instructions.len(),
                cmd == self.instructions@[i as int].0,
                *args == self.instructions@[i as int].1,
                a <= args.len(),
                out@.len() == a,
                forall|b: int|
                    0 <= b < a ==> out@[b] == resolve(cmd, self@.labels, #[trigger] args@[b]@),
            decreases args.len() - a,
        {
            let arg = match &args[a] {
                TokenType::Register(r) => InstructionArg::Reg(*r),
                TokenType::Number(n) => if cmd == Command::CHIP {
                    InstructionArg::Chip8(*n)
                } else {
                    InstructionArg::Num(*n)
                },
                TokenType::Label(l) => {
                    proof {
                        let written = self@.instructions[i as int];
                        assert(sound(self@.labels, written));
                        assert(written.1[a as int] == Lexeme::Label(l@));
                    }
                    match self.labels.get(l.as_str()) {
                        Some(index) => InstructionArg::Label((*index + 2) as u16),
                        None => InstructionArg::Num(0),
                    }
                },
                _ => InstructionArg::Num(0),
            };
            out.push(arg);
            a += 1;
        }
        assert(out@ =~= resolve_instruction(self@.labels, self@.instructions[i as int]).1);
        out
    }

    /// The program that the parser holds.
    fn convert_instructions(&self) -> (out: Vec<(Command, Vec<InstructionArg>)>)
        requires
            well_formed(self@),
            self@.has_main,
        ensures
            instruction_views(out@) == program(self@),
            forall|i: int| 0 <= i < out@.len() ==> encodable(#[trigger] out@[i].0, out@[i].1@),
    {
        let main = match self.labels.get("main") {
            Some(index) => *index,
            None => 0,
        };
        let mut call: Vec<InstructionArg> = Vec::new();
        call.push(InstructionArg::Label((main + 2) as u16));
        let mut jump: Vec<InstructionArg> = Vec::new();
        jump.push(InstructionArg::Label(1));
        let mut out: Vec<(Command, Vec<InstructionArg>)> = Vec::new();
        out.push((Command::CALL, call));
        out.push((Command::JMP, jump));
        assert(instruction_views(out@) =~= header(self@.labels)) by {
            assert(out@[0].1@ =~= header(self@.labels)[0].1);
            assert(out@[1].1@ =~= header(self@.labels)[1].1);
        }
        let mut i: usize = 0;
        while i < self.instructions.len()
            invariant
                well_formed(self@),
                i <= self.instructions.len(),
                out@.len() == i + 2,
                forall|k: int| 0 <= k < 2 ==> encodable(#[trigger] out@[k].0, out@[k].1@),
                forall|k: int|
                    0 <= k < 2 ==> (#[trigger] out@[k].0, out@[k].1@) == header(self@.labels)[k],
                forall|k: int|
                    2 <= k < i + 2 ==> (#[trigger] out@[k].0, out@[k].1@) == resolve_instruction(
                        self@.labels,
                        self@.instructions[k - 2],
                    ),
                forall|k: int|
                    2 <= k < i + 2 ==> encodable(#[trigger] out@[k].0, out@[k].1@),
            decreases self.instructions.len() - i,
        {
            let args = self.resolve_args(i);
            proof {
                assert(sound(self@.labels, self@.instructions[i as int]));
                lemma_resolved_encodable(self@.labels, self@.instructions[i as int]);
            }
            out.push((self.instructions[i].0, args));
            i += 1;
        }
        assert(instruction_views(out@) =~= program(self@));
        out
    }

    /// Goes on with the parsing: to the end of the program, to an include whose
    /// file is needed, or to the first failure.
    pub fn parse(&mut self) -> (r: Result<Progress, CompileError>)
        requires
            well_formed(old(self)@),
        ensures
            well_formed(final(self)@),
            final(self)@ == run(old(self)@).state,
            answers(r, run(old(self)@).outcome),
            r matches Ok(Progress::Complete(v)) ==> forall|i: int|
                0 <= i < v@.len() ==> encodable(#[trigger] v@[i].0, v@[i].1@),
            r matches Ok(Progress::Include(_)) ==> awaits_include(final(self)@),
    {
        proof {
            lemma_stops_where_it_waits(self@);
        }
        proof {
            lemma_pass(self@);
            lemma_pass(restarted(pass(self@).state));
        }
        if !self.second_pass {
            match self.statements() {
                Ok(None) => {},
                Ok(Some(path)) => {
                    return Ok(Progress::Include(path));
                },
                Err(e) => {
                    return Err(e);
                },
            }
            self.second_pass = true;
            self.current_token = 0;
            proof {
                lemma_same_state(self@, restarted(pass(old(self)@).state));
            }
        }
        match self.statements() {
            Ok(None) => {},
            Ok(Some(path)) => {
                return Ok(Progress::Include(path));
            },
            Err(e) => {
                return Err(e);
            },
        }
        Ok(Progress::Complete(self.convert_instructions()))
    }

    /// Puts the tokens of `contents`, the text of the file that the parser
    /// waits for, in the place of the directive and its argument.
    pub fn insert_file(&mut self, contents: &str) -> (r: Result<(), CompileError>)
        requires
            well_formed(old(self)@),
            awaits_include(old(self)@),
        ensures
            well_formed(final(self)@),
            match lex_tokens(contents@, step(old(self)@)->Include_0) {
                Ok(tokens) => r is Ok && final(self)@ == spliced(old(self)@, tokens),
                Err(d) => r matches Err(e) && e@ == d && final(self)@ == old(self)@,
            },
    {
        proof {
            self.room();
        }
        let k = self.current_token;
        let path = match &self.tokens[k + 1].token {
            TokenType::Comment(text) => trimmed(text.as_str()),
            _ => String::new(),
        };
        let mut included = match lex(contents, Rc::new(path)) {
            Ok(tokens) => tokens,
            Err(e) => {
                return Err(e);
            },
        };
        let ghost fresh = token_views(included@);
        proof {
            lemma_lex_ends_with_eof(contents@, step(old(self)@)->Include_0);
        }
        included.pop();
        let mut fresh_outcomes = blank(included.len());
        let mut tail = self.tokens.split_off(k + 2);
        self.tokens.truncate(k);
        self.tokens.append(&mut included);
        self.tokens.append(&mut tail);
        let mut outcomes_tail = self.outcomes.split_off(k + 2);
        self.outcomes.truncate(k);
        self.outcomes.append(&mut fresh_outcomes);
        self.outcomes.append(&mut outcomes_tail);
        proof {
            lemma_same_state(self@, spliced(old(self)@, fresh));
        }
        Ok(())
    }

    /// The failure to report when the file that the parser waits for cannot be
    /// read, for the given reason.
    pub fn file_unreadable(&self, reason: &str) -> (e: CompileError)
        requires
            well_formed(self@),
            awaits_include(self@),
        ensures
            e@ == located(
                ErrorKind::File,
                unreadable_text(reason@),
                self@.tokens[self@.cursor + 1].position,
            ),
    {
        proof {
            self.room();
        }
        self.fail_at(
            ErrorKind::File,
            joined("Could not read file: ", reason),
            self.current_token + 1,
        )
    }
}

} // verus!
