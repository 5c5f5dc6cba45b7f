//! The parser as a machine.
//!
//! [`ParserState`] is what a parser holds, [`step`] what one token does to it,
//! [`pass`] a whole pass over the tokens and [`run`] what comes of a call of
//! `Parser::parse`. The first pass collects the labels; the second gives every
//! label the index of the instruction that follows it and reads the
//! statements. Both passes carry out the directives. `define` and `undef` are
//! taken out of the tokens once they are done, and an include stops the pass
//! until the text of the file is handed in; its tokens then take the place of
//! the directive. So that the second pass takes the branches that the first
//! pass took, every condition keeps what the first pass found for it, with the
//! flags as they were at that place, and the second pass goes by that.
//!
//! The argument of a directive is written as a comment, as in `%+ ;path`. The
//! `;` has to be there for every directive, also for those that take no
//! argument.
use crate::exception::{located, missing_main, Diagnosis, ErrorKind};
use crate::instruction::{code_word, encodable, InstructionArg};
use crate::text::trim;
use crate::token::{valid_operands, Command, Lexeme, MprocessorDirective, TokenView};
use vstd::prelude::*;

verus! {

/// The largest number of instructions in a program. With the two instructions
/// that are put in front of it, the index behind the last one is `MAX_TARGET`.
pub const MAX_PROGRAM: usize = 0x6FD;

/// What a parser holds.
pub struct ParserState {
    /// The tokens, with the includes that were handed in so far.
    pub tokens: Seq<TokenView>,
    /// The index of the token that is read next.
    pub cursor: int,
    /// One entry for each condition that is open, the innermost last: whether
    /// its branch is taken.
    pub ifs: Seq<bool>,
    /// The flags that are defined.
    pub defined: Set<Seq<char>>,
    /// The labels, each with the index of the instruction that follows it.
    pub labels: Map<Seq<char>, usize>,
    /// The instructions read so far, each with its operands as they were written.
    pub instructions: Seq<(Command, Seq<Lexeme>)>,
    /// Whether a label `main` was found.
    pub has_main: bool,
    /// Whether the first pass is done.
    pub second_pass: bool,
    /// For every token, what the first pass found where it met the token as a
    /// condition: whether the branch of the condition is taken.
    pub outcomes: Seq<Option<bool>>,
}

/// What one token does: the next state, the path of a file whose text is needed,
/// or a failure.
pub enum Step {
    Next(ParserState),
    Include(Seq<char>),
    Fail(Diagnosis),
}

/// Why a pass stopped: at the end of the tokens, at an include, or with a failure.
pub enum Halt {
    End,
    Include(Seq<char>),
    Fail(Diagnosis),
}

/// A pass that stopped: the state in which it did, and why.
pub struct Stop {
    pub state: ParserState,
    pub halt: Halt,
}

/// What a call of `parse` comes to.
pub enum Outcome {
    /// The program, with the two instructions that start it in front.
    Complete(Seq<(Command, Seq<InstructionArg>)>),
    /// The path of a file whose text is needed to go on.
    Include(Seq<char>),
    Fail(Diagnosis),
}

/// The end of a call of `parse`: the state that it leaves, and the outcome.
pub struct Run {
    pub state: ParserState,
    pub outcome: Outcome,
}

/// The state of a parser that was just made for `tokens`.
pub open spec fn initial(tokens: Seq<TokenView>) -> ParserState {
    ParserState {
        tokens,
        cursor: 0,
        ifs: Seq::empty(),
        defined: Set::empty(),
        labels: Map::empty(),
        instructions: Seq::empty(),
        has_main: false,
        second_pass: false,
        outcomes: Seq::new(tokens.len(), |i: int| None),
    }
}

/// Whether the tokens are read in a branch that is not taken.
pub open spec fn suppressed(ifs: Seq<bool>) -> bool {
    exists|k: int| 0 <= k < ifs.len() && !#[trigger] ifs[k]
}

/// A token that ends a statement.
pub open spec fn ends_line(t: Lexeme) -> bool {
    t is Comment || t is Eol || t is Eof
}

/// A token that can be an operand.
pub open spec fn is_operand(t: Lexeme) -> bool {
    t is Register || t is Label || t is Number
}

/// The first index from `i` on at which a token ends the statement.
pub open spec fn statement_end(tokens: Seq<TokenView>, i: int) -> int
    decreases tokens.len() - i,
{
    if 0 <= i < tokens.len() && !ends_line(tokens[i].token) {
        statement_end(tokens, i + 1)
    } else {
        i
    }
}

/// The instruction holds operands that its mnemonic accepts, and every label
/// among them is known.
pub open spec fn sound(labels: Map<Seq<char>, usize>, instruction: (Command, Seq<Lexeme>)) -> bool {
    &&& valid_operands(instruction.0, instruction.1)
    &&& forall|a: int|
        0 <= a < instruction.1.len() ==> (#[trigger] instruction.1[a] matches Lexeme::Label(l)
            ==> labels.contains_key(l))
}

/// What holds of a parser between any two steps.
pub open spec fn well_formed(s: ParserState) -> bool {
    &&& 0 <= s.cursor < s.tokens.len()
    &&& s.outcomes.len() == s.tokens.len()
    &&& s.tokens.last().token is Eof
    &&& s.has_main ==> s.labels.contains_key("main"@)
    &&& s.instructions.len() <= MAX_PROGRAM
    &&& forall|l: Seq<char>|
        s.labels.contains_key(l) ==> #[trigger] s.labels[l] <= s.instructions.len()
    &&& forall|i: int|
        0 <= i < s.instructions.len() ==> sound(s.labels, #[trigger] s.instructions[i])
}

/// The detail of the failure for a number, a register or a colon that stands
/// by itself.
pub open spec fn stray_text(t: Lexeme) -> Seq<char> {
    match t {
        Lexeme::Number(_) => "You cant just randomly put numbers anywhere you like you know"@,
        Lexeme::Register(_) => "You cant just randomly put registers anywhere you like you know"@,
        _ => "You cant just randomly put colons anywhere you like you know"@,
    }
}

/// The detail of the failure for a label that is defined a second time.
pub open spec fn redefined_text(label: Seq<char>) -> Seq<char> {
    "Label '"@ + label + "' has already been defined and cannot be redefined"@
}

/// The detail of the failure for an operand that is a label which nothing
/// defines.
pub open spec fn undefined_label_text(label: Seq<char>) -> Seq<char> {
    "label '"@ + label + "' is not defined anywhere"@
}

/// The detail of the failure for an `undef` of a flag that is not defined.
pub open spec fn undefined_flag_text(flag: Seq<char>) -> Seq<char> {
    "Undefined flag: "@ + flag
}

/// The detail of the failure for operands that the mnemonic does not accept.
pub open spec fn invalid_arguments_text(cmd: Command) -> Seq<char> {
    "Invalid arguments to command "@ + cmd.name()
}

/// The detail of the failure for a file that cannot be read, for the given
/// reason.
pub open spec fn unreadable_text(reason: Seq<char>) -> Seq<char> {
    "Could not read file: "@ + reason
}

/// The sequence without the two entries at `i` and `i + 1`.
pub open spec fn without_pair<A>(s: Seq<A>, i: int) -> Seq<A> {
    s.subrange(0, i) + s.subrange(i + 2, s.len() as int)
}

/// The state without the two tokens at the cursor and behind it.
pub open spec fn drained(s: ParserState) -> ParserState {
    ParserState {
        tokens: without_pair(s.tokens, s.cursor),
        outcomes: without_pair(s.outcomes, s.cursor),
        ..s
    }
}

/// Whether the branch of the condition at the cursor is taken, where `found` is
/// what the flags say. The first pass goes by the flags. The second pass goes
/// by what the first pass found at this token, whatever has become of the flags
/// since. It would go by the flags where the first pass never met the token,
/// which does not happen once the first pass has come to the end of the tokens
/// (`passes::lemma_second_pass_takes_the_way_of_the_first`).
pub open spec fn outcome(s: ParserState, found: bool) -> bool {
    if s.second_pass {
        match s.outcomes[s.cursor] {
            Some(b) => b,
            None => found,
        }
    } else {
        found
    }
}

/// The state behind the condition at the cursor, where `found` is what the
/// flags say: the outcome is on the stack, and in the first pass the token
/// keeps it.
pub open spec fn opened(s: ParserState, found: bool) -> ParserState {
    ParserState {
        ifs: s.ifs.push(outcome(s, found)),
        outcomes: if s.second_pass {
            s.outcomes
        } else {
            s.outcomes.update(s.cursor, Some(found))
        },
        ..moved(s, 2)
    }
}

/// The state with the cursor moved on by `n` tokens.
pub open spec fn moved(s: ParserState, n: int) -> ParserState {
    ParserState { cursor: s.cursor + n, ..s }
}

/// What the directive `d` at the cursor does. A comment has to follow it, whose
/// text without the blanks at either end is the directive's argument.
///
/// In a branch that is not taken `include`, `error`, `define` and `undef` do
/// nothing; the conditions are kept track of all the same.
pub open spec fn directive_step(s: ParserState, d: MprocessorDirective) -> Step {
    let follower = s.tokens[s.cursor + 1];
    if let Lexeme::Comment(text) = follower.token {
        let arg = trim(text);
        let active = !suppressed(s.ifs);
        match d {
            MprocessorDirective::M_include => if active {
                Step::Include(arg)
            } else {
                Step::Next(moved(s, 2))
            },
            MprocessorDirective::M_error => if active {
                Step::Fail(located(ErrorKind::Preprocessor, arg, follower.position))
            } else {
                Step::Next(moved(s, 2))
            },
            MprocessorDirective::M_define => if active {
                Step::Next(ParserState { defined: s.defined.insert(arg), ..drained(s) })
            } else {
                Step::Next(moved(s, 2))
            },
            MprocessorDirective::M_undef => if !active {
                Step::Next(moved(s, 2))
            } else if s.defined.contains(arg) {
                Step::Next(ParserState { defined: s.defined.remove(arg), ..drained(s) })
            } else {
                Step::Fail(
                    located(ErrorKind::Preprocessor, undefined_flag_text(arg), follower.position),
                )
            },
            MprocessorDirective::M_ifdef => Step::Next(opened(s, s.defined.contains(arg))),
            MprocessorDirective::M_ifndef => Step::Next(opened(s, !s.defined.contains(arg))),
            MprocessorDirective::M_else => if s.ifs.len() == 0 {
                Step::Fail(
                    located(ErrorKind::Syntax, "%?| without any %?# or %?!"@, follower.position),
                )
            } else {
                Step::Next(
                    ParserState {
                        ifs: s.ifs.update(s.ifs.len() - 1, !s.ifs.last()),
                        ..moved(s, 2)
                    },
                )
            },
            MprocessorDirective::M_endif => if s.ifs.len() == 0 {
                Step::Fail(
                    located(ErrorKind::Syntax, "%?- without any %?# or %?!"@, follower.position),
                )
            } else {
                Step::Next(ParserState { ifs: s.ifs.drop_last(), ..moved(s, 2) })
            },
        }
    } else {
        Step::Fail(
            located(
                ErrorKind::Syntax,
                "Expected ';' after a preprocessor directive"@,
                follower.position,
            ),
        )
    }
}

/// What the label `label` at the cursor does in the first pass: it is entered
/// among the labels, for the time being with the index 0.
pub open spec fn label_step(s: ParserState, label: Seq<char>) -> Step {
    let here = s.tokens[s.cursor].position;
    if !(s.tokens[s.cursor + 1].token is Colon) {
        Step::Fail(located(ErrorKind::Syntax, "Expected : after label name"@, here))
    } else if s.labels.contains_key(label) {
        Step::Fail(located(ErrorKind::Redefinition, redefined_text(label), here))
    } else {
        Step::Next(
            ParserState {
                labels: s.labels.insert(label, 0),
                has_main: s.has_main || label == "main"@,
                ..moved(s, 2)
            },
        )
    }
}

/// What the label `label` at the cursor does in the second pass: where the
/// first pass entered it, it gets the index of the instruction that comes next.
pub open spec fn placement_step(s: ParserState, label: Seq<char>) -> Step {
    let here = s.tokens[s.cursor].position;
    if !(s.tokens[s.cursor + 1].token is Colon) {
        Step::Fail(located(ErrorKind::Syntax, "Expected : after label name"@, here))
    } else if s.labels.contains_key(label) {
        Step::Next(
            ParserState {
                labels: s.labels.insert(label, s.instructions.len() as usize),
                ..moved(s, 2)
            },
        )
    } else {
        Step::Next(moved(s, 2))
    }
}

/// The failure of the first token in `tokens[i..end]` that cannot be an operand,
/// or that is a label which is not known.
pub open spec fn operand_fault(
    tokens: Seq<TokenView>,
    labels: Map<Seq<char>, usize>,
    i: int,
    end: int,
) -> Option<Diagnosis>
    decreases end - i,
{
    if i >= end {
        None
    } else if !is_operand(tokens[i].token) {
        Some(
            located(
                ErrorKind::Syntax,
                "Expected a register, label, or number as an argument"@,
                tokens[i].position,
            ),
        )
    } else {
        match tokens[i].token {
            Lexeme::Label(l) if !labels.contains_key(l) => Some(
                located(ErrorKind::UndefinedLabel, undefined_label_text(l), tokens[i].position),
            ),
            _ => operand_fault(tokens, labels, i + 1, end),
        }
    }
}

/// The tokens `tokens[from..to]` without their places.
pub open spec fn operands(tokens: Seq<TokenView>, from: int, to: int) -> Seq<Lexeme> {
    Seq::new((to - from) as nat, |k: int| tokens[from + k].token)
}

/// What the mnemonic `cmd` at the cursor does in the second pass: the tokens up
/// to the end of the statement are its operands, and the instruction joins the
/// program.
pub open spec fn command_step(s: ParserState, cmd: Command) -> Step {
    let end = statement_end(s.tokens, s.cursor + 1);
    let args = operands(s.tokens, s.cursor + 1, end);
    let here = s.tokens[s.cursor].position;
    match operand_fault(s.tokens, s.labels, s.cursor + 1, end) {
        Some(d) => Step::Fail(d),
        None => if !valid_operands(cmd, args) {
            Step::Fail(located(ErrorKind::Syntax, invalid_arguments_text(cmd), here))
        } else if s.instructions.len() >= MAX_PROGRAM {
            Step::Fail(located(ErrorKind::NumberOverflow, "The program is too long"@, here))
        } else {
            Step::Next(
                ParserState { instructions: s.instructions.push((cmd, args)), cursor: end, ..s },
            )
        },
    }
}

/// What the token at the cursor does in the first pass.
pub open spec fn collect_step(s: ParserState) -> Step {
    let t = s.tokens[s.cursor];
    let active = !suppressed(s.ifs);
    match t.token {
        Lexeme::Directive(d) => directive_step(s, d),
        Lexeme::Command(_) => if active {
            Step::Next(ParserState { cursor: statement_end(s.tokens, s.cursor + 1), ..s })
        } else {
            Step::Next(moved(s, 1))
        },
        Lexeme::Label(l) => if active {
            label_step(s, l)
        } else {
            Step::Next(moved(s, 1))
        },
        Lexeme::Number(_) | Lexeme::Register(_) | Lexeme::Colon => if active {
            Step::Fail(located(ErrorKind::Syntax, stray_text(t.token), t.position))
        } else {
            Step::Next(moved(s, 1))
        },
        _ => Step::Next(moved(s, 1)),
    }
}

/// What the token at the cursor does in the second pass.
pub open spec fn emit_step(s: ParserState) -> Step {
    let t = s.tokens[s.cursor];
    let active = !suppressed(s.ifs);
    match t.token {
        Lexeme::Directive(d) => directive_step(s, d),
        Lexeme::Command(c) => if active {
            command_step(s, c)
        } else {
            Step::Next(moved(s, 1))
        },
        Lexeme::Label(l) => if active {
            placement_step(s, l)
        } else {
            Step::Next(moved(s, 1))
        },
        Lexeme::Number(_) | Lexeme::Register(_) | Lexeme::Colon => if active {
            Step::Fail(located(ErrorKind::Syntax, stray_text(t.token), t.position))
        } else {
            Step::Next(moved(s, 1))
        },
        _ => Step::Next(moved(s, 1)),
    }
}

/// What the token at the cursor does.
pub open spec fn step(s: ParserState) -> Step {
    if s.second_pass {
        emit_step(s)
    } else {
        collect_step(s)
    }
}

/// Whether the cursor stands on the end of the tokens.
pub open spec fn at_end(s: ParserState) -> bool {
    s.tokens[s.cursor].token is Eof
}

pub proof fn lemma_statement_end(tokens: Seq<TokenView>, i: int)
    requires
        0 <= i < tokens.len(),
        tokens.last().token is Eof,
    ensures
        i <= statement_end(tokens, i) < tokens.len(),
        ends_line(tokens[statement_end(tokens, i)].token),
        forall|k: int| i <= k < statement_end(tokens, i) ==> !ends_line(#[trigger] tokens[k].token),
    decreases tokens.len() - i,
{
    if !ends_line(tokens[i].token) {
        lemma_statement_end(tokens, i + 1);
    }
}

pub proof fn lemma_operands_known(
    tokens: Seq<TokenView>,
    labels: Map<Seq<char>, usize>,
    i: int,
    end: int,
)
    requires
        operand_fault(tokens, labels, i, end) is None,
    ensures
        forall|k: int|
            i <= k < end ==> is_operand(#[trigger] tokens[k].token) && (
            tokens[k].token matches Lexeme::Label(l) ==> labels.contains_key(l)),
    decreases end - i,
{
    if i < end {
        lemma_operands_known(tokens, labels, i + 1, end);
    }
}

/// A step leaves the parser well formed, in the same pass, and nearer to the end
/// of its tokens.
pub proof fn lemma_step(s: ParserState)
    requires
        well_formed(s),
        !at_end(s),
    ensures
        step(s) matches Step::Next(next) ==> well_formed(next) && next.second_pass
            == s.second_pass && next.tokens.len() - next.cursor < s.tokens.len() - s.cursor,
{
    lemma_statement_end(s.tokens, s.cursor + 1);
    if let Step::Next(next) = step(s) {
        match s.tokens[s.cursor].token {
            Lexeme::Command(c) => {
                if s.second_pass && !suppressed(s.ifs) {
                    let end = statement_end(s.tokens, s.cursor + 1);
                    lemma_operands_known(s.tokens, s.labels, s.cursor + 1, end);
                    let args = operands(s.tokens, s.cursor + 1, end);
                    assert(sound(next.labels, (c, args)));
                    assert forall|i: int| 0 <= i < next.instructions.len() implies sound(
                        next.labels,
                        #[trigger] next.instructions[i],
                    ) by {
                        if i < s.instructions.len() {
                            assert(next.instructions[i] == s.instructions[i]);
                        }
                    }
                }
            },
            Lexeme::Label(l) => {
                assert forall|i: int| 0 <= i < next.instructions.len() implies sound(
                    next.labels,
                    #[trigger] next.instructions[i],
                ) by {
                    assert(sound(s.labels, s.instructions[i]));
                }
            },
            _ => {},
        }
    }
}

/// A pass from the state `s` on: step after step up to the end of the tokens,
/// an include or a failure.
pub open spec fn pass(s: ParserState) -> Stop
    decreases s.tokens.len() - s.cursor,
    when well_formed(s)
{
    if at_end(s) {
        Stop { state: s, halt: Halt::End }
    } else {
        match step(s) {
            Step::Next(next) => {
                proof {
                    lemma_step(s);
                }
                pass(next)
            },
            Step::Include(path) => Stop { state: s, halt: Halt::Include(path) },
            Step::Fail(d) => Stop { state: s, halt: Halt::Fail(d) },
        }
    }
}

/// A pass ends in a state that is well formed, in the pass in which it began.
pub proof fn lemma_pass(s: ParserState)
    requires
        well_formed(s),
    ensures
        well_formed(pass(s).state),
        pass(s).state.second_pass == s.second_pass,
        pass(s).halt is End ==> at_end(pass(s).state),
        pass(s).halt matches Halt::Include(path) ==> step(pass(s).state) == Step::Include(path),
        pass(s).halt matches Halt::Fail(d) ==> step(pass(s).state) == Step::Fail(d),
    decreases s.tokens.len() - s.cursor,
{
    if !at_end(s) {
        lemma_step(s);
        if let Step::Next(next) = step(s) {
            lemma_pass(next);
        }
    }
}

/// What is wrong at the end of a pass: a condition that is still open, or no
/// label `main`.
pub open spec fn end_fault(s: ParserState) -> Option<Diagnosis> {
    let last = s.tokens[s.cursor].position;
    if s.ifs.len() > 0 {
        Some(located(ErrorKind::Syntax, "%?# or %?! were not ended"@, last))
    } else if !s.has_main {
        Some(missing_main(last.file))
    } else {
        None
    }
}

/// The operand of an instruction of `cmd` that the written operand `t` stands
/// for. A label stands for the index of its instruction, counted with the two
/// instructions that start every program.
pub open spec fn resolve(cmd: Command, labels: Map<Seq<char>, usize>, t: Lexeme) -> InstructionArg {
    match t {
        Lexeme::Register(r) => InstructionArg::Reg(r),
        Lexeme::Label(l) => InstructionArg::Label((labels[l] + 2) as u16),
        Lexeme::Number(n) => if cmd == Command::CHIP {
            InstructionArg::Chip8(n)
        } else {
            InstructionArg::Num(n)
        },
        _ => InstructionArg::Num(0),
    }
}

/// An instruction with its operands resolved.
pub open spec fn resolve_instruction(
    labels: Map<Seq<char>, usize>,
    instruction: (Command, Seq<Lexeme>),
) -> (Command, Seq<InstructionArg>) {
    (
        instruction.0,
        Seq::new(
            instruction.1.len(),
            |a: int| resolve(instruction.0, labels, instruction.1[a]),
        ),
    )
}

/// The two instructions that start every program: a call of `main`, and a jump
/// to that call, which keeps the machine there once `main` returns.
pub open spec fn header(labels: Map<Seq<char>, usize>) -> Seq<(Command, Seq<InstructionArg>)> {
    seq![
        (Command::CALL, seq![InstructionArg::Label((labels["main"@] + 2) as u16)]),
        (Command::JMP, seq![InstructionArg::Label(1)]),
    ]
}

/// The program that the state holds: the header, then every instruction with
/// its operands resolved.
pub open spec fn program(s: ParserState) -> Seq<(Command, Seq<InstructionArg>)> {
    header(s.labels) + Seq::new(
        s.instructions.len(),
        |i: int| resolve_instruction(s.labels, s.instructions[i]),
    )
}

/// The state at the start of the second pass.
pub open spec fn restarted(s: ParserState) -> ParserState {
    ParserState { cursor: 0, second_pass: true, ..s }
}

/// The end of a call that a stopped pass brings about by itself: an include, a
/// failure, or what is wrong at the end of the tokens.
pub open spec fn halted(stop: Stop) -> Option<Run> {
    match stop.halt {
        Halt::Include(path) => Some(Run { state: stop.state, outcome: Outcome::Include(path) }),
        Halt::Fail(d) => Some(Run { state: stop.state, outcome: Outcome::Fail(d) }),
        Halt::End => match end_fault(stop.state) {
            Some(d) => Some(Run { state: stop.state, outcome: Outcome::Fail(d) }),
            None => None,
        },
    }
}

/// What a call of `parse` comes to in the state `s`: the rest of the pass that
/// `s` is in; after the first pass, the second one from the first token on; and
/// after the second pass, the program.
pub open spec fn run(s: ParserState) -> Run {
    let first = pass(s);
    match halted(first) {
        Some(r) => r,
        None => if first.state.second_pass {
            Run { state: first.state, outcome: Outcome::Complete(program(first.state)) }
        } else {
            let second = pass(restarted(first.state));
            match halted(second) {
                Some(r) => r,
                None => Run {
                    state: second.state,
                    outcome: Outcome::Complete(program(second.state)),
                },
            }
        },
    }
}


/// Whether the parser waits for the text of a file.
pub open spec fn awaits_include(s: ParserState) -> bool {
    step(s) is Include
}

/// The state once the tokens `included` of the awaited file, whose last is its
/// `Eof`, have taken the place of the directive and its argument: the `Eof` is
/// left out, and the pass goes on with the first token of the file.
pub open spec fn spliced(s: ParserState, included: Seq<TokenView>) -> ParserState {
    ParserState {
        tokens: s.tokens.subrange(0, s.cursor) + included.drop_last() + s.tokens.subrange(
            s.cursor + 2,
            s.tokens.len() as int,
        ),
        outcomes: s.outcomes.subrange(0, s.cursor) + Seq::new(
            (included.len() - 1) as nat,
            |i: int| None,
        ) + s.outcomes.subrange(s.cursor + 2, s.outcomes.len() as int),
        ..s
    }
}


/// An instruction that is sound has a code word once its operands are
/// resolved, where every label stands for an index within the program.
pub proof fn lemma_resolved_encodable(
    labels: Map<Seq<char>, usize>,
    instruction: (Command, Seq<Lexeme>),
)
    requires
        sound(labels, instruction),
        forall|l: Seq<char>| labels.contains_key(l) ==> #[trigger] labels[l] <= MAX_PROGRAM,
    ensures
        encodable(
            resolve_instruction(labels, instruction).0,
            resolve_instruction(labels, instruction).1,
        ),
{
    let cmd = instruction.0;
    let args = instruction.1;
    let out = resolve_instruction(labels, instruction).1;
    assert(out.len() == args.len());
    if args.len() >= 1 {
        assert(out[0] == resolve(cmd, labels, args[0]));
        if let Lexeme::Label(l) = args[0] {
            assert(labels.contains_key(l));
        }
    }
    if args.len() >= 2 {
        assert(out[1] == resolve(cmd, labels, args[1]));
    }
    if args.len() >= 3 {
        assert(out[2] == resolve(cmd, labels, args[2]));
    }
}

/// The state after `n` more steps, where every one of them leads on.
pub open spec fn after(s: ParserState, n: nat) -> Option<ParserState>
    decreases n,
{
    if n == 0 {
        Some(s)
    } else {
        match after(s, (n - 1) as nat) {
            Some(m) => if well_formed(m) && !at_end(m) {
                match step(m) {
                    Step::Next(next) => Some(next),
                    _ => None,
                }
            } else {
                None
            },
            None => None,
        }
    }
}

/// A program starts with the call of `main` and the jump back to that call,
/// wherever `main` stands among its instructions; every instruction of the
/// source follows two places behind its index.
pub proof fn lemma_program_starts_with_header(s: ParserState)
    requires
        well_formed(s),
        s.has_main,
    ensures
        program(s).len() == s.instructions.len() + 2,
        program(s)[0] == (
            Command::CALL,
            seq![InstructionArg::Label((s.labels["main"@] + 2) as u16)],
        ),
        program(s)[1] == (Command::JMP, seq![InstructionArg::Label(1)]),
        code_word(program(s)[0].0, program(s)[0].1) == Some(
            0x2000 + (0x200 + 2 * (s.labels["main"@] + 2)),
        ),
        code_word(program(s)[1].0, program(s)[1].1) == Some(0x1202int),
        forall|i: int|
            0 <= i < s.instructions.len() ==> #[trigger] program(s)[i + 2] == resolve_instruction(
                s.labels,
                s.instructions[i],
            ),
{
    assert(s.labels.contains_key("main"@));
}

/// Wherever a label is written as an operand, it stands for the same index,
/// which is the index of the instruction that follows the label, counted with
/// the two instructions of the header.
pub proof fn lemma_label_resolves_alike(
    s: ParserState,
    label: Seq<char>,
    i: int,
    a: int,
    j: int,
    b: int,
)
    requires
        0 <= i < s.instructions.len(),
        0 <= a < s.instructions[i].1.len(),
        0 <= j < s.instructions.len(),
        0 <= b < s.instructions[j].1.len(),
        s.instructions[i].1[a] == Lexeme::Label(label),
        s.instructions[j].1[b] == Lexeme::Label(label),
    ensures
        program(s)[i + 2].1[a] == program(s)[j + 2].1[b],
        program(s)[i + 2].1[a] == InstructionArg::Label((s.labels[label] + 2) as u16),
{
}

/// Parsing stops for a file exactly where the parser then waits for it.
pub proof fn lemma_stops_where_it_waits(s: ParserState)
    requires
        well_formed(s),
    ensures
        well_formed(run(s).state),
        run(s).outcome matches Outcome::Include(path) ==> awaits_include(run(s).state) && step(
            run(s).state,
        ) == Step::Include(path),
{
    lemma_pass(s);
    lemma_pass(restarted(pass(s).state));
}

/// Once a program is complete, parsing again changes nothing and gives the
/// same program.
pub proof fn lemma_complete_stays_complete(s: ParserState)
    requires
        well_formed(s),
        run(s).outcome is Complete,
    ensures
        run(run(s).state) == run(s),
{
    lemma_pass(s);
    lemma_pass(restarted(pass(s).state));
    let f = run(s).state;
    assert(well_formed(f) && at_end(f) && f.second_pass);
    assert(pass(f) == Stop { state: f, halt: Halt::End });
}

/// The instructions only grow: a step keeps those that were read, in their
/// order, and adds one at most, which the first pass never does.
pub proof fn lemma_instructions_only_grow(s: ParserState)
    ensures
        step(s) matches Step::Next(next) ==> next.instructions == s.instructions || (
        s.second_pass && next.instructions.len() == s.instructions.len() + 1
            && next.instructions.drop_last() == s.instructions),
{
    if let Step::Next(next) = step(s) {
        if next.instructions != s.instructions {
            assert(next.instructions.drop_last() =~= s.instructions);
        }
    }
}

/// In the second pass, an operand that is a label which nothing defined stops
/// the parsing with an undefined-label failure at that operand, provided that
/// the operands before it are in order.
pub proof fn lemma_undefined_label_fails(s: ParserState, cmd: Command, j: int, label: Seq<char>)
    requires
        well_formed(s),
        s.second_pass,
        !suppressed(s.ifs),
        s.tokens[s.cursor].token == Lexeme::Command(cmd),
        s.cursor < j < statement_end(s.tokens, s.cursor + 1),
        operand_fault(s.tokens, s.labels, s.cursor + 1, j) is None,
        s.tokens[j].token == Lexeme::Label(label),
        !s.labels.contains_key(label),
    ensures
        step(s) == Step::Fail(
            located(ErrorKind::UndefinedLabel, undefined_label_text(label), s.tokens[j].position),
        ),
        pass(s).halt == Halt::Fail(
            located(ErrorKind::UndefinedLabel, undefined_label_text(label), s.tokens[j].position),
        ),
{
    let end = statement_end(s.tokens, s.cursor + 1);
    lemma_fault_behind(s.tokens, s.labels, s.cursor + 1, j, end);
}

/// Where the operands `tokens[i..j]` are in order, the first fault among
/// `tokens[i..end]` is the first among `tokens[j..end]`.
proof fn lemma_fault_behind(
    tokens: Seq<TokenView>,
    labels: Map<Seq<char>, usize>,
    i: int,
    j: int,
    end: int,
)
    requires
        i <= j <= end,
        operand_fault(tokens, labels, i, j) is None,
    ensures
        operand_fault(tokens, labels, i, end) == operand_fault(tokens, labels, j, end),
    decreases j - i,
{
    if i < j {
        lemma_fault_behind(tokens, labels, i + 1, j, end);
    }
}

/// In the first pass, the definition of a label that is already defined stops
/// the parsing with a redefinition failure at that label.
pub proof fn lemma_second_definition_fails(s: ParserState, label: Seq<char>)
    requires
        well_formed(s),
        !s.second_pass,
        !suppressed(s.ifs),
        s.tokens[s.cursor].token == Lexeme::Label(label),
        s.tokens[s.cursor + 1].token is Colon,
        s.labels.contains_key(label),
    ensures
        step(s) == Step::Fail(
            located(
                ErrorKind::Redefinition,
                redefined_text(label),
                s.tokens[s.cursor].position,
            ),
        ),
        pass(s).halt == Halt::Fail(
            located(
                ErrorKind::Redefinition,
                redefined_text(label),
                s.tokens[s.cursor].position,
            ),
        ),
{
}

/// In the first pass, the definition of a label that is not yet defined enters
/// it among the labels, and no step takes a label away again.
pub proof fn lemma_labels_stay_defined(s: ParserState)
    requires
        well_formed(s),
        !at_end(s),
    ensures
        step(s) matches Step::Next(next) ==> forall|l: Seq<char>|
            s.labels.contains_key(l) ==> #[trigger] next.labels.contains_key(l),
        !s.second_pass && !suppressed(s.ifs) ==> (s.tokens[s.cursor].token matches Lexeme::Label(l)
            ==> (step(s) matches Step::Next(next) ==> next.labels.contains_key(l))),
{
}

/// In the first pass a condition on a flag that is not defined opens a branch
/// that is not taken.
pub proof fn lemma_absent_flag_suppresses(s: ParserState, text: Seq<char>)
    requires
        !s.second_pass,
        s.tokens[s.cursor].token == Lexeme::Directive(MprocessorDirective::M_ifdef),
        s.tokens[s.cursor + 1].token == Lexeme::Comment(text),
        !s.defined.contains(trim(text)),
    ensures
        step(s) == Step::Next(opened(s, false)),
        opened(s, false).ifs == s.ifs.push(false),
        suppressed(opened(s, false).ifs),
{
    assert(!s.ifs.push(false)[s.ifs.len() as int]);
}

/// Whether the directive opens a condition.
pub open spec fn opens_condition(d: MprocessorDirective) -> bool {
    d == MprocessorDirective::M_ifdef || d == MprocessorDirective::M_ifndef
}

/// What the flags say to the condition `d` on the flag written as `text`.
pub open spec fn flags_say(s: ParserState, d: MprocessorDirective, text: Seq<char>) -> bool {
    if d == MprocessorDirective::M_ifdef {
        s.defined.contains(trim(text))
    } else {
        !s.defined.contains(trim(text))
    }
}

/// In the first pass a condition is decided by the flags as they are at that
/// place, and its token keeps the outcome.
pub proof fn lemma_first_pass_records(s: ParserState, d: MprocessorDirective, text: Seq<char>)
    requires
        well_formed(s),
        !s.second_pass,
        opens_condition(d),
        s.tokens[s.cursor].token == Lexeme::Directive(d),
        s.tokens[s.cursor + 1].token == Lexeme::Comment(text),
    ensures
        step(s) matches Step::Next(next) && {
            &&& next.ifs == s.ifs.push(flags_say(s, d, text))
            &&& next.outcomes == s.outcomes.update(s.cursor, Some(flags_say(s, d, text)))
            &&& next.tokens == s.tokens
            &&& next.cursor == s.cursor + 2
        },
{
}

/// In the second pass a condition gets the entry that the first pass pushed at
/// the same token, whatever the flags are by then.
pub proof fn lemma_second_pass_repeats(
    s: ParserState,
    d: MprocessorDirective,
    text: Seq<char>,
    pushed: bool,
)
    requires
        s.second_pass,
        opens_condition(d),
        s.tokens[s.cursor].token == Lexeme::Directive(d),
        s.tokens[s.cursor + 1].token == Lexeme::Comment(text),
        s.outcomes[s.cursor] == Some(pushed),
    ensures
        step(s) matches Step::Next(next) && {
            &&& next.ifs == s.ifs.push(pushed)
            &&& next.outcomes == s.outcomes
            &&& next.tokens == s.tokens
            &&& next.cursor == s.cursor + 2
        },
{
}

/// Every token with what the first pass found at it.
pub open spec fn marked(s: ParserState) -> Seq<(TokenView, Option<bool>)> {
    Seq::new(s.tokens.len(), |i: int| (s.tokens[i], s.outcomes[i]))
}

/// What the first pass found stays with its token. A step leaves every token
/// with its outcome, or takes the two tokens at the cursor away with theirs; in
/// the first pass it may give the condition at the cursor its outcome. The
/// second pass changes no outcome.
pub proof fn lemma_outcomes_stay_with_tokens(s: ParserState)
    requires
        well_formed(s),
        !at_end(s),
    ensures
        step(s) matches Step::Next(next) ==> {
            ||| marked(next) == marked(s)
            ||| marked(next) == without_pair(marked(s), s.cursor)
            ||| (!s.second_pass && (s.tokens[s.cursor].token matches Lexeme::Directive(d)
                && opens_condition(d)) && exists|b: bool|
                marked(next) == marked(s).update(s.cursor, (s.tokens[s.cursor], Some(b))))
        },
{
    if let Step::Next(next) = step(s) {
        lemma_step(s);
        if next.tokens == s.tokens && next.outcomes == s.outcomes {
            assert(marked(next) =~= marked(s));
        } else if next.tokens == s.tokens {
            let b = next.outcomes[s.cursor]->0;
            assert(marked(next) =~= marked(s).update(s.cursor, (s.tokens[s.cursor], Some(b))));
        } else {
            assert(marked(next) =~= without_pair(marked(s), s.cursor));
        }
    }
}

/// The tokens of an included file come without an outcome, between the tokens
/// before the directive and those behind its argument, which keep theirs. The
/// start of the second pass changes neither tokens nor outcomes.
pub proof fn lemma_splice_keeps_outcomes(s: ParserState, included: Seq<TokenView>)
    requires
        well_formed(s),
        awaits_include(s),
        included.len() > 0,
    ensures
        marked(spliced(s, included)) == marked(s).subrange(0, s.cursor) + Seq::new(
            (included.len() - 1) as nat,
            |i: int| (included[i], None::<bool>),
        ) + marked(s).subrange(s.cursor + 2, s.tokens.len() as int),
        marked(restarted(s)) == marked(s),
{
    let t = spliced(s, included);
    assert(marked(t) =~= marked(s).subrange(0, s.cursor) + Seq::new(
        (included.len() - 1) as nat,
        |i: int| (included[i], None::<bool>),
    ) + marked(s).subrange(s.cursor + 2, s.tokens.len() as int));
    assert(marked(restarted(s)) =~= marked(s));
}

/// The end of a condition takes the innermost entry from the stack, whether or
/// not its branch was taken.
pub proof fn lemma_endif_closes(s: ParserState, text: Seq<char>)
    requires
        s.tokens[s.cursor].token == Lexeme::Directive(MprocessorDirective::M_endif),
        s.tokens[s.cursor + 1].token == Lexeme::Comment(text),
        s.ifs.len() > 0,
    ensures
        step(s) == Step::Next(ParserState { ifs: s.ifs.drop_last(), ..moved(s, 2) }),
{
}

/// In a branch that is not taken a step emits no instruction, touches no label
/// and no flag, and leaves the tokens as they are. It changes the stack of
/// conditions at its top only. It asks for no file, and it fails for one reason
/// only: a directive that no `;` follows.
pub proof fn lemma_suppressed_step(s: ParserState)
    requires
        well_formed(s),
        !at_end(s),
        suppressed(s.ifs),
    ensures
        !(step(s) is Include),
        step(s) is Fail ==> s.tokens[s.cursor].token is Directive && !(s.tokens[s.cursor
            + 1].token is Comment),
        step(s) matches Step::Next(next) ==> {
            &&& next.tokens == s.tokens
            &&& next.instructions == s.instructions
            &&& next.labels == s.labels
            &&& next.defined == s.defined
            &&& next.has_main == s.has_main
            &&& next.ifs.len() >= s.ifs.len() - 1
            &&& forall|k: int| 0 <= k < s.ifs.len() - 1 ==> next.ifs[k] == s.ifs[k]
        },
{
}

/// As long as one condition stays open with its branch not taken, nothing is
/// emitted: after any number of steps that all start under the entry `depth`
/// of the stack, which is `false`, the instructions, the labels, the flags and
/// the tokens are what they were, and so is the stack below that entry.
pub proof fn lemma_suppressed_region(s: ParserState, n: nat, depth: int)
    requires
        well_formed(s),
        0 <= depth <= s.ifs.len(),
        after(s, n) is Some,
        forall|m: nat|
            m < n ==> (#[trigger] after(s, m) matches Some(t) ==> 0 <= depth < t.ifs.len()
                && !t.ifs[depth]),
    ensures
        after(s, n) matches Some(t) && {
            &&& t.tokens == s.tokens
            &&& t.instructions == s.instructions
            &&& t.labels == s.labels
            &&& t.defined == s.defined
            &&& t.has_main == s.has_main
            &&& t.ifs.len() >= depth
            &&& t.ifs.take(depth) == s.ifs.take(depth)
        },
    decreases n,
{
    if n > 0 {
        let before = (n - 1) as nat;
        assert(after(s, before) is Some);
        assert forall|m: nat| m < before implies (#[trigger] after(s, m) matches Some(t) ==> 0
            <= depth < t.ifs.len() && !t.ifs[depth]) by {
            assert(m < n);
        }
        lemma_suppressed_region(s, before, depth);
        let m = after(s, before)->0;
        assert(before < n);
        assert(0 <= depth < m.ifs.len() && !m.ifs[depth]);
        lemma_suppressed_step(m);
        let t = after(s, n)->0;
        assert(t.ifs.take(depth) =~= m.ifs.take(depth));
    }
}

/// No step fails for want of a label `main`: that failure is kept for the end
/// of the tokens.
pub proof fn lemma_step_never_misses_main(s: ParserState)
    ensures
        step(s) matches Step::Fail(d) ==> d.kind != ErrorKind::MissingMain,
{
    if let Lexeme::Command(cmd) = s.tokens[s.cursor].token {
        let end = statement_end(s.tokens, s.cursor + 1);
        lemma_fault_kind(s.tokens, s.labels, s.cursor + 1, end);
    }
}

proof fn lemma_fault_kind(tokens: Seq<TokenView>, labels: Map<Seq<char>, usize>, i: int, end: int)
    ensures
        operand_fault(tokens, labels, i, end) matches Some(d) ==> d.kind == ErrorKind::Syntax
            || d.kind == ErrorKind::UndefinedLabel,
    decreases end - i,
{
    if i < end {
        lemma_fault_kind(tokens, labels, i + 1, end);
    }
}

/// A pass does not fail for want of a label `main` before it has come to the end
/// of its tokens, and it keeps a `main` that was found.
pub proof fn lemma_pass_never_misses_main(s: ParserState)
    requires
        well_formed(s),
    ensures
        pass(s).halt matches Halt::Fail(d) ==> d.kind != ErrorKind::MissingMain,
        s.has_main ==> pass(s).state.has_main,
    decreases s.tokens.len() - s.cursor,
{
    if !at_end(s) {
        lemma_step(s);
        lemma_step_never_misses_main(s);
        if let Step::Next(next) = step(s) {
            lemma_pass_never_misses_main(next);
        }
    }
}

/// Parsing fails for want of a label `main` exactly when the pass that it goes
/// on with comes to the end of the tokens, with every condition closed, and no
/// label `main` was found. Every failure that stops this pass earlier comes
/// first; the pass after it is not begun.
pub proof fn lemma_missing_main_at_end_of_pass(s: ParserState)
    requires
        well_formed(s),
    ensures
        (run(s).outcome matches Outcome::Fail(d) && d.kind == ErrorKind::MissingMain) <==> (pass(
            s,
        ).halt is End && pass(s).state.ifs.len() == 0 && !pass(s).state.has_main),
{
    lemma_pass(s);
    lemma_pass_never_misses_main(s);
    let first = pass(s);
    if halted(first) is None && !first.state.second_pass {
        let again = restarted(first.state);
        lemma_pass(again);
        lemma_pass_never_misses_main(again);
    }
}

} // verus!
