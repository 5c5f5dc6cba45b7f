use chasm::exception::{CompileError, ErrorKind, Exception};
use chasm::instruction::{convert_to_chip8, InstructionArg};
use chasm::lexer::lex;
use chasm::parser::{Parser, Progress};
use chasm::token::Command;
use std::rc::Rc;

type Program = Vec<(Command, Vec<InstructionArg>)>;

fn parse_with(source: &str, files: &[(&str, &str)]) -> Result<Program, CompileError> {
    let tokens = lex(source, Rc::new(String::from("main.chasm")))?;
    let mut parser = Parser::new(tokens);
    loop {
        match parser.parse()? {
            Progress::Complete(program) => return Ok(program),
            Progress::Include(path) => match files.iter().find(|(name, _)| *name == path) {
                Some((_, text)) => parser.insert_file(text)?,
                None => return Err(parser.file_unreadable("no such file")),
            },
        }
    }
}

fn assemble(source: &str) -> Result<Vec<u16>, CompileError> {
    Ok(convert_to_chip8(parse_with(source, &[])?))
}

fn kind_of(source: &str) -> ErrorKind {
    assemble(source).unwrap_err().kind()
}

#[test]
fn header_calls_main_and_jumps_to_the_call() {
    let words = assemble("main:\nRET\n").unwrap();
    assert_eq!(words, vec![0x2204, 0x1202, 0x00EE]);
}

#[test]
fn header_is_the_same_wherever_main_stands() {
    let words = assemble("CLR\nCLR\nCLR\nmain:\nRET\n").unwrap();
    assert_eq!(words[0], 0x2000 | (0x200 + 2 * (3 + 2)));
    assert_eq!(words[1], 0x1202);
    assert_eq!(words.len(), 6);
}

#[test]
fn set_register_to_number() {
    let words = assemble("main:\nSET V0 0x12\n").unwrap();
    assert_eq!(words[2], 0x6012);
}

#[test]
fn add_takes_its_operands_in_either_order() {
    let words = assemble("main:\nADD V1 0x05\nADD 0x05 V1\n").unwrap();
    assert_eq!(words[2], 0x7105);
    assert_eq!(words[3], 0x7105);
}

#[test]
fn jump_to_a_label_uses_its_byte_address() {
    let words = convert_to_chip8(vec![(Command::JMP, vec![InstructionArg::Label(3)])]);
    assert_eq!(words, vec![0x1000 | (0x200 + 2 * 3)]);
}

#[test]
fn jump_to_a_number_uses_the_same_formula() {
    let words = convert_to_chip8(vec![(Command::JMP, vec![InstructionArg::Num(3)])]);
    assert_eq!(words, vec![0x1206]);
}

#[test]
fn a_label_resolves_to_the_same_address_every_time() {
    let words = assemble("main:\nJMP end\nCALL end\nJMP end\nend:\nRET\n").unwrap();
    assert_eq!(words[2] & 0x0FFF, words[3] & 0x0FFF);
    assert_eq!(words[2], words[4]);
    assert_eq!(words[2], 0x1000 | (0x200 + 2 * 5));
}

#[test]
fn forward_and_backward_references() {
    let program = parse_with("start:\nJMP main\nmain:\nJMP start\n", &[]).unwrap();
    assert_eq!(
        program,
        vec![
            (Command::CALL, vec![InstructionArg::Label(3)]),
            (Command::JMP, vec![InstructionArg::Label(1)]),
            (Command::JMP, vec![InstructionArg::Label(3)]),
            (Command::JMP, vec![InstructionArg::Label(2)]),
        ]
    );
}

#[test]
fn undefined_label_is_reported() {
    let e = assemble("main:\nJMP nowhere\n").unwrap_err();
    assert_eq!(e.kind(), ErrorKind::UndefinedLabel);
    assert_eq!(e.details(), "label 'nowhere' is not defined anywhere");
    assert_eq!(e.position(), Some((2, 5, 12)));
}

#[test]
fn label_defined_twice_is_a_redefinition() {
    let e = assemble("main:\nloop:\nloop:\n").unwrap_err();
    assert_eq!(e.kind(), ErrorKind::Redefinition);
    assert_eq!(e.position(), Some((3, 1, 5)));
}

#[test]
fn absent_flag_suppresses_the_block() {
    let words = assemble("main:\n%?# ;DEBUG\nCLR\nhidden:\nJMP hidden\n%?- ;\nRET\n").unwrap();
    assert_eq!(words, vec![0x2204, 0x1202, 0x00EE]);
}

#[test]
fn suppressed_label_stays_unknown() {
    assert_eq!(
        kind_of("main:\n%?# ;DEBUG\nhidden:\n%?- ;\nJMP hidden\n"),
        ErrorKind::UndefinedLabel
    );
}

#[test]
fn defined_flag_keeps_the_block() {
    let words = assemble("%#+ ;DEBUG\nmain:\n%?# ;DEBUG\nCLR\n%?- ;\nRET\n").unwrap();
    assert_eq!(words, vec![0x2204, 0x1202, 0x00E0, 0x00EE]);
}

#[test]
fn else_takes_the_other_branch() {
    let words = assemble("main:\n%?# ;X\nCLR\n%?| ;\nRET\n%?- ;\n").unwrap();
    assert_eq!(words, vec![0x2204, 0x1202, 0x00EE]);
}

#[test]
fn ifndef_takes_the_block_when_the_flag_is_absent() {
    let words = assemble("main:\n%?! ;X\nCLR\n%?- ;\n").unwrap();
    assert_eq!(words, vec![0x2204, 0x1202, 0x00E0]);
}

#[test]
fn nested_conditions_stay_balanced() {
    let words =
        assemble("main:\n%?# ;A\n%?! ;B\nCLR\n%?- ;\nCLR\n%?- ;\nRET\n").unwrap();
    assert_eq!(words, vec![0x2204, 0x1202, 0x00EE]);
}

#[test]
fn open_condition_at_the_end_is_a_syntax_error() {
    assert_eq!(kind_of("main:\n%?# ;A\nRET\n"), ErrorKind::Syntax);
}

#[test]
fn else_without_condition_is_a_syntax_error() {
    assert_eq!(kind_of("main:\n%?| ;\n"), ErrorKind::Syntax);
}

#[test]
fn endif_without_condition_is_a_syntax_error() {
    assert_eq!(kind_of("main:\n%?- ;\n"), ErrorKind::Syntax);
}

#[test]
fn undef_of_an_absent_flag_is_a_preprocessor_error() {
    let e = assemble("main:\n%#- ;X\n").unwrap_err();
    assert_eq!(e.kind(), ErrorKind::Preprocessor);
    assert_eq!(e.details(), "Undefined flag: X");
}

#[test]
fn undef_removes_the_flag() {
    let words = assemble("%#+ ;X\n%#- ;X\nmain:\n%?# ;X\nCLR\n%?- ;\n").unwrap();
    assert_eq!(words, vec![0x2204, 0x1202]);
}

#[test]
fn error_directive_stops_with_its_message() {
    let e = assemble("main:\n%! ; not supported \n").unwrap_err();
    assert_eq!(e.kind(), ErrorKind::Preprocessor);
    assert_eq!(e.details(), "not supported");
}

#[test]
fn suppressed_error_directive_is_skipped() {
    let words = assemble("main:\n%?# ;X\n%! ;never\n%?- ;\n").unwrap();
    assert_eq!(words, vec![0x2204, 0x1202]);
}

#[test]
fn directive_without_argument_is_a_syntax_error() {
    assert_eq!(kind_of("main:\n%?-\n"), ErrorKind::Syntax);
}

#[test]
fn number_overflow_is_never_truncated() {
    let e = assemble("main:\nSET V0 0x10000\n").unwrap_err();
    assert_eq!(e.kind(), ErrorKind::NumberOverflow);
    assert_eq!(e.details(), "Number '0x10000' is too large");
    assert_eq!(e.position(), Some((2, 8, 15)));
}

#[test]
fn missing_main_is_reported_with_the_file() {
    let e = assemble("start:\nRET\n").unwrap_err();
    assert_eq!(e.kind(), ErrorKind::MissingMain);
    assert_eq!(e.file(), Some("main.chasm"));
    assert_eq!(e.position(), None);
    assert_eq!(e.details(), "No Main function was found");
}

#[test]
fn earlier_failure_of_the_first_pass_comes_before_missing_main() {
    assert_eq!(kind_of("start:\nstart:\n"), ErrorKind::Redefinition);
    assert_eq!(kind_of("start:\n: \n"), ErrorKind::Syntax);
}

#[test]
fn missing_main_comes_at_the_end_of_the_first_pass() {
    assert_eq!(kind_of("ADD V1\n"), ErrorKind::MissingMain);
}

#[test]
fn included_labels_are_visible_to_the_including_file() {
    let files = [("lib.chasm", "helper:\nRET\n")];
    let program = parse_with("main:\nCALL helper\nRET\n%+ ;lib.chasm\n", &files).unwrap();
    assert_eq!(program[2], (Command::CALL, vec![InstructionArg::Label(4)]));
    assert_eq!(program.len(), 5);
}

#[test]
fn statements_behind_an_include_are_read() {
    let files = [("lib.chasm", "helper:\nRET\n")];
    let words =
        convert_to_chip8(parse_with("%+ ;lib.chasm\nmain:\nCALL helper\n", &files).unwrap());
    assert_eq!(words, vec![0x2206, 0x1202, 0x00EE, 0x2204]);
}

#[test]
fn failure_inside_an_included_file_names_that_file() {
    let files = [("lib.chasm", "RET\n  $\n")];
    let e = parse_with("main:\n%+ ; lib.chasm\n", &files).unwrap_err();
    assert_eq!(e.kind(), ErrorKind::InvalidToken);
    assert_eq!(e.file(), Some("lib.chasm"));
    assert_eq!(e.position(), Some((2, 3, 4)));
}

#[test]
fn syntax_error_inside_an_included_file_names_that_file() {
    let files = [("lib.chasm", "\nADD V1\n")];
    let e = parse_with("main:\n%+ ;lib.chasm\n", &files).unwrap_err();
    assert_eq!(e.kind(), ErrorKind::Syntax);
    assert_eq!(e.details(), "Invalid arguments to command ADD");
    assert_eq!(e.file(), Some("lib.chasm"));
    assert_eq!(e.position(), Some((2, 1, 4)));
}

#[test]
fn nested_includes() {
    let files = [("a.chasm", "%+ ;b.chasm\nCLR\n"), ("b.chasm", "main:\n")];
    let words = convert_to_chip8(parse_with("%+ ;a.chasm\nRET\n", &files).unwrap());
    assert_eq!(words, vec![0x2204, 0x1202, 0x00E0, 0x00EE]);
}

#[test]
fn unreadable_include_is_a_file_error() {
    let e = parse_with("main:\n%+ ;gone.chasm\n", &[]).unwrap_err();
    assert_eq!(e.kind(), ErrorKind::File);
    assert_eq!(e.details(), "Could not read file: no such file");
    assert_eq!(e.position(), Some((2, 4, 15)));
}

#[test]
fn suppressed_include_is_not_asked_for() {
    let words = assemble("main:\n%?# ;X\n%+ ;gone.chasm\n%?- ;\n").unwrap();
    assert_eq!(words, vec![0x2204, 0x1202]);
}

#[test]
fn stray_tokens_are_syntax_errors() {
    let e = assemble("main:\n12\n").unwrap_err();
    assert_eq!(e.details(), "You cant just randomly put numbers anywhere you like you know");
    assert_eq!(e.position(), Some((2, 1, 3)));
    assert_eq!(kind_of("main:\n12\n"), ErrorKind::Syntax);
    assert_eq!(kind_of("main:\nV1\n"), ErrorKind::Syntax);
    assert_eq!(kind_of("main:\n:\n"), ErrorKind::Syntax);
}

#[test]
fn colon_as_operand_is_a_syntax_error() {
    let e = assemble("main:\nJMP :\n").unwrap_err();
    assert_eq!(e.kind(), ErrorKind::Syntax);
    assert_eq!(e.details(), "Expected a register, label, or number as an argument");
}

#[test]
fn invalid_operands_name_the_mnemonic() {
    let e = assemble("main:\nSET 1 V0\n").unwrap_err();
    assert_eq!(e.kind(), ErrorKind::Syntax);
    assert_eq!(e.details(), "Invalid arguments to command SET");
    assert_eq!(e.position(), Some((2, 1, 4)));
}

#[test]
fn label_without_colon_is_a_syntax_error() {
    let e = assemble("main:\nloop\n").unwrap_err();
    assert_eq!(e.kind(), ErrorKind::Syntax);
    assert_eq!(e.details(), "Expected : after label name");
}

#[test]
fn pass_through_mnemonic_gives_its_number_as_a_word() {
    let words = assemble("main:\nCHIP 0xF1FF\n").unwrap();
    assert_eq!(words[2], 0xF1FF);
}

#[test]
fn too_long_a_program_is_refused() {
    let mut source = String::from("main:\n");
    for _ in 0..0x6FD {
        source.push_str("CLR\n");
    }
    assert_eq!(assemble(&source).unwrap().len(), 0x6FF);
    source.push_str("CLR\n");
    let e = assemble(&source).unwrap_err();
    assert_eq!(e.kind(), ErrorKind::NumberOverflow);
    assert_eq!(e.position(), Some((0x6FD + 2, 1, 4)));
}

#[test]
fn parse_can_be_called_again_when_it_is_done() {
    let tokens = lex("main:\nRET\n", Rc::new(String::from("main.chasm"))).unwrap();
    let mut parser = Parser::new(tokens);
    let first = match parser.parse().unwrap() {
        Progress::Complete(program) => program,
        Progress::Include(_) => unreachable!(),
    };
    let second = match parser.parse().unwrap() {
        Progress::Complete(program) => program,
        Progress::Include(_) => unreachable!(),
    };
    assert_eq!(first, second);
}

fn complete(source: &str) -> Program {
    parse_with(source, &[]).unwrap()
}

#[test]
fn a_flag_defined_behind_a_condition_does_not_open_it_in_the_second_pass() {
    assert_eq!(
        complete("main:\n%?# ;dbg\nCLR\n%?- ;\nRET\n%#+ ;dbg\n"),
        vec![
            (Command::CALL, vec![InstructionArg::Label(2)]),
            (Command::JMP, vec![InstructionArg::Label(1)]),
            (Command::RET, vec![]),
        ]
    );
}

#[test]
fn a_flag_removed_behind_a_condition_does_not_close_it_in_the_second_pass() {
    assert_eq!(
        complete("%#+ ;X\nmain:\n%?# ;X\nCLR\n%?- ;\n%#- ;X\nRET\n"),
        vec![
            (Command::CALL, vec![InstructionArg::Label(2)]),
            (Command::JMP, vec![InstructionArg::Label(1)]),
            (Command::CLR, vec![]),
            (Command::RET, vec![]),
        ]
    );
}

#[test]
fn both_passes_take_the_same_branches() {
    let source = "%?! ;A\nmain:\n%?| ;\nother:\n%?- ;\n%#+ ;A\n%?# ;A\nJMP main\n%?- ;\n\
                  %#- ;A\n%?# ;A\nJMP other\n%?| ;\nRET\n%?- ;\n";
    assert_eq!(
        complete(source),
        vec![
            (Command::CALL, vec![InstructionArg::Label(2)]),
            (Command::JMP, vec![InstructionArg::Label(1)]),
            (Command::JMP, vec![InstructionArg::Label(2)]),
            (Command::RET, vec![]),
        ]
    );
}

#[test]
fn a_label_in_a_block_that_a_later_flag_would_open_stays_unknown() {
    let e = assemble("main:\n%?# ;late\nhidden:\n%?- ;\n%#+ ;late\nJMP hidden\n").unwrap_err();
    assert_eq!(e.kind(), ErrorKind::UndefinedLabel);
}

#[test]
fn conditions_in_an_included_file_go_by_the_flags_at_the_include() {
    let files = [("lib.chasm", "%?# ;fast\nCLR\n%?- ;\n")];
    let source = "%#+ ;fast\nmain:\n%+ ;lib.chasm\n%#- ;fast\n%+ ;lib.chasm\nRET\n";
    assert_eq!(
        parse_with(source, &files).unwrap(),
        vec![
            (Command::CALL, vec![InstructionArg::Label(2)]),
            (Command::JMP, vec![InstructionArg::Label(1)]),
            (Command::CLR, vec![]),
            (Command::RET, vec![]),
        ]
    );
}

#[test]
fn a_directive_behind_a_skipped_mnemonic_is_still_carried_out() {
    let words = assemble("main:\n%?# ;X\nCLR %?- ;\nRET\n").unwrap();
    assert_eq!(words, vec![0x2204, 0x1202, 0x00EE]);
}

