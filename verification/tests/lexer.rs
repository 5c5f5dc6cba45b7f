use chasm::exception::{CompileError, ErrorKind, Exception};
use chasm::lexer::{classify_word, find_command, lex, parse_digits, Parsed};
use chasm::token::{Command, MprocessorDirective, Token, TokenType};
use std::rc::Rc;

fn tokens(source: &str) -> Vec<Token> {
    lex(source, Rc::new(String::from("test.chasm"))).unwrap()
}

fn kinds(source: &str) -> Vec<TokenType> {
    tokens(source).into_iter().map(|t| t.token).collect()
}

fn places(source: &str) -> Vec<(usize, usize, usize)> {
    tokens(source)
        .into_iter()
        .map(|t| (t.position.line, t.position.column.0, t.position.column.1))
        .collect()
}

fn failure(source: &str) -> CompileError {
    lex(source, Rc::new(String::from("test.chasm"))).unwrap_err()
}

fn chars(s: &str) -> Vec<char> {
    s.chars().collect()
}

#[test]
fn empty_text_gives_one_eof() {
    assert_eq!(kinds(""), vec![TokenType::Eof]);
    assert_eq!(places(""), vec![(1, 1, 1)]);
}

#[test]
fn every_text_ends_with_exactly_one_eof() {
    for source in ["", "\n", "main:\nRET", "; note", "SET V0 1\n\n"] {
        let all = kinds(source);
        assert_eq!(all.last(), Some(&TokenType::Eof));
        assert_eq!(all.iter().filter(|t| **t == TokenType::Eof).count(), 1);
    }
}

#[test]
fn set_statement_tokens() {
    assert_eq!(
        kinds("SET V0 0x12\n"),
        vec![
            TokenType::Command(Command::SET),
            TokenType::Register(0),
            TokenType::Number(0x12),
            TokenType::Eol,
            TokenType::Eof,
        ]
    );
}

#[test]
fn spans_are_counted_from_one_and_exclude_their_end() {
    assert_eq!(
        places("SET V0 0x12\n"),
        vec![(1, 1, 4), (1, 5, 7), (1, 8, 12), (1, 12, 13), (2, 1, 1)]
    );
}

#[test]
fn lines_are_counted_across_line_feeds() {
    assert_eq!(
        places("main:\n  RET\n"),
        vec![(1, 1, 5), (1, 5, 6), (1, 6, 7), (2, 3, 6), (2, 6, 7), (3, 1, 1)]
    );
}

#[test]
fn tokens_carry_the_file() {
    for t in tokens("main:\nRET\n") {
        assert_eq!(t.position.file.as_str(), "test.chasm");
    }
}

#[test]
fn blanks_and_carriage_returns_give_no_token() {
    assert_eq!(kinds(" \t\r"), vec![TokenType::Eof]);
    assert_eq!(places(" \t\r"), vec![(1, 4, 4)]);
}

#[test]
fn letters_are_folded_for_classification() {
    assert_eq!(
        kinds("set vf Main"),
        vec![
            TokenType::Command(Command::SET),
            TokenType::Register(15),
            TokenType::Label(String::from("main")),
            TokenType::Eof,
        ]
    );
}

#[test]
fn registers_run_from_v0_to_vf() {
    assert_eq!(
        kinds("V0 V9 VA vf"),
        vec![
            TokenType::Register(0),
            TokenType::Register(9),
            TokenType::Register(10),
            TokenType::Register(15),
            TokenType::Eof,
        ]
    );
    assert_eq!(kinds("VG")[0], TokenType::Label(String::from("vg")));
    assert_eq!(kinds("V10")[0], TokenType::Label(String::from("v10")));
}

#[test]
fn every_mnemonic_is_recognised() {
    for cmd in Command::all() {
        let upper = cmd.mnemonic().to_string();
        let lower = upper.to_lowercase();
        assert_eq!(kinds(&upper)[0], TokenType::Command(cmd));
        assert_eq!(kinds(&lower)[0], TokenType::Command(cmd));
    }
}

#[test]
fn a_word_of_hexadecimal_digits_is_a_number() {
    assert_eq!(kinds("ff")[0], TokenType::Number(0xFF));
    assert_eq!(kinds("DEAD")[0], TokenType::Number(0xDEAD));
    assert_eq!(kinds("a")[0], TokenType::Number(10));
}

#[test]
fn a_mnemonic_comes_before_a_hexadecimal_word() {
    assert_eq!(kinds("ADD")[0], TokenType::Command(Command::ADD));
}

#[test]
fn a_hexadecimal_word_that_does_not_fit_is_a_label() {
    assert_eq!(kinds("abcde")[0], TokenType::Label(String::from("abcde")));
}

#[test]
fn labels_keep_digits_and_underscores() {
    assert_eq!(kinds("_loop_2")[0], TokenType::Label(String::from("_loop_2")));
}

#[test]
fn a_word_with_a_number_outside_ascii_is_invalid() {
    let e = failure("x\u{00B2}");
    assert_eq!(e.kind(), ErrorKind::InvalidToken);
    assert_eq!(e.details(), "Invalid token found while parsing 'X\u{00B2}'");
    assert_eq!(e.position(), Some((1, 1, 3)));
}

#[test]
fn a_letter_outside_ascii_ends_the_word_and_is_invalid() {
    let e = failure("x\u{00E9}");
    assert_eq!(e.kind(), ErrorKind::InvalidToken);
    assert_eq!(e.details(), "Invalid token found while parsing '\u{00E9}'");
    assert_eq!(e.position(), Some((1, 2, 3)));
}

#[test]
fn numbers_without_prefix_are_hexadecimal() {
    assert_eq!(kinds("12")[0], TokenType::Number(0x12));
    assert_eq!(kinds("1b")[0], TokenType::Number(0x1B));
    assert_eq!(kinds("9F")[0], TokenType::Number(0x9F));
}

#[test]
fn prefixes_select_the_base() {
    assert_eq!(kinds("0b101")[0], TokenType::Number(5));
    assert_eq!(kinds("0B11")[0], TokenType::Number(3));
    assert_eq!(kinds("0o17")[0], TokenType::Number(15));
    assert_eq!(kinds("0O7")[0], TokenType::Number(7));
    assert_eq!(kinds("0x1F")[0], TokenType::Number(31));
    assert_eq!(kinds("0XfF")[0], TokenType::Number(255));
    assert_eq!(kinds("0d99")[0], TokenType::Number(99));
    assert_eq!(kinds("0D10")[0], TokenType::Number(10));
}

#[test]
fn a_prefix_without_digits_is_zero() {
    assert_eq!(kinds("0x"), vec![TokenType::Number(0), TokenType::Eof]);
    assert_eq!(places("0x"), vec![(1, 1, 3), (1, 3, 3)]);
}

#[test]
fn the_largest_number_fits() {
    assert_eq!(kinds("0xFFFF")[0], TokenType::Number(0xFFFF));
    assert_eq!(kinds("0d65535")[0], TokenType::Number(65535));
    assert_eq!(kinds("0b1111111111111111")[0], TokenType::Number(0xFFFF));
    assert_eq!(kinds("0x0000000001")[0], TokenType::Number(1));
}

#[test]
fn number_overflow_is_reported() {
    for source in ["0x10000", "0d65536", "0b10000000000000000", "0o200000", "10000"] {
        let e = failure(source);
        assert_eq!(e.kind(), ErrorKind::NumberOverflow);
        assert_eq!(e.details(), format!("Number '{}' is too large", source));
        assert_eq!(e.position(), Some((1, 1, source.len() + 1)));
    }
}

#[test]
fn a_digit_outside_the_base_is_a_syntax_error() {
    let e = failure("SET V0 0b102");
    assert_eq!(e.kind(), ErrorKind::Syntax);
    assert_eq!(e.details(), "Invalid digit found while parsing number '0b102'");
    assert_eq!(e.position(), Some((1, 8, 13)));
    assert_eq!(failure("0d1a").kind(), ErrorKind::Syntax);
    assert_eq!(failure("0o8").kind(), ErrorKind::Syntax);
}

#[test]
fn the_first_fault_of_a_number_is_reported() {
    assert_eq!(failure("0b11111111111111111112").kind(), ErrorKind::NumberOverflow);
    assert_eq!(failure("0b21111111111111111111").kind(), ErrorKind::Syntax);
}

#[test]
fn comment_runs_to_the_end_of_the_line() {
    assert_eq!(
        kinds("RET ;  back to the caller \nCLR"),
        vec![
            TokenType::Command(Command::RET),
            TokenType::Comment(String::from("back to the caller")),
            TokenType::Eol,
            TokenType::Command(Command::CLR),
            TokenType::Eof,
        ]
    );
    assert_eq!(
        places("RET ;  back to the caller \nCLR"),
        vec![(1, 1, 4), (1, 5, 27), (1, 27, 28), (2, 1, 4), (2, 4, 4)]
    );
}

#[test]
fn comment_at_the_end_of_the_text_still_gives_an_eol() {
    assert_eq!(
        kinds(";x"),
        vec![TokenType::Comment(String::from("x")), TokenType::Eol, TokenType::Eof]
    );
    assert_eq!(places(";x"), vec![(1, 1, 3), (1, 3, 4), (1, 3, 3)]);
}

#[test]
fn comment_text_is_kept_as_written() {
    assert_eq!(
        kinds("; Mixed Case: %+ 12")[0],
        TokenType::Comment(String::from("Mixed Case: %+ 12"))
    );
}

#[test]
fn every_directive_has_its_sigil() {
    let cases = [
        ("%+", MprocessorDirective::M_include),
        ("%!", MprocessorDirective::M_error),
        ("%#+", MprocessorDirective::M_define),
        ("%#-", MprocessorDirective::M_undef),
        ("%?#", MprocessorDirective::M_ifdef),
        ("%?!", MprocessorDirective::M_ifndef),
        ("%?|", MprocessorDirective::M_else),
        ("%?-", MprocessorDirective::M_endif),
    ];
    for (sigil, directive) in cases {
        assert_eq!(
            kinds(sigil),
            vec![TokenType::MprocessorDirective(directive), TokenType::Eof]
        );
        assert_eq!(places(sigil)[0], (1, 1, sigil.len() + 1));
    }
}

#[test]
fn directive_with_argument() {
    assert_eq!(
        kinds("%#+ ; FLAG \n"),
        vec![
            TokenType::MprocessorDirective(MprocessorDirective::M_define),
            TokenType::Comment(String::from("FLAG")),
            TokenType::Eol,
            TokenType::Eof,
        ]
    );
}

#[test]
fn percent_at_the_end_is_a_syntax_error() {
    let e = failure("RET %");
    assert_eq!(e.kind(), ErrorKind::Syntax);
    assert_eq!(e.details(), "Expected a preprocessor directive after %");
    assert_eq!(e.position(), Some((1, 5, 6)));
}

#[test]
fn unfinished_directives_are_syntax_errors() {
    let e = failure("%#");
    assert_eq!(e.kind(), ErrorKind::Syntax);
    assert_eq!(e.details(), "Expected+ or - after %#");
    assert_eq!(e.position(), Some((1, 1, 3)));
    let e = failure("%?");
    assert_eq!(e.kind(), ErrorKind::Syntax);
    assert_eq!(e.details(), "Expected #, !, | or - after %?");
}

#[test]
fn unknown_directives_carry_their_text() {
    let e = failure("%x");
    assert_eq!(e.kind(), ErrorKind::Syntax);
    assert_eq!(e.details(), "Invalid preprocessor directive '%x'");
    assert_eq!(e.position(), Some((1, 1, 3)));
    let e = failure("%#x");
    assert_eq!(e.kind(), ErrorKind::InvalidToken);
    assert_eq!(e.details(), "Invalid preprocessor directive '%#x'");
    assert_eq!(e.position(), Some((1, 1, 4)));
    let e = failure("\n %?+");
    assert_eq!(e.kind(), ErrorKind::InvalidToken);
    assert_eq!(e.details(), "Invalid preprocessor directive '%?+'");
    assert_eq!(e.position(), Some((2, 2, 5)));
}

#[test]
fn any_other_character_is_an_invalid_token() {
    let e = failure("SET V0, 1");
    assert_eq!(e.kind(), ErrorKind::InvalidToken);
    assert_eq!(e.details(), "Invalid token found while parsing ','");
    assert_eq!(e.file(), Some("test.chasm"));
    assert_eq!(e.position(), Some((1, 7, 8)));
}

#[test]
fn colon_is_a_token_of_its_own() {
    assert_eq!(
        kinds("main:"),
        vec![TokenType::Label(String::from("main")), TokenType::Colon, TokenType::Eof]
    );
}

#[test]
fn digits_are_read_in_their_base() {
    assert_eq!(parse_digits(&chars("1010"), 2), Parsed::Value(10));
    assert_eq!(parse_digits(&chars("777"), 8), Parsed::Value(511));
    assert_eq!(parse_digits(&chars("65535"), 10), Parsed::Value(65535));
    assert_eq!(parse_digits(&chars("fFfF"), 16), Parsed::Value(65535));
    assert_eq!(parse_digits(&chars(""), 16), Parsed::Value(0));
    assert_eq!(parse_digits(&chars("65536"), 10), Parsed::Overflow);
    assert_eq!(parse_digits(&chars("12a"), 10), Parsed::InvalidDigit);
    assert_eq!(parse_digits(&chars("1_0"), 16), Parsed::InvalidDigit);
}

#[test]
fn words_are_classified_in_order() {
    assert_eq!(classify_word(&chars("V1")), Some(TokenType::Register(1)));
    assert_eq!(classify_word(&chars("DRAW")), Some(TokenType::Command(Command::DRAW)));
    assert_eq!(classify_word(&chars("BEEF")), Some(TokenType::Number(0xBEEF)));
    assert_eq!(classify_word(&chars("LOOP")), Some(TokenType::Label(String::from("loop"))));
    assert_eq!(classify_word(&chars("A\u{0663}")), None);
}

#[test]
fn mnemonics_are_found_by_their_upper_case_name() {
    assert_eq!(find_command(&chars("JMPNEKEY")), Some(Command::JMPNEKEY));
    assert_eq!(find_command(&chars("jmp")), None);
    assert_eq!(find_command(&chars("NOP")), None);
}
