use chasm::exception::{
    describe, name_of, CompileError, ErrorKind, Exception, FileException, InvalidToken,
    MprocessorException, NoMain, NumberOverflow, Position, Redefinition, SyntaxError, Undefined,
    UnknownException,
};
use chasm::text::{push_decimal, trimmed};
use std::rc::Rc;

fn place() -> Position {
    Position::new(12, (3, 7), Rc::new(String::from("prog.chasm")))
}

#[test]
fn position_new_keeps_its_parts() {
    let file = Rc::new(String::from("prog.chasm"));
    let p = Position::new(12, (3, 7), Rc::clone(&file));
    assert_eq!(p.line, 12);
    assert_eq!(p.column, (3, 7));
    assert!(Rc::ptr_eq(&p.file, &file));
}

#[test]
fn position_is_shown_as_file_line_and_columns() {
    assert_eq!(place().render(), "prog.chasm::12::3:7");
    let zero = Position::new(0, (0, 0), Rc::new(String::new()));
    assert_eq!(zero.render(), "::0::0:0");
}

#[test]
fn cloned_position_shares_the_file() {
    let p = place();
    let q = p.clone();
    assert_eq!((q.line, q.column), (12, (3, 7)));
    assert!(Rc::ptr_eq(&p.file, &q.file));
}

#[test]
fn kinds_have_their_names() {
    assert_eq!(name_of(ErrorKind::InvalidToken), "Invalid Token");
    assert_eq!(name_of(ErrorKind::Syntax), "Syntax Error");
    assert_eq!(name_of(ErrorKind::NumberOverflow), "Number Overflow");
    assert_eq!(name_of(ErrorKind::Unknown), "Unknown Exception");
    assert_eq!(name_of(ErrorKind::File), "File Exception");
    assert_eq!(name_of(ErrorKind::Preprocessor), "Mprocessor Exception");
    assert_eq!(name_of(ErrorKind::UndefinedLabel), "Undefined Label");
    assert_eq!(name_of(ErrorKind::Redefinition), "Redefinition");
    assert_eq!(name_of(ErrorKind::MissingMain), "No Main");
}

#[test]
fn located_failures_tell_their_parts() {
    let e = SyntaxError(String::from("stray"), place());
    assert_eq!(e.error(), "Syntax Error");
    assert_eq!(e.details(), "stray");
    assert_eq!(e.file(), Some("prog.chasm"));
    assert_eq!(e.position(), Some((12, 3, 7)));
    assert_eq!(NumberOverflow(String::new(), place()).error(), "Number Overflow");
    assert_eq!(InvalidToken(String::new(), place()).error(), "Invalid Token");
    assert_eq!(UnknownException(String::new(), place()).error(), "Unknown Exception");
    assert_eq!(FileException(String::new(), place()).error(), "File Exception");
    assert_eq!(MprocessorException(String::new(), place()).error(), "Mprocessor Exception");
    assert_eq!(Undefined(String::new(), place()).error(), "Undefined Label");
    assert_eq!(Redefinition(String::new(), place()).error(), "Redefinition");
}

#[test]
fn missing_main_has_a_file_and_no_place() {
    let e = NoMain(Rc::new(String::from("prog.chasm")));
    assert_eq!(e.error(), "No Main");
    assert_eq!(e.details(), "No Main function was found");
    assert_eq!(e.file(), Some("prog.chasm"));
    assert_eq!(e.position(), None);
}

#[test]
fn a_failure_is_shown_on_one_line() {
    let e = SyntaxError(String::from("Invalid arguments to command SET"), place());
    assert_eq!(
        describe(&e),
        "Compiler Exception: Syntax Error :: file: prog.chasm :: line: 12 :: column: 3 to 7 :: \
         Invalid arguments to command SET"
    );
}

#[test]
fn missing_main_is_shown_without_a_place() {
    let e = CompileError::NoMain(NoMain(Rc::new(String::from("prog.chasm"))));
    assert_eq!(
        e.render(),
        "Compiler Exception: No Main :: file: prog.chasm :: No Main function was found"
    );
}

#[test]
fn every_kind_can_be_made_and_keeps_its_kind() {
    let kinds = [
        ErrorKind::InvalidToken,
        ErrorKind::Syntax,
        ErrorKind::NumberOverflow,
        ErrorKind::Unknown,
        ErrorKind::File,
        ErrorKind::Preprocessor,
        ErrorKind::UndefinedLabel,
        ErrorKind::Redefinition,
        ErrorKind::MissingMain,
    ];
    for kind in kinds {
        let e = CompileError::at(kind, String::from("detail"), place());
        assert_eq!(e.kind(), kind);
        assert_eq!(e.error(), name_of(kind));
        assert_eq!(e.file(), Some("prog.chasm"));
        if kind == ErrorKind::MissingMain {
            assert_eq!(e.position(), None);
            assert_eq!(e.details(), "No Main function was found");
        } else {
            assert_eq!(e.position(), Some((12, 3, 7)));
            assert_eq!(e.details(), "detail");
        }
    }
}

#[test]
fn the_unknown_kind_is_shown_like_the_others() {
    let e = CompileError::at(ErrorKind::Unknown, String::from("The text is too long"), place());
    assert_eq!(
        e.render(),
        "Compiler Exception: Unknown Exception :: file: prog.chasm :: line: 12 :: column: 3 to 7 \
         :: The text is too long"
    );
}

#[test]
fn numbers_are_written_in_decimal() {
    for n in [0usize, 7, 10, 99, 100, 12345, usize::MAX] {
        let mut s = String::from("n=");
        push_decimal(&mut s, n);
        assert_eq!(s, format!("n={}", n));
    }
}

#[test]
fn blanks_are_trimmed_at_both_ends_only() {
    assert_eq!(trimmed("  a b \t\r\n"), "a b");
    assert_eq!(trimmed("\u{00A0}\u{3000}x\u{2003}"), "x");
    assert_eq!(trimmed("   "), "");
    assert_eq!(trimmed(""), "");
    assert_eq!(trimmed("x"), "x");
    for s in ["  a b ", "\u{0085}q\u{1680}", "\u{200B}z ", "\u{FEFF}z"] {
        assert_eq!(trimmed(s), s.trim());
    }
}
