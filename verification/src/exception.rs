//! Positions in source text and the closed set of failures of a compilation.
use crate::text::{decimal, push_decimal, share};
use std::rc::Rc;
use vstd::prelude::*;

verus! {

/// Where a token or a failure lies: the file, the line (counted from 1) and the
/// columns `column.0 .. column.1` (counted from 1, the end not included).
#[derive(Debug)]
pub struct Position {
    pub line: usize,
    pub column: (usize, usize),
    pub file: Rc<String>,
}

/// The mathematical value of a [`Position`].
pub struct Span {
    pub line: usize,
    pub column: (usize, usize),
    pub file: Seq<char>,
}

impl View for Position {
    type V = Span;

    open spec fn view(&self) -> Span {
        Span { line: self.line, column: self.column, file: self.file@ }
    }
}

/// The text `file::line::start:end`.
pub open spec fn span_text(p: Span) -> Seq<char> {
    p.file + "::"@ + decimal(p.line as nat) + "::"@ + decimal(p.column.0 as nat) + ":"@ + decimal(
        p.column.1 as nat,
    )
}

impl Position {
    /// The place `line`, columns `column.0 .. column.1`, in `file`.
    pub fn new(line: usize, column: (usize, usize), file: Rc<String>) -> (p: Position)
        ensures
            p.line == line,
            p.column == column,
            p.file == file,
    {
        Position { line, column, file }
    }

    /// The position as one piece of text, `file::line::start:end`.
    pub fn render(&self) -> (s: String)
        ensures
            s@ == span_text(self@),
    {
        let mut s = String::new();
        s.append(self.file.as_str());
        s.append("::");
        push_decimal(&mut s, self.line);
        s.append("::");
        push_decimal(&mut s, self.column.0);
        s.append(":");
        push_decimal(&mut s, self.column.1);
        s
    }
}

impl Clone for Position {
    fn clone(&self) -> (r: Self)
        ensures
            r == *self,
    {
        Position { line: self.line, column: self.column, file: share(&self.file) }
    }
}

/// The kinds of failure. Every failure ends the compilation.
#[derive(Debug, PartialEq, Eq, Structural, Clone, Copy)]
pub enum ErrorKind {
    InvalidToken,
    Syntax,
    NumberOverflow,
    Unknown,
    File,
    Preprocessor,
    UndefinedLabel,
    Redefinition,
    MissingMain,
}

/// What a failure says: its kind, the file and the place where they are known,
/// and a sentence of detail. The place is `(line, first column, end column)`.
pub struct Diagnosis {
    pub kind: ErrorKind,
    pub file: Option<Seq<char>>,
    pub position: Option<(usize, usize, usize)>,
    pub details: Seq<char>,
}

/// The diagnosis of a failure of `kind` at the place `p`.
pub open spec fn located(kind: ErrorKind, details: Seq<char>, p: Span) -> Diagnosis {
    Diagnosis {
        kind,
        file: Some(p.file),
        position: Some((p.line, p.column.0, p.column.1)),
        details,
    }
}

/// The diagnosis of a program that defines no label `main`.
pub open spec fn missing_main(file: Seq<char>) -> Diagnosis {
    Diagnosis {
        kind: ErrorKind::MissingMain,
        file: Some(file),
        position: None,
        details: "No Main function was found"@,
    }
}

/// The name under which a kind of failure is reported.
pub open spec fn kind_name(kind: ErrorKind) -> Seq<char> {
    match kind {
        ErrorKind::InvalidToken => "Invalid Token"@,
        ErrorKind::Syntax => "Syntax Error"@,
        ErrorKind::NumberOverflow => "Number Overflow"@,
        ErrorKind::Unknown => "Unknown Exception"@,
        ErrorKind::File => "File Exception"@,
        ErrorKind::Preprocessor => "Mprocessor Exception"@,
        ErrorKind::UndefinedLabel => "Undefined Label"@,
        ErrorKind::Redefinition => "Redefinition"@,
        ErrorKind::MissingMain => "No Main"@,
    }
}

/// The one line in which a failure is shown: kind, file, place and detail.
pub open spec fn rendering(d: Diagnosis) -> Seq<char> {
    "Compiler Exception: "@ + kind_name(d.kind) + " :: "@ + (match d.file {
        Some(f) => "file: "@ + f + " :: "@,
        None => Seq::<char>::empty(),
    }) + (match d.position {
        Some(p) => "line: "@ + decimal(p.0 as nat) + " :: column: "@ + decimal(p.1 as nat) + " to "@
            + decimal(p.2 as nat) + " :: "@,
        None => Seq::<char>::empty(),
    }) + d.details
}

/// The name of a kind of failure.
pub fn name_of(kind: ErrorKind) -> (name: &'static str)
    ensures
        name@ == kind_name(kind),
{
    match kind {
        ErrorKind::InvalidToken => "Invalid Token",
        ErrorKind::Syntax => "Syntax Error",
        ErrorKind::NumberOverflow => "Number Overflow",
        ErrorKind::Unknown => "Unknown Exception",
        ErrorKind::File => "File Exception",
        ErrorKind::Preprocessor => "Mprocessor Exception",
        ErrorKind::UndefinedLabel => "Undefined Label",
        ErrorKind::Redefinition => "Redefinition",
        ErrorKind::MissingMain => "No Main",
    }
}

/// What every failure can tell about itself.
pub trait Exception {
    /// The failure as a mathematical value.
    spec fn diagnosis(&self) -> Diagnosis;

    /// The name of the failure's kind.
    fn error(&self) -> (name: &'static str)
        ensures
            name@ == kind_name(self.diagnosis().kind),
    ;

    /// The sentence of detail.
    fn details(&self) -> (text: &str)
        ensures
            text@ == self.diagnosis().details,
    ;

    /// The file in which the failure lies, where it is known.
    fn file(&self) -> (file: Option<&str>)
        ensures
            file is Some == self.diagnosis().file is Some,
            file matches Some(f) ==> f@ == self.diagnosis().file->0,
    ;

    /// The line, the first column and the end column, where they are known.
    fn position(&self) -> (place: Option<(usize, usize, usize)>)
        ensures
            place == self.diagnosis().position,
    ;
}

/// The one line in which a failure is shown.
pub fn describe<E: Exception>(e: &E) -> (line: String)
    ensures
        line@ == rendering(e.diagnosis()),
{
    let mut s = String::new();
    s.append("Compiler Exception: ");
    s.append(e.error());
    s.append(" :: ");
    if let Some(file) = e.file() {
        s.append("file: ");
        s.append(file);
        s.append(" :: ");
    }
    if let Some((line, first, end)) = e.position() {
        s.append("line: ");
        push_decimal(&mut s, line);
        s.append(" :: column: ");
        push_decimal(&mut s, first);
        s.append(" to ");
        push_decimal(&mut s, end);
        s.append(" :: ");
    }
    s.append(e.details());
    s
}

/// The failure of a numeric literal that does not fit the width of a code
/// word: the detail and the place.
#[derive(Debug)]
pub struct NumberOverflow(pub String, pub Position);

impl Exception for NumberOverflow {
    open spec fn diagnosis(&self) -> Diagnosis {
        located(ErrorKind::NumberOverflow, self.0@, self.1@)
    }

    fn error(&self) -> (name: &'static str) {
        name_of(ErrorKind::NumberOverflow)
    }

    fn details(&self) -> (text: &str) {
        self.0.as_str()
    }

    fn file(&self) -> (file: Option<&str>) {
        Some(self.1.file.as_str())
    }

    fn position(&self) -> (place: Option<(usize, usize, usize)>) {
        Some((self.1.line, self.1.column.0, self.1.column.1))
    }
}

/// The failure of text that is no token: the detail and the place.
#[derive(Debug)]
pub struct InvalidToken(pub String, pub Position);

impl Exception for InvalidToken {
    open spec fn diagnosis(&self) -> Diagnosis {
        located(ErrorKind::InvalidToken, self.0@, self.1@)
    }

    fn error(&self) -> (name: &'static str) {
        name_of(ErrorKind::InvalidToken)
    }

    fn details(&self) -> (text: &str) {
        self.0.as_str()
    }

    fn file(&self) -> (file: Option<&str>) {
        Some(self.1.file.as_str())
    }

    fn position(&self) -> (place: Option<(usize, usize, usize)>) {
        Some((self.1.line, self.1.column.0, self.1.column.1))
    }
}

/// A failure that fits no other kind: the detail and the place.
#[derive(Debug)]
pub struct UnknownException(pub String, pub Position);

impl Exception for UnknownException {
    open spec fn diagnosis(&self) -> Diagnosis {
        located(ErrorKind::Unknown, self.0@, self.1@)
    }

    fn error(&self) -> (name: &'static str) {
        name_of(ErrorKind::Unknown)
    }

    fn details(&self) -> (text: &str) {
        self.0.as_str()
    }

    fn file(&self) -> (file: Option<&str>) {
        Some(self.1.file.as_str())
    }

    fn position(&self) -> (place: Option<(usize, usize, usize)>) {
        Some((self.1.line, self.1.column.0, self.1.column.1))
    }
}

/// The failure of tokens that do not form a statement: the detail and the
/// place.
#[derive(Debug)]
pub struct SyntaxError(pub String, pub Position);

impl Exception for SyntaxError {
    open spec fn diagnosis(&self) -> Diagnosis {
        located(ErrorKind::Syntax, self.0@, self.1@)
    }

    fn error(&self) -> (name: &'static str) {
        name_of(ErrorKind::Syntax)
    }

    fn details(&self) -> (text: &str) {
        self.0.as_str()
    }

    fn file(&self) -> (file: Option<&str>) {
        Some(self.1.file.as_str())
    }

    fn position(&self) -> (place: Option<(usize, usize, usize)>) {
        Some((self.1.line, self.1.column.0, self.1.column.1))
    }
}

/// The failure of an include whose file could not be read: the detail and the
/// place.
#[derive(Debug)]
pub struct FileException(pub String, pub Position);

impl Exception for FileException {
    open spec fn diagnosis(&self) -> Diagnosis {
        located(ErrorKind::File, self.0@, self.1@)
    }

    fn error(&self) -> (name: &'static str) {
        name_of(ErrorKind::File)
    }

    fn details(&self) -> (text: &str) {
        self.0.as_str()
    }

    fn file(&self) -> (file: Option<&str>) {
        Some(self.1.file.as_str())
    }

    fn position(&self) -> (place: Option<(usize, usize, usize)>) {
        Some((self.1.line, self.1.column.0, self.1.column.1))
    }
}

/// The failure of a directive that cannot be carried out, or that asks for a
/// failure: the detail and the place.
#[derive(Debug)]
pub struct MprocessorException(pub String, pub Position);

impl Exception for MprocessorException {
    open spec fn diagnosis(&self) -> Diagnosis {
        located(ErrorKind::Preprocessor, self.0@, self.1@)
    }

    fn error(&self) -> (name: &'static str) {
        name_of(ErrorKind::Preprocessor)
    }

    fn details(&self) -> (text: &str) {
        self.0.as_str()
    }

    fn file(&self) -> (file: Option<&str>) {
        Some(self.1.file.as_str())
    }

    fn position(&self) -> (place: Option<(usize, usize, usize)>) {
        Some((self.1.line, self.1.column.0, self.1.column.1))
    }
}

/// The failure of an operand that names a label which nothing defines: the
/// detail and the place.
#[derive(Debug)]
pub struct Undefined(pub String, pub Position);

impl Exception for Undefined {
    open spec fn diagnosis(&self) -> Diagnosis {
        located(ErrorKind::UndefinedLabel, self.0@, self.1@)
    }

    fn error(&self) -> (name: &'static str) {
        name_of(ErrorKind::UndefinedLabel)
    }

    fn details(&self) -> (text: &str) {
        self.0.as_str()
    }

    fn file(&self) -> (file: Option<&str>) {
        Some(self.1.file.as_str())
    }

    fn position(&self) -> (place: Option<(usize, usize, usize)>) {
        Some((self.1.line, self.1.column.0, self.1.column.1))
    }
}

/// The failure of a label that is defined a second time: the detail and the
/// place.
#[derive(Debug)]
pub struct Redefinition(pub String, pub Position);

impl Exception for Redefinition {
    open spec fn diagnosis(&self) -> Diagnosis {
        located(ErrorKind::Redefinition, self.0@, self.1@)
    }

    fn error(&self) -> (name: &'static str) {
        name_of(ErrorKind::Redefinition)
    }

    fn details(&self) -> (text: &str) {
        self.0.as_str()
    }

    fn file(&self) -> (file: Option<&str>) {
        Some(self.1.file.as_str())
    }

    fn position(&self) -> (place: Option<(usize, usize, usize)>) {
        Some((self.1.line, self.1.column.0, self.1.column.1))
    }
}

/// The failure of a program that defines no label `main`: the file that was
/// read.
#[derive(Debug)]
pub struct NoMain(pub Rc<String>);

impl Exception for NoMain {
    open spec fn diagnosis(&self) -> Diagnosis {
        missing_main(self.0@)
    }

    fn error(&self) -> (name: &'static str) {
        name_of(ErrorKind::MissingMain)
    }

    fn details(&self) -> (text: &str) {
        "No Main function was found"
    }

    fn file(&self) -> (file: Option<&str>) {
        Some(self.0.as_str())
    }

    fn position(&self) -> (place: Option<(usize, usize, usize)>) {
        None
    }
}

/// Any failure of a compilation: one of the nine kinds, with what it carries.
#[derive(Debug)]
pub enum CompileError {
    NumberOverflow(NumberOverflow),
    InvalidToken(InvalidToken),
    UnknownException(UnknownException),
    SyntaxError(SyntaxError),
    FileException(FileException),
    MprocessorException(MprocessorException),
    Undefined(Undefined),
    Redefinition(Redefinition),
    NoMain(NoMain),
}

impl View for CompileError {
    type V = Diagnosis;

    open spec fn view(&self) -> Diagnosis {
        self.diagnosis()
    }
}

impl Exception for CompileError {
    open spec fn diagnosis(&self) -> Diagnosis {
        match self {
            CompileError::NumberOverflow(e) => e.diagnosis(),
            CompileError::InvalidToken(e) => e.diagnosis(),
            CompileError::UnknownException(e) => e.diagnosis(),
            CompileError::SyntaxError(e) => e.diagnosis(),
            CompileError::FileException(e) => e.diagnosis(),
            CompileError::MprocessorException(e) => e.diagnosis(),
            CompileError::Undefined(e) => e.diagnosis(),
            CompileError::Redefinition(e) => e.diagnosis(),
            CompileError::NoMain(e) => e.diagnosis(),
        }
    }

    fn error(&self) -> (name: &'static str) {
        match self {
            CompileError::NumberOverflow(e) => e.error(),
            CompileError::InvalidToken(e) => e.error(),
            CompileError::UnknownException(e) => e.error(),
            CompileError::SyntaxError(e) => e.error(),
            CompileError::FileException(e) => e.error(),
            CompileError::MprocessorException(e) => e.error(),
            CompileError::Undefined(e) => e.error(),
            CompileError::Redefinition(e) => e.error(),
            CompileError::NoMain(e) => e.error(),
        }
    }

    fn details(&self) -> (text: &str) {
        match self {
            CompileError::NumberOverflow(e) => e.details(),
            CompileError::InvalidToken(e) => e.details(),
            CompileError::UnknownException(e) => e.details(),
            CompileError::SyntaxError(e) => e.details(),
            CompileError::FileException(e) => e.details(),
            CompileError::MprocessorException(e) => e.details(),
            CompileError::Undefined(e) => e.details(),
            CompileError::Redefinition(e) => e.details(),
            CompileError::NoMain(e) => e.details(),
        }
    }

    fn file(&self) -> (file: Option<&str>) {
        match self {
            CompileError::NumberOverflow(e) => e.file(),
            CompileError::InvalidToken(e) => e.file(),
            CompileError::UnknownException(e) => e.file(),
            CompileError::SyntaxError(e) => e.file(),
            CompileError::FileException(e) => e.file(),
            CompileError::MprocessorException(e) => e.file(),
            CompileError::Undefined(e) => e.file(),
            CompileError::Redefinition(e) => e.file(),
            CompileError::NoMain(e) => e.file(),
        }
    }

    fn position(&self) -> (place: Option<(usize, usize, usize)>) {
        match self {
            CompileError::NumberOverflow(e) => e.position(),
            CompileError::InvalidToken(e) => e.position(),
            CompileError::UnknownException(e) => e.position(),
            CompileError::SyntaxError(e) => e.position(),
            CompileError::FileException(e) => e.position(),
            CompileError::MprocessorException(e) => e.position(),
            CompileError::Undefined(e) => e.position(),
            CompileError::Redefinition(e) => e.position(),
            CompileError::NoMain(e) => e.position(),
        }
    }
}

impl CompileError {
    /// The kind of the failure.
    pub fn kind(&self) -> (kind: ErrorKind)
        ensures
            kind == self@.kind,
    {
        match self {
            CompileError::NumberOverflow(_) => ErrorKind::NumberOverflow,
            CompileError::InvalidToken(_) => ErrorKind::InvalidToken,
            CompileError::UnknownException(_) => ErrorKind::Unknown,
            CompileError::SyntaxError(_) => ErrorKind::Syntax,
            CompileError::FileException(_) => ErrorKind::File,
            CompileError::MprocessorException(_) => ErrorKind::Preprocessor,
            CompileError::Undefined(_) => ErrorKind::UndefinedLabel,
            CompileError::Redefinition(_) => ErrorKind::Redefinition,
            CompileError::NoMain(_) => ErrorKind::MissingMain,
        }
    }

    /// The failure of `kind` with the given detail at the given place. The kind
    /// `MissingMain` carries no detail of its own and no place, only the file.
    pub fn at(kind: ErrorKind, details: String, position: Position) -> (e: CompileError)
        ensures
            kind != ErrorKind::MissingMain ==> e@ == located(kind, details@, position@),
            kind == ErrorKind::MissingMain ==> e@ == missing_main(position@.file),
    {
        match kind {
            ErrorKind::NumberOverflow => CompileError::NumberOverflow(
                NumberOverflow(details, position),
            ),
            ErrorKind::InvalidToken => CompileError::InvalidToken(InvalidToken(details, position)),
            ErrorKind::Unknown => CompileError::UnknownException(
                UnknownException(details, position),
            ),
            ErrorKind::Syntax => CompileError::SyntaxError(SyntaxError(details, position)),
            ErrorKind::File => CompileError::FileException(FileException(details, position)),
            ErrorKind::Preprocessor => CompileError::MprocessorException(
                MprocessorException(details, position),
            ),
            ErrorKind::UndefinedLabel => CompileError::Undefined(Undefined(details, position)),
            ErrorKind::Redefinition => CompileError::Redefinition(Redefinition(details, position)),
            ErrorKind::MissingMain => CompileError::NoMain(NoMain(position.file)),
        }
    }

    /// The one line in which the failure is shown.
    pub fn render(&self) -> (line: String)
        ensures
            line@ == rendering(self@),
    {
        describe(self)
    }
}

} // verus!
