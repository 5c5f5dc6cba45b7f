//! From source text to tokens.
//!
//! The text is read character by character. Blanks separate tokens; a line feed
//! ends a line and gives an `Eol` token; `;` starts a comment that runs to the
//! end of the line; `%` starts a directive; a decimal digit starts a number; a
//! letter or an underscore starts a word, which is a register, a mnemonic, a
//! number or a label. Every token carries the line on which it starts and the
//! columns that it covers, both counted from 1.
use crate::exception::{located, CompileError, Diagnosis, ErrorKind, Position, Span};
use crate::text::{
    chars_of, decimal_digit, digit_value, hex_digit, is_decimal_digit, is_hex_digit, is_letter,
    is_unicode_numeric, is_word_char, letter, map_lower, map_upper, share, text_of, to_lower,
    quoted, to_upper, trim, trimmed, unicode_numeric, value_of_digit, word_char,
};
use crate::token::{
    all_commands, token_views, Command, Lexeme, MprocessorDirective, Token, TokenType, TokenView,
};
use std::rc::Rc;
use vstd::prelude::*;

verus! {

/// The base of a number that is written without a prefix.
pub const DEFAULT_BASE: u32 = 16;

/// What reading a sequence of digits gives.
#[derive(Debug, PartialEq, Eq, Structural, Clone, Copy)]
pub enum Parsed {
    Value(u16),
    InvalidDigit,
    Overflow,
}

/// The number that the digits `s` denote in `base`. Reading goes from the left
/// and stops at the first character that is no digit of the base, or with which
/// the number no longer fits sixteen bits.
pub open spec fn parse_number(s: Seq<char>, base: int) -> Parsed
    decreases s.len(),
{
    if s.len() == 0 {
        Parsed::Value(0)
    } else {
        match parse_number(s.drop_last(), base) {
            Parsed::Value(v) => {
                let d = digit_value(s.last());
                if d >= base {
                    Parsed::InvalidDigit
                } else if v * base + d > 0xFFFF {
                    Parsed::Overflow
                } else {
                    Parsed::Value((v * base + d) as u16)
                }
            },
            failed => failed,
        }
    }
}

/// The place `line`, columns `from .. to`, in `file`.
pub open spec fn place(file: Seq<char>, line: int, from: int, to: int) -> Span {
    Span { line: line as usize, column: (from as usize, to as usize), file }
}

/// The token `token` at the place `line`, columns `from .. to`, in `file`.
pub open spec fn token_at(token: Lexeme, file: Seq<char>, line: int, from: int, to: int)
    -> TokenView {
    TokenView { token, position: place(file, line, from, to) }
}

/// The first index from `i` on at which `text` holds no hexadecimal digit.
pub open spec fn digits_end(text: Seq<char>, i: int) -> int
    decreases text.len() - i,
{
    if 0 <= i < text.len() && is_hex_digit(text[i]) {
        digits_end(text, i + 1)
    } else {
        i
    }
}

/// Whether a character continues a word, given whether Unicode counts it
/// among the numbers: a letter, a digit or an underscore does; outside ASCII a
/// character does that Unicode counts among the numbers. A word that holds one
/// of the last is no label.
pub open spec fn continues_given(c: char, numeric: bool) -> bool {
    is_word_char(c) || (c > '\x7f' && numeric)
}

/// A character that continues a word. Unicode is asked outside ASCII only.
pub open spec fn continues_word(c: char) -> bool {
    continues_given(c, unicode_numeric(c))
}

/// The first index from `i` on at which `text` holds nothing that continues a word.
pub open spec fn word_end(text: Seq<char>, i: int) -> int
    decreases text.len() - i,
{
    if 0 <= i < text.len() && continues_word(text[i]) {
        word_end(text, i + 1)
    } else {
        i
    }
}

/// The first index from `i` on at which `text` holds a line feed.
pub open spec fn line_end(text: Seq<char>, i: int) -> int
    decreases text.len() - i,
{
    if 0 <= i < text.len() && text[i] != '\n' {
        line_end(text, i + 1)
    } else {
        i
    }
}

/// The first mnemonic, from the `k`-th on, that is written as `word`.
pub open spec fn command_from(word: Seq<char>, k: int) -> Option<Command>
    decreases all_commands().len() - k,
{
    if 0 <= k < all_commands().len() {
        if all_commands()[k].name() == word {
            Some(all_commands()[k])
        } else {
            command_from(word, k + 1)
        }
    } else {
        None
    }
}

/// The mnemonic that is written as `word`.
pub open spec fn command_named(word: Seq<char>) -> Option<Command> {
    command_from(word, 0)
}

/// Whether every character of `s` is a letter, a digit or an underscore.
pub open spec fn all_word_chars(s: Seq<char>) -> bool {
    forall|k: int| 0 <= k < s.len() ==> is_word_char(#[trigger] s[k])
}

/// What a word, given in upper case, stands for: a register `V0` to `VF`, else a
/// mnemonic, else a hexadecimal number of sixteen bits, else a label, which is
/// kept in lower case. `None` where the word holds a character that no label may hold.
pub open spec fn classify(word: Seq<char>) -> Option<Lexeme> {
    if word.len() == 2 && word[0] == 'V' && is_hex_digit(word[1]) {
        Some(Lexeme::Register(digit_value(word[1]) as u8))
    } else if command_named(word) is Some {
        Some(Lexeme::Command(command_named(word)->0))
    } else if parse_number(word, 16) is Value {
        Some(Lexeme::Number(parse_number(word, 16)->Value_0))
    } else if all_word_chars(word) {
        Some(Lexeme::Label(map_lower(word)))
    } else {
        None
    }
}

/// The detail of the failure for text that is no token.
pub open spec fn invalid_token_text(s: Seq<char>) -> Seq<char> {
    "Invalid token found while parsing '"@ + s + "'"@
}

/// The detail of the failure for a number with a digit outside its base.
pub open spec fn invalid_digit_text(s: Seq<char>) -> Seq<char> {
    "Invalid digit found while parsing number '"@ + s + "'"@
}

/// The detail of the failure for a number that does not fit sixteen bits.
pub open spec fn too_large_text(s: Seq<char>) -> Seq<char> {
    "Number '"@ + s + "' is too large"@
}

/// The detail of the failure for a directive that there is not.
pub open spec fn invalid_directive_text(s: Seq<char>) -> Seq<char> {
    "Invalid preprocessor directive '"@ + s + "'"@
}

/// What reading one item of the text gives: the tokens read, the index at which
/// reading goes on, and the line and the index of its first character there; or
/// the failure.
pub enum Scan {
    Step { tokens: Seq<TokenView>, next: int, line: int, start: int },
    Fail(Diagnosis),
}

/// One token that covers `text[i..next]`, all of it on the line.
pub open spec fn one_token(
    token: Lexeme,
    file: Seq<char>,
    i: int,
    next: int,
    line: int,
    start: int,
) -> Scan {
    Scan::Step {
        tokens: seq![token_at(token, file, line, i - start + 1, next - start + 1)],
        next,
        line,
        start,
    }
}

/// A failure of `kind` that covers `text[i..next]`.
pub open spec fn failure_at(
    kind: ErrorKind,
    details: Seq<char>,
    file: Seq<char>,
    i: int,
    next: int,
    line: int,
    start: int,
) -> Scan {
    Scan::Fail(located(kind, details, place(file, line, i - start + 1, next - start + 1)))
}

/// A comment from the `;` at `i` to the end of the line. Its token holds the
/// text behind the `;` without the blanks at either end; an `Eol` follows it,
/// whether or not a line feed ends the comment.
pub open spec fn scan_comment(text: Seq<char>, file: Seq<char>, i: int, line: int, start: int)
    -> Scan {
    let end = line_end(text, i + 1);
    let comment = token_at(
        Lexeme::Comment(trim(text.subrange(i + 1, end))),
        file,
        line,
        i - start + 1,
        end - start + 1,
    );
    let eol = token_at(Lexeme::Eol, file, line, end - start + 1, end - start + 2);
    if end < text.len() {
        Scan::Step { tokens: seq![comment, eol], next: end + 1, line: line + 1, start: end + 1 }
    } else {
        Scan::Step { tokens: seq![comment, eol], next: end, line, start }
    }
}

/// A directive from the `%` at `i`: `%+`, `%!`, `%#+`, `%#-`, `%?#`, `%?!`,
/// `%?|` or `%?-`.
pub open spec fn scan_directive(text: Seq<char>, file: Seq<char>, i: int, line: int, start: int)
    -> Scan {
    if i + 1 >= text.len() {
        failure_at(
            ErrorKind::Syntax,
            "Expected a preprocessor directive after %"@,
            file,
            i,
            i + 1,
            line,
            start,
        )
    } else if text[i + 1] == '+' {
        one_token(Lexeme::Directive(MprocessorDirective::M_include), file, i, i + 2, line, start)
    } else if text[i + 1] == '!' {
        one_token(Lexeme::Directive(MprocessorDirective::M_error), file, i, i + 2, line, start)
    } else if text[i + 1] == '#' {
        if i + 2 >= text.len() {
            failure_at(ErrorKind::Syntax, "Expected+ or - after %#"@, file, i, i + 2, line, start)
        } else if text[i + 2] == '+' {
            one_token(
                Lexeme::Directive(MprocessorDirective::M_define),
                file,
                i,
                i + 3,
                line,
                start,
            )
        } else if text[i + 2] == '-' {
            one_token(Lexeme::Directive(MprocessorDirective::M_undef), file, i, i + 3, line, start)
        } else {
            failure_at(
                ErrorKind::InvalidToken,
                invalid_directive_text(text.subrange(i, i + 3)),
                file,
                i,
                i + 3,
                line,
                start,
            )
        }
    } else if text[i + 1] == '?' {
        if i + 2 >= text.len() {
            failure_at(
                ErrorKind::Syntax,
                "Expected #, !, | or - after %?"@,
                file,
                i,
                i + 2,
                line,
                start,
            )
        } else if text[i + 2] == '#' {
            one_token(Lexeme::Directive(MprocessorDirective::M_ifdef), file, i, i + 3, line, start)
        } else if text[i + 2] == '!' {
            one_token(
                Lexeme::Directive(MprocessorDirective::M_ifndef),
                file,
                i,
                i + 3,
                line,
                start,
            )
        } else if text[i + 2] == '|' {
            one_token(Lexeme::Directive(MprocessorDirective::M_else), file, i, i + 3, line, start)
        } else if text[i + 2] == '-' {
            one_token(Lexeme::Directive(MprocessorDirective::M_endif), file, i, i + 3, line, start)
        } else {
            failure_at(
                ErrorKind::InvalidToken,
                invalid_directive_text(text.subrange(i, i + 3)),
                file,
                i,
                i + 3,
                line,
                start,
            )
        }
    } else {
        failure_at(
            ErrorKind::Syntax,
            invalid_directive_text(text.subrange(i, i + 2)),
            file,
            i,
            i + 2,
            line,
            start,
        )
    }
}

/// The base that the letter behind a leading `0` selects.
pub open spec fn prefix_base(c: char) -> Option<int> {
    if c == 'b' || c == 'B' {
        Some(2)
    } else if c == 'o' || c == 'O' {
        Some(8)
    } else if c == 'x' || c == 'X' {
        Some(16)
    } else if c == 'd' || c == 'D' {
        Some(10)
    } else {
        None
    }
}

/// Whether the number that starts at `i` has a prefix: `0` and a letter for the base.
pub open spec fn has_prefix(text: Seq<char>, i: int) -> bool {
    text[i] == '0' && i + 1 < text.len() && prefix_base(text[i + 1]) is Some
}

/// The base of the number that starts at `i`: that of its prefix, or the
/// default base without one.
pub open spec fn number_base(text: Seq<char>, i: int) -> int {
    if has_prefix(text, i) {
        prefix_base(text[i + 1])->0
    } else {
        DEFAULT_BASE as int
    }
}

/// The index behind the number that starts at `i`: behind the hexadecimal
/// digits that follow its first digit, or its prefix.
pub open spec fn number_end(text: Seq<char>, i: int) -> int {
    if has_prefix(text, i) {
        digits_end(text, i + 2)
    } else {
        digits_end(text, i + 1)
    }
}

/// The digits of the number that starts at `i`: its first digit, and the
/// hexadecimal digits that follow it, or its prefix.
pub open spec fn number_digits(text: Seq<char>, i: int) -> Seq<char> {
    if has_prefix(text, i) {
        seq![text[i]] + text.subrange(i + 2, number_end(text, i))
    } else {
        seq![text[i]] + text.subrange(i + 1, number_end(text, i))
    }
}

/// A number from the decimal digit at `i`. Its digits are read in its base; a
/// failure shows the number as it is written.
pub open spec fn scan_number(text: Seq<char>, file: Seq<char>, i: int, line: int, start: int)
    -> Scan {
    let end = number_end(text, i);
    let written = text.subrange(i, end);
    match parse_number(number_digits(text, i), number_base(text, i)) {
        Parsed::Value(v) => one_token(Lexeme::Number(v), file, i, end, line, start),
        Parsed::InvalidDigit => failure_at(
            ErrorKind::Syntax,
            invalid_digit_text(written),
            file,
            i,
            end,
            line,
            start,
        ),
        Parsed::Overflow => failure_at(
            ErrorKind::NumberOverflow,
            too_large_text(written),
            file,
            i,
            end,
            line,
            start,
        ),
    }
}

/// A word from the letter or underscore at `i`, taken in upper case.
pub open spec fn scan_word(text: Seq<char>, file: Seq<char>, i: int, line: int, start: int)
    -> Scan {
    let end = word_end(text, i + 1);
    let word = map_upper(text.subrange(i, end));
    match classify(word) {
        Some(token) => one_token(token, file, i, end, line, start),
        None => failure_at(
            ErrorKind::InvalidToken,
            invalid_token_text(word),
            file,
            i,
            end,
            line,
            start,
        ),
    }
}

/// What the item that starts at `i` gives, on the line `line`, whose first
/// character has the index `start`.
pub open spec fn scan(text: Seq<char>, file: Seq<char>, i: int, line: int, start: int) -> Scan {
    let c = text[i];
    if c == ' ' || c == '\t' || c == '\r' {
        Scan::Step { tokens: Seq::<TokenView>::empty(), next: i + 1, line, start }
    } else if c == '\n' {
        Scan::Step {
            tokens: seq![token_at(Lexeme::Eol, file, line, i - start + 1, i - start + 2)],
            next: i + 1,
            line: line + 1,
            start: i + 1,
        }
    } else if c == ':' {
        one_token(Lexeme::Colon, file, i, i + 1, line, start)
    } else if c == ';' {
        scan_comment(text, file, i, line, start)
    } else if c == '%' {
        scan_directive(text, file, i, line, start)
    } else if is_decimal_digit(c) {
        scan_number(text, file, i, line, start)
    } else if is_letter(c) || c == '_' {
        scan_word(text, file, i, line, start)
    } else {
        failure_at(
            ErrorKind::InvalidToken,
            invalid_token_text(seq![c]),
            file,
            i,
            i + 1,
            line,
            start,
        )
    }
}

/// `tokens` in front of what the rest of the text gives.
pub open spec fn before(tokens: Seq<TokenView>, rest: Result<Seq<TokenView>, Diagnosis>) -> Result<
    Seq<TokenView>,
    Diagnosis,
> {
    match rest {
        Ok(more) => Ok(tokens + more),
        Err(d) => Err(d),
    }
}

/// `digits_end` lies in the text, behind hexadecimal digits only, and on none.
pub proof fn lemma_digits_end_bounds(text: Seq<char>, i: int)
    requires
        0 <= i <= text.len(),
    ensures
        i <= digits_end(text, i) <= text.len(),
        forall|k: int| i <= k < digits_end(text, i) ==> is_hex_digit(#[trigger] text[k]),
        digits_end(text, i) < text.len() ==> !is_hex_digit(text[digits_end(text, i)]),
    decreases text.len() - i,
{
    if i < text.len() && is_hex_digit(text[i]) {
        lemma_digits_end_bounds(text, i + 1);
    }
}

/// `word_end` lies in the text, behind characters of a word only, and on none.
pub proof fn lemma_word_end_bounds(text: Seq<char>, i: int)
    requires
        0 <= i <= text.len(),
    ensures
        i <= word_end(text, i) <= text.len(),
        forall|k: int| i <= k < word_end(text, i) ==> continues_word(#[trigger] text[k]),
        word_end(text, i) < text.len() ==> !continues_word(text[word_end(text, i)]),
    decreases text.len() - i,
{
    if i < text.len() && continues_word(text[i]) {
        lemma_word_end_bounds(text, i + 1);
    }
}

/// `line_end` lies in the text, behind no line feed, and on one or on the end.
pub proof fn lemma_line_end_bounds(text: Seq<char>, i: int)
    requires
        0 <= i <= text.len(),
    ensures
        i <= line_end(text, i) <= text.len(),
        forall|k: int| i <= k < line_end(text, i) ==> #[trigger] text[k] != '\n',
        line_end(text, i) < text.len() ==> text[line_end(text, i)] == '\n',
    decreases text.len() - i,
{
    if i < text.len() && text[i] != '\n' {
        lemma_line_end_bounds(text, i + 1);
    }
}

proof fn lemma_digits_end_is(text: Seq<char>, i: int, k: int)
    requires
        0 <= i <= k <= text.len(),
        forall|j: int| i <= j < k ==> is_hex_digit(#[trigger] text[j]),
        k < text.len() ==> !is_hex_digit(text[k]),
    ensures
        digits_end(text, i) == k,
    decreases k - i,
{
    if i < k {
        lemma_digits_end_is(text, i + 1, k);
    }
}

proof fn lemma_word_end_is(text: Seq<char>, i: int, k: int)
    requires
        0 <= i <= k <= text.len(),
        forall|j: int| i <= j < k ==> continues_word(#[trigger] text[j]),
        k < text.len() ==> !continues_word(text[k]),
    ensures
        word_end(text, i) == k,
    decreases k - i,
{
    if i < k {
        lemma_word_end_is(text, i + 1, k);
    }
}

proof fn lemma_line_end_is(text: Seq<char>, i: int, k: int)
    requires
        0 <= i <= k <= text.len(),
        forall|j: int| i <= j < k ==> #[trigger] text[j] != '\n',
        k < text.len() ==> text[k] == '\n',
    ensures
        line_end(text, i) == k,
    decreases k - i,
{
    if i < k {
        lemma_line_end_is(text, i + 1, k);
    }
}

/// Reading one item moves on by at least one character and stays in the text.
pub proof fn lemma_scan_advances(text: Seq<char>, file: Seq<char>, i: int, line: int, start: int)
    requires
        0 <= i < text.len(),
    ensures
        scan(text, file, i, line, start) matches Scan::Step {
            next,
            line: next_line,
            start: next_start,
            ..
        } ==> i < next <= text.len() && (start <= i ==> next_start <= next) && (1 <= line <= i + 1
            ==> 1 <= next_line <= next + 1),
{
    lemma_line_end_bounds(text, i + 1);
    lemma_word_end_bounds(text, i + 1);
    if i + 2 <= text.len() {
        lemma_digits_end_bounds(text, i + 2);
    }
    lemma_digits_end_bounds(text, i + 1);
}

/// The tokens of the text from `i` on, with the `Eof` that ends them; or the
/// first failure. Reading an item always moves on (`lemma_scan_advances`), so
/// the rest of the text is always read.
pub open spec fn scan_all(text: Seq<char>, file: Seq<char>, i: int, line: int, start: int)
    -> Result<Seq<TokenView>, Diagnosis>
    decreases text.len() - i,
{
    if 0 <= i < text.len() {
        match scan(text, file, i, line, start) {
            Scan::Step { tokens, next, line: next_line, start: next_start } => {
                if i < next <= text.len() {
                    before(tokens, scan_all(text, file, next, next_line, next_start))
                } else {
                    Ok(tokens)
                }
            },
            Scan::Fail(d) => Err(d),
        }
    } else {
        Ok(seq![token_at(Lexeme::Eof, file, line, i - start + 1, i - start + 1)])
    }
}

/// The longest text that is given positions.
pub open spec fn max_text() -> int {
    usize::MAX - 2
}

/// The tokens of a text, or the failure at which reading it stops.
///
/// A text that is too long for its positions to be counted is refused.
pub open spec fn lex_tokens(text: Seq<char>, file: Seq<char>) -> Result<Seq<TokenView>, Diagnosis> {
    if text.len() > max_text() {
        Err(located(ErrorKind::Unknown, "The text is too long"@, place(file, 1, 1, 1)))
    } else {
        scan_all(text, file, 0, 1, 0)
    }
}


/// Whether `r`, with the tokens before and after the reading, is what `s` says.
pub open spec fn agrees(
    r: Result<(usize, usize, usize), CompileError>,
    tokens_before: Seq<Token>,
    tokens_after: Seq<Token>,
    s: Scan,
) -> bool {
    match s {
        Scan::Step { tokens, next, line, start } => r matches Ok(t) && t.0 == next && t.1 == line
            && t.2 == start && token_views(tokens_after) == token_views(tokens_before) + tokens,
        Scan::Fail(d) => r matches Err(e) && e@ == d,
    }
}

proof fn lemma_parse_failure_stays(s: Seq<char>, k: int, base: int)
    requires
        0 <= k <= s.len(),
        !(parse_number(s.take(k), base) is Value),
    ensures
        parse_number(s, base) == parse_number(s.take(k), base),
    decreases s.len() - k,
{
    if k == s.len() {
        assert(s.take(k) == s);
    } else {
        assert(s.drop_last().take(k) == s.take(k));
        lemma_parse_failure_stays(s.drop_last(), k, base);
    }
}

/// Reads the digits `s` in `base`.
pub fn parse_digits(s: &Vec<char>, base: u32) -> (r: Parsed)
    requires
        2 <= base <= 16,
    ensures
        r == parse_number(s@, base as int),
{
    let mut acc: u32 = 0;
    let mut i: usize = 0;
    while i < s.len()
        invariant
            i <= s.len(),
            2 <= base <= 16,
            acc <= 0xFFFF,
            parse_number(s@.take(i as int), base as int) == Parsed::Value(acc as u16),
        decreases s.len() - i,
    {
        let d = value_of_digit(s[i]);
        proof {
            assert(s@.take(i + 1).drop_last() == s@.take(i as int));
            assert(s@.take(i + 1).last() == s@[i as int]);
        }
        if d >= base {
            proof {
                lemma_parse_failure_stays(s@, i + 1, base as int);
            }
            return Parsed::InvalidDigit;
        }
        assert(acc * base + d <= 0xFFFF * 16 + 16) by (nonlinear_arith)
            requires
                acc <= 0xFFFF,
                base <= 16,
                d <= 16,
        ;
        let next = acc * base + d;
        if next > 0xFFFF {
            proof {
                lemma_parse_failure_stays(s@, i + 1, base as int);
            }
            return Parsed::Overflow;
        }
        acc = next;
        i += 1;
    }
    proof {
        assert(s@.take(s.len() as int) == s@);
    }
    Parsed::Value(acc as u16)
}

/// Whether `word` holds the characters of `name`.
fn same_chars(word: &Vec<char>, name: &str) -> (same: bool)
    ensures
        same == (word@ == name@),
{
    let other = chars_of(name);
    if other.len() != word.len() {
        return false;
    }
    let mut i: usize = 0;
    while i < word.len()
        invariant
            i <= word.len(),
            other.len() == word.len(),
            other@ == name@,
            forall|k: int| 0 <= k < i ==> word@[k] == other@[k],
        decreases word.len() - i,
    {
        if word[i] != other[i] {
            return false;
        }
        i += 1;
    }
    assert(word@ =~= other@);
    true
}

/// The mnemonic that is written as `word`.
pub fn find_command(word: &Vec<char>) -> (r: Option<Command>)
    ensures
        r == command_named(word@),
{
    let all = Command::all();
    let mut k: usize = 0;
    while k < 31
        invariant
            k <= 31,
            all@ == all_commands(),
            all_commands().len() == 31,
            command_named(word@) == command_from(word@, k as int),
        decreases 31 - k,
    {
        let cmd = all[k];
        if same_chars(word, cmd.mnemonic()) {
            return Some(cmd);
        }
        k += 1;
    }
    None
}

/// What a word, given in upper case, stands for.
pub fn classify_word(word: &Vec<char>) -> (r: Option<TokenType>)
    ensures
        match classify(word@) {
            Some(l) => r matches Some(t) && t@ == l,
            None => r is None,
        },
{
    if word.len() == 2 && word[0] == 'V' && hex_digit(word[1]) {
        return Some(TokenType::Register(value_of_digit(word[1]) as u8));
    }
    if let Some(cmd) = find_command(word) {
        return Some(TokenType::Command(cmd));
    }
    if let Parsed::Value(v) = parse_digits(word, 16) {
        return Some(TokenType::Number(v));
    }
    let mut label = String::new();
    let mut i: usize = 0;
    while i < word.len()
        invariant
            i <= word.len(),
            !(word@.len() == 2 && word@[0] == 'V' && is_hex_digit(word@[1])),
            command_named(word@) is None,
            !(parse_number(word@, 16) is Value),
            forall|k: int| 0 <= k < i ==> is_word_char(#[trigger] word@[k]),
            label@ == map_lower(word@.take(i as int)),
        decreases word.len() - i,
    {
        if !word_char(word[i]) {
            assert(!is_word_char(word@[i as int]));
            return None;
        }
        label.push(to_lower(word[i]));
        assert(map_lower(word@.take(i + 1)) == map_lower(word@.take(i as int)).push(
            crate::text::lower(word@[i as int]),
        ));
        i += 1;
    }
    assert(word@.take(word.len() as int) == word@);
    Some(TokenType::Label(label))
}

/// Adds the token `token` at the place `line`, columns `from .. to`.
fn emit(
    tokens: &mut Vec<Token>,
    token: TokenType,
    file: &Rc<String>,
    line: usize,
    from: usize,
    to: usize,
)
    ensures
        token_views(final(tokens)@) == token_views(old(tokens)@) + seq![
            token_at(token@, file@, line as int, from as int, to as int),
        ],
{
    tokens.push(Token::new(token, share(file), line, (from, to)));
    assert(token_views(tokens@) =~= token_views(old(tokens)@) + seq![
        token_at(token@, file@, line as int, from as int, to as int),
    ]);
}

/// The failure of `kind` at the place `line`, columns `from .. to`.
fn failure(kind: ErrorKind, details: String, file: &Rc<String>, line: usize, from: usize, to: usize)
    -> (e: CompileError)
    requires
        kind != ErrorKind::MissingMain,
    ensures
        e@ == located(kind, details@, place(file@, line as int, from as int, to as int)),
{
    CompileError::at(kind, details, Position::new(line, (from, to), share(file)))
}

/// Reads the comment that starts at `i`.
fn comment(
    text: &Vec<char>,
    file: &Rc<String>,
    i: usize,
    line: usize,
    start: usize,
    tokens: &mut Vec<Token>,
) -> (r: Result<(usize, usize, usize), CompileError>)
    requires
        start <= i < text.len() <= max_text(),
        line <= i + 1,
    ensures
        agrees(
            r,
            old(tokens)@,
            final(tokens)@,
            scan_comment(text@, file@, i as int, line as int, start as int),
        ),
{
    let mut end: usize = i + 1;
    while end < text.len() && text[end] != '\n'
        invariant
            i < end <= text.len(),
            forall|j: int| i < j < end ==> #[trigger] text@[j] != '\n',
        decreases text.len() - end,
    {
        end += 1;
    }
    proof {
        lemma_line_end_is(text@, i + 1, end as int);
    }
    let raw = text_of(text, i + 1, end);
    let body = trimmed(raw.as_str());
    emit(tokens, TokenType::Comment(body), file, line, i - start + 1, end - start + 1);
    emit(tokens, TokenType::Eol, file, line, end - start + 1, end - start + 2);
    proof {
        let c = token_at(
            Lexeme::Comment(trim(text@.subrange(i + 1, end as int))),
            file@,
            line as int,
            i - start + 1,
            end - start + 1,
        );
        let e = token_at(Lexeme::Eol, file@, line as int, end - start + 1, end - start + 2);
        assert(token_views(old(tokens)@) + seq![c] + seq![e] =~= token_views(old(tokens)@) + seq![
            c,
            e,
        ]);
    }
    if end < text.len() {
        Ok((end + 1, line + 1, end + 1))
    } else {
        Ok((end, line, start))
    }
}

/// Reads the directive that starts at `i`.
fn directive(
    text: &Vec<char>,
    file: &Rc<String>,
    i: usize,
    line: usize,
    start: usize,
    tokens: &mut Vec<Token>,
) -> (r: Result<(usize, usize, usize), CompileError>)
    requires
        start <= i < text.len() <= max_text(),
    ensures
        agrees(
            r,
            old(tokens)@,
            final(tokens)@,
            scan_directive(text@, file@, i as int, line as int, start as int),
        ),
{
    let col = i - start + 1;
    if i + 1 >= text.len() {
        return Err(
            failure(
                ErrorKind::Syntax,
                String::from_str("Expected a preprocessor directive after %"),
                file,
                line,
                col,
                col + 1,
            ),
        );
    }
    let second = text[i + 1];
    if second == '+' || second == '!' {
        let d = if second == '+' {
            MprocessorDirective::M_include
        } else {
            MprocessorDirective::M_error
        };
        emit(tokens, TokenType::MprocessorDirective(d), file, line, col, col + 2);
        return Ok((i + 2, line, start));
    }
    if second != '#' && second != '?' {
        let written = text_of(text, i, i + 2);
        return Err(
            failure(
                ErrorKind::Syntax,
                quoted("Invalid preprocessor directive '", written.as_str(), "'"),
                file,
                line,
                col,
                col + 2,
            ),
        );
    }
    if i + 2 >= text.len() {
        let details = if second == '#' {
            String::from_str("Expected+ or - after %#")
        } else {
            String::from_str("Expected #, !, | or - after %?")
        };
        return Err(failure(ErrorKind::Syntax, details, file, line, col, col + 2));
    }
    let third = text[i + 2];
    let found = if second == '#' {
        if third == '+' {
            Some(MprocessorDirective::M_define)
        } else if third == '-' {
            Some(MprocessorDirective::M_undef)
        } else {
            None
        }
    } else {
        if third == '#' {
            Some(MprocessorDirective::M_ifdef)
        } else if third == '!' {
            Some(MprocessorDirective::M_ifndef)
        } else if third == '|' {
            Some(MprocessorDirective::M_else)
        } else if third == '-' {
            Some(MprocessorDirective::M_endif)
        } else {
            None
        }
    };
    match found {
        Some(d) => {
            emit(tokens, TokenType::MprocessorDirective(d), file, line, col, col + 3);
            Ok((i + 3, line, start))
        },
        None => {
            let written = text_of(text, i, i + 3);
            Err(
                failure(
                    ErrorKind::InvalidToken,
                    quoted("Invalid preprocessor directive '", written.as_str(), "'"),
                    file,
                    line,
                    col,
                    col + 3,
                ),
            )
        },
    }
}

/// The base that the letter behind a leading `0` selects.
fn base_of_prefix(c: char) -> (r: Option<u32>)
    ensures
        r is Some == prefix_base(c) is Some,
        r matches Some(b) ==> b == prefix_base(c)->0 && 2 <= b <= 16,
{
    if c == 'b' || c == 'B' {
        Some(2)
    } else if c == 'o' || c == 'O' {
        Some(8)
    } else if c == 'x' || c == 'X' {
        Some(16)
    } else if c == 'd' || c == 'D' {
        Some(10)
    } else {
        None
    }
}

/// Reads the number that starts at `i`.
fn number(
    text: &Vec<char>,
    file: &Rc<String>,
    i: usize,
    line: usize,
    start: usize,
    tokens: &mut Vec<Token>,
) -> (r: Result<(usize, usize, usize), CompileError>)
    requires
        start <= i < text.len() <= max_text(),
    ensures
        agrees(
            r,
            old(tokens)@,
            final(tokens)@,
            scan_number(text@, file@, i as int, line as int, start as int),
        ),
{
    let mut base: u32 = DEFAULT_BASE;
    let mut from: usize = i + 1;
    if text[i] == '0' && i + 1 < text.len() {
        if let Some(b) = base_of_prefix(text[i + 1]) {
            base = b;
            from = i + 2;
        }
    }
    let mut end: usize = from;
    while end < text.len() && hex_digit(text[end])
        invariant
            from <= end <= text.len(),
            forall|j: int| from <= j < end ==> is_hex_digit(#[trigger] text@[j]),
        decreases text.len() - end,
    {
        end += 1;
    }
    proof {
        lemma_digits_end_is(text@, from as int, end as int);
    }
    let mut digits: Vec<char> = Vec::new();
    digits.push(text[i]);
    let mut k: usize = from;
    while k < end
        invariant
            from <= k <= end <= text.len(),
            i < text.len(),
            digits@ == seq![text@[i as int]] + text@.subrange(from as int, k as int),
        decreases end - k,
    {
        digits.push(text[k]);
        assert(text@.subrange(from as int, k + 1) == text@.subrange(from as int, k as int).push(
            text@[k as int],
        ));
        k += 1;
    }
    let col = i - start + 1;
    match parse_digits(&digits, base) {
        Parsed::Value(v) => {
            emit(tokens, TokenType::Number(v), file, line, col, end - start + 1);
            Ok((end, line, start))
        },
        Parsed::InvalidDigit => {
            let written = text_of(text, i, end);
            Err(
                failure(
                    ErrorKind::Syntax,
                    quoted("Invalid digit found while parsing number '", written.as_str(), "'"),
                    file,
                    line,
                    col,
                    end - start + 1,
                ),
            )
        },
        Parsed::Overflow => {
            let written = text_of(text, i, end);
            Err(
                failure(
                    ErrorKind::NumberOverflow,
                    quoted("Number '", written.as_str(), "' is too large"),
                    file,
                    line,
                    col,
                    end - start + 1,
                ),
            )
        },
    }
}

/// Whether a character continues a word, given whether Unicode counts it
/// among the numbers.
pub fn continues_with(c: char, numeric: bool) -> (b: bool)
    ensures
        b == continues_given(c, numeric),
{
    word_char(c) || (c > '\x7f' && numeric)
}

/// Whether the character continues a word.
fn continues(c: char) -> (b: bool)
    ensures
        b == continues_word(c),
{
    if c > '\x7f' {
        continues_with(c, is_unicode_numeric(c))
    } else {
        continues_with(c, false)
    }
}

/// Reads the word that starts at `i`.
fn word(
    text: &Vec<char>,
    file: &Rc<String>,
    i: usize,
    line: usize,
    start: usize,
    tokens: &mut Vec<Token>,
) -> (r: Result<(usize, usize, usize), CompileError>)
    requires
        start <= i < text.len() <= max_text(),
    ensures
        agrees(
            r,
            old(tokens)@,
            final(tokens)@,
            scan_word(text@, file@, i as int, line as int, start as int),
        ),
{
    let mut end: usize = i + 1;
    while end < text.len() && continues(text[end])
        invariant
            i < end <= text.len(),
            forall|j: int| i < j < end ==> continues_word(#[trigger] text@[j]),
        decreases text.len() - end,
    {
        end += 1;
    }
    proof {
        lemma_word_end_is(text@, i + 1, end as int);
    }
    let mut upper: Vec<char> = Vec::new();
    let mut k: usize = i;
    while k < end
        invariant
            i <= k <= end <= text.len(),
            upper@ == map_upper(text@.subrange(i as int, k as int)),
        decreases end - k,
    {
        upper.push(to_upper(text[k]));
        assert(map_upper(text@.subrange(i as int, k + 1)) == map_upper(
            text@.subrange(i as int, k as int),
        ).push(crate::text::upper(text@[k as int])));
        k += 1;
    }
    let col = i - start + 1;
    match classify_word(&upper) {
        Some(token) => {
            emit(tokens, token, file, line, col, end - start + 1);
            Ok((end, line, start))
        },
        None => {
            let written = text_of(&upper, 0, upper.len());
            assert(upper@.subrange(0, upper.len() as int) == upper@);
            Err(
                failure(
                    ErrorKind::InvalidToken,
                    quoted("Invalid token found while parsing '", written.as_str(), "'"),
                    file,
                    line,
                    col,
                    end - start + 1,
                ),
            )
        },
    }
}

/// Reads the item that starts at `i`.
fn item(
    text: &Vec<char>,
    file: &Rc<String>,
    i: usize,
    line: usize,
    start: usize,
    tokens: &mut Vec<Token>,
) -> (r: Result<(usize, usize, usize), CompileError>)
    requires
        start <= i < text.len() <= max_text(),
        line <= i + 1,
    ensures
        agrees(
            r,
            old(tokens)@,
            final(tokens)@,
            scan(text@, file@, i as int, line as int, start as int),
        ),
{
    let c = text[i];
    let col = i - start + 1;
    if c == ' ' || c == '\t' || c == '\r' {
        assert(token_views(tokens@) + Seq::<TokenView>::empty() =~= token_views(tokens@));
        Ok((i + 1, line, start))
    } else if c == '\n' {
        emit(tokens, TokenType::Eol, file, line, col, col + 1);
        Ok((i + 1, line + 1, i + 1))
    } else if c == ':' {
        emit(tokens, TokenType::Colon, file, line, col, col + 1);
        Ok((i + 1, line, start))
    } else if c == ';' {
        comment(text, file, i, line, start, tokens)
    } else if c == '%' {
        directive(text, file, i, line, start, tokens)
    } else if decimal_digit(c) {
        number(text, file, i, line, start, tokens)
    } else if letter(c) || c == '_' {
        word(text, file, i, line, start, tokens)
    } else {
        let written = text_of(text, i, i + 1);
        assert(text@.subrange(i as int, i + 1) == seq![c]);
        Err(
            failure(
                ErrorKind::InvalidToken,
                quoted("Invalid token found while parsing '", written.as_str(), "'"),
                file,
                line,
                col,
                col + 1,
            ),
        )
    }
}

/// The tokens of `input`, which was read from the file `filename`.
///
/// The last token is the one `Eof`. Reading stops at the first failure.
pub fn lex(input: &str, filename: Rc<String>) -> (r: Result<Vec<Token>, CompileError>)
    ensures
        match lex_tokens(input@, filename@) {
            Ok(tokens) => r matches Ok(v) && token_views(v@) == tokens,
            Err(d) => r matches Err(e) && e@ == d,
        },
        r matches Ok(v) ==> v@.len() > 0 && v@.last().token@ is Eof,
{
    proof {
        lemma_lex_ends_with_eof(input@, filename@);
    }
    let text = chars_of(input);
    if text.len() > usize::MAX - 2 {
        return Err(
            failure(
                ErrorKind::Unknown,
                String::from_str("The text is too long"),
                &filename,
                1,
                1,
                1,
            ),
        );
    }
    let mut tokens: Vec<Token> = Vec::new();
    let mut i: usize = 0;
    let mut line: usize = 1;
    let mut start: usize = 0;
    assert(Seq::<TokenView>::empty() + scan_all(text@, filename@, 0, 1, 0)->Ok_0 =~= scan_all(
        text@,
        filename@,
        0,
        1,
        0,
    )->Ok_0);
    assert(token_views(tokens@) =~= Seq::<TokenView>::empty());
    while i < text.len()
        invariant
            start <= i <= text.len() <= max_text(),
            1 <= line <= i + 1,
            text@ == input@,
            scan_all(text@, filename@, 0, 1, 0) == before(
                token_views(tokens@),
                scan_all(text@, filename@, i as int, line as int, start as int),
            ),
        decreases text.len() - i,
    {
        let ghost seen = token_views(tokens@);
        let ghost step = scan(text@, filename@, i as int, line as int, start as int);
        proof {
            lemma_scan_advances(text@, filename@, i as int, line as int, start as int);
        }
        match item(&text, &filename, i, line, start, &mut tokens) {
            Ok((next, next_line, next_start)) => {
                proof {
                    let rest = scan_all(
                        text@,
                        filename@,
                        next as int,
                        next_line as int,
                        next_start as int,
                    );
                    if rest is Ok {
                        assert(seen + (step->tokens + rest->Ok_0) =~= (seen + step->tokens)
                            + rest->Ok_0);
                    }
                }
                i = next;
                line = next_line;
                start = next_start;
            },
            Err(e) => {
                return Err(e);
            },
        }
    }
    emit(&mut tokens, TokenType::Eof, &filename, line, i - start + 1, i - start + 1);
    Ok(tokens)
}


/// Whether the last of the tokens is an `Eof`, and the only one.
pub open spec fn ends_with_one_eof(tokens: Seq<TokenView>) -> bool {
    &&& tokens.len() > 0
    &&& tokens.last().token is Eof
    &&& forall|k: int| 0 <= k < tokens.len() - 1 ==> !(#[trigger] tokens[k].token is Eof)
}

proof fn lemma_scan_all_ends_with_one_eof(
    text: Seq<char>,
    file: Seq<char>,
    i: int,
    line: int,
    start: int,
)
    requires
        0 <= i <= text.len(),
    ensures
        scan_all(text, file, i, line, start) matches Ok(tokens) ==> ends_with_one_eof(tokens),
    decreases text.len() - i,
{
    if i < text.len() {
        lemma_scan_advances(text, file, i, line, start);
        if let Scan::Step { tokens, next, line: next_line, start: next_start } = scan(
            text,
            file,
            i,
            line,
            start,
        ) {
            lemma_scan_all_ends_with_one_eof(text, file, next, next_line, next_start);
            assert forall|k: int| 0 <= k < tokens.len() implies !(#[trigger] tokens[k].token
                is Eof) by {}
            if let Ok(rest) = scan_all(text, file, next, next_line, next_start) {
                let all = tokens + rest;
                assert(all.last() == rest.last());
                assert forall|k: int| 0 <= k < all.len() - 1 implies !(#[trigger] all[k].token
                    is Eof) by {
                    if k < tokens.len() {
                        assert(all[k] == tokens[k]);
                    } else {
                        assert(all[k] == rest[k - tokens.len()]);
                    }
                }
            }
        }
    }
}

/// The tokens of a text end with an `Eof`, and hold no other.
pub proof fn lemma_lex_ends_with_eof(text: Seq<char>, file: Seq<char>)
    ensures
        lex_tokens(text, file) matches Ok(tokens) ==> ends_with_one_eof(tokens),
{
    if text.len() <= max_text() {
        lemma_scan_all_ends_with_one_eof(text, file, 0, 1, 0);
    }
}

/// The number that the digits `s` denote in `base`, however large it is.
pub open spec fn digits_value(s: Seq<char>, base: int) -> int
    decreases s.len(),
{
    if s.len() == 0 {
        0
    } else {
        digits_value(s.drop_last(), base) * base + digit_value(s.last())
    }
}

/// Whether every character of `s` is a digit of `base`.
pub open spec fn all_digits(s: Seq<char>, base: int) -> bool {
    forall|k: int| 0 <= k < s.len() ==> digit_value(#[trigger] s[k]) < base
}

proof fn lemma_digits_value_grows(s: Seq<char>, base: int)
    requires
        1 <= base,
    ensures
        0 <= digits_value(s.drop_last(), base) <= digits_value(s, base) || s.len() == 0,
        0 <= digits_value(s, base),
    decreases s.len(),
{
    if s.len() > 0 {
        lemma_digits_value_grows(s.drop_last(), base);
        let v = digits_value(s.drop_last(), base);
        assert(v * base >= v) by (nonlinear_arith)
            requires
                v >= 0,
                base >= 1,
        ;
    }
}

/// A number is never cut to sixteen bits: digits of the base are read as the
/// number that they denote where it fits, and as an overflow where it does not.
pub proof fn lemma_number_never_wraps(s: Seq<char>, base: int)
    requires
        2 <= base <= 16,
        all_digits(s, base),
    ensures
        digits_value(s, base) <= 0xFFFF ==> parse_number(s, base) == Parsed::Value(
            digits_value(s, base) as u16,
        ),
        digits_value(s, base) > 0xFFFF <==> parse_number(s, base) == Parsed::Overflow,
    decreases s.len(),
{
    if s.len() > 0 {
        let front = s.drop_last();
        assert forall|k: int| 0 <= k < front.len() implies digit_value(#[trigger] front[k])
            < base by {
            assert(front[k] == s[k]);
        }
        lemma_number_never_wraps(front, base);
        lemma_digits_value_grows(s, base);
        lemma_digits_value_grows(front, base);
        assert(digit_value(s.last()) < base);
    }
}

/// A literal whose digits denote more than sixteen bits hold is refused as a
/// number overflow, whatever its base.
pub proof fn lemma_large_literal_overflows(
    text: Seq<char>,
    file: Seq<char>,
    i: int,
    line: int,
    start: int,
)
    requires
        0 <= i < text.len(),
        is_decimal_digit(text[i]),
        all_digits(number_digits(text, i), number_base(text, i)),
        digits_value(number_digits(text, i), number_base(text, i)) > 0xFFFF,
    ensures
        scan(text, file, i, line, start) == failure_at(
            ErrorKind::NumberOverflow,
            too_large_text(text.subrange(i, number_end(text, i))),
            file,
            i,
            number_end(text, i),
            line,
            start,
        ),
{
    lemma_number_never_wraps(number_digits(text, i), number_base(text, i));
}

/// Whether reading the text from the index `i` on, on the line `line` that
/// starts at `start`, comes to the index `j`, on the line `line_j` that starts
/// at `start_j`, without a failure before it.
pub open spec fn reading_reaches(
    text: Seq<char>,
    file: Seq<char>,
    i: int,
    line: int,
    start: int,
    j: int,
    line_j: int,
    start_j: int,
) -> bool
    decreases text.len() - i,
{
    if i == j {
        line == line_j && start == start_j
    } else if 0 <= i < text.len() {
        match scan(text, file, i, line, start) {
            Scan::Step { next, line: next_line, start: next_start, .. } => i < next <= text.len()
                && reading_reaches(text, file, next, next_line, next_start, j, line_j, start_j),
            Scan::Fail(_) => false,
        }
    } else {
        false
    }
}

/// The failure of the first item that fails is the failure of the whole text.
pub proof fn lemma_first_failure_is_reported(
    text: Seq<char>,
    file: Seq<char>,
    i: int,
    line: int,
    start: int,
    j: int,
    line_j: int,
    start_j: int,
)
    requires
        reading_reaches(text, file, i, line, start, j, line_j, start_j),
        0 <= j < text.len(),
        scan(text, file, j, line_j, start_j) is Fail,
    ensures
        scan_all(text, file, i, line, start) == Err::<Seq<TokenView>, Diagnosis>(
            scan(text, file, j, line_j, start_j)->Fail_0,
        ),
    decreases text.len() - i,
{
    if i != j {
        if let Scan::Step { tokens, next, line: next_line, start: next_start } = scan(
            text,
            file,
            i,
            line,
            start,
        ) {
            lemma_first_failure_is_reported(
                text,
                file,
                next,
                next_line,
                next_start,
                j,
                line_j,
                start_j,
            );
        }
    }
}

/// No number of a text is cut to sixteen bits. Where reading comes to a
/// literal whose digits are digits of its base, and they denote more than
/// sixteen bits hold, the whole text is refused with a number overflow at that
/// literal. So where the text has tokens, the literal denotes no more, and its
/// token is the number that it denotes.
pub proof fn lemma_text_with_large_literal_is_refused(
    text: Seq<char>,
    file: Seq<char>,
    j: int,
    line: int,
    start: int,
)
    requires
        text.len() <= max_text(),
        reading_reaches(text, file, 0, 1, 0, j, line, start),
        0 <= j < text.len(),
        is_decimal_digit(text[j]),
        all_digits(number_digits(text, j), number_base(text, j)),
    ensures
        digits_value(number_digits(text, j), number_base(text, j)) > 0xFFFF ==> lex_tokens(
            text,
            file,
        ) == Err::<Seq<TokenView>, Diagnosis>(
            located(
                ErrorKind::NumberOverflow,
                too_large_text(text.subrange(j, number_end(text, j))),
                place(file, line, j - start + 1, number_end(text, j) - start + 1),
            ),
        ),
        lex_tokens(text, file) is Ok ==> digits_value(number_digits(text, j), number_base(text, j))
            <= 0xFFFF && scan(text, file, j, line, start) == one_token(
            Lexeme::Number(digits_value(number_digits(text, j), number_base(text, j)) as u16),
            file,
            j,
            number_end(text, j),
            line,
            start,
        ),
{
    lemma_number_never_wraps(number_digits(text, j), number_base(text, j));
    if digits_value(number_digits(text, j), number_base(text, j)) > 0xFFFF {
        lemma_large_literal_overflows(text, file, j, line, start);
        lemma_first_failure_is_reported(text, file, 0, 1, 0, j, line, start);
    }
}

} // verus!
