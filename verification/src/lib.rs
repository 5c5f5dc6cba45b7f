//! An assembler for a small CHIP-8 style instruction set.
//!
//! A program is assembled in three steps:
//!
//! 1. [`lexer::lex`] turns the text of a source file into tokens.
//! 2. [`parser::Parser`] turns the tokens into instructions. Its `parse` reads
//!    the tokens twice, once for the labels and once for the statements, and
//!    carries out the directives on the way. Where a file is included, `parse`
//!    hands out the path; the caller reads the file, hands over its text, and
//!    calls `parse` again.
//! 3. [`instruction::convert_to_chip8`] turns the instructions into code words
//!    of sixteen bits.
//!
//! Every step is stated over mathematical models of its data and proved
//! against them: [`lexer::lex_tokens`] says what the tokens of a text are,
//! [`machine::run`] what becomes of a parser, and [`instruction::code_word`]
//! what the code word of an instruction is. [`passes`] shows that the second
//! pass takes every branch as the first pass took it. Failures are values of
//! [`exception::CompileError`]; the first one ends the compilation.
pub mod exception;
pub mod instruction;
pub mod lexer;
pub mod machine;
pub mod parser;
pub mod passes;
pub mod text;
pub mod token;
