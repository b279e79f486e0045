//! A small imperative scripting language, from source text to execution.
//!
//! A program passes through four stages, each in a module of its own: the
//! `lexer` turns text into tokens, the `parser` turns tokens into a tree of
//! statements, the `typechecker` validates the tree and the `interpreter`
//! runs it.
//!
//! What each stage computes is defined as a mathematical function over the
//! models in `syntax`: `grammar` says what the parser reads, `typing` what
//! the type checker accepts, and `semantics` what running a program means.
//! The contracts of the stages refer to these definitions. What is proved
//! of them stands in modules of its own: `spelling` (the tokens spell the
//! source), `progress` (reading moves forward), `readback` (a tree written
//! down in tokens, as `notation` says, is read back as it was), `laws`
//! (arithmetic, repeated runs, shadowing) and `limits` (a run that stays
//! within its limits goes the same under wider ones).
//!
//! Every failure is a value: `LexError`, `ParseError`, `TypeError`,
//! `RuntimeError`.

pub mod grammar;
pub mod interpreter;
pub mod laws;
pub mod lexer;
pub mod limits;
pub mod notation;
pub mod parser;
pub mod progress;
pub mod readback;
pub mod semantics;
pub mod spelling;
pub mod syntax;
pub mod table;
pub mod text;
pub mod typechecker;
pub mod typing;
