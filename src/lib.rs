//! A small language for tabletop game-master procedures: dice rolls, fact
//! checks against a fact store, random table lookups and named procedures.
//!
//! Source text goes through the [`scanner`], the [`parser`] and the
//! [`interpreter`]; the dice, table and fact engines support the interpreter.
pub mod dice;
pub mod error;
pub mod facts;
pub mod interpreter;
pub mod lang;
pub mod parser;
pub mod rolls;
pub mod scanner;
pub mod tables;
pub mod text;
