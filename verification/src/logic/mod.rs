//! Propositional logic: connectives, formulas, their parser, and classical natural
//! deduction.

pub mod formula;
pub mod parse;
pub mod deduction;
pub mod equivalence;
pub mod op;
pub mod generate;
