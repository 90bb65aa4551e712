//! Stepwise: a student proposes the next step of an evaluation or a proof, and the rules
//! check it and explain why.

pub mod text;
pub mod teaching;
pub mod logic;
pub mod python;
pub mod exercises;
pub mod progress;
pub mod generate;
pub mod launch;
pub mod practice;
pub mod terminal;
pub mod session;
