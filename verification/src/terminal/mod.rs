//! What the terminal front end decides without touching the terminal: the words it puts to
//! each report, its key help, and how its scrolled area moves.

pub mod say;
pub mod scroll;
pub mod keys;
pub mod layout;
