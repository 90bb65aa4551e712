//! The practice layer: the course of questions a run walks, what a front end is told after
//! each operation, one natural-deduction proof in progress with its draft line, and where
//! a launch resumes. It knows no terminal, window or file; a front end maps its own input
//! to these operations and draws their state.

pub mod course;
pub mod draft;
pub mod notice;
pub mod proving;
pub mod start;
pub mod transcript;
