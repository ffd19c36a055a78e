//! The stages an ask goes through.

pub mod admission;
pub mod kind;
pub mod retrieve;
pub mod run;
pub mod verify;
pub mod verify_run;
