//! What the service promises, stated of what its functions are given and give back.

pub mod admitting;
pub mod answering;
pub mod claiming;
pub mod numbers;
pub mod prompting;
pub mod publishing;
pub mod rendering;
pub mod retrieving;
pub mod running;
pub mod scoring;
pub mod serving;
pub mod texts;
pub mod verdicts;
pub mod watching;
