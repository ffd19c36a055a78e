//! The dashboard: the state it builds from the service's log, and the lines it shows.

pub mod detail;
pub mod ingest;
pub mod keys;
pub mod laws;
pub mod lines;
pub mod panels;
pub mod state;
pub mod window;
pub mod wrap;
