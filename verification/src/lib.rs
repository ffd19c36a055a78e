pub mod clients;
pub mod config;
pub mod dash;
pub mod error;
pub mod http;
pub mod ids;
pub mod json;
pub mod laws;
pub mod order;
pub mod pipeline;
pub mod score;
pub mod store;
pub mod text;
pub mod types;
pub mod when;
