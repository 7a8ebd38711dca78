pub mod buffer;
pub mod filter;
pub mod engine;
