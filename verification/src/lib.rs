pub mod brackets;
pub mod engine;
pub mod token;
