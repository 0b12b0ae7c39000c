pub mod analyzer;
pub mod args;
pub mod input;
pub mod output;
pub mod processor;
