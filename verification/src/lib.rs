pub mod text;
pub mod regex_conversion;
pub mod conversion_laws;
pub mod regex_api;
pub mod json_api;
pub mod json_text;
pub mod rules;
pub mod filter;
pub mod devtasks;
pub mod cli;
