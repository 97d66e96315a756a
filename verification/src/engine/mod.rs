pub mod flags;
pub mod laws;
pub mod matching;
pub mod parse;
pub mod validate;
pub mod types;
