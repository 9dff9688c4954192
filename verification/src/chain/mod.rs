pub mod parser;
pub mod reader;
pub mod split;
