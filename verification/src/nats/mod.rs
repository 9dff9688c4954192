pub mod buffer;
pub mod client;
