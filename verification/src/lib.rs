use vstd::prelude::*;

pub mod application;
pub mod chain;
pub mod config;
pub mod error;
pub mod events;
pub mod handlers;
pub mod hashing;
pub mod nats;
pub mod sort;
pub mod state;
pub mod text;

verus! {

} // verus!
