use vstd::prelude::*;

pub mod text;
pub mod env;
pub mod yaml;
pub mod types;
pub mod error;
pub mod order;
pub mod backend;
pub mod compose;
pub mod session;
pub mod verification;
pub mod workload;
pub mod ffi;
pub mod config;
pub mod installer;
pub mod registry;
pub mod service;
pub mod cli;
pub mod capability;
pub mod detect;
pub mod testing;

verus! {

} // verus!
