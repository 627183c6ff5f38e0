use vstd::prelude::*;

pub mod scope;
pub mod text;
pub mod error;
pub mod env;
pub mod path;
pub mod order;
pub mod json;
pub mod preset;
pub mod settings;
pub mod home;
pub mod provider;
pub mod color;
pub mod cli;
pub mod commands;

verus! {

} // verus!
