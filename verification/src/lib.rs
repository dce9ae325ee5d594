use vstd::prelude::*;

pub mod commands;
pub mod common;
pub mod config;
pub mod detect;
pub mod engine;
pub mod features;
pub mod keyed;
pub mod keys;
pub mod num;
pub mod palette;
pub mod socket;
pub mod text;
pub mod ui_state;
pub mod unicode;
pub mod uninstall;
pub mod update;
pub mod url;
pub mod version;

verus! {

} // verus!
