use vstd::prelude::*;

pub mod clock;
pub mod clock_laws;
pub mod config;
pub mod commands;
pub mod cmd_sets;
pub mod cmd_zsets;
pub mod cmd_lists;
pub mod cmd_hashes;
pub mod cmd_keys;
pub mod cmd_strings;
pub mod entry;
pub mod error;
pub mod frame;
pub mod glob;
pub mod hashes;
pub mod keyspace;
pub mod laws;
pub mod lists;
pub mod resp;
pub mod seqs;
pub mod session;
pub mod snapshot;
pub mod sets;
pub mod store;
pub mod strings;
pub mod strmap;
pub mod text;
pub mod zorder;
pub mod zsets;

verus! {

} // verus!
