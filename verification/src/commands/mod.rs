//! The decisions behind wowctl's commands. The commands themselves, which
//! read files, talk to the network and print, belong to the program.

pub mod update;
pub mod stale;
pub mod config;
pub mod list;
pub mod info;
pub mod remove;
pub mod install;
pub mod adopt;
pub mod flags;
pub mod search;
pub mod rollback;
