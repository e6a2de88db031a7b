//! wowctl — World of Warcraft addon manager: verified core library.

pub mod text;
mod clock;
pub mod fingerprint;
pub mod addon;
pub mod error;
pub mod sources;
pub mod toc;
pub mod registry;
pub mod circuit_breaker;
pub mod utils;
pub mod commands;
pub mod colors;
pub mod config;
