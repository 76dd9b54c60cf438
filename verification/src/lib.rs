//! A registry of game-server profiles with an ordered, name-keyed lookup
//! discipline, a JSON persistence format, and a line-oriented command
//! dispatcher with a nested inspect session.

pub mod codec;
pub mod command;
pub mod config;
pub mod text;
