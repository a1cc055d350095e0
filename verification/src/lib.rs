pub mod args;
pub mod config;
pub mod error;
pub mod fileio;
pub mod glob;
pub mod list;
pub mod log;
pub mod packages;
pub mod path;
pub mod remove;
pub mod stow;
pub mod sync;
pub mod text;
