//! The verified core of PkgRadar's CI client: lockfiles, plans, requests, and what a run decides.
pub mod baseline;
pub mod client;
pub mod cmd;
pub mod config;
pub mod entry;
pub mod json;
pub mod lists;
pub mod lockfile;
pub mod text;
pub mod text_laws;
pub mod toml_file;
pub mod waiver;
pub mod yaml;
