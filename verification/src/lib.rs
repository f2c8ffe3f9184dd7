//! A searchable index of git working directories.
//!
//! The library keeps an ordered store of repository records with secondary
//! indexes by host, owner and repository name; ranks the records against a
//! keyword; parses remote URLs; and decides what a sync of the base
//! directories records. Walking directories, asking git, and reading and
//! writing files is left to the program around it, which hands the library
//! plain values.
//!
//! Each function states its contract and is verified against it. The few calls
//! into other crates and into parts of the standard library that have no
//! verified model stand in small functions of their own, whose contracts are
//! taken on trust: `text::push_char`, `matching::to_lowercase`,
//! `matching::levenshtein`, `database::now`, `path::home_dir` and
//! `configuration::get_random_string`.

pub mod order;
pub mod text;

pub mod git_url;
pub mod path;

pub mod models;
pub mod sorted;
pub mod index;
pub mod index_records;

pub mod matching;
pub mod ranking;

pub mod database;
pub mod sync;

pub mod configuration;
pub mod context;
pub mod found;

pub mod assistant;
pub mod branch;
pub mod colors;
pub mod housekeeping;
pub mod shell;
pub mod template;
