//! Finds the source files under some directories and gathers what is counted in
//! them, language by language.
//!
//! - `glob`: wildcard patterns
//! - `path`: components, text, file name and extension of a path
//! - `exclude`: which paths are left out
//! - `config`: the settings, and the ignore rules that follow from them
//! - `walk`: the directory walker that obeys them
//! - `tally`: the reports and failures of each language
//! - `run`: what a whole run comes to

pub mod config;
pub mod exclude;
pub mod glob;
pub mod path;
pub mod run;
pub mod tally;
pub mod walk;
