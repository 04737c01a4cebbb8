//! Expansion of the inline command placeholders that the text of a skill may
//! hold.
//!
//! A placeholder is written as an exclamation mark and a command between
//! backticks. [`turn`] takes in the texts of a turn and says which commands are
//! to be run, [`command`] takes each of them through the hooks and the shell, and
//! what came of it stands in the text in place of the placeholder.

pub mod command;
pub mod dynamic_context;
pub mod env;
pub mod expansion;
pub mod expansion_laws;
pub mod injection;
pub mod json;
pub mod markup;
pub mod output;
pub mod render;
pub mod replacement;
pub mod segments;
pub mod skill;
pub mod text;
pub mod turn;
