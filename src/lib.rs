//! A personal task list: an ordered store of tasks whose ids always run
//! densely from 1 to N, the rows that list it, and a line-oriented text
//! format to persist it.
pub mod codec;
pub mod listing;
pub mod store;
