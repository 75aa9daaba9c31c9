//! Line, word, byte and longest-line counting for files and directory trees,
//! with the rendering of the results.

pub mod cli;
pub mod counter;
pub mod glob;
pub mod order;
pub mod output;
pub mod run;
pub mod text;
pub mod walk;
