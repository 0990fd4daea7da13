//! Bulk creation of message-queue topics from a line-oriented definition file.
//!
//! The crate holds the two parts that decide anything: the recognizer that
//! turns one line of text into a line kind, and the engine that walks the
//! parsed definitions and says, step by step, which topic to create next.
//! Reading files and talking to a cluster are left to the caller.
//!
//! - `recognizer`: the grammar of a line, and `read_line`.
//! - `loader`: all the lines of a file, or the first that is malformed.
//! - `reconcile`: the engine, and `prepare`, which makes one from a file.
//! - `run`: what holds of every run of the engine.
//! - `rendering`: a definition written as a line is read back as itself.
//! - `line_parser`: a lenient reader for lines `title[,key=value]*`.
//! - `topic`: the values that lines are read into.
//! - `chars`, `text`, `number`, `strings`: characters, trimming and
//!   splitting, decimal numbers, and strings.

pub mod chars;
pub mod text;
pub mod number;
pub mod strings;
pub mod topic;
pub mod recognizer;
pub mod line_parser;
pub mod loader;
pub mod reconcile;
pub mod rendering;
pub mod run;
