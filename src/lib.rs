//! Finds study files that are safe to clear away, ranks them, and keeps a
//! dated archive of what was moved aside.

pub mod text;
pub mod classify;
pub mod scoring;
pub mod duplicates;
pub mod protection;
pub mod time;
pub mod scanner;
pub mod archive;
pub mod lifecycle;
