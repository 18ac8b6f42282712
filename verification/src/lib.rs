//! A verified planner for extracting ZIP archives.
//!
//! The library turns the entries of an archive into a sequence of filesystem
//! actions — create a directory, write a file, or skip an entry whose name
//! does not resolve inside the destination root — and proves that the plan
//! mirrors the entries: one action per entry, file contents passed through
//! byte for byte, each at its name's resolved destination, unresolvable
//! names skipped, and parent directories created at most once.  Performing
//! the actions (and all other I/O) is left to the caller.

pub mod paths;
pub mod plan;
pub mod archive;
