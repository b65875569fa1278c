//! bx keeps a user's configuration files as a config repo declares them.
//!
//! This crate is the part of bx that decides: what stands in a file, what the
//! journal of an earlier run says, what may be written over, and what is shown.
//! Reading the disk, running git and drawing on the terminal are the program's,
//! which hands plain values in and carries the answers out.

pub mod digest;
pub mod fs;
pub mod journal;
pub mod list;
pub mod order;
pub mod paths;
pub mod plan;
pub mod report;
pub mod state;
pub mod text;
