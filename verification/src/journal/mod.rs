//! The write-ahead journal, and the session every write bx makes goes through.

pub mod believe;
pub mod claims;
pub mod error;
pub mod files;
pub mod frame;
pub mod load;
pub mod record;
pub mod session;
