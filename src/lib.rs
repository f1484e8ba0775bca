//! Branch status reporting: which local branches exist, how fresh each one is,
//! whether each has been merged, and how far ahead of its baseline it stands.

pub mod text;
pub mod relative_time;
pub mod branch;
pub mod rank;
pub mod scan;
pub mod resolve;
pub mod present;
