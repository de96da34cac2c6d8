//! What is read from the system's tools, turned into domain values.

pub mod lsblk;
pub mod platform;
