//! Small building blocks.

pub mod encoder;
pub mod fibonacci;
pub mod strsplit;
pub mod strtok;
pub mod user;
