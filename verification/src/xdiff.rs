//! Arguments and profiles for comparing the responses to two requests.

pub mod cli;
pub mod profile;
