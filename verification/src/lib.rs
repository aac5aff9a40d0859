//! Proof-of-work build service and the small algorithm collection that ships with it.

pub mod engine;
pub mod proto;
pub mod mailbox;
pub mod service;
pub mod fanout;
pub mod dispatch;
pub mod algorithm;
pub mod basic;
pub mod ds;
pub mod text;
pub mod grep;
pub mod kv;
pub mod xdiff;
pub mod wire;
pub mod codec;
pub mod json_schema;
pub mod graph;
pub mod actor;
pub mod pipeline;
