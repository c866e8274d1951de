//! A minimal publish/subscribe message broker core: durable, append-only,
//! per-topic log storage addressed by a line-oriented wire protocol.
//!
//! The library holds the storage engine's logic: the offset-to-file mapping,
//! the manifest codec, the writer and reader state machines, and the SESP
//! command parser and response serializer. All I/O is left to the embedding
//! process, which hands plain values in and out.

pub mod broker;
pub mod creator;
pub mod manifest;
pub mod num;
pub mod reader;
pub mod sesp;
pub mod storage;
pub mod topic;
pub mod types;
pub mod writer;
