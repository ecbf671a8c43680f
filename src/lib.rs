//! An in-process actor runtime: hierarchical addressing, envelopes with sender
//! provenance, and the bookkeeping that places actors on executors and tears
//! subtrees down in order.
pub mod address;
pub mod cell;
pub mod config;
pub mod envelope;
pub mod error;
pub mod executor;
pub mod manager;
pub mod message;
pub mod table;
pub mod uri;
