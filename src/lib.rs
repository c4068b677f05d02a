//! A registry of named cookie records with per-record ownership, monotonically
//! assigned transaction ids, a global key listing and a per-owner key index.
//!
//! Every operation is a total function from the current state, the call
//! context (caller identity and block number) and its arguments to a new
//! state and an outcome; notifications are appended to an event log that the
//! host drains.
pub mod account;
pub mod account_map;
pub mod cookie;
pub mod registry;
pub mod migrations;
pub mod laws;
