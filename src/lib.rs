//! A schema-migration engine for PostgreSQL databases.
//!
//! The library holds the decisions of a migration run: which files form the
//! catalog of versions, how connection attempts are retried, how the target
//! database and the bookkeeping schema are bootstrapped, which versions are
//! pending against the ledger of installed ones, and how failures are settled
//! under the force policy. Talking to the server and the file system is left
//! to the caller, which hands the outcomes back as plain values.
pub mod applier;
pub mod bootstrap;
pub mod catalog;
pub mod config;
pub mod connect;
pub mod error;
pub mod ledger;
pub mod run;
