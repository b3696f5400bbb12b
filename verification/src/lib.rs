//! Authentication and ingestion of source-control webhook notifications.
//!
//! The crate holds the rules of the pipeline, each in a module of its own:
//!
//! - [`signature`] and [`hex`]: the check of a request's HMAC-SHA256
//!   signature;
//! - [`json`] and [`event`]: the decoding of a payload into a closed set of
//!   events;
//! - [`pool`]: the bookkeeping of a bounded connection pool;
//! - [`migration`]: the planning of schema migrations at startup;
//! - [`handler`]: the path of one request from arrival to its answer;
//! - [`config`]: the settings the service starts with.
//!
//! Everything here works on plain values. Reading the environment, serving
//! HTTP and talking to the database are left to the program around it.
pub mod config;
pub mod event;
pub mod handler;
pub mod hex;
pub mod json;
pub mod migration;
pub mod pool;
pub mod signature;
