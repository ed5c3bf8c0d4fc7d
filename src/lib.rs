//! A client library for a remote file, folder and user API: a command router
//! over route segments, and a request/response transport model with a single
//! error taxonomy.

pub mod auth;
pub mod client;
pub mod download;
pub mod error;
pub mod models;
pub mod network;
pub mod operations;
pub mod router;
