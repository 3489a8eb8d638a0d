//! A small budget server, verified: the routing tree, the request
//! dispatcher, the per-user budget and its command table, the canonical
//! JSON record, the session manager's token table, the authentication
//! decisions, and the latency metrics.  Network and store I/O stay with
//! the embedding program; every decision in between is specified and
//! proved here.

pub mod auth;
pub mod budget;
pub mod flatjson;
pub mod http_utils;
pub mod json;
pub mod metrics;
pub mod money;
pub mod router;
pub mod server;
pub mod text;
pub mod user_threads;
