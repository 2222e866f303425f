//! A monitoring client core for a multi-agent orchestration platform:
//! a uniform read interface over a remote API and a local store,
//! chosen once by a reachability probe, and a health diagnostics
//! engine that folds platform freshness and per-repository status
//! into one explained composite score. Network, database and file
//! reads happen outside; everything here is verified against the
//! contracts it states.

pub mod api;
pub mod app;
pub mod diff;
pub mod health;
pub mod json;
pub mod records;
pub mod schema;
pub mod session;
pub mod source;
pub mod strutil;
pub mod time;
pub mod watcher;
