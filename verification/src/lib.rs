//! Virtual audio routing for PipeWire.

pub mod cmd;
pub mod collect;
pub mod config;
pub mod detect;
pub mod error;
pub mod logger;
pub mod messages;
pub mod models;
pub mod modules;
pub mod monitor;
pub mod patchbay;
pub mod plan;
pub mod props;
pub mod routes;
pub mod routing;
pub mod runs;
pub mod session;
pub mod shareable;
pub mod snapshot;
pub mod state;
pub mod steps;
pub mod text;
