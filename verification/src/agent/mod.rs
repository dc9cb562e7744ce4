//! What an agent decides: network changes, workloads and the commands of the control.
pub mod artifact;
pub mod commands;
pub mod connector;
pub mod counts;
pub mod discovery;
pub mod exchange;
pub mod http1;
pub mod http2;
pub mod inventory;
pub mod journal;
pub mod journaling;
pub mod lifecycle;
pub mod links;
pub mod payload;
pub mod plan;
pub mod replay;
pub mod replaying;
pub mod rewriting;
pub mod runner;
pub mod session;
pub mod tcp;
pub mod telemetry;
pub mod tls;
pub mod workload;
