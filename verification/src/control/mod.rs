//! What the control decides: the agents that are connected, the runs, the network changes and
//! what is kept of them.
pub mod artifacts;
pub mod captures;
pub mod certificates;
pub mod checks;
pub mod database;
pub mod error;
pub mod network;
pub mod participants;
pub mod pause;
pub mod plans;
pub mod procedures;
pub mod registry;
pub mod results;
pub mod runs;
pub mod runtime;
pub mod server;
pub mod start;
