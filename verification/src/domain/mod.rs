//! What a test is: its scenario, its load, its payloads and the network that it runs on.
pub mod load;
pub mod network;
pub mod payload;
pub mod ramp;
pub mod scenario;
pub mod stages;
pub mod tls;
pub mod validity;
