pub mod agent;
pub mod bytes;
pub mod capture;
pub mod control;
pub mod digest;
pub mod domain;
pub mod id;
pub mod ip;
pub mod json;
pub mod num;
pub mod text;
pub mod wire;
