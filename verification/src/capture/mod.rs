//! Analysis of PCAP and PCAPNG captures: TCP flows, their streams and their HTTP transactions.
pub mod analysis;
pub mod blocks;
pub mod compression;
pub mod files;
pub mod flows;
pub mod formats;
pub mod frames;
pub mod framing;
pub mod hpack;
pub mod http;
pub mod http2;
pub mod keepalive;
pub mod layers;
pub mod outcomes;
pub mod packet;
pub mod segments;
pub mod streams;
