//! Packet capture analysis: reading captures, dissecting frames into trees,
//! filtering them, and following the conversations they belong to.

pub mod bytes;
pub mod capture;
pub mod dissect;
pub mod filter;
pub mod numerals;
pub mod pcap;
pub mod pcapng;
pub mod store;
pub mod synthetic;
pub mod text;
