//! A live trace collector's core: the channel filter, the line reassembler that
//! puts a timestamp at the start of every output line, and the decisions of the
//! edge-triggered acquisition loop.

pub mod filter;
pub mod reassembly;
pub mod session;
