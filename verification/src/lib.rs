//! Packet capture analysis library: layered protocol decoders, TCP stream
//! reassembly, traffic statistics, the live capture loop's decisions and
//! command-line argument rules.
pub mod text;
pub mod protocol;
pub mod tcp_stream;
pub mod cli;
pub mod status;
pub mod analyse;
pub mod printer;
pub mod capture;
