//! A verified core for a recursive DNS resolver speaking the classic
//! 512-byte UDP wire protocol.
//!
//! The library contains the binary codec for DNS messages (a fixed-size
//! packet buffer, the compression-safe domain-name decoder and the matching
//! encoder, question and resource-record codecs, and the whole-packet codec)
//! together with the decision logic of the iterative delegation walker.
//! Sockets and the listening loop live outside the library and exchange
//! plain byte buffers and packets with it.

pub mod byte_packet_buffer;
pub mod dns_error;
pub mod result_code;
pub mod dns;
pub mod engine;
