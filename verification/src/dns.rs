//! The DNS message model: header, question, resource record, packet.

pub mod header;
pub mod question;
pub mod record;
pub mod packet;
