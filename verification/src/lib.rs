//! A verified codec for the DNS message wire format: the fixed 12-byte
//! header with its packed flag bits, length-prefixed domain names, questions
//! and resource records, whole messages, and a phase-typed builder that
//! derives a response from a request. Encoding and decoding are specified
//! against mathematical byte sequences, and the round-trip laws are proved.

pub mod message;
pub mod message_builder;
pub mod name;
pub mod round_trip;
pub mod stream;
pub mod udp_listener;
