//! Reference models of an SSH client's wire format, transport, key exchange
//! and records, each with a contract that says exactly what it computes.
//!
//! The models know nothing of the client under test: they take bytes and
//! plain values, and give values and verdicts back.

pub mod channel_laws;
pub mod channel_opening;
pub mod codec_laws;
pub mod digits;
pub mod ext_codecs;
pub mod gcm_laws;
pub mod gcm_packets;
pub mod handshake;
pub mod identification;
pub mod initial_packets;
pub mod input_buffer;
pub mod json_values;
pub mod kex_codecs;
pub mod kex_support;
pub mod key_blobs;
pub mod key_laws;
pub mod negotiation;
pub mod observation;
pub mod observer;
pub mod probe;
pub mod report_json;
pub mod report_laws;
pub mod role_laws;
pub mod seqs;
pub mod state_support;
pub mod tcp_support;
pub mod text;
pub mod wire_core;
pub mod wire_ident;
pub mod wire_messages;
pub mod wire_primitives;
pub mod wire_samples;
