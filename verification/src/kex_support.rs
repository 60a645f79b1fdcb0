//! Key exchange: fingerprint text, proposals, negotiation and the server's
//! side of the cryptography.

pub mod base64;
pub mod crypto;
pub mod keys;
pub mod lists;
pub mod negotiate_ref;
