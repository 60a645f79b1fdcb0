//! Wire primitives and message layouts (RFC 4251, RFC 4253, RFC 4254).

pub mod bytes;
pub mod cursor;
pub mod error;
pub mod generate;
pub mod ident_ref;
pub mod kex_ref;
pub mod kex_laws;
pub mod laws;
pub mod layouts;
pub mod messages_ref;
pub mod mpint_ref;
pub mod namelist_ref;
