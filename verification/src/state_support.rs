//! Channel opening, JSON and the records of an observer.

pub mod calendar;
pub mod json_laws;
pub mod json_parse;
pub mod json_ref;
pub mod json_serde;
pub mod opening_calls;
pub mod opening_laws;
pub mod opening_model;
pub mod opening_state;
pub mod opening_types;
pub mod record_ref;
pub mod table;
