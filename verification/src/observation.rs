//! Observation records: generated observations, what their records hold, and
//! whether a record is right.

pub mod check;
pub mod check_laws;
pub mod end;
pub mod gen;
pub mod record;
pub mod record_laws;
