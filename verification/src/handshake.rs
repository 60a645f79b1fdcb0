//! The client handshake against a generated server: the scenario, the bytes
//! that the server sends, the model of every outcome, and the verdicts on what
//! the client reports and sends.

pub mod laws;
pub mod model;
pub mod report;
pub mod report_laws;
pub mod runs;
pub mod scenario;
pub mod scenario_laws;
pub mod session;
pub mod types;
pub mod wire;
pub mod wire_laws;
