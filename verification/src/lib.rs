//! Wireless threat detection from periodic scan summaries.
//!
//! A scan report is parsed into network records (`parse`), each record is
//! rated (`risk`) and the batch is tagged for evil twins (`evil_twin`). A
//! detection pass (`detect`) brings the monitoring state up to date
//! (`history`, `state`) and applies the seven rules (`rules`), each of which
//! reports typed threats (`threat`).
pub mod clock;
pub mod detect;
pub mod evil_twin;
pub mod history;
pub mod network;
pub mod number;
pub mod parse;
pub mod risk;
pub mod rules;
pub mod scan;
pub mod seqs;
pub mod state;
pub mod text;
pub mod threat;

pub use clock::Timestamp;
pub use detect::{detect_threats, detect_threats_at};
pub use evil_twin::mark_evil_twins;
pub use network::WifiNetwork;
pub use parse::parse_network_scan;
pub use risk::calculate_risk;
pub use state::{
    record_connection_failure, record_connection_failure_at, ConnectionFailure, MonitoringState,
    NetworkHistory, SignalBaseline,
};
pub use threat::{DetectedThreat, Severity, ThreatType};
