//! Detection of un-fenced source-code fragments inside free-form chat text.
//!
//! The detector slides a window over the message's lines, decorates each
//! window into candidate buffers, and asks an external syntax checker whether
//! a candidate parses.  Everything that decides *which* windows are tried, in
//! *what order*, *what* the candidate buffers hold and *what* is returned is
//! verified here; only the process plumbing that runs the checker lives with
//! the caller, which drives the search step by step.

pub mod candidate;
pub mod detector;
pub mod race;
pub mod text;
pub mod validator;

pub use candidate::build_candidates;
pub use candidate::Candidate;
pub use candidate::Variant;
pub use detector::Detection;
pub use detector::SnippetDetector;
pub use detector::MIN_FRAGMENT_LINES;
pub use detector::WINDOW_DEADLINE_SECS;
pub use race::RaceStatus;
pub use race::RaceVerdict;
pub use race::WindowRace;
pub use text::contains_trigger;
pub use validator::classify_report;
pub use validator::CheckerReport;
pub use validator::ValidationOutcome;
pub use text::join_window;
pub use text::split_lines;
