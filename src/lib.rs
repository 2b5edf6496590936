//! State core of a custodial lottery: ticket sales against a fixed supply,
//! per-caller rate limiting, an allowlist, a seed-ordered draw and
//! basis-point prize arithmetic.
//!
//! Callers must serialise operations on one `Lottery` value; time and the
//! draw seed are supplied by the caller.

pub mod error;
pub mod identity;
pub mod text;
pub mod access;
pub mod rate_limit;
pub mod digest;
pub mod draw;
pub mod lottery;
pub mod logging;
pub mod laws;

pub use error::LotteryError;
pub use identity::IdentityKey;
pub use logging::LogLevel;
pub use lottery::{Lottery, PayoutStructure};
