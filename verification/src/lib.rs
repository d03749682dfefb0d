//! Core of a load rig that sends single payments to an HTTP API at a planned rate.
//!
//! Hard rules:
//! - No floating point types.
//! - Integer-only math for ramp planning and percentiles.
//! - No clock in this crate: whoever calls it says what time it is.

pub mod config;
pub mod controller;
pub mod decimal;
pub mod hex;
pub mod histogram;
pub mod json;
pub mod keygen;
pub mod math;
pub mod preflight;
pub mod prefund;
pub mod ramp;
pub mod rate_limiter;
pub mod stats;
pub mod submitter;
pub mod text;
pub mod time;
pub mod worker;

pub use config::{Config, PaymentConfig, RampConfig, RampStep, ScenarioConfig, TargetConfig};
pub use controller::ControllerConfig;
pub use histogram::LatencyHistogram;
pub use ramp::RampPlanner;
