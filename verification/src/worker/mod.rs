//! The worker: what it sends, when, and what it makes of the replies.

pub mod payment;
pub mod recipients;
pub mod report;
pub mod run;
pub mod schedule;
pub mod stats;
pub mod submit;
pub mod validate;
