//! Time-based one-time-password second-factor authentication.
//!
//! A principal registers a Base32 shared secret once and later proves
//! possession of it by submitting the six-digit code for the current
//! thirty-second step. The trusted time is always an explicit argument.

pub mod contract;
pub mod error;
pub mod msg;
pub mod response;
pub mod state;
pub mod totp;
