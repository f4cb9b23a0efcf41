//! The media sessions of the desktop: what to tell the system, in which order, and what its
//! buttons mean.
//!
//! Rates and times in seconds are double-precision numbers; they pass through here as their bit
//! patterns.
pub mod nowplaying;
pub mod plan;
pub mod smtc;
pub mod status;
