//! Verified core of a stock-price monitoring utility.
//!
//! The crate holds the logic that drives one polling cycle of the monitor:
//! calendar-date arithmetic for the requested observation period,
//! configuration validation, the scheduler and benchmark-cache state
//! machines, and the assembly of the output rows.  The floating-point
//! statistics themselves and all network traffic live outside the library.
#![allow(unused_imports)]

pub mod date;
pub mod pipeline;
pub mod text;
