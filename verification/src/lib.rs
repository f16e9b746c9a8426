//! Contracts for Controller Area Network (CAN) peripherals.
//!
//! The crate states what a CAN driver owes its callers: which identifiers are
//! valid, how frames are built, how acceptance filters match, and how the
//! non-blocking transmit and receive operations move frames.

pub mod bank;
pub mod can;
pub mod controller;
pub mod filter;
pub mod frame;
pub mod id;
