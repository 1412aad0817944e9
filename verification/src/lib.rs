//! A DNS firewall decision engine.
//!
//! The crate observes parsed DNS queries, keeps per-source and per-domain
//! behavioural state, and decides which sources a kernel packet filter
//! should drop.  The decision logic, the frame parser and the supporting
//! configuration are all verified; the capture loop and the concrete
//! firewall backends live outside the library.

pub mod cli;
pub mod config;
pub mod firewall;
pub mod entropy;
pub mod laws;
pub mod logic;
pub mod monitor;
pub mod table;
