//! Core of a test-currency faucet's payout engine: the withdrawal lifecycle
//! registry, the confirmation-callback logic, and the planner that splits
//! oversized spendable outputs into drop-sized ones.
//!
//! Everything here works on plain values; the surrounding process owns the
//! chain client, the withdrawal processor and the HTTP surface, and hands
//! their results in as arguments.

pub mod consolidate;
pub mod lifecycle;
pub mod registry;
pub mod status;
pub mod types;
