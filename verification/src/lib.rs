//! A verified core for a keyboard firmware: a debounced matrix scanner and a
//! multi-layer layout engine with hold-tap arbitration.
//!
//! The engine consumes matrix press/release events and clock ticks, maintains
//! the set of active key codes, and surfaces user-defined custom actions.
//! All state is bounded; no function here panics.

pub mod action;
pub mod debounced_matrix;
pub mod key_code;
pub mod keycodes;
pub mod layout;
