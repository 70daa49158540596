//! A persistent backend for event ticketing: events, registered users and
//! ticket inventory, with a purchase workflow that checks availability,
//! decrements inventory and records an attendee, never overselling.
//!
//! The state lives in explicit store objects ([`state::State`]) injected by
//! the host; durability and wire encoding are the host's concern.

use vstd::prelude::*;

pub mod allocator;
pub mod auth;
pub mod date;
pub mod events;
pub mod hashing;
pub mod laws;
pub mod state;
pub mod store;
pub mod tickets;
pub mod types;
pub mod users;

verus! {

} // verus!
