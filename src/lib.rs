//! A line-based multi-user chat relay: a registry of named connections,
//! broadcast with per-recipient failure isolation, and the per-connection
//! session state machine that drives name negotiation, chat and departure.
use vstd::prelude::*;

pub mod registry;
pub mod session;

verus! {

} // verus!
