//! A text-based broadcast chat core: peers register under a display name,
//! every line a peer sends is fanned out to all other registered peers
//! through bounded per-peer delivery queues, and departures are announced.
//! Alongside the chat core the crate carries small verified utility
//! modules: string helpers, counter metrics, and integer matrix algebra.
use vstd::prelude::*;

pub mod message;
pub mod room;
pub mod handler;
pub mod metrics;
pub mod vector;
pub mod matrix;
pub mod decimal;

verus! {

/// Returns an owned copy of the given string slice.
pub fn foo(s: &str) -> (r: String)
    ensures
        r@ == s@,
{
    s.to_owned()
}

/// Returns the given string unchanged.
pub fn foo2(s: String) -> (r: String)
    ensures
        r == s,
{
    s
}

} // verus!
