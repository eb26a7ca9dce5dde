//! The core of a small HTTP service runtime, with its behaviour proved: a route table that
//! picks the most specific route, a middleware chain driver with its catcher, a to-do store
//! with unique identifiers, a per-request depot, and a graceful-shutdown controller.

use vstd::prelude::*;

pub mod chain;
pub mod depot;
pub mod lifecycle;
pub mod router;
pub mod store;
pub mod todos;

verus! {

} // verus!
