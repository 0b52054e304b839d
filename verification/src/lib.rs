//! An embeddable request router: registered (method, pattern) entries map to
//! handler identifiers; an incoming (method, path) pair resolves to a handler
//! plus extracted path parameters, through a bounded result cache and a
//! status-coded envelope protocol.
use vstd::prelude::*;

pub mod batch;
pub mod boundary;
pub mod pattern;
pub mod router;
pub mod table;
pub mod text;
pub mod wire;

verus! {

/// Capability bit flags: 1 = trie matching, 2 = caching, 4 = batch
/// operations, 8 = statistics.
pub fn get_router_capabilities() -> (r: i32)
    ensures
        r == 15i32,
{
    1i32 + 2i32 + 4i32 + 8i32
}

} // verus!
