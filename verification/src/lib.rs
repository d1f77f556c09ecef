//! An in-memory, filterable projection of NEAR-style on-chain account state,
//! together with the pure core of an ordered block fetcher.
//!
//! The crate keeps the state projection (`FlatState`) current by applying
//! state-change deltas from fetched blocks, serialises it to a versioned
//! binary snapshot, and provides the routing, scheduling and retry decisions
//! of the fetcher as verified functions. All I/O (HTTP, RPC, files) lives in
//! the surrounding application, which feeds plain values into this library.

pub mod codec;
pub mod data;
pub mod dump;
pub mod fetcher;
pub mod filter;
pub mod kvlist;
pub mod rpc;
pub mod sink;
pub mod state;
pub mod storage;
pub mod types;
pub mod urls;

use vstd::prelude::*;

verus! {

/// Bytes equal to `v`, produced by a verified copy loop.
pub fn copy_bytes(v: &Vec<u8>) -> (r: Vec<u8>)
    ensures
        r@ == v@,
{
    let mut r: Vec<u8> = Vec::new();
    let mut i: usize = 0;
    while i < v.len()
        invariant
            i <= v.len(),
            r@ == v@.subrange(0, i as int),
        decreases v.len() - i,
    {
        r.push(v[i]);
        i += 1;
    }
    proof {
        assert(r@ =~= v@);
    }
    r
}

} // verus!
