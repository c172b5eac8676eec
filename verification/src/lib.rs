//! A small multiplayer-game backend core: user accounts with hashed
//! passwords, signed bearer tokens that carry the player identity, and
//! game sessions whose rosters grow by an append-if-absent membership
//! rule, all against an in-memory relational store.

use vstd::prelude::*;

pub mod codec;
pub mod crypto;
pub mod service;
pub mod store;
pub mod token;

verus! {

/// Error body shape handed back at the boundary: `{ "details": string }`.
pub struct ApiError {
    pub details: String,
}

impl ApiError {
    pub fn new(details: String) -> (r: Self)
        ensures
            r.details@ == details@,
    {
        Self { details }
    }
}

} // verus!
