//! The body ("claim") of an authorization token.
//!
//! The `user_id` matches the id of a stored user; `iat` is the epoch
//! second the token was issued at.  Signing the claim into a token and
//! validating tokens back into claims is the token collaborator's work,
//! outside this crate.

use vstd::prelude::*;
use crate::telemetry::unix_now_seconds;

verus! {

/// An authorization claim.
#[derive(Clone, Copy, Debug)]
pub struct Claim {
    user_id: i32,
    iat: u64,
}

impl Claim {
    /// The id of the user the claim authorizes.
    pub closed spec fn user_id_spec(self) -> i32 {
        self.user_id
    }

    /// Create a new claim for the given user, issued now.
    pub fn new(user_id: i32) -> (r: Self)
        ensures
            r.user_id_spec() == user_id,
    {
        Claim { user_id, iat: unix_now_seconds() }
    }

    /// Read the user id back out of a claim.
    pub fn user_id(&self) -> (r: i32)
        ensures
            r == self.user_id_spec(),
    {
        self.user_id
    }

    /// Rebuild a claim from its decoded fields, as the token validator
    /// hands them back.
    pub fn from_fields(user_id: i32, iat: u64) -> (r: Self)
        ensures
            r.user_id_spec() == user_id,
    {
        Claim { user_id, iat }
    }

    /// The issue instant, in epoch seconds.
    pub fn issued_at(&self) -> u64 {
        self.iat
    }
}

} // verus!
