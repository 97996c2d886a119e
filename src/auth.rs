//! The caller identity that authentication hands to every operation.
use vstd::prelude::*;

verus! {

/// A verified caller identity. Authentication has checked it before any
/// operation of this crate runs.
#[derive(Debug, Clone)]
pub struct Claims {
    /// The user that the token was issued to.
    pub sub: String,
}

} // verus!
