//! Entity identifiers.
//!
//! Every inventory, item, unit and user is identified by a 128-bit value
//! drawn at creation time. Identifiers are plain data: equality is the only
//! structure the store relies on, and callers that need a fresh one obtain it
//! from [`fresh_id`].

use vstd::prelude::*;

verus! {

/// A 128-bit entity identifier.
#[derive(Clone, Copy, PartialEq, Eq, Structural, Hash, Debug)]
pub struct Id {
    pub value: u128,
}

impl Id {
    /// Wraps a raw 128-bit value as an identifier.
    pub fn from_value(value: u128) -> (r: Id)
        ensures
            r.value == value,
    {
        Id { value }
    }
}

/// Draws a fresh random identifier.
///
/// Relies on uuid::Uuid::new_v4: a freshly generated random identifier,
/// returned here as its 128-bit value. Nothing is promised of the value;
/// callers that need freshness test it against the identifiers they hold.
#[verifier::external_body]
pub(crate) fn fresh_id() -> Id {
    Id { value: uuid::Uuid::new_v4().as_u128() }
}

} // verus!
