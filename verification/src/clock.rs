//! The store's one window on the outside world: a wall-clock read.

use vstd::prelude::*;

verus! {

/// Relies on std::time::SystemTime::now and SystemTime::duration_since:
/// milliseconds between the Unix epoch and now, or `None` where the clock
/// stands before the epoch. What the clock reads cannot be pinned down, so
/// nothing is promised of the value; callers state what holds of every
/// outcome.
#[verifier::external_body]
pub(crate) fn epoch_millis() -> (r: Option<u128>)
{
    match std::time::SystemTime::now().duration_since(std::time::UNIX_EPOCH) {
        Ok(d) => Some(d.as_millis()),
        Err(_) => None,
    }
}

} // verus!
