//! A skeletal restaurant: front-of-house seating and back-of-house order
//! handling.  The restaurant keeps no state, so its operations are pure
//! call structure — each one completes and changes nothing observable.

use vstd::prelude::*;

verus! {

/// Front of house: put the arriving party on the waitlist.
pub fn add_to_waitlist() {
}

/// Back of house: hand a finished order to the floor.
pub fn serve_order() {
}

/// Back of house: remake a wrong order and hand it out again.
pub fn fix_incorrect_order() {
    serve_order();
}

/// A customer's visit: join the waitlist (checking in at the host stand and
/// again at the table) and have the order served.
pub fn eat_at_restaurant() {
    add_to_waitlist();
    add_to_waitlist();
    serve_order();
}

} // verus!
