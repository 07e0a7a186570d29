use vstd::prelude::*;

pub mod battle;
pub mod rng;
pub mod round;
pub mod sweep;

verus! {

/// A die shows a face in `1..=6`.
pub open spec fn valid_die(x: u8) -> bool {
    1 <= x <= 6
}

} // verus!
