use vstd::prelude::*;

use crate::board::{in_bounds, Coordinate, COL, ROW};

verus! {

/// Relies on rand's `Rng::gen_range(low, high)` on the thread-local generator:
/// it returns a value in `[low, high)` and panics when `low >= high`.
#[verifier::external_body]
pub(crate) fn random_below(n: usize) -> (r: usize)
    requires
        0 < n,
    ensures
        r < n,
{
    rand::Rng::gen_range(&mut rand::thread_rng(), 0, n)
}

/// A cell of the board drawn at random, each axis uniformly and independently.
pub fn random_coordinate() -> (c: Coordinate)
    ensures
        in_bounds(c),
{
    let x = random_below(COL as usize);
    let y = random_below(ROW as usize);
    Coordinate { x: x as u8, y: y as u8 }
}

} // verus!
