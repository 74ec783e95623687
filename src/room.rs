//! How many particles a room holds.
use vstd::prelude::*;

verus! {

/// The particle count for a room whose area, `(2 * hx) * (2 * hy)`, was
/// truncated toward zero to `cells`: that many particles, and none when it
/// is not positive.
pub open spec fn count_of(cells: i64) -> int {
    if cells <= 0 {
        0
    } else {
        cells as int
    }
}

/// The number of particles to place in a room whose truncated area is
/// `cells`; a room of zero or negative size holds no particles.
pub fn particle_count(cells: i64) -> (r: u64)
    ensures
        r == count_of(cells),
{
    if cells <= 0 {
        0
    } else {
        cells as u64
    }
}

} // verus!
