//! Integer side of galaxy-scale coordinates: sector adjacency and the sector
//! grid around the camera.
//!
//! Sector sizes, distances and positions inside a sector are floating point
//! and handled outside this module.

use vstd::prelude::*;
use crate::spatial_hash::{cell_less, cells_in_box, in_cell_box};

verus! {

/// `|d| <= 1`.
pub open spec fn within_one(d: int) -> bool {
    -1 <= d <= 1
}

/// Every coordinate difference fits an `i32` and so does its absolute value.
pub open spec fn difference_fits(a: (i32, i32, i32), b: (i32, i32, i32)) -> bool {
    &&& i32::MIN < a.0 - b.0 <= i32::MAX
    &&& i32::MIN < a.1 - b.1 <= i32::MAX
    &&& i32::MIN < a.2 - b.2 <= i32::MAX
}

/// Whether two sectors touch: they differ by at most one step on every axis
/// (a sector is adjacent to itself).
pub fn sectors_adjacent(a: (i32, i32, i32), b: (i32, i32, i32)) -> (r: bool)
    requires
        difference_fits(a, b),
    ensures
        r == (within_one(a.0 - b.0) && within_one(a.1 - b.1) && within_one(a.2 - b.2)),
{
    let dx = a.0 - b.0;
    let dy = a.1 - b.1;
    let dz = a.2 - b.2;
    let ax = if dx < 0 { -dx } else { dx };
    let ay = if dy < 0 { -dy } else { dy };
    let az = if dz < 0 { -dz } else { dz };
    ax <= 1 && ay <= 1 && az <= 1
}

/// Whether two positions lie in the same sector.
pub fn same_sector(a: (i32, i32, i32), b: (i32, i32, i32)) -> (r: bool)
    ensures
        r == (a == b),
{
    a.0 == b.0 && a.1 == b.1 && a.2 == b.2
}

/// The sectors to test for visibility around the camera's sector: every
/// sector at most `reach` steps away on each axis, in x-major order; none
/// when `reach` is negative.
pub fn sectors_around(camera: (i32, i32, i32), reach: i32) -> (sectors: Vec<(i32, i32, i32)>)
    requires
        reach >= 0 ==> {
            &&& i32::MIN <= camera.0 - reach
            &&& camera.0 + reach <= i32::MAX
            &&& i32::MIN <= camera.1 - reach
            &&& camera.1 + reach <= i32::MAX
            &&& i32::MIN <= camera.2 - reach
            &&& camera.2 + reach <= i32::MAX
        },
    ensures
        forall|c: (i32, i32, i32)| sectors@.contains(c) <==> (reach >= 0 && #[trigger] in_cell_box(
            c,
            ((camera.0 - reach) as i32, (camera.1 - reach) as i32, (camera.2 - reach) as i32),
            ((camera.0 + reach) as i32, (camera.1 + reach) as i32, (camera.2 + reach) as i32),
        )),
        forall|i: int, j: int| 0 <= i < j < sectors@.len() ==> cell_less(#[trigger] sectors@[i], #[trigger] sectors@[j]),
{
    if reach < 0 {
        return Vec::new();
    }
    let lo = (camera.0 - reach, camera.1 - reach, camera.2 - reach);
    let hi = (camera.0 + reach, camera.1 + reach, camera.2 + reach);
    cells_in_box(lo, hi)
}

} // verus!
