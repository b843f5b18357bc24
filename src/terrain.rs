//! Depth, ground and surface-normal queries on scene raster coordinates.
//! Every query answers a neutral value outside the raster.
use vstd::prelude::*;
use crate::fixed::ONE;
use crate::scene::{Scene, cell_index};

verus! {

/// Raster depth bytes at or below this value are sky: nothing collides there.
pub const SKY_DEPTH: u8 = 30;

/// The stored depth byte at `(x, y)`, 0 outside the raster.
pub open spec fn depth_raw_at(sc: &Scene, x: int, y: int) -> u8 {
    if sc.in_bounds(x, y) { sc.depth@[sc.cell(x, y)] } else { 0 }
}

/// The depth byte that a droplet at depth `z` (0 near, `ONE` far) stands for.
pub open spec fn drop_depth_byte(z: int) -> int {
    (ONE - z) * 255 / ONE as int
}

/// Whether a droplet at depth `z` meets the geometry at `(x, y)`: the cell is
/// not sky and its depth byte is within `margin` of the droplet's.
pub open spec fn hits_surface_at(sc: &Scene, x: int, y: int, z: int, margin: int) -> bool {
    let d = depth_raw_at(sc, x, y) as int;
    &&& sc.in_bounds(x, y)
    &&& d > SKY_DEPTH
    &&& -margin < drop_depth_byte(z) - d < margin
}

/// The normal components stored at `(x, y)` (127 stands for 1), `(0, 0)` outside.
pub open spec fn normal_at(sc: &Scene, x: int, y: int) -> (i8, i8) {
    if sc.in_bounds(x, y) {
        (sc.normal_x@[sc.cell(x, y)], sc.normal_y@[sc.cell(x, y)])
    } else {
        (0, 0)
    }
}

/// Depth at `(x, y)` in fixed point: 0 far, `ONE` near.
pub fn get_depth(sc: &Scene, x: usize, y: usize) -> (r: i64)
    requires
        sc.wf(),
    ensures
        r == depth_raw_at(sc, x as int, y as int) as int * ONE / 255,
        0 <= r <= ONE,
{
    let d = get_depth_raw(sc, x, y) as i64;
    d * ONE / 255
}

/// Height at `(x, y)`: `ONE` minus the depth.
pub fn get_height(sc: &Scene, x: usize, y: usize) -> (r: i64)
    requires
        sc.wf(),
    ensures
        r == ONE - depth_raw_at(sc, x as int, y as int) as int * ONE / 255,
{
    ONE - get_depth(sc, x, y)
}

/// Whether `(x, y)` is ground that water can rest on.
pub fn is_ground(sc: &Scene, x: usize, y: usize) -> (r: bool)
    requires
        sc.wf(),
    ensures
        r == (sc.in_bounds(x as int, y as int) && sc.ground@[sc.cell(x as int, y as int)] == 1),
{
    if x >= sc.width || y >= sc.height {
        return false;
    }
    let i = cell_index(sc, x, y);
    sc.ground[i] == 1
}

/// The stored depth byte at `(x, y)` (0 far, 255 near).
pub fn get_depth_raw(sc: &Scene, x: usize, y: usize) -> (r: u8)
    requires
        sc.wf(),
    ensures
        r == depth_raw_at(sc, x as int, y as int),
{
    if x >= sc.width || y >= sc.height {
        return 0;
    }
    let i = cell_index(sc, x, y);
    sc.depth[i]
}

/// Whether a droplet at depth `drop_z` collides with the geometry at `(x, y)`.
pub fn hits_surface(sc: &Scene, x: usize, y: usize, drop_z: i64, margin: u8) -> (r: bool)
    requires
        sc.wf(),
        0 <= drop_z <= ONE,
    ensures
        r == hits_surface_at(sc, x as int, y as int, drop_z as int, margin as int),
{
    if x >= sc.width || y >= sc.height {
        return false;
    }
    let bg = get_depth_raw(sc, x, y) as i64;
    if bg <= SKY_DEPTH as i64 {
        return false;
    }
    proof {
        assert(0 <= (ONE - drop_z) * 255 <= ONE * 255) by (nonlinear_arith)
            requires 0 <= drop_z <= ONE;
    }
    let drop_depth = (ONE - drop_z) * 255 / ONE;
    let diff = drop_depth - bg;
    -(margin as i64) < diff && diff < margin as i64
}

/// The surface normal at `(x, y)`, in units where 127 stands for 1.
pub fn get_normal(sc: &Scene, x: usize, y: usize) -> (r: (i8, i8))
    requires
        sc.wf(),
    ensures
        r == normal_at(sc, x as int, y as int),
{
    if x >= sc.width || y >= sc.height {
        return (0, 0);
    }
    let i = cell_index(sc, x, y);
    (sc.normal_x[i], sc.normal_y[i])
}

} // verus!
