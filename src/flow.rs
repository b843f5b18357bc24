//! Flow-field queries: the direction in which water slides over a cell.
use vstd::prelude::*;
use crate::scene::{Scene, cell_index};
use crate::fixed::ONE;

verus! {

/// A flow component of at most this magnitude counts as no flow.
pub const FLOW_THRESHOLD: i64 = 10;

/// The flow vector stored at `(x, y)` (127 stands for 1), `(0, 0)` outside.
pub open spec fn flow_at(sc: &Scene, x: int, y: int) -> (i8, i8) {
    if sc.in_bounds(x, y) {
        (sc.flow_x@[sc.cell(x, y)], sc.flow_y@[sc.cell(x, y)])
    } else {
        (0, 0)
    }
}

/// The magnitude of `v`.
pub open spec fn abs(v: int) -> int {
    if v < 0 { -v } else { v }
}

/// Whether water slides at `(x, y)` rather than pooling there.
pub open spec fn has_flow_at(sc: &Scene, x: int, y: int) -> bool {
    abs(flow_at(sc, x, y).0 as int) > FLOW_THRESHOLD || abs(flow_at(sc, x, y).1 as int) > FLOW_THRESHOLD
}

/// The flow vector at `(x, y)`, in units where 127 stands for 1.
pub fn get_flow(sc: &Scene, x: usize, y: usize) -> (r: (i8, i8))
    requires
        sc.wf(),
    ensures
        r == flow_at(sc, x as int, y as int),
{
    if x >= sc.width || y >= sc.height {
        return (0, 0);
    }
    let i = cell_index(sc, x, y);
    (sc.flow_x[i], sc.flow_y[i])
}

/// Whether either flow component at `(x, y)` exceeds the no-flow threshold.
pub fn has_flow(sc: &Scene, x: usize, y: usize) -> (r: bool)
    requires
        sc.wf(),
    ensures
        r == has_flow_at(sc, x as int, y as int),
{
    let (fx, fy) = get_flow(sc, x, y);
    let ax: i64 = if fx < 0 { -(fx as i64) } else { fx as i64 };
    let ay: i64 = if fy < 0 { -(fy as i64) } else { fy as i64 };
    ax > FLOW_THRESHOLD || ay > FLOW_THRESHOLD
}

/// Flow strength at `(x, y)` in fixed point: `min(1, |(fx, fy)| / 127)`,
/// where the magnitude is taken to `1 / ONE` and rounded down.
pub open spec fn flow_strength_spec(sc: &Scene, x: int, y: int, r: int) -> bool {
    let f = flow_at(sc, x, y);
    let n = (f.0 as int * f.0 as int + f.1 as int * f.1 as int) * ONE * ONE;
    exists|k: int| #[trigger] is_floor_sqrt(k, n) && r == if k / 127 > ONE { ONE as int } else { k / 127 }
}

/// `k` is the square root of `n` rounded down.
pub open spec fn is_floor_sqrt(k: int, n: int) -> bool {
    0 <= k && k * k <= n < (k + 1) * (k + 1)
}

/// The largest `k` with `k * k <= n`.
fn isqrt(n: u64) -> (k: u64)
    requires
        n < 0x1_0000_0000_0000,
    ensures
        k * k <= n < (k + 1) * (k + 1),
{
    let mut lo: u64 = 0;
    let mut hi: u64 = 0x100_0000;
    proof {
        assert(hi * hi > n) by (nonlinear_arith)
            requires hi == 0x100_0000, n < 0x1_0000_0000_0000;
    }
    while hi - lo > 1
        invariant
            lo < hi <= 0x100_0000,
            lo * lo <= n,
            n < hi * hi,
        decreases hi - lo,
    {
        let mid = lo + (hi - lo) / 2;
        proof {
            assert(mid * mid <= 0x100_0000 * 0x100_0000) by (nonlinear_arith)
                requires mid <= 0x100_0000;
        }
        if mid * mid <= n {
            lo = mid;
        } else {
            hi = mid;
        }
    }
    lo
}

/// How strongly water flows at `(x, y)`: 0 for no flow, `ONE` for full flow.
pub fn flow_strength(sc: &Scene, x: usize, y: usize) -> (r: i64)
    requires
        sc.wf(),
    ensures
        flow_strength_spec(sc, x as int, y as int, r as int),
        0 <= r <= ONE,
{
    let (fx, fy) = get_flow(sc, x, y);
    proof {
        assert(0 <= fx as int * fx as int <= 128 * 128) by (nonlinear_arith)
            requires -128 <= fx <= 127;
        assert(0 <= fy as int * fy as int <= 128 * 128) by (nonlinear_arith)
            requires -128 <= fy <= 127;
    }
    let sq: i64 = fx as i64 * fx as i64 + fy as i64 * fy as i64;
    proof {
        assert(sq as int * (ONE * ONE) <= 32768 * (ONE * ONE)) by (nonlinear_arith)
            requires 0 <= sq <= 32768;
    }
    let n = sq as u64 * (ONE as u64 * ONE as u64);
    let k = isqrt(n);
    let q = k / 127;
    let r: i64 = if q > ONE as u64 { ONE } else { q as i64 };
    proof {
        let f = flow_at(sc, x as int, y as int);
        assert(n as int == (f.0 as int * f.0 as int + f.1 as int * f.1 as int) * ONE * ONE) by (nonlinear_arith)
            requires n as int == sq as int * (ONE * ONE), sq as int == f.0 as int * f.0 as int + f.1 as int * f.1 as int;
        assert(is_floor_sqrt(k as int, n as int));
    }
    r
}

} // verus!
