//! Fixed-point units, the random generator's steps, and the mapping from
//! screen coordinates to raster cells.
use vstd::prelude::*;

verus! {

/// One unit of position (a pixel) or of depth, in fixed point.
pub const ONE: i64 = 65536;

/// The number of distinct random draws: a draw `r` stands for `r / DRAW_ONE`.
pub const DRAW_ONE: i64 = 16777216;

/// One step of the 32-bit xorshift generator (shifts 13, 17, 5).
pub open spec fn xorshift(s: u32) -> u32 {
    let a = s ^ (s << 13u32);
    let b = a ^ (a >> 17u32);
    b ^ (b << 5u32)
}

/// The draw that a generator in state `s` yields: the top 24 bits of its next state.
pub open spec fn draw_of(s: u32) -> int {
    (xorshift(s) >> 8u32) as int
}


/// `a / d` rounded toward negative infinity.
pub fn floor_div(a: i64, d: i64) -> (r: i64)
    requires
        d > 0,
    ensures
        r == a as int / d as int,
{
    if a >= 0 {
        a / d
    } else {
        let m: i64 = -(a + 1);
        let q: i64 = m / d;
        proof {
            let ai = a as int;
            let di = d as int;
            let qi = q as int;
            assert(m as int == -ai - 1);
            assert(qi == (-ai - 1) / di);
            assert(qi * di <= -ai - 1 < qi * di + di) by (nonlinear_arith)
                requires qi == (-ai - 1) / di, di > 0, ai < 0;
            assert((-qi - 1) * di <= ai < (-qi - 1) * di + di) by (nonlinear_arith)
                requires qi * di <= -ai - 1 < qi * di + di;
            vstd::arithmetic::div_mod::lemma_fundamental_div_mod_converse(ai, di, -qi - 1, ai - (-qi - 1) * di);
        }
        -q - 1
    }
}

/// The scale factors map a fixed-point screen coordinate to a raster cell by
/// `p * scale / SCALE_DIVISOR` (`2^48`); a scale is `raster_size * 2^32 / screen_size`.
pub const SCALE_DIVISOR: u128 = 281474976710656;

/// The raster cell of fixed-point screen coordinate `p` under `scale`:
/// 0 for a coordinate left of (or above) the screen, and at most `usize::MAX`.
pub open spec fn raster_coord_spec(p: int, scale: int) -> int {
    if p <= 0 {
        0
    } else if p * scale / SCALE_DIVISOR as int > usize::MAX {
        usize::MAX as int
    } else {
        p * scale / SCALE_DIVISOR as int
    }
}

/// The raster cell of fixed-point screen coordinate `p`.
pub fn raster_coord(p: i64, scale: u64) -> (r: usize)
    ensures
        r == raster_coord_spec(p as int, scale as int),
{
    if p <= 0 {
        return 0;
    }
    proof {
        assert(p as int * scale as int <= 0x7fff_ffff_ffff_ffff * 0xffff_ffff_ffff_ffff) by (nonlinear_arith)
            requires 0 < p <= 0x7fff_ffff_ffff_ffff, 0 <= scale <= 0xffff_ffff_ffff_ffff;
    }
    let q: u128 = (p as u128 * scale as u128) / SCALE_DIVISOR;
    if q > usize::MAX as u128 {
        usize::MAX
    } else {
        q as usize
    }
}

/// The scale factor from a screen of `screen` pixels to a raster of `raster`
/// cells: `raster * 2^32 / screen`, at most `u64::MAX`, and 0 for an empty
/// screen.
pub open spec fn scale_spec(raster: int, screen: int) -> int {
    if screen == 0 {
        0
    } else if raster * 0x1_0000_0000 / screen > u64::MAX {
        u64::MAX as int
    } else {
        raster * 0x1_0000_0000 / screen
    }
}

/// Computes `scale_spec`.
pub fn scale_factor(raster: usize, screen: u32) -> (r: u64)
    ensures
        r == scale_spec(raster as int, screen as int),
{
    if screen == 0 {
        return 0;
    }
    proof {
        assert(0 <= raster as int * 0x1_0000_0000 <= 0xffff_ffff_ffff_ffff * 0x1_0000_0000) by (nonlinear_arith)
            requires 0 <= raster <= 0xffff_ffff_ffff_ffff;
    }
    let q: u128 = (raster as u128 * 0x1_0000_0000) / screen as u128;
    if q > u64::MAX as u128 {
        u64::MAX
    } else {
        q as u64
    }
}

} // verus!
