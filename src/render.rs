//! The encoder: rasterises the three populations into one byte per screen
//! pixel, where a larger code always wins.
//!
//! | codes    | meaning                                           |
//! |----------|---------------------------------------------------|
//! | 0        | empty                                             |
//! | 1..=32   | droplet trail: `bucket * 4 + min(k, 3) + 1`       |
//! | 33..=96  | splash: `33 + bucket * 8 + glyph`                 |
//! | 97..=128 | stream: `97 + bucket * 4 + size`                  |
//!
//! The depth bucket runs from 0 (far) to 7 (near) in all three ranges, so
//! nearer entities get the larger code within their range.
use vstd::prelude::*;
use crate::fixed::ONE;
use crate::droplet::{Droplet, Droplets};
use crate::splash::{Splash, Splashes};
use crate::stream::{Stream, Streams};

verus! {

/// Bound on the magnitude of the pixel coordinate of a splash.
pub const POS_PIXELS: i64 = 34359738368;

/// The first splash code.
pub const SPLASH_OFFSET: u8 = 33;

/// The first stream code.
pub const STREAM_OFFSET: u8 = 97;

/// A screen pixel and the code an entity would write there.
pub type Pixel = (int, int, u8);

/// One mark of a splash pattern, relative to the impact point: `sx` and `up`
/// count in units of the splash's scale, `dx` in units of its bias.
#[derive(Clone, Copy, Debug, PartialEq, Eq, Structural)]
pub struct Mark {
    pub sx: i8,
    pub dx: i8,
    pub up: i8,
    pub glyph: u8,
}

/// The mark with the given offsets and glyph.
pub open spec fn mk(sx: int, dx: int, up: int, glyph: int) -> Mark {
    Mark { sx: sx as i8, dx: dx as i8, up: up as i8, glyph: glyph as u8 }
}

/// The marks of a symmetric crown that rises on both sides and falls back, for frame bucket `f`.
pub open spec fn crown_pattern(f: int) -> Seq<Mark> {
    if f == 0 {
        seq![mk(0, 0, 0, 0)]
    } else if f == 1 {
        seq![mk(-1, 1, 0, 4), mk(0, 0, 0, 0), mk(1, 1, 0, 5)]
    } else if f == 2 {
        seq![mk(0, 1, 1, 1), mk(-1, 1, 0, 4), mk(1, 1, 0, 5)]
    } else if f == 3 {
        seq![mk(-2, 1, 1, 4), mk(0, 1, 1, 1), mk(2, 1, 1, 5), mk(-1, 0, 0, 4), mk(1, 0, 0, 5)]
    } else if f == 4 {
        seq![mk(-2, 2, 2, 2), mk(0, 1, 2, 2), mk(2, 2, 2, 2), mk(-2, 1, 1, 4), mk(2, 1, 1, 5)]
    } else if f == 5 {
        seq![mk(-3, 2, 2, 2), mk(0, 1, 2, 2), mk(3, 2, 2, 2)]
    } else if f == 6 {
        seq![mk(-2, 1, 1, 2), mk(2, 1, 1, 2)]
    } else {
        seq![mk(-1, 1, 0, 6), mk(1, 1, 0, 6)]
    }
}

/// The marks of a burst thrown to the left, for frame bucket `f`.
pub open spec fn left_pattern(f: int) -> Seq<Mark> {
    if f == 0 {
        seq![mk(0, 0, 0, 0)]
    } else if f == 1 {
        seq![mk(-1, 1, 0, 4), mk(0, 0, 0, 0)]
    } else if f == 2 {
        seq![mk(-1, 1, 1, 4), mk(0, 1, 1, 1), mk(-2, 1, 0, 4)]
    } else if f == 3 {
        seq![mk(-2, 1, 2, 2), mk(-1, 1, 1, 4), mk(0, 1, 1, 1), mk(-3, 1, 0, 4)]
    } else if f == 4 {
        seq![mk(-3, 1, 2, 2), mk(-1, 1, 2, 2), mk(-2, 1, 1, 4), mk(0, 1, 1, 1)]
    } else if f == 5 {
        seq![mk(-4, 1, 2, 2), mk(-2, 1, 2, 2), mk(-3, 1, 1, 4)]
    } else if f == 6 {
        seq![mk(-3, 1, 1, 2), mk(-1, 1, 1, 2)]
    } else {
        seq![mk(-2, 1, 0, 6)]
    }
}

/// The marks of a burst thrown to the right, for frame bucket `f`.
pub open spec fn right_pattern(f: int) -> Seq<Mark> {
    if f == 0 {
        seq![mk(0, 0, 0, 0)]
    } else if f == 1 {
        seq![mk(0, 0, 0, 0), mk(1, 1, 0, 5)]
    } else if f == 2 {
        seq![mk(0, 1, 1, 1), mk(1, 1, 1, 5), mk(2, 1, 0, 5)]
    } else if f == 3 {
        seq![mk(0, 1, 1, 1), mk(1, 1, 1, 5), mk(2, 1, 2, 2), mk(3, 1, 0, 5)]
    } else if f == 4 {
        seq![mk(0, 1, 1, 1), mk(2, 1, 1, 5), mk(1, 1, 2, 2), mk(3, 1, 2, 2)]
    } else if f == 5 {
        seq![mk(3, 1, 1, 5), mk(2, 1, 2, 2), mk(4, 1, 2, 2)]
    } else if f == 6 {
        seq![mk(1, 1, 1, 2), mk(3, 1, 1, 2)]
    } else {
        seq![mk(2, 1, 0, 6)]
    }
}

/// The marks of scattered droplets that rise and fall, for frame bucket `f`.
pub open spec fn spray_pattern(f: int) -> Seq<Mark> {
    if f == 0 {
        seq![mk(0, 0, 0, 0)]
    } else if f == 1 {
        seq![mk(0, 1, 0, 0), mk(-1, 1, 0, 2), mk(1, 1, 0, 2)]
    } else if f == 2 {
        seq![mk(0, 2, 1, 2), mk(-1, 1, 1, 2), mk(2, 1, 0, 2)]
    } else if f == 3 {
        seq![mk(0, 2, 2, 2), mk(-2, 1, 1, 2), mk(1, 1, 1, 2), mk(3, 1, 0, 2)]
    } else if f == 4 {
        seq![mk(-1, 1, 2, 2), mk(2, 1, 2, 2), mk(-2, 1, 1, 2), mk(3, 1, 1, 2)]
    } else if f == 5 {
        seq![mk(-2, 1, 2, 2), mk(1, 1, 2, 2), mk(3, 1, 1, 2)]
    } else if f == 6 {
        seq![mk(-1, 1, 1, 2), mk(2, 1, 1, 2)]
    } else {
        seq![mk(0, 1, 0, 6)]
    }
}

/// The pattern of splash type `typ` at frame bucket `f`.
pub open spec fn pattern(typ: int, f: int) -> Seq<Mark> {
    if typ == 0 {
        crown_pattern(f)
    } else if typ == 1 {
        left_pattern(f)
    } else if typ == 2 {
        right_pattern(f)
    } else {
        spray_pattern(f)
    }
}

/// The screen pixel of fixed-point coordinate `p`: its whole pixels,
/// truncated toward zero.
pub open spec fn pixel_of(p: int) -> int {
    if p >= 0 { p / ONE as int } else { -((-p) / ONE as int) }
}

/// The depth bucket of depth `z`: `min(7, floor((1 - z) * 8))`, 7 nearest.
pub open spec fn depth_bucket(z: int) -> int {
    if (ONE - z) * 8 / ONE as int > 7 { 7 } else { (ONE - z) * 8 / ONE as int }
}

/// The trail length of a droplet at depth `z`: `max(1, floor(5 - 4 * z))`.
pub open spec fn trail_len(z: int) -> int {
    if (5 * ONE - 4 * z) / (ONE as int) < 1 { 1 } else { (5 * ONE - 4 * z) / ONE as int }
}

/// The pixels of droplet `d`'s trail, from its head upward.
pub open spec fn drop_marks(d: Droplet) -> Seq<Pixel> {
    Seq::new(trail_len(d.z as int) as nat, |k: int|
        (pixel_of(d.x as int), pixel_of(d.y as int) - k,
            (depth_bucket(d.z as int) * 4 + (if k < 3 { k } else { 3 }) + 1) as u8))
}

/// The trails of `ds`, one droplet after another.
pub open spec fn drops_marks(ds: Seq<Droplet>) -> Seq<Pixel>
    decreases ds.len(),
{
    if ds.len() == 0 { Seq::empty() } else { drops_marks(ds.drop_last()) + drop_marks(ds.last()) }
}

/// The size of a splash at depth `z`: `round((1 - z) * 2.5)`, halves
/// rounded up; 0 for splashes too far away to show a pattern.
pub open spec fn splash_scale(z: int) -> int {
    ((ONE - z) * 5 + ONE) / (2 * ONE) as int
}

/// The glyph of a splash too far away to show its pattern, by frame bucket.
pub open spec fn tiny_glyph(f: int) -> int {
    if f < 3 { 0 } else if f < 6 { 2 } else { 6 }
}

/// The code of splash glyph `g` at depth bucket `b`.
pub open spec fn splash_code(b: int, g: int) -> u8 {
    (SPLASH_OFFSET + b * 8 + g) as u8
}

/// Mark `m` placed at impact point `(cx, gy)` with scale `s` and bias `d`.
pub open spec fn place(m: Mark, cx: int, gy: int, s: int, d: int, b: int) -> Pixel {
    (cx + m.sx * s + m.dx * d, gy - m.up * s, splash_code(b, m.glyph as int))
}

/// The pixels of a splash of type `typ` at frame bucket `f`, impact point
/// `(cx, gy)`, depth bucket `b`, scale `s` and bias `d`.
pub open spec fn splash_marks_at(cx: int, gy: int, b: int, s: int, f: int, d: int, typ: int) -> Seq<Pixel> {
    if s == 0 {
        seq![(cx, gy, splash_code(b, tiny_glyph(f)))]
    } else {
        pattern(typ, f).map_values(|m: Mark| place(m, cx, gy, s, d, b))
    }
}

/// The pixels of splash `sp` at its current frame.
pub open spec fn splash_marks(sp: Splash) -> Seq<Pixel> {
    splash_marks_at(pixel_of(sp.x as int), pixel_of(sp.y as int), depth_bucket(sp.z as int),
        splash_scale(sp.z as int), sp.frame as int / 3, sp.dir as int, sp.typ as int)
}

/// The pixels of `ss`, one splash after another.
pub open spec fn splashes_marks(ss: Seq<Splash>) -> Seq<Pixel>
    decreases ss.len(),
{
    if ss.len() == 0 { Seq::empty() } else { splashes_marks(ss.drop_last()) + splash_marks(ss.last()) }
}

/// The size code of a stream with `life` ticks left.
pub open spec fn stream_size(life: int) -> int {
    if life > 80 { 3 } else if life > 40 { 2 } else if life > 10 { 1 } else { 0 }
}

/// The pixel of stream `t`.
pub open spec fn stream_marks(t: Stream) -> Seq<Pixel> {
    seq![(pixel_of(t.x as int), pixel_of(t.y as int),
        (STREAM_OFFSET + depth_bucket(t.z as int) * 4 + stream_size(t.life as int)) as u8)]
}

/// The pixels of `ts`, one stream after another.
pub open spec fn streams_marks(ts: Seq<Stream>) -> Seq<Pixel>
    decreases ts.len(),
{
    if ts.len() == 0 { Seq::empty() } else { streams_marks(ts.drop_last()) + stream_marks(ts.last()) }
}

/// Writes pixel `p` into a `w` by `h` buffer: only on the screen, and only
/// where its code is larger than the byte already there.
pub open spec fn plot(out: Seq<u8>, w: int, h: int, p: Pixel) -> Seq<u8> {
    if 0 <= p.0 < w && 0 <= p.1 < h && p.2 > out[p.1 * w + p.0] {
        out.update(p.1 * w + p.0, p.2)
    } else {
        out
    }
}

/// Writes the pixels of `ps` in order.
pub open spec fn paint(out: Seq<u8>, w: int, h: int, ps: Seq<Pixel>) -> Seq<u8>
    decreases ps.len(),
{
    if ps.len() == 0 { out } else { plot(paint(out, w, h, ps.drop_last()), w, h, ps.last()) }
}

/// Painting two runs of pixels is painting their concatenation.
pub proof fn lemma_paint_append(out: Seq<u8>, w: int, h: int, a: Seq<Pixel>, b: Seq<Pixel>)
    ensures
        paint(paint(out, w, h, a), w, h, b) == paint(out, w, h, a + b),
    decreases b.len(),
{
    if b.len() == 0 {
        assert(a + b =~= a);
    } else {
        lemma_paint_append(out, w, h, a, b.drop_last());
        assert((a + b).drop_last() =~= a + b.drop_last());
        assert((a + b).last() == b.last());
    }
}

proof fn lemma_paint_push(out: Seq<u8>, w: int, h: int, ps: Seq<Pixel>, k: int)
    requires
        0 <= k < ps.len(),
    ensures
        paint(out, w, h, ps.take(k + 1)) == plot(paint(out, w, h, ps.take(k)), w, h, ps[k]),
{
    assert(ps.take(k + 1).drop_last() =~= ps.take(k));
}

/// Mark `k` of the crown pattern at frame bucket `f`.
fn splash_crown(f: u8, k: usize) -> (m: Mark)
    requires
        f < 8,
        k < crown_pattern(f as int).len(),
    ensures
        m == crown_pattern(f as int)[k as int],
{
    match f {
        0 => Mark { sx: 0, dx: 0, up: 0, glyph: 0 },
        1 => match k {
            0 => Mark { sx: -1, dx: 1, up: 0, glyph: 4 },
            1 => Mark { sx: 0, dx: 0, up: 0, glyph: 0 },
            _ => Mark { sx: 1, dx: 1, up: 0, glyph: 5 },
        },
        2 => match k {
            0 => Mark { sx: 0, dx: 1, up: 1, glyph: 1 },
            1 => Mark { sx: -1, dx: 1, up: 0, glyph: 4 },
            _ => Mark { sx: 1, dx: 1, up: 0, glyph: 5 },
        },
        3 => match k {
            0 => Mark { sx: -2, dx: 1, up: 1, glyph: 4 },
            1 => Mark { sx: 0, dx: 1, up: 1, glyph: 1 },
            2 => Mark { sx: 2, dx: 1, up: 1, glyph: 5 },
            3 => Mark { sx: -1, dx: 0, up: 0, glyph: 4 },
            _ => Mark { sx: 1, dx: 0, up: 0, glyph: 5 },
        },
        4 => match k {
            0 => Mark { sx: -2, dx: 2, up: 2, glyph: 2 },
            1 => Mark { sx: 0, dx: 1, up: 2, glyph: 2 },
            2 => Mark { sx: 2, dx: 2, up: 2, glyph: 2 },
            3 => Mark { sx: -2, dx: 1, up: 1, glyph: 4 },
            _ => Mark { sx: 2, dx: 1, up: 1, glyph: 5 },
        },
        5 => match k {
            0 => Mark { sx: -3, dx: 2, up: 2, glyph: 2 },
            1 => Mark { sx: 0, dx: 1, up: 2, glyph: 2 },
            _ => Mark { sx: 3, dx: 2, up: 2, glyph: 2 },
        },
        6 => match k {
            0 => Mark { sx: -2, dx: 1, up: 1, glyph: 2 },
            _ => Mark { sx: 2, dx: 1, up: 1, glyph: 2 },
        },
        _ => match k {
            0 => Mark { sx: -1, dx: 1, up: 0, glyph: 6 },
            _ => Mark { sx: 1, dx: 1, up: 0, glyph: 6 },
        },
    }
}

/// Mark `k` of the left pattern at frame bucket `f`.
fn splash_left(f: u8, k: usize) -> (m: Mark)
    requires
        f < 8,
        k < left_pattern(f as int).len(),
    ensures
        m == left_pattern(f as int)[k as int],
{
    match f {
        0 => Mark { sx: 0, dx: 0, up: 0, glyph: 0 },
        1 => match k {
            0 => Mark { sx: -1, dx: 1, up: 0, glyph: 4 },
            _ => Mark { sx: 0, dx: 0, up: 0, glyph: 0 },
        },
        2 => match k {
            0 => Mark { sx: -1, dx: 1, up: 1, glyph: 4 },
            1 => Mark { sx: 0, dx: 1, up: 1, glyph: 1 },
            _ => Mark { sx: -2, dx: 1, up: 0, glyph: 4 },
        },
        3 => match k {
            0 => Mark { sx: -2, dx: 1, up: 2, glyph: 2 },
            1 => Mark { sx: -1, dx: 1, up: 1, glyph: 4 },
            2 => Mark { sx: 0, dx: 1, up: 1, glyph: 1 },
            _ => Mark { sx: -3, dx: 1, up: 0, glyph: 4 },
        },
        4 => match k {
            0 => Mark { sx: -3, dx: 1, up: 2, glyph: 2 },
            1 => Mark { sx: -1, dx: 1, up: 2, glyph: 2 },
            2 => Mark { sx: -2, dx: 1, up: 1, glyph: 4 },
            _ => Mark { sx: 0, dx: 1, up: 1, glyph: 1 },
        },
        5 => match k {
            0 => Mark { sx: -4, dx: 1, up: 2, glyph: 2 },
            1 => Mark { sx: -2, dx: 1, up: 2, glyph: 2 },
            _ => Mark { sx: -3, dx: 1, up: 1, glyph: 4 },
        },
        6 => match k {
            0 => Mark { sx: -3, dx: 1, up: 1, glyph: 2 },
            _ => Mark { sx: -1, dx: 1, up: 1, glyph: 2 },
        },
        _ => Mark { sx: -2, dx: 1, up: 0, glyph: 6 },
    }
}

/// Mark `k` of the right pattern at frame bucket `f`.
fn splash_right(f: u8, k: usize) -> (m: Mark)
    requires
        f < 8,
        k < right_pattern(f as int).len(),
    ensures
        m == right_pattern(f as int)[k as int],
{
    match f {
        0 => Mark { sx: 0, dx: 0, up: 0, glyph: 0 },
        1 => match k {
            0 => Mark { sx: 0, dx: 0, up: 0, glyph: 0 },
            _ => Mark { sx: 1, dx: 1, up: 0, glyph: 5 },
        },
        2 => match k {
            0 => Mark { sx: 0, dx: 1, up: 1, glyph: 1 },
            1 => Mark { sx: 1, dx: 1, up: 1, glyph: 5 },
            _ => Mark { sx: 2, dx: 1, up: 0, glyph: 5 },
        },
        3 => match k {
            0 => Mark { sx: 0, dx: 1, up: 1, glyph: 1 },
            1 => Mark { sx: 1, dx: 1, up: 1, glyph: 5 },
            2 => Mark { sx: 2, dx: 1, up: 2, glyph: 2 },
            _ => Mark { sx: 3, dx: 1, up: 0, glyph: 5 },
        },
        4 => match k {
            0 => Mark { sx: 0, dx: 1, up: 1, glyph: 1 },
            1 => Mark { sx: 2, dx: 1, up: 1, glyph: 5 },
            2 => Mark { sx: 1, dx: 1, up: 2, glyph: 2 },
            _ => Mark { sx: 3, dx: 1, up: 2, glyph: 2 },
        },
        5 => match k {
            0 => Mark { sx: 3, dx: 1, up: 1, glyph: 5 },
            1 => Mark { sx: 2, dx: 1, up: 2, glyph: 2 },
            _ => Mark { sx: 4, dx: 1, up: 2, glyph: 2 },
        },
        6 => match k {
            0 => Mark { sx: 1, dx: 1, up: 1, glyph: 2 },
            _ => Mark { sx: 3, dx: 1, up: 1, glyph: 2 },
        },
        _ => Mark { sx: 2, dx: 1, up: 0, glyph: 6 },
    }
}

/// Mark `k` of the spray pattern at frame bucket `f`.
fn splash_spray(f: u8, k: usize) -> (m: Mark)
    requires
        f < 8,
        k < spray_pattern(f as int).len(),
    ensures
        m == spray_pattern(f as int)[k as int],
{
    match f {
        0 => Mark { sx: 0, dx: 0, up: 0, glyph: 0 },
        1 => match k {
            0 => Mark { sx: 0, dx: 1, up: 0, glyph: 0 },
            1 => Mark { sx: -1, dx: 1, up: 0, glyph: 2 },
            _ => Mark { sx: 1, dx: 1, up: 0, glyph: 2 },
        },
        2 => match k {
            0 => Mark { sx: 0, dx: 2, up: 1, glyph: 2 },
            1 => Mark { sx: -1, dx: 1, up: 1, glyph: 2 },
            _ => Mark { sx: 2, dx: 1, up: 0, glyph: 2 },
        },
        3 => match k {
            0 => Mark { sx: 0, dx: 2, up: 2, glyph: 2 },
            1 => Mark { sx: -2, dx: 1, up: 1, glyph: 2 },
            2 => Mark { sx: 1, dx: 1, up: 1, glyph: 2 },
            _ => Mark { sx: 3, dx: 1, up: 0, glyph: 2 },
        },
        4 => match k {
            0 => Mark { sx: -1, dx: 1, up: 2, glyph: 2 },
            1 => Mark { sx: 2, dx: 1, up: 2, glyph: 2 },
            2 => Mark { sx: -2, dx: 1, up: 1, glyph: 2 },
            _ => Mark { sx: 3, dx: 1, up: 1, glyph: 2 },
        },
        5 => match k {
            0 => Mark { sx: -2, dx: 1, up: 2, glyph: 2 },
            1 => Mark { sx: 1, dx: 1, up: 2, glyph: 2 },
            _ => Mark { sx: 3, dx: 1, up: 1, glyph: 2 },
        },
        6 => match k {
            0 => Mark { sx: -1, dx: 1, up: 1, glyph: 2 },
            _ => Mark { sx: 2, dx: 1, up: 1, glyph: 2 },
        },
        _ => Mark { sx: 0, dx: 1, up: 0, glyph: 6 },
    }
}

/// The number of marks of splash type `typ` at frame bucket `f`.
fn pattern_len(typ: u8, f: u8) -> (r: usize)
    requires
        f < 8,
    ensures
        r == pattern(typ as int, f as int).len(),
{
    match typ {
        0 => match f {
            0 => 1,
            1 => 3,
            2 => 3,
            3 => 5,
            4 => 5,
            5 => 3,
            6 => 2,
            _ => 2,
        },
        1 => match f {
            0 => 1,
            1 => 2,
            2 => 3,
            3 => 4,
            4 => 4,
            5 => 3,
            6 => 2,
            _ => 1,
        },
        2 => match f {
            0 => 1,
            1 => 2,
            2 => 3,
            3 => 4,
            4 => 4,
            5 => 3,
            6 => 2,
            _ => 1,
        },
        _ => match f {
            0 => 1,
            1 => 3,
            2 => 3,
            3 => 4,
            4 => 4,
            5 => 3,
            6 => 2,
            _ => 1,
        },
    }
}

/// The mark `k` of splash type `typ` at frame bucket `f`.
fn pattern_mark(typ: u8, f: u8, k: usize) -> (m: Mark)
    requires
        f < 8,
        k < pattern(typ as int, f as int).len(),
    ensures
        m == pattern(typ as int, f as int)[k as int],
{
    match typ {
        0 => splash_crown(f, k),
        1 => splash_left(f, k),
        2 => splash_right(f, k),
        _ => splash_spray(f, k),
    }
}

/// The screen pixel of fixed-point coordinate `p`.
fn pixel(p: i64) -> (r: i64)
    requires
        p > i64::MIN,
    ensures
        r == pixel_of(p as int),
{
    if p >= 0 { p / ONE } else { -((-p) / ONE) }
}

/// What an encoder holds: its buffer and the screen size it was made for.
pub struct EncoderView {
    pub out: Seq<u8>,
    pub w: u32,
    pub h: u32,
}

/// A zeroed buffer of `n` bytes.
pub open spec fn zeros(n: int) -> Seq<u8> {
    Seq::new(n as nat, |i: int| 0u8)
}

/// Buffer `out` resized to `n` bytes: its bytes up to `n`, then zeros.
pub open spec fn resized(out: Seq<u8>, n: int) -> Seq<u8> {
    Seq::new(n as nat, |i: int| if i < out.len() { out[i] } else { 0u8 })
}

/// The output buffer of a `w` by `h` screen, one byte per pixel, row by row.
pub struct Encoder {
    out: Vec<u8>,
    w: u32,
    h: u32,
}

impl View for Encoder {
    type V = EncoderView;

    closed spec fn view(&self) -> EncoderView {
        EncoderView { out: self.out@, w: self.w, h: self.h }
    }
}

impl Encoder {
    /// The buffer holds one byte per pixel of the screen.
    pub open spec fn wf(&self) -> bool {
        &&& self@.w * self@.h <= usize::MAX
        &&& self@.out.len() == self@.w * self@.h
    }

    /// A zeroed buffer for a `w` by `h` screen.
    pub fn new(w: u32, h: u32) -> (r: Encoder)
        requires
            w * h <= usize::MAX,
        ensures
            r.wf(),
            r@.w == w,
            r@.h == h,
            r@.out == zeros(w * h),
    {
        let n = w as usize * h as usize;
        let out = vec![0u8; n];
        proof {
            assert(out@ =~= zeros(w * h));
        }
        Encoder { out, w, h }
    }

    /// Resizes the buffer for a `w` by `h` screen: the bytes it held are
    /// kept up to the new length, and the bytes added are 0.
    pub fn resize(&mut self, w: u32, h: u32)
        requires
            w * h <= usize::MAX,
        ensures
            final(self).wf(),
            final(self)@.w == w,
            final(self)@.h == h,
            final(self)@.out == resized(old(self)@.out, w * h),
    {
        self.w = w;
        self.h = h;
        self.out.resize(w as usize * h as usize, 0u8);
        proof {
            assert(self.out@ =~= resized(old(self)@.out, w * h));
        }
    }

    /// Sets every byte of the buffer to 0.
    pub fn clear(&mut self)
        requires
            old(self).wf(),
        ensures
            final(self).wf(),
            final(self)@.w == old(self)@.w,
            final(self)@.h == old(self)@.h,
            final(self)@.out == zeros(old(self)@.out.len() as int),
    {
        let n = self.out.len();
        let mut i: usize = 0;
        while i < n
            invariant
                self.wf(),
                self@.w == old(self)@.w,
                self@.h == old(self)@.h,
                n == self.out@.len(),
                i <= n,
                forall|k: int| 0 <= k < i ==> self.out@[k] == 0,
            decreases n - i,
        {
            self.out.set(i, 0);
            i = i + 1;
        }
        proof {
            assert(self.out@ =~= zeros(n as int));
        }
    }

    /// The encoded buffer, for a renderer to read in place.
    pub fn ptr(&self) -> (r: &[u8])
        ensures
            r@ == self@.out,
    {
        self.out.as_slice()
    }

    /// The length of the buffer in bytes.
    pub fn len(&self) -> (r: usize)
        ensures
            r == self@.out.len(),
    {
        self.out.len()
    }

    /// The buffer after writing `code` at `(x, y)`, if on the screen and
    /// larger than the byte there.
    fn put(&mut self, x: i64, y: i64, code: u8)
        requires
            old(self).wf(),
        ensures
            final(self).wf(),
            final(self)@ == (EncoderView {
                out: plot(old(self)@.out, old(self)@.w as int, old(self)@.h as int, (x as int, y as int, code)),
                ..old(self)@
            }),
    {
        if 0 <= x && x < self.w as i64 && 0 <= y && y < self.h as i64 {
            proof {
                assert(y * self.w + x < self.w * self.h) by (nonlinear_arith)
                    requires 0 <= x < self.w, 0 <= y < self.h;
            }
            let idx = y as usize * self.w as usize + x as usize;
            if code > self.out[idx] {
                self.out.set(idx, code);
            }
        }
    }

    /// Encodes each droplet as a trail above its head: longer and brighter
    /// the nearer it is.
    pub fn encode_drops(&mut self, drops: &Droplets)
        requires
            old(self).wf(),
            drops.wf(),
        ensures
            final(self).wf(),
            final(self)@ == (EncoderView {
                out: paint(old(self)@.out, old(self)@.w as int, old(self)@.h as int, drops_marks(drops@)),
                ..old(self)@
            }),
    {
        let ghost w = self@.w as int;
        let ghost h = self@.h as int;
        let ghost start = self@.out;
        let n = drops.len();
        let mut i: usize = 0;
        while i < n
            invariant
                self.wf(),
                drops.wf(),
                n == drops@.len(),
                i <= n,
                self@.w == w,
                self@.h == h,
                self@.out == paint(start, w, h, drops_marks(drops@.take(i as int))),
            decreases n - i,
        {
            let d = drops.get(i);
            assert(d.valid());
            let px = pixel(d.x);
            let py = pixel(d.y);
            let b8 = (ONE - d.z) * 8 / ONE;
            let bucket: i64 = if b8 > 7 { 7 } else { b8 };
            let t = (5 * ONE - 4 * d.z) / ONE;
            let trail: i64 = if t < 1 { 1 } else { t };
            let ghost marks = drop_marks(d);
            let ghost mid = self@.out;
            let mut k: i64 = 0;
            while k < trail
                invariant
                    self.wf(),
                    self@.w == w,
                    self@.h == h,
                    0 <= k <= trail,
                    trail == marks.len(),
                    trail <= 5,
                    marks == drop_marks(d),
                    d.valid(),
                    px == pixel_of(d.x as int),
                    py == pixel_of(d.y as int),
                    bucket == depth_bucket(d.z as int),
                    self@.out == paint(mid, w, h, marks.take(k as int)),
                decreases trail - k,
            {
                let code = (bucket * 4 + (if k < 3 { k } else { 3 }) + 1) as u8;
                proof {
                    lemma_paint_push(mid, w, h, marks, k as int);
                }
                self.put(px, py - k, code);
                k = k + 1;
            }
            proof {
                assert(marks.take(trail as int) =~= marks);
                lemma_paint_append(start, w, h, drops_marks(drops@.take(i as int)), marks);
                assert(drops@.take(i as int + 1).drop_last() =~= drops@.take(i as int));
            }
            i = i + 1;
        }
        proof {
            assert(drops@.take(n as int) =~= drops@);
        }
    }
    /// Writes the pixels of a splash of type `typ` at frame bucket `f`, impact
    /// point `(cx, gy)`, depth bucket `b`, scale `s` and bias `d`.
    fn render_splash(&mut self, cx: i64, gy: i64, b: u8, s: i64, f: u8, d: i64, typ: u8)
        requires
            old(self).wf(),
            -POS_PIXELS <= cx <= POS_PIXELS,
            -POS_PIXELS <= gy <= POS_PIXELS,
            b <= 7,
            0 <= s <= 3,
            f < 8,
            -5 <= d <= 5,
        ensures
            final(self).wf(),
            final(self)@ == (EncoderView {
                out: paint(old(self)@.out, old(self)@.w as int, old(self)@.h as int,
                    splash_marks_at(cx as int, gy as int, b as int, s as int, f as int, d as int, typ as int)),
                ..old(self)@
            }),
    {
        let ghost w = self@.w as int;
        let ghost h = self@.h as int;
        let ghost start = self@.out;
        let ghost marks = splash_marks_at(cx as int, gy as int, b as int, s as int, f as int, d as int, typ as int);
        if s == 0 {
            let g: u8 = if f < 3 { 0 } else if f < 6 { 2 } else { 6 };
            proof {
                lemma_paint_push(start, w, h, marks, 0);
                assert(marks.take(1) =~= marks);
                assert(marks.take(0) =~= Seq::<Pixel>::empty());
            }
            self.put(cx, gy, SPLASH_OFFSET + b * 8 + g);
            return;
        }
        let n = pattern_len(typ, f);
        let mut k: usize = 0;
        proof {
            assert(marks.take(0) =~= Seq::<Pixel>::empty());
        }
        while k < n
            invariant
                self.wf(),
                self@.w == w,
                self@.h == h,
                k <= n,
                n == pattern(typ as int, f as int).len(),
                marks.len() == n,
                s != 0,
                marks == splash_marks_at(cx as int, gy as int, b as int, s as int, f as int, d as int, typ as int),
                -POS_PIXELS <= cx <= POS_PIXELS,
                -POS_PIXELS <= gy <= POS_PIXELS,
                b <= 7,
                0 <= s <= 3,
                f < 8,
                -5 <= d <= 5,
                self@.out == paint(start, w, h, marks.take(k as int)),
            decreases n - k,
        {
            let m = pattern_mark(typ, f, k);
            proof {
                lemma_paint_push(start, w, h, marks, k as int);
                assert(marks[k as int] == place(m, cx as int, gy as int, s as int, d as int, b as int));
                assert(-128 <= m.sx <= 127 && -128 <= m.dx <= 127 && -128 <= m.up <= 127);
                assert(-384 <= m.sx as int * s <= 384) by (nonlinear_arith)
                    requires -128 <= m.sx <= 127, 0 <= s <= 3;
                assert(-640 <= m.dx as int * d <= 640) by (nonlinear_arith)
                    requires -128 <= m.dx <= 127, -5 <= d <= 5;
                assert(-384 <= m.up as int * s <= 384) by (nonlinear_arith)
                    requires -128 <= m.up <= 127, 0 <= s <= 3;
            }
            let x = cx + m.sx as i64 * s + m.dx as i64 * d;
            let y = gy - m.up as i64 * s;
            let code = (SPLASH_OFFSET as u64 + b as u64 * 8 + m.glyph as u64) as u8;
            self.put(x, y, code);
            k = k + 1;
        }
        proof {
            assert(marks.take(n as int) =~= marks);
        }
    }

    /// Encodes each splash by the pattern of its type at its frame bucket,
    /// scaled by its nearness and shifted by its bias.
    pub fn encode_splashes(&mut self, splashes: &Splashes)
        requires
            old(self).wf(),
            splashes.wf(),
        ensures
            final(self).wf(),
            final(self)@ == (EncoderView {
                out: paint(old(self)@.out, old(self)@.w as int, old(self)@.h as int, splashes_marks(splashes@)),
                ..old(self)@
            }),
    {
        let ghost w = self@.w as int;
        let ghost h = self@.h as int;
        let ghost start = self@.out;
        let n = splashes.len();
        let mut i: usize = 0;
        while i < n
            invariant
                self.wf(),
                splashes.wf(),
                n == splashes@.len(),
                i <= n,
                self@.w == w,
                self@.h == h,
                self@.out == paint(start, w, h, splashes_marks(splashes@.take(i as int))),
            decreases n - i,
        {
            let sp = splashes.get(i);
            assert(sp.valid());
            let cx = pixel(sp.x);
            let gy = pixel(sp.y);
            let b8 = (ONE - sp.z) * 8 / ONE;
            let bucket: i64 = if b8 > 7 { 7 } else { b8 };
            let scale = ((ONE - sp.z) * 5 + ONE) / (2 * ONE);
            self.render_splash(cx, gy, bucket as u8, scale, sp.frame / 3, sp.dir as i64, sp.typ);
            proof {
                lemma_paint_append(start, w, h, splashes_marks(splashes@.take(i as int)), splash_marks(sp));
                assert(splashes@.take(i as int + 1).drop_last() =~= splashes@.take(i as int));
            }
            i = i + 1;
        }
        proof {
            assert(splashes@.take(n as int) =~= splashes@);
        }
    }

    /// Encodes each stream as one pixel whose size code shrinks with its life.
    pub fn encode_streams(&mut self, streams: &Streams)
        requires
            old(self).wf(),
            streams.wf(),
        ensures
            final(self).wf(),
            final(self)@ == (EncoderView {
                out: paint(old(self)@.out, old(self)@.w as int, old(self)@.h as int, streams_marks(streams@)),
                ..old(self)@
            }),
    {
        let ghost w = self@.w as int;
        let ghost h = self@.h as int;
        let ghost start = self@.out;
        let n = streams.len();
        let mut i: usize = 0;
        while i < n
            invariant
                self.wf(),
                streams.wf(),
                n == streams@.len(),
                i <= n,
                self@.w == w,
                self@.h == h,
                self@.out == paint(start, w, h, streams_marks(streams@.take(i as int))),
            decreases n - i,
        {
            let t = streams.get(i);
            assert(t.valid());
            let x = pixel(t.x);
            let y = pixel(t.y);
            let b8 = (ONE - t.z) * 8 / ONE;
            let bucket: u8 = if b8 > 7 { 7 } else { b8 as u8 };
            let size: u8 = if t.life > 80 { 3 } else if t.life > 40 { 2 } else if t.life > 10 { 1 } else { 0 };
            let ghost mid = self@.out;
            self.put(x, y, STREAM_OFFSET + bucket * 4 + size);
            proof {
                let one = stream_marks(t);
                lemma_paint_push(mid, w, h, one, 0);
                assert(one.take(1) =~= one);
                assert(one.take(0) =~= Seq::<Pixel>::empty());
                assert(streams@.take(i as int + 1).drop_last() =~= streams@.take(i as int));
                lemma_paint_append(start, w, h, streams_marks(streams@.take(i as int)), stream_marks(t));
            }
            i = i + 1;
        }
        proof {
            assert(streams@.take(n as int) =~= streams@);
        }
    }
}

} // verus!
