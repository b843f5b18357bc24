//! Falling droplets: spawned above the screen, advanced every tick, and
//! removed when they collide with scene geometry or reach their ground line.
use vstd::prelude::*;
use crate::fixed::{ONE, DRAW_ONE, xorshift, draw_of, raster_coord, raster_coord_spec};
use crate::scene::Scene;
use crate::world::RainWorld;
use crate::terrain::{hits_surface, hits_surface_at, get_normal, normal_at};
use crate::flow::{has_flow, has_flow_at};
use crate::splash::{Splash, Splashes, spawn_spec, spawn_with_normal_spec};
use crate::stream::{Stream, Streams, spawn_stream_spec};

verus! {

/// Capacity of the droplet population.
pub const MAX_DROPS: usize = 3000;

/// Bound on the magnitude of a droplet or stream coordinate.
pub const POS_MAX: i64 = 1125899906842624;

/// Bound on a droplet's fall speed per tick.
pub const VEL_MAX: i64 = 140000;

/// Fall speed of the nearest droplets, per tick (1.7 pixels).
pub const VEL_NEAR: i64 = 111411;

/// Fall speed of the farthest droplets, per tick (0.35 pixels).
pub const VEL_FAR: i64 = 22938;

/// Depth-byte tolerance within which a droplet meets scene geometry.
pub const DROP_MARGIN: u8 = 48;

/// A droplet that reaches its ground line splashes when a draw falls below
/// `SPLASH_CHANCE_TENTHS / 10`.
pub const SPLASH_CHANCE_TENTHS: i64 = 7;

/// A droplet that hits a flowing surface slides when a draw falls below
/// `SLIDE_CHANCE_TENTHS / 10`.
pub const SLIDE_CHANCE_TENTHS: i64 = 6;

/// Whether draw `r` falls below `tenths / 10`.
pub open spec fn chance(r: int, tenths: int) -> bool {
    r * 10 < tenths * DRAW_ONE
}

/// Fall speed at depth `z`, `lerp(VEL_NEAR, VEL_FAR, z)`, scaled by
/// `0.8 + 0.4 * r` for draw `r`.
pub open spec fn spawn_velocity(z: int, r: int) -> int {
    (VEL_NEAR - (VEL_NEAR - VEL_FAR) * z / ONE as int) * (4 * DRAW_ONE + 2 * r) / (5 * DRAW_ONE as int)
}

/// The droplet spawned on a screen `w` pixels wide from a generator in state
/// `s`, with draws for depth, column, height above the screen (up to 15
/// pixels) and speed, in that order.
pub open spec fn spawned_drop(w: int, s: u32) -> Droplet {
    let s1 = xorshift(s);
    let s2 = xorshift(s1);
    let s3 = xorshift(s2);
    let z = draw_of(s) / 256;
    Droplet {
        x: (draw_of(s1) * w / 256) as i64,
        y: (-(draw_of(s2) * 15 / 256)) as i64,
        z: z as i64,
        v: spawn_velocity(z, draw_of(s3)) as i64,
    }
}

/// The generator's state after the four draws of one spawned droplet.
pub open spec fn after_spawn(s: u32) -> u32 {
    xorshift(xorshift(xorshift(xorshift(s))))
}

/// The population and generator after spawning up to `count` droplets on a
/// screen `w` pixels wide, stopping when the population is full.
pub open spec fn spawn_drops_spec(ds: Seq<Droplet>, rng: u32, count: nat, w: int) -> (Seq<Droplet>, u32)
    decreases count,
{
    if count == 0 || ds.len() >= MAX_DROPS {
        (ds, rng)
    } else {
        spawn_drops_spec(ds.push(spawned_drop(w, rng)), after_spawn(rng), (count - 1) as nat, w)
    }
}

/// The ground line of a droplet at depth `z` on a screen `h` pixels high:
/// `h * lerp(1.0, 0.4, z)`.
pub open spec fn ground_line(h: int, z: int) -> int {
    h * (5 * ONE - 3 * z) / 5
}

/// Whether a droplet advanced to height `y` lies on the screen.
pub open spec fn on_screen(w: int, h: int, x: int, y: int) -> bool {
    0 <= y < h * ONE && 0 <= x < w * ONE
}

/// Whether droplet `d`, advanced to height `y`, meets scene geometry.
pub open spec fn meets_surface(sc: &Scene, w: u32, h: u32, scale_x: u64, scale_y: u64, d: Droplet, y: int) -> bool {
    &&& on_screen(w as int, h as int, d.x as int, y)
    &&& hits_surface_at(sc, raster_coord_spec(d.x as int, scale_x as int), raster_coord_spec(y, scale_y as int),
        d.z as int, DROP_MARGIN as int)
}

/// What one droplet update does with droplet `d`, given the droplets kept so
/// far, the splashes, the streams and the generator: `(kept, splashes,
/// streams, rng)`. A droplet that meets a surface may slide as a stream and
/// always splashes along the surface normal; one past its ground line may
/// splash; the others fall on.
pub open spec fn drop_step(
    sc: &Scene,
    w: u32,
    h: u32,
    scale_x: u64,
    scale_y: u64,
    acc: (Seq<Droplet>, Seq<Splash>, Seq<Stream>, u32),
    d: Droplet,
) -> (Seq<Droplet>, Seq<Splash>, Seq<Stream>, u32) {
    let (kept, ss, ts, rng) = acc;
    let y = d.y + d.v;
    let ground = ground_line(h as int, d.z as int);
    if meets_surface(sc, w, h, scale_x, scale_y, d, y) {
        let bx = raster_coord_spec(d.x as int, scale_x as int);
        let by = raster_coord_spec(y, scale_y as int);
        let (ts2, rng2) = if has_flow_at(sc, bx, by) {
            (if chance(draw_of(rng), SLIDE_CHANCE_TENTHS as int) {
                spawn_stream_spec(ts, d.x as int, y, d.z as int)
            } else {
                ts
            }, xorshift(rng))
        } else {
            (ts, rng)
        };
        let (ss2, rng3) = spawn_with_normal_spec(ss, rng2, d.x as int, y, d.z as int, normal_at(sc, bx, by).0);
        (kept, ss2, ts2, rng3)
    } else if y > ground {
        let s1 = xorshift(rng);
        if chance(draw_of(rng), SPLASH_CHANCE_TENTHS as int) {
            let typ = draw_of(s1) * 4 / DRAW_ONE as int;
            let (ss2, rng2) = spawn_spec(ss, xorshift(s1), d.x as int, ground, d.z as int, typ as u8);
            (kept, ss2, ts, rng2)
        } else {
            (kept, ss, ts, s1)
        }
    } else {
        (kept.push(Droplet { y: y as i64, ..d }), ss, ts, rng)
    }
}

/// `drop_step` applied to each droplet of `ds` in order.
pub open spec fn drop_pass(
    sc: &Scene,
    w: u32,
    h: u32,
    scale_x: u64,
    scale_y: u64,
    init: (Seq<Droplet>, Seq<Splash>, Seq<Stream>, u32),
    ds: Seq<Droplet>,
) -> (Seq<Droplet>, Seq<Splash>, Seq<Stream>, u32)
    decreases ds.len(),
{
    if ds.len() == 0 {
        init
    } else {
        drop_step(sc, w, h, scale_x, scale_y, drop_pass(sc, w, h, scale_x, scale_y, init, ds.drop_last()), ds.last())
    }
}

/// A droplet pass only ever appends streams: those it started with stay in
/// front, unchanged.
pub proof fn lemma_drop_pass_appends_streams(sc: &Scene, w: u32, h: u32, scale_x: u64, scale_y: u64,
    init: (Seq<Droplet>, Seq<Splash>, Seq<Stream>, u32), ds: Seq<Droplet>)
    ensures
        init.2.len() <= drop_pass(sc, w, h, scale_x, scale_y, init, ds).2.len(),
        drop_pass(sc, w, h, scale_x, scale_y, init, ds).2.take(init.2.len() as int) == init.2,
    decreases ds.len(),
{
    if ds.len() > 0 {
        lemma_drop_pass_appends_streams(sc, w, h, scale_x, scale_y, init, ds.drop_last());
        let prev = drop_pass(sc, w, h, scale_x, scale_y, init, ds.drop_last()).2;
        let cur = drop_pass(sc, w, h, scale_x, scale_y, init, ds).2;
        assert(cur == prev || cur == prev.push(cur.last()));
        assert(cur.take(init.2.len() as int) =~= prev.take(init.2.len() as int));
    } else {
        assert(init.2.take(init.2.len() as int) =~= init.2);
    }
}

/// One falling droplet: screen position, depth (0 near, `ONE` far) and fall speed.
#[derive(Clone, Copy, Debug, PartialEq, Eq, Structural)]
pub struct Droplet {
    pub x: i64,
    pub y: i64,
    pub z: i64,
    pub v: i64,
}

impl Droplet {
    /// The ranges that every live droplet keeps.
    pub open spec fn valid(&self) -> bool {
        &&& -POS_MAX <= self.x <= POS_MAX
        &&& -POS_MAX <= self.y <= POS_MAX
        &&& 0 <= self.z <= ONE
        &&& 0 < self.v <= VEL_MAX
    }
}

/// The live droplets, in slot order.
pub struct Droplets {
    items: Vec<Droplet>,
}

impl View for Droplets {
    type V = Seq<Droplet>;

    closed spec fn view(&self) -> Seq<Droplet> {
        self.items@
    }
}

impl Droplets {
    /// At most `MAX_DROPS` droplets, each valid.
    pub open spec fn wf(&self) -> bool {
        &&& self@.len() <= MAX_DROPS
        &&& forall|i: int| 0 <= i < self@.len() ==> (#[trigger] self@[i]).valid()
    }

    /// An empty population.
    pub fn new() -> (r: Droplets)
        ensures
            r.wf(),
            r@ == Seq::<Droplet>::empty(),
    {
        Droplets { items: Vec::new() }
    }

    /// Removes every droplet.
    pub fn clear(&mut self)
        ensures
            final(self).wf(),
            final(self)@ == Seq::<Droplet>::empty(),
    {
        self.items.clear();
    }

    /// The number of live droplets.
    pub fn len(&self) -> (r: usize)
        ensures
            r == self@.len(),
    {
        self.items.len()
    }

    /// The droplet in slot `i`.
    pub fn get(&self, i: usize) -> (r: Droplet)
        requires
            i < self@.len(),
        ensures
            r == self@[i as int],
    {
        self.items[i]
    }

    /// Appends `d` when there is room and `d` is valid; says whether it did.
    pub fn insert(&mut self, d: Droplet) -> (r: bool)
        requires
            old(self).wf(),
        ensures
            final(self).wf(),
            r == (old(self)@.len() < MAX_DROPS && d.valid()),
            final(self)@ == if r { old(self)@.push(d) } else { old(self)@ },
    {
        if self.items.len() >= MAX_DROPS {
            return false;
        }
        if !(-POS_MAX <= d.x && d.x <= POS_MAX && -POS_MAX <= d.y && d.y <= POS_MAX && 0 <= d.z
            && d.z <= ONE && 0 < d.v && d.v <= VEL_MAX) {
            return false;
        }
        self.items.push(d);
        true
    }
    /// Spawns up to `count` droplets above a screen `screen_w` pixels wide,
    /// stopping early when the population is full. Each gets a random depth,
    /// a random column, a start up to 15 pixels above the screen, and a speed
    /// that falls with depth.
    pub fn spawn(&mut self, count: usize, screen_w: u32, rng: &mut u32)
        requires
            old(self).wf(),
        ensures
            final(self).wf(),
            (final(self)@, *final(rng)) == spawn_drops_spec(old(self)@, *old(rng), count as nat, screen_w as int),
    {
        let mut left: usize = count;
        while left > 0
            invariant_except_break
                self.wf(),
                spawn_drops_spec(self@, *rng, left as nat, screen_w as int)
                    == spawn_drops_spec(old(self)@, *old(rng), count as nat, screen_w as int),
            ensures
                self.wf(),
                (self@, *rng) == spawn_drops_spec(old(self)@, *old(rng), count as nat, screen_w as int),
            decreases left,
        {
            if self.items.len() >= MAX_DROPS {
                break;
            }
            let ghost s0 = *rng;
            let r1 = RainWorld::rand(rng);
            let z = r1 / 256;
            let r2 = RainWorld::rand(rng);
            proof {
                assert(0 <= r2 * screen_w as int <= DRAW_ONE * 0xffff_ffff) by (nonlinear_arith)
                    requires 0 <= r2 < DRAW_ONE, 0 <= screen_w <= 0xffff_ffff;
            }
            let x = r2 * screen_w as i64 / 256;
            let r3 = RainWorld::rand(rng);
            let y = -(r3 * 15 / 256);
            let r4 = RainWorld::rand(rng);
            let base: i64 = VEL_NEAR - (VEL_NEAR - VEL_FAR) * z / ONE;
            proof {
                assert(0 <= (VEL_NEAR - VEL_FAR) * z <= (VEL_NEAR - VEL_FAR) * ONE) by (nonlinear_arith)
                    requires 0 <= z < ONE, VEL_NEAR > VEL_FAR;
                assert(VEL_FAR <= base <= VEL_NEAR);
                assert(0 < base * (4 * DRAW_ONE + 2 * r4) <= VEL_NEAR * 6 * DRAW_ONE) by (nonlinear_arith)
                    requires VEL_FAR <= base <= VEL_NEAR, 0 <= r4 < DRAW_ONE, VEL_FAR > 0, DRAW_ONE > 0;
                assert(base * (4 * DRAW_ONE + 2 * r4) >= VEL_FAR * 4 * DRAW_ONE) by (nonlinear_arith)
                    requires VEL_FAR <= base, 0 <= r4, VEL_FAR > 0, DRAW_ONE > 0;
            }
            let v = base * (4 * DRAW_ONE + 2 * r4) / (5 * DRAW_ONE);
            let d = Droplet { x, y, z, v };
            proof {
                assert(d == spawned_drop(screen_w as int, s0));
                assert(*rng == after_spawn(s0));
            }
            self.items.push(d);
            left = left - 1;
        }
    }
    /// Advances every droplet by its speed, in slot order, and resolves
    /// collisions: a droplet on the screen that meets scene geometry at its
    /// depth becomes a splash biased by the surface normal, and on a flowing
    /// surface may also become a stream; one below its ground line may become
    /// a splash of a random type. Both are removed; the others are kept, in
    /// their order.
    pub fn update(
        &mut self,
        sc: &Scene,
        screen_w: u32,
        screen_h: u32,
        scale_x: u64,
        scale_y: u64,
        splashes: &mut Splashes,
        streams: &mut Streams,
        rng: &mut u32,
    )
        requires
            old(self).wf(),
            old(splashes).wf(),
            old(streams).wf(),
            sc.wf(),
        ensures
            final(self).wf(),
            final(splashes).wf(),
            final(streams).wf(),
            (final(self)@, final(splashes)@, final(streams)@, *final(rng)) == drop_pass(sc, screen_w, screen_h,
                scale_x, scale_y, (Seq::empty(), old(splashes)@, old(streams)@, *old(rng)), old(self)@),
    {
        let ghost before = self@;
        let ghost init = (Seq::<Droplet>::empty(), splashes@, streams@, *rng);
        let n = self.items.len();
        let wx: i64 = screen_w as i64 * ONE;
        let hy: i64 = screen_h as i64 * ONE;
        let mut write: usize = 0;
        let mut read: usize = 0;
        while read < n
            invariant
                before.len() == n,
                n <= MAX_DROPS,
                forall|i: int| 0 <= i < n ==> (#[trigger] before[i]).valid(),
                sc.wf(),
                splashes.wf(),
                streams.wf(),
                wx == screen_w * ONE,
                hy == screen_h * ONE,
                self.items@.len() == n,
                write <= read <= n,
                (self.items@.subrange(0, write as int), splashes@, streams@, *rng)
                    == drop_pass(sc, screen_w, screen_h, scale_x, scale_y, init, before.take(read as int)),
                forall|k: int| read <= k < n ==> self.items@[k] == before[k],
                forall|k: int| 0 <= k < write ==> (#[trigger] self.items@[k]).valid(),
            decreases n - read,
        {
            let d = self.items[read];
            proof {
                assert(before.take(read as int + 1).drop_last() =~= before.take(read as int));
                assert(before.take(read as int + 1).last() == before[read as int]);
                assert(d.valid());
            }
            let x = d.x;
            let y = d.y + d.v;
            let z = d.z;
            proof {
                assert(0 <= screen_h as int * (5 * ONE - 3 * z) <= 0xffff_ffff * 5 * ONE) by (nonlinear_arith)
                    requires 0 <= z <= ONE, 0 <= screen_h <= 0xffff_ffff;
            }
            let ground = screen_h as i64 * (5 * ONE - 3 * z) / 5;
            let bx = raster_coord(x, scale_x);
            let by = raster_coord(y, scale_y);
            if 0 <= y && y < hy && 0 <= x && x < wx && hits_surface(sc, bx, by, z, DROP_MARGIN) {
                if has_flow(sc, bx, by) {
                    let r = RainWorld::rand(rng);
                    if r * 10 < SLIDE_CHANCE_TENTHS * DRAW_ONE {
                        streams.spawn(x, y, z);
                    }
                }
                let (nx, ny) = get_normal(sc, bx, by);
                splashes.spawn_with_normal(x, y, z, nx, ny, rng);
            } else if y > ground {
                let r = RainWorld::rand(rng);
                if r * 10 < SPLASH_CHANCE_TENTHS * DRAW_ONE {
                    let r2 = RainWorld::rand(rng);
                    let typ = (r2 * 4 / DRAW_ONE) as u8;
                    splashes.spawn(x, ground, z, typ, rng);
                }
            } else {
                let moved = Droplet { x, y, z, v: d.v };
                self.items.set(write, moved);
                proof {
                    let prev = drop_pass(sc, screen_w, screen_h, scale_x, scale_y, init, before.take(read as int));
                    assert(self.items@.subrange(0, write as int + 1) =~= prev.0.push(moved));
                }
                write = write + 1;
            }
            read = read + 1;
        }
        proof {
            assert(before.take(n as int) =~= before);
        }
        self.items.truncate(write);
        proof {
            assert(self.items@ =~= self.items@.subrange(0, write as int));
        }
    }
}

} // verus!
