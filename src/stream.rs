//! Streams: water sliding along the flow field over scene surfaces until it
//! runs off the screen, falls off an edge, pools, or dries up.
use vstd::prelude::*;
use crate::fixed::{ONE, floor_div, raster_coord, raster_coord_spec};
use crate::scene::Scene;
use crate::terrain::{hits_surface, hits_surface_at};
use crate::flow::{get_flow, has_flow, flow_at, has_flow_at};
use crate::droplet::POS_MAX;
use crate::splash::{Splash, Splashes, spawn_spec, CROWN, SPRAY};

verus! {

/// Capacity of the stream population.
pub const MAX_STREAMS: usize = 500;

/// The life of a new stream, in ticks.
pub const FLOW_LIFETIME: u8 = 120;

/// A stream that falls off an edge with more life than this splashes.
pub const FRESH_LIFE: u8 = 60;

/// Depth-byte tolerance within which a stream still lies on its surface.
pub const STREAM_MARGIN: u8 = 48;

/// The seed of the generator that jitters the splashes streams leave; it is
/// reset at every stream update.
pub const STREAM_SEED: u32 = 0x12345678;

/// One stream: position, depth and remaining life.
#[derive(Clone, Copy, Debug, PartialEq, Eq, Structural)]
pub struct Stream {
    pub x: i64,
    pub y: i64,
    pub z: i64,
    pub life: u8,
}

impl Stream {
    /// The ranges that every live stream keeps.
    pub open spec fn valid(&self) -> bool {
        &&& -POS_MAX <= self.x <= POS_MAX
        &&& -POS_MAX <= self.y <= POS_MAX
        &&& 0 <= self.z <= ONE
        &&& 1 <= self.life <= FLOW_LIFETIME
    }
}

/// How far a stream at depth `z` moves along a flow component `f` (127
/// stands for 1) in one tick: `f * 0.4 * (1 - z / 2)` pixels, rounded down.
pub open spec fn flow_step(f: int, z: int) -> int {
    f * (2 * ONE - z) / 635
}

/// The population after spawning a stream at `(x, y, z)`: nothing when full.
pub open spec fn spawn_stream_spec(ts: Seq<Stream>, x: int, y: int, z: int) -> Seq<Stream> {
    if ts.len() >= MAX_STREAMS {
        ts
    } else {
        ts.push(Stream { x: x as i64, y: y as i64, z: z as i64, life: FLOW_LIFETIME })
    }
}

/// What one stream update does with stream `t`, given the streams kept so
/// far, the splashes and the splash generator's state: `(kept, splashes, rng)`.
pub open spec fn stream_step(
    sc: &Scene,
    w: u32,
    h: u32,
    scale_x: u64,
    scale_y: u64,
    acc: (Seq<Stream>, Seq<Splash>, u32),
    t: Stream,
) -> (Seq<Stream>, Seq<Splash>, u32) {
    let (kept, ss, rng) = acc;
    if t.life == 0 {
        acc
    } else {
        let f = flow_at(sc, raster_coord_spec(t.x as int, scale_x as int), raster_coord_spec(t.y as int, scale_y as int));
        let x = t.x + flow_step(f.0 as int, t.z as int);
        let y = t.y + flow_step(f.1 as int, t.z as int);
        if !(0 <= x < w * ONE && 0 <= y < h * ONE) {
            acc
        } else {
            let bx = raster_coord_spec(x, scale_x as int);
            let by = raster_coord_spec(y, scale_y as int);
            if !hits_surface_at(sc, bx, by, t.z as int, STREAM_MARGIN as int) {
                if t.life > FRESH_LIFE {
                    let (ss2, rng2) = spawn_spec(ss, rng, x, y, t.z as int, SPRAY);
                    (kept, ss2, rng2)
                } else {
                    acc
                }
            } else if !has_flow_at(sc, bx, by) {
                let (ss2, rng2) = spawn_spec(ss, rng, x, y, t.z as int, CROWN);
                (kept, ss2, rng2)
            } else if t.life == 1 {
                acc
            } else {
                (kept.push(Stream { x: x as i64, y: y as i64, z: t.z, life: (t.life - 1) as u8 }), ss, rng)
            }
        }
    }
}

/// `stream_step` applied to each stream of `ts` in order.
pub open spec fn stream_pass(
    sc: &Scene,
    w: u32,
    h: u32,
    scale_x: u64,
    scale_y: u64,
    init: (Seq<Stream>, Seq<Splash>, u32),
    ts: Seq<Stream>,
) -> (Seq<Stream>, Seq<Splash>, u32)
    decreases ts.len(),
{
    if ts.len() == 0 {
        init
    } else {
        stream_step(sc, w, h, scale_x, scale_y, stream_pass(sc, w, h, scale_x, scale_y, init, ts.drop_last()), ts.last())
    }
}

/// The live streams, in slot order.
pub struct Streams {
    items: Vec<Stream>,
}

impl View for Streams {
    type V = Seq<Stream>;

    closed spec fn view(&self) -> Seq<Stream> {
        self.items@
    }
}

impl Streams {
    /// At most `MAX_STREAMS` streams, each valid.
    pub open spec fn wf(&self) -> bool {
        &&& self@.len() <= MAX_STREAMS
        &&& forall|i: int| 0 <= i < self@.len() ==> (#[trigger] self@[i]).valid()
    }

    /// An empty population.
    pub fn new() -> (r: Streams)
        ensures
            r.wf(),
            r@ == Seq::<Stream>::empty(),
    {
        Streams { items: Vec::new() }
    }

    /// Removes every stream.
    pub fn clear(&mut self)
        ensures
            final(self).wf(),
            final(self)@ == Seq::<Stream>::empty(),
    {
        self.items.clear();
    }

    /// The number of live streams.
    pub fn len(&self) -> (r: usize)
        ensures
            r == self@.len(),
    {
        self.items.len()
    }

    /// The stream in slot `i`.
    pub fn get(&self, i: usize) -> (r: Stream)
        requires
            i < self@.len(),
        ensures
            r == self@[i as int],
    {
        self.items[i]
    }

    /// Appends `s` when there is room and `s` is valid; says whether it did.
    pub fn insert(&mut self, s: Stream) -> (r: bool)
        requires
            old(self).wf(),
        ensures
            final(self).wf(),
            r == (old(self)@.len() < MAX_STREAMS && s.valid()),
            final(self)@ == if r { old(self)@.push(s) } else { old(self)@ },
    {
        if self.items.len() >= MAX_STREAMS {
            return false;
        }
        if !(-POS_MAX <= s.x && s.x <= POS_MAX && -POS_MAX <= s.y && s.y <= POS_MAX && 0 <= s.z && s.z <= ONE
            && 1 <= s.life && s.life <= FLOW_LIFETIME) {
            return false;
        }
        self.items.push(s);
        true
    }

    /// Spawns a stream at `(x, y)` with depth `z` and full life; nothing when full.
    pub fn spawn(&mut self, x: i64, y: i64, z: i64)
        requires
            old(self).wf(),
            -POS_MAX <= x <= POS_MAX,
            -POS_MAX <= y <= POS_MAX,
            0 <= z <= ONE,
        ensures
            final(self).wf(),
            final(self)@ == spawn_stream_spec(old(self)@, x as int, y as int, z as int),
            final(self)@.len() == if old(self)@.len() < MAX_STREAMS { old(self)@.len() as int + 1 } else { old(self)@.len() as int },
            final(self)@.take(old(self)@.len() as int) == old(self)@,
    {
        if self.items.len() >= MAX_STREAMS {
            proof {
                assert(self@.take(self@.len() as int) =~= self@);
            }
            return;
        }
        self.items.push(Stream { x, y, z, life: FLOW_LIFETIME });
        proof {
            assert(self@.take(old(self)@.len() as int) =~= old(self)@);
        }
    }
    /// Moves the first `moving` streams along the flow field, in slot order;
    /// the streams after them were spawned during this tick and stay as they
    /// are, after the moved ones. A moved stream that leaves the screen, or
    /// has no life left, goes silently; one that falls off its surface while
    /// fresh leaves a spray, and one that reaches a surface without flow
    /// leaves a crown; the others lose one unit of life and are kept in their
    /// order unless that life is spent.
    pub fn update(
        &mut self,
        sc: &Scene,
        screen_w: u32,
        screen_h: u32,
        scale_x: u64,
        scale_y: u64,
        moving: usize,
        splashes: &mut Splashes,
    )
        requires
            old(self).wf(),
            old(splashes).wf(),
            sc.wf(),
            moving <= old(self)@.len(),
        ensures
            final(self).wf(),
            final(splashes).wf(),
            final(self)@ == stream_pass(sc, screen_w, screen_h, scale_x, scale_y,
                (Seq::empty(), old(splashes)@, STREAM_SEED), old(self)@.take(moving as int)).0
                + old(self)@.skip(moving as int),
            final(splashes)@ == stream_pass(sc, screen_w, screen_h, scale_x, scale_y,
                (Seq::empty(), old(splashes)@, STREAM_SEED), old(self)@.take(moving as int)).1,
    {
        let ghost before = self@;
        let ghost init = (Seq::<Stream>::empty(), splashes@, STREAM_SEED);
        let mut rng: u32 = STREAM_SEED;
        let total = self.items.len();
        let n = moving;
        let wx: i64 = screen_w as i64 * ONE;
        let hy: i64 = screen_h as i64 * ONE;
        let mut write: usize = 0;
        let mut read: usize = 0;
        while read < n
            invariant
                before.len() == total,
                n <= total <= MAX_STREAMS,
                forall|i: int| 0 <= i < total ==> (#[trigger] before[i]).valid(),
                sc.wf(),
                splashes.wf(),
                wx == screen_w * ONE,
                hy == screen_h * ONE,
                self.items@.len() == total,
                write <= read <= n,
                (self.items@.subrange(0, write as int), splashes@, rng)
                    == stream_pass(sc, screen_w, screen_h, scale_x, scale_y, init, before.take(read as int)),
                forall|k: int| read <= k < total ==> self.items@[k] == before[k],
                forall|k: int| 0 <= k < write ==> (#[trigger] self.items@[k]).valid(),
            decreases n - read,
        {
            let t = self.items[read];
            proof {
                assert(before.take(read as int + 1).drop_last() =~= before.take(read as int));
                assert(before.take(read as int + 1).last() == before[read as int]);
                assert(t.valid());
            }
            let mut kept: Option<Stream> = None;
            if t.life != 0 {
                let (fx, fy) = get_flow(sc, raster_coord(t.x, scale_x), raster_coord(t.y, scale_y));
                let speed: i64 = 2 * ONE - t.z;
                proof {
                    assert(-128 * 2 * ONE <= fx as int * speed <= 128 * 2 * ONE) by (nonlinear_arith)
                        requires -128 <= fx <= 127, 0 < speed <= 2 * ONE;
                    assert(-128 * 2 * ONE <= fy as int * speed <= 128 * 2 * ONE) by (nonlinear_arith)
                        requires -128 <= fy <= 127, 0 < speed <= 2 * ONE;
                }
                let x = t.x + floor_div(fx as i64 * speed, 635);
                let y = t.y + floor_div(fy as i64 * speed, 635);
                if 0 <= x && x < wx && 0 <= y && y < hy {
                    let bx = raster_coord(x, scale_x);
                    let by = raster_coord(y, scale_y);
                    if !hits_surface(sc, bx, by, t.z, STREAM_MARGIN) {
                        if t.life > FRESH_LIFE {
                            splashes.spawn(x, y, t.z, SPRAY, &mut rng);
                        }
                    } else if !has_flow(sc, bx, by) {
                        splashes.spawn(x, y, t.z, CROWN, &mut rng);
                    } else if t.life != 1 {
                        kept = Some(Stream { x, y, z: t.z, life: t.life - 1 });
                    }
                }
            }
            if let Some(k) = kept {
                self.items.set(write, k);
                proof {
                    let prev = stream_pass(sc, screen_w, screen_h, scale_x, scale_y, init, before.take(read as int));
                    assert(self.items@.subrange(0, write as int + 1) =~= prev.0.push(k));
                }
                write = write + 1;
            }
            read = read + 1;
        }
        let ghost moved = self.items@.subrange(0, write as int);
        let mut from: usize = n;
        while from < total
            invariant
                before.len() == total,
                n <= from <= total <= MAX_STREAMS,
                forall|i: int| 0 <= i < total ==> (#[trigger] before[i]).valid(),
                self.items@.len() == total,
                write <= from,
                moved.len() <= write,
                self.items@.subrange(0, write as int) == moved + before.subrange(n as int, from as int),
                forall|k: int| from <= k < total ==> self.items@[k] == before[k],
                forall|k: int| 0 <= k < write ==> (#[trigger] self.items@[k]).valid(),
            decreases total - from,
        {
            let t = self.items[from];
            proof {
                assert(t == before[from as int]);
                assert(t.valid());
            }
            let ghost prior = self.items@;
            self.items.set(write, t);
            proof {
                assert(prior.subrange(0, write as int) == moved + before.subrange(n as int, from as int));
                assert(self.items@.subrange(0, write as int) =~= prior.subrange(0, write as int));
                assert(before.subrange(n as int, from as int + 1) =~= before.subrange(n as int, from as int).push(t));
            }
            proof {
                assert(self.items@.subrange(0, write as int + 1)
                    =~= moved + before.subrange(n as int, from as int + 1));
            }
            write = write + 1;
            from = from + 1;
        }
        self.items.truncate(write);
        proof {
            assert(before.skip(n as int) =~= before.subrange(n as int, total as int));
            assert(self.items@ =~= self.items@.subrange(0, write as int));
        }
    }
}

} // verus!
