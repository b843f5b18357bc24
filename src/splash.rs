//! Splashes: short-lived impact animations, spawned by droplets and streams.
use vstd::prelude::*;
use crate::fixed::{ONE, DRAW_ONE, xorshift, draw_of};
use crate::flow::abs;
use crate::world::RainWorld;

verus! {

/// Capacity of the splash population.
pub const MAX_SPLASHES: usize = 200;

/// A splash is removed when its frame reaches this count.
pub const SPLASH_FRAMES: u8 = 24;

/// Bound on the magnitude of a splash coordinate.
pub const SPLASH_POS_MAX: i64 = 2251799813685248;

/// Splash types.
pub const CROWN: u8 = 0;
pub const LEFT_BURST: u8 = 1;
pub const RIGHT_BURST: u8 = 2;
pub const SPRAY: u8 = 3;

/// One splash: impact point, depth, animation frame, horizontal bias and type.
#[derive(Clone, Copy, Debug, PartialEq, Eq, Structural)]
pub struct Splash {
    pub x: i64,
    pub y: i64,
    pub z: i64,
    pub frame: u8,
    pub dir: i8,
    pub typ: u8,
}

impl Splash {
    /// The ranges that every live splash keeps.
    pub open spec fn valid(&self) -> bool {
        &&& -SPLASH_POS_MAX <= self.x <= SPLASH_POS_MAX
        &&& -SPLASH_POS_MAX <= self.y <= SPLASH_POS_MAX
        &&& 0 <= self.z <= ONE
        &&& self.frame < SPLASH_FRAMES
        &&& -5 <= self.dir <= 5
        &&& self.typ <= SPRAY
    }
}

/// The horizontal jitter of a new splash: `x + (r - 1/2) * 4` pixels.
pub open spec fn jittered(x: int, r: int) -> int {
    x + r / 64 - 2 * ONE
}

/// The random bias of a splash spawned without a normal: `trunc(r * 5) - 2`.
pub open spec fn random_dir(r: int) -> int {
    r * 5 / DRAW_ONE as int - 2
}

/// The bias of a splash on a tilted surface: `nx * 6 + (r - 1/2) * 2`,
/// with `nx` read as `nx / 127`, clamped to `[-5, 5]` and truncated toward 0.
pub open spec fn normal_dir(nx: int, r: int) -> int {
    let num = nx * 6 * DRAW_ONE + 127 * (2 * r - DRAW_ONE);
    let den = 127 * DRAW_ONE;
    if num >= 0 {
        if num / den > 5 { 5 } else { num / den }
    } else {
        if (-num) / den > 5 { -5 } else { -((-num) / den) }
    }
}

/// Whether draw `r` picks a directional splash: `r < 0.3 + 0.6 * |nx / 127|`.
pub open spec fn picks_directional(nx: int, r: int) -> bool {
    r * 1270 < (381 + 6 * abs(nx)) * DRAW_ONE
}

/// The population after spawning a splash of type `typ` at `(x, y, z)` from a
/// generator in state `rng`, and the generator's state after it: a full
/// population is left as it is and draws nothing.
pub open spec fn spawn_spec(ss: Seq<Splash>, rng: u32, x: int, y: int, z: int, typ: u8) -> (Seq<Splash>, u32) {
    if ss.len() >= MAX_SPLASHES {
        (ss, rng)
    } else {
        let s1 = xorshift(rng);
        let s2 = xorshift(s1);
        let sp = Splash {
            x: jittered(x, draw_of(rng)) as i64,
            y: y as i64,
            z: z as i64,
            frame: 0,
            dir: random_dir(draw_of(s1)) as i8,
            typ,
        };
        (ss.push(sp), s2)
    }
}

/// As `spawn_spec`, for a splash on a surface whose normal has x component
/// `nx`: the bias follows the tilt, and the steeper the tilt the likelier a
/// burst toward it; otherwise a crown or a spray, even odds.
pub open spec fn spawn_with_normal_spec(ss: Seq<Splash>, rng: u32, x: int, y: int, z: int, nx: i8) -> (Seq<Splash>, u32) {
    if ss.len() >= MAX_SPLASHES {
        (ss, rng)
    } else {
        let s1 = xorshift(rng);
        let s2 = xorshift(s1);
        let s3 = xorshift(s2);
        let directional = picks_directional(nx as int, draw_of(s2));
        let typ: u8 = if directional {
            if nx < 0 { LEFT_BURST } else { RIGHT_BURST }
        } else if draw_of(s3) * 2 < DRAW_ONE {
            CROWN
        } else {
            SPRAY
        };
        let sp = Splash {
            x: jittered(x, draw_of(rng)) as i64,
            y: y as i64,
            z: z as i64,
            frame: 0,
            dir: normal_dir(nx as int, draw_of(s1)) as i8,
            typ,
        };
        (ss.push(sp), if directional { s3 } else { xorshift(s3) })
    }
}

/// The splashes left by one animation step, in their order: each frame
/// advances by one, and a splash whose frame reaches `SPLASH_FRAMES` is gone.
pub open spec fn aged_splashes(ss: Seq<Splash>) -> Seq<Splash>
    decreases ss.len(),
{
    if ss.len() == 0 {
        ss
    } else {
        let rest = aged_splashes(ss.drop_last());
        let s = ss.last();
        if s.frame + 1 < SPLASH_FRAMES {
            rest.push(Splash { frame: (s.frame + 1) as u8, ..s })
        } else {
            rest
        }
    }
}

/// The live splashes, in slot order.
pub struct Splashes {
    items: Vec<Splash>,
}

impl View for Splashes {
    type V = Seq<Splash>;

    closed spec fn view(&self) -> Seq<Splash> {
        self.items@
    }
}

impl Splashes {
    /// At most `MAX_SPLASHES` splashes, each valid.
    pub open spec fn wf(&self) -> bool {
        &&& self@.len() <= MAX_SPLASHES
        &&& forall|i: int| 0 <= i < self@.len() ==> (#[trigger] self@[i]).valid()
    }

    /// An empty population.
    pub fn new() -> (r: Splashes)
        ensures
            r.wf(),
            r@ == Seq::<Splash>::empty(),
    {
        Splashes { items: Vec::new() }
    }

    /// Removes every splash.
    pub fn clear(&mut self)
        ensures
            final(self).wf(),
            final(self)@ == Seq::<Splash>::empty(),
    {
        self.items.clear();
    }

    /// The number of live splashes.
    pub fn len(&self) -> (r: usize)
        ensures
            r == self@.len(),
    {
        self.items.len()
    }

    /// The splash in slot `i`.
    pub fn get(&self, i: usize) -> (r: Splash)
        requires
            i < self@.len(),
        ensures
            r == self@[i as int],
    {
        self.items[i]
    }

    /// Appends `s` when there is room and `s` is valid; says whether it did.
    pub fn insert(&mut self, s: Splash) -> (r: bool)
        requires
            old(self).wf(),
        ensures
            final(self).wf(),
            r == (old(self)@.len() < MAX_SPLASHES && s.valid()),
            final(self)@ == if r { old(self)@.push(s) } else { old(self)@ },
    {
        if self.items.len() >= MAX_SPLASHES {
            return false;
        }
        if !(-SPLASH_POS_MAX <= s.x && s.x <= SPLASH_POS_MAX && -SPLASH_POS_MAX <= s.y && s.y <= SPLASH_POS_MAX
            && 0 <= s.z && s.z <= ONE && s.frame < SPLASH_FRAMES && -5 <= s.dir && s.dir <= 5 && s.typ <= SPRAY) {
            return false;
        }
        self.items.push(s);
        true
    }

    /// Spawns a splash of type `typ` at `(x, y)` with depth `z`, jittered by up
    /// to two pixels and with a random bias in `[-2, 2]`; nothing when full.
    pub fn spawn(&mut self, x: i64, y: i64, z: i64, typ: u8, rng: &mut u32)
        requires
            old(self).wf(),
            -crate::droplet::POS_MAX <= x <= crate::droplet::POS_MAX,
            -crate::droplet::POS_MAX <= y <= crate::droplet::POS_MAX,
            0 <= z <= ONE,
            typ <= SPRAY,
        ensures
            final(self).wf(),
            (final(self)@, *final(rng)) == spawn_spec(old(self)@, *old(rng), x as int, y as int, z as int, typ),
            final(self)@.len() == if old(self)@.len() < MAX_SPLASHES { old(self)@.len() as int + 1 } else { old(self)@.len() as int },
            final(self)@.take(old(self)@.len() as int) == old(self)@,
            old(self)@.len() >= MAX_SPLASHES ==> *final(rng) == *old(rng),
    {
        if self.items.len() >= MAX_SPLASHES {
            proof {
                assert(self@.take(self@.len() as int) =~= self@);
            }
            return;
        }
        let r1 = RainWorld::rand(rng);
        let sx = x + r1 / 64 - 2 * ONE;
        let r2 = RainWorld::rand(rng);
        let dir = (r2 * 5 / DRAW_ONE - 2) as i8;
        self.items.push(Splash { x: sx, y, z, frame: 0, dir, typ });
        proof {
            assert(self@.take(old(self)@.len() as int) =~= old(self)@);
        }
    }

    /// Spawns a splash at `(x, y)` with depth `z` on a surface whose normal
    /// components are `(nx, ny)` (127 stands for 1); nothing when full.
    pub fn spawn_with_normal(&mut self, x: i64, y: i64, z: i64, nx: i8, ny: i8, rng: &mut u32)
        requires
            old(self).wf(),
            -crate::droplet::POS_MAX <= x <= crate::droplet::POS_MAX,
            -crate::droplet::POS_MAX <= y <= crate::droplet::POS_MAX,
            0 <= z <= ONE,
        ensures
            final(self).wf(),
            (final(self)@, *final(rng)) == spawn_with_normal_spec(old(self)@, *old(rng), x as int, y as int, z as int, nx),
            final(self)@.len() == if old(self)@.len() < MAX_SPLASHES { old(self)@.len() as int + 1 } else { old(self)@.len() as int },
            final(self)@.take(old(self)@.len() as int) == old(self)@,
            old(self)@.len() >= MAX_SPLASHES ==> *final(rng) == *old(rng),
    {
        if self.items.len() >= MAX_SPLASHES {
            proof {
                assert(self@.take(self@.len() as int) =~= self@);
            }
            return;
        }
        let r1 = RainWorld::rand(rng);
        let sx = x + r1 / 64 - 2 * ONE;
        let r2 = RainWorld::rand(rng);
        let num: i64 = nx as i64 * 6 * DRAW_ONE + 127 * (2 * r2 - DRAW_ONE);
        let den: i64 = 127 * DRAW_ONE;
        let dir: i64 = if num >= 0 {
            if num / den > 5 { 5 } else { num / den }
        } else {
            if (-num) / den > 5 { -5 } else { -((-num) / den) }
        };
        let r3 = RainWorld::rand(rng);
        let anx: i64 = if nx < 0 { -(nx as i64) } else { nx as i64 };
        let typ: u8 = if r3 * 1270 < (381 + 6 * anx) * DRAW_ONE {
            if nx < 0 { LEFT_BURST } else { RIGHT_BURST }
        } else {
            let r4 = RainWorld::rand(rng);
            if r4 * 2 < DRAW_ONE { CROWN } else { SPRAY }
        };
        self.items.push(Splash { x: sx, y, z, frame: 0, dir: dir as i8, typ });
        proof {
            assert(self@.take(old(self)@.len() as int) =~= old(self)@);
        }
    }

    /// Advances every splash by one frame and removes those that reach
    /// `SPLASH_FRAMES`, keeping the order of the others.
    pub fn update(&mut self)
        requires
            old(self).wf(),
        ensures
            final(self).wf(),
            final(self)@ == aged_splashes(old(self)@),
    {
        let ghost before = self@;
        let n = self.items.len();
        let mut write: usize = 0;
        let mut read: usize = 0;
        while read < n
            invariant
                before.len() == n,
                n <= MAX_SPLASHES,
                forall|i: int| 0 <= i < n ==> (#[trigger] before[i]).valid(),
                self.items@.len() == n,
                write <= read <= n,
                self.items@.subrange(0, write as int) == aged_splashes(before.take(read as int)),
                forall|k: int| read <= k < n ==> self.items@[k] == before[k],
                forall|k: int| 0 <= k < write ==> (#[trigger] self.items@[k]).valid(),
            decreases n - read,
        {
            let s = self.items[read];
            proof {
                assert(before.take(read as int + 1).drop_last() =~= before.take(read as int));
                assert(before.take(read as int + 1).last() == before[read as int]);
            }
            if s.frame + 1 < SPLASH_FRAMES {
                let aged = Splash { frame: s.frame + 1, ..s };
                self.items.set(write, aged);
                proof {
                    assert(self.items@.subrange(0, write as int + 1) =~= aged_splashes(before.take(read as int)).push(aged));
                }
                write = write + 1;
            }
            read = read + 1;
        }
        proof {
            assert(before.take(n as int) =~= before);
        }
        self.items.truncate(write);
        proof {
            assert(self.items@ =~= aged_splashes(before));
        }
    }
}

} // verus!
