//! The simulation orchestrator: owns the scene, the three populations, the
//! encoder and the random generator, and drives one tick at a time.
use vstd::prelude::*;
use crate::fixed::{xorshift, draw_of, scale_factor, scale_spec, DRAW_ONE};
use crate::scene::Scene;
use crate::droplet::{Droplet, Droplets, MAX_DROPS, spawn_drops_spec, drop_pass, lemma_drop_pass_appends_streams};
use crate::splash::{Splash, Splashes, MAX_SPLASHES, aged_splashes};
use crate::stream::{Stream, Streams, MAX_STREAMS, stream_pass, STREAM_SEED};
use crate::render::{Encoder, paint, zeros, resized, drops_marks, splashes_marks, streams_marks};

verus! {

/// The seed of the simulation's generator.
pub const SEED: u32 = 0xDEADBEEF;

/// The three populations and the generator, as the contracts speak of them.
pub struct WorldState {
    pub drops: Seq<Droplet>,
    pub splashes: Seq<Splash>,
    pub streams: Seq<Stream>,
    pub rng: u32,
}

/// The number of droplets spawned per tick on a screen `w` pixels wide.
pub open spec fn spawn_count(w: int) -> int {
    w / 64 + 1
}

/// One tick of the simulation on a `w` by `h` screen with the given scale
/// factors: spawn droplets, update droplets (which may spawn splashes and
/// streams), age splashes, then move the streams that existed before the
/// tick (which may spawn splashes). Streams spawned during the tick follow
/// them unmoved, with full life: they begin moving on the next tick.
pub open spec fn tick_state(sc: &Scene, w: u32, h: u32, scale_x: u64, scale_y: u64, st: WorldState) -> WorldState {
    let (spawned, rng1) = spawn_drops_spec(st.drops, st.rng, spawn_count(w as int) as nat, w as int);
    let p = drop_pass(sc, w, h, scale_x, scale_y, (Seq::empty(), st.splashes, st.streams, rng1), spawned);
    let older = st.streams.len() as int;
    let q = stream_pass(sc, w, h, scale_x, scale_y, (Seq::empty(), aged_splashes(p.1), STREAM_SEED),
        p.2.take(older));
    WorldState { drops: p.0, splashes: q.1, streams: q.0 + p.2.skip(older), rng: p.3 }
}

/// The output of a tick that ended in state `st`: a zeroed `w` by `h` buffer
/// with the droplets, then the splashes, then the streams encoded into it.
pub open spec fn frame(w: int, h: int, st: WorldState) -> Seq<u8> {
    paint(paint(paint(zeros(w * h), w, h, drops_marks(st.drops)), w, h, splashes_marks(st.splashes)), w, h,
        streams_marks(st.streams))
}

/// A rain simulation over one scene, rendered onto a screen.
pub struct RainWorld {
    scene: Scene,
    w: u32,
    h: u32,
    scale_x: u64,
    scale_y: u64,
    drops: Droplets,
    splashes: Splashes,
    streams: Streams,
    encoder: Encoder,
    rng: u32,
}

impl RainWorld {
    /// The populations and the generator.
    pub closed spec fn state(&self) -> WorldState {
        WorldState { drops: self.drops@, splashes: self.splashes@, streams: self.streams@, rng: self.rng }
    }

    /// The scene the simulation runs over.
    pub closed spec fn scene_spec(&self) -> Scene {
        self.scene
    }

    /// The screen width in pixels.
    pub closed spec fn w_spec(&self) -> u32 {
        self.w
    }

    /// The screen height in pixels.
    pub closed spec fn h_spec(&self) -> u32 {
        self.h
    }

    /// The horizontal screen-to-raster scale factor.
    pub closed spec fn scale_x_spec(&self) -> u64 {
        self.scale_x
    }

    /// The vertical screen-to-raster scale factor.
    pub closed spec fn scale_y_spec(&self) -> u64 {
        self.scale_y
    }

    /// The output buffer.
    pub closed spec fn output_spec(&self) -> Seq<u8> {
        self.encoder@.out
    }

    /// The parts are well formed, the buffer fits the screen, and the scale
    /// factors are those of the screen size.
    pub closed spec fn wf(&self) -> bool {
        &&& self.scene.wf()
        &&& self.drops.wf()
        &&& self.splashes.wf()
        &&& self.streams.wf()
        &&& self.encoder.wf()
        &&& self.encoder@.w == self.w
        &&& self.encoder@.h == self.h
        &&& self.scale_x == scale_spec(self.scene.width as int, self.w as int)
        &&& self.scale_y == scale_spec(self.scene.height as int, self.h as int)
    }

    /// Facts that every well-formed world keeps.
    pub proof fn lemma_wf(&self)
        requires
            self.wf(),
        ensures
            self.scene_spec().wf(),
            self.state().drops.len() <= MAX_DROPS,
            self.state().splashes.len() <= MAX_SPLASHES,
            self.state().streams.len() <= MAX_STREAMS,
            self.output_spec().len() == self.w_spec() * self.h_spec(),
            self.scale_x_spec() == scale_spec(self.scene_spec().width as int, self.w_spec() as int),
            self.scale_y_spec() == scale_spec(self.scene_spec().height as int, self.h_spec() as int),
    {
    }

    /// A simulation over `scene` on a `w` by `h` screen, with no entities, a
    /// zeroed buffer and the generator at its fixed seed.
    pub fn new(scene: Scene, w: u32, h: u32) -> (r: RainWorld)
        requires
            scene.wf(),
            w * h <= usize::MAX,
        ensures
            r.wf(),
            r.scene_spec() == scene,
            r.w_spec() == w,
            r.h_spec() == h,
            r.state() == (WorldState {
                drops: Seq::empty(), splashes: Seq::empty(), streams: Seq::empty(), rng: SEED,
            }),
            r.output_spec() == zeros(w * h),
    {
        let scale_x = scale_factor(scene.width, w);
        let scale_y = scale_factor(scene.height, h);
        RainWorld {
            scene,
            w,
            h,
            scale_x,
            scale_y,
            drops: Droplets::new(),
            splashes: Splashes::new(),
            streams: Streams::new(),
            encoder: Encoder::new(w, h),
            rng: SEED,
        }
    }

    /// Changes the screen size: the buffer is resized to `w * h` bytes (old
    /// bytes kept up to that length, new ones 0), the scale factors are
    /// recomputed, and no entities are left. The generator goes on where it
    /// was.
    pub fn resize(&mut self, w: u32, h: u32)
        requires
            old(self).wf(),
            w * h <= usize::MAX,
        ensures
            final(self).wf(),
            final(self).scene_spec() == old(self).scene_spec(),
            final(self).w_spec() == w,
            final(self).h_spec() == h,
            final(self).state() == (WorldState {
                drops: Seq::empty(), splashes: Seq::empty(), streams: Seq::empty(), rng: old(self).state().rng,
            }),
            final(self).output_spec() == resized(old(self).output_spec(), w * h),
            final(self).state().drops.len() == 0,
            final(self).state().splashes.len() == 0,
            final(self).state().streams.len() == 0,
            final(self).output_spec().len() == w * h,
    {
        self.w = w;
        self.h = h;
        self.scale_x = scale_factor(self.scene.width, w);
        self.scale_y = scale_factor(self.scene.height, h);
        self.encoder.resize(w, h);
        self.drops.clear();
        self.splashes.clear();
        self.streams.clear();
    }

    /// Advances the simulation by one step and encodes the result.
    pub fn tick(&mut self)
        requires
            old(self).wf(),
        ensures
            final(self).wf(),
            final(self).scene_spec() == old(self).scene_spec(),
            final(self).w_spec() == old(self).w_spec(),
            final(self).h_spec() == old(self).h_spec(),
            final(self).state() == tick_state(&old(self).scene_spec(), old(self).w_spec(), old(self).h_spec(),
                old(self).scale_x_spec(), old(self).scale_y_spec(), old(self).state()),
            final(self).state().drops.len() <= MAX_DROPS,
            final(self).state().splashes.len() <= MAX_SPLASHES,
            final(self).state().streams.len() <= MAX_STREAMS,
            final(self).output_spec() == frame(old(self).w_spec() as int, old(self).h_spec() as int,
                final(self).state()),
    {
        self.encoder.clear();
        let spawn_count = (self.w / 64 + 1) as usize;
        self.drops.spawn(spawn_count, self.w, &mut self.rng);
        let older = self.streams.len();
        let ghost before = (Seq::<Droplet>::empty(), self.splashes@, self.streams@, self.rng);
        let ghost falling = self.drops@;
        self.drops.update(&self.scene, self.w, self.h, self.scale_x, self.scale_y, &mut self.splashes,
            &mut self.streams, &mut self.rng);
        proof {
            lemma_drop_pass_appends_streams(&self.scene, self.w, self.h, self.scale_x, self.scale_y, before, falling);
        }
        self.splashes.update();
        self.streams.update(&self.scene, self.w, self.h, self.scale_x, self.scale_y, older, &mut self.splashes);
        self.encoder.encode_drops(&self.drops);
        self.encoder.encode_splashes(&self.splashes);
        self.encoder.encode_streams(&self.streams);
    }

    /// Advances the xorshift generator and returns a draw in `[0, DRAW_ONE)`,
    /// standing for the fraction `draw / DRAW_ONE`.
    pub fn rand(rng: &mut u32) -> (r: i64)
        ensures
            *final(rng) == xorshift(*old(rng)),
            r == draw_of(*old(rng)),
            0 <= r < DRAW_ONE,
    {
        let s = *rng;
        let a = s ^ (s << 13u32);
        let b = a ^ (a >> 17u32);
        let c = b ^ (b << 5u32);
        *rng = c;
        assert(c >> 8u32 < 16777216u32) by (bit_vector);
        (c >> 8u32) as i64
    }

    /// The encoded buffer, for a renderer to read in place.
    pub fn output_ptr(&self) -> (r: &[u8])
        requires
            self.wf(),
        ensures
            r@ == self.output_spec(),
    {
        self.encoder.ptr()
    }

    /// The length of the encoded buffer: width times height.
    pub fn output_len(&self) -> (r: usize)
        requires
            self.wf(),
        ensures
            r == self.output_spec().len(),
            r == self.w_spec() * self.h_spec(),
    {
        self.encoder.len()
    }

    /// The screen width in pixels.
    pub fn width(&self) -> (r: u32)
        ensures
            r == self.w_spec(),
    {
        self.w
    }

    /// The screen height in pixels.
    pub fn height(&self) -> (r: u32)
        ensures
            r == self.h_spec(),
    {
        self.h
    }

    /// The live droplets.
    pub fn drops(&self) -> (r: &Droplets)
        ensures
            r@ == self.state().drops,
    {
        &self.drops
    }

    /// The live splashes.
    pub fn splashes(&self) -> (r: &Splashes)
        ensures
            r@ == self.state().splashes,
    {
        &self.splashes
    }

    /// The live streams.
    pub fn streams(&self) -> (r: &Streams)
        ensures
            r@ == self.state().streams,
    {
        &self.streams
    }
}

} // verus!
