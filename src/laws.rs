//! Properties that hold across calls: the order kept by compaction, the
//! animation and life counters, and how overlapping codes resolve.
use vstd::prelude::*;
use crate::fixed::{ONE, draw_of, raster_coord_spec};
use crate::scene::Scene;
use crate::terrain::hits_surface_at;
use crate::flow::{flow_at, has_flow_at};
use crate::droplet::{Droplet, drop_pass, drop_step, meets_surface, ground_line, chance, SLIDE_CHANCE_TENTHS};
use crate::splash::{Splash, MAX_SPLASHES, SPLASH_FRAMES, aged_splashes};
use crate::stream::{Stream, MAX_STREAMS, FLOW_LIFETIME, STREAM_MARGIN, STREAM_SEED, stream_pass, stream_step, flow_step};
use crate::render::{Pixel, plot, paint, zeros, drops_marks, splashes_marks, streams_marks, lemma_paint_append};
use crate::world::{WorldState, frame, tick_state};

verus! {

/// Whether droplet `d` survives an update: it neither meets a surface nor
/// passes its ground line.
pub open spec fn drop_survives(sc: &Scene, w: u32, h: u32, scale_x: u64, scale_y: u64, d: Droplet) -> bool {
    !meets_surface(sc, w, h, scale_x, scale_y, d, d.y + d.v) && !(d.y + d.v > ground_line(h as int, d.z as int))
}

/// The slot that droplet `i` of `ds` takes after an update: the number of
/// droplets kept before it.
pub open spec fn drop_rank(sc: &Scene, w: u32, h: u32, scale_x: u64, scale_y: u64,
    init: (Seq<Droplet>, Seq<Splash>, Seq<Stream>, u32), ds: Seq<Droplet>, i: int) -> int {
    drop_pass(sc, w, h, scale_x, scale_y, init, ds.take(i)).0.len() as int
}

proof fn lemma_drop_prefix(sc: &Scene, w: u32, h: u32, scale_x: u64, scale_y: u64,
    init: (Seq<Droplet>, Seq<Splash>, Seq<Stream>, u32), ds: Seq<Droplet>, k: int, m: int)
    requires
        0 <= k <= m <= ds.len(),
    ensures
        drop_pass(sc, w, h, scale_x, scale_y, init, ds.take(k)).0
            == drop_pass(sc, w, h, scale_x, scale_y, init, ds.take(m)).0.take(
                drop_pass(sc, w, h, scale_x, scale_y, init, ds.take(k)).0.len() as int),
        drop_pass(sc, w, h, scale_x, scale_y, init, ds.take(k)).0.len()
            <= drop_pass(sc, w, h, scale_x, scale_y, init, ds.take(m)).0.len(),
    decreases m - k,
{
    let a = drop_pass(sc, w, h, scale_x, scale_y, init, ds.take(k)).0;
    if k == m {
        assert(a.take(a.len() as int) =~= a);
    } else {
        lemma_drop_prefix(sc, w, h, scale_x, scale_y, init, ds, k, m - 1);
        assert(ds.take(m).drop_last() =~= ds.take(m - 1));
        let b = drop_pass(sc, w, h, scale_x, scale_y, init, ds.take(m - 1)).0;
        let c = drop_pass(sc, w, h, scale_x, scale_y, init, ds.take(m)).0;
        assert(c == b || c == b.push(Droplet { y: (ds[m - 1].y + ds[m - 1].v) as i64, ..ds[m - 1] }));
        assert(c.take(a.len() as int) =~= b.take(a.len() as int));
    }
}

/// Compaction keeps the order of the droplets that survive: if droplets `i`
/// and `j > i` both survive an update, `i` lands in an earlier slot than
/// `j`, and each slot holds its droplet advanced by its speed.
pub proof fn law_drops_keep_order(sc: &Scene, w: u32, h: u32, scale_x: u64, scale_y: u64,
    init: (Seq<Droplet>, Seq<Splash>, Seq<Stream>, u32), ds: Seq<Droplet>, i: int, j: int)
    requires
        0 <= i < j < ds.len(),
        drop_survives(sc, w, h, scale_x, scale_y, ds[i]),
        drop_survives(sc, w, h, scale_x, scale_y, ds[j]),
    ensures
        drop_rank(sc, w, h, scale_x, scale_y, init, ds, i) < drop_rank(sc, w, h, scale_x, scale_y, init, ds, j),
        drop_pass(sc, w, h, scale_x, scale_y, init, ds).0[drop_rank(sc, w, h, scale_x, scale_y, init, ds, i)]
            == (Droplet { y: (ds[i].y + ds[i].v) as i64, ..ds[i] }),
        drop_pass(sc, w, h, scale_x, scale_y, init, ds).0[drop_rank(sc, w, h, scale_x, scale_y, init, ds, j)]
            == (Droplet { y: (ds[j].y + ds[j].v) as i64, ..ds[j] }),
{
    assert(ds.take(ds.len() as int) =~= ds);
    assert(ds.take(i + 1).drop_last() =~= ds.take(i));
    assert(ds.take(j + 1).drop_last() =~= ds.take(j));
    lemma_drop_prefix(sc, w, h, scale_x, scale_y, init, ds, i + 1, j);
    lemma_drop_prefix(sc, w, h, scale_x, scale_y, init, ds, i + 1, ds.len() as int);
    lemma_drop_prefix(sc, w, h, scale_x, scale_y, init, ds, j + 1, ds.len() as int);
    let full = drop_pass(sc, w, h, scale_x, scale_y, init, ds).0;
    let pi = drop_pass(sc, w, h, scale_x, scale_y, init, ds.take(i)).0;
    let pi1 = drop_pass(sc, w, h, scale_x, scale_y, init, ds.take(i + 1)).0;
    assert(pi1 == pi.push(Droplet { y: (ds[i].y + ds[i].v) as i64, ..ds[i] }));
    assert(full[pi.len() as int] == pi1[pi.len() as int]);
    let pj = drop_pass(sc, w, h, scale_x, scale_y, init, ds.take(j)).0;
    let pj1 = drop_pass(sc, w, h, scale_x, scale_y, init, ds.take(j + 1)).0;
    assert(pj1 == pj.push(Droplet { y: (ds[j].y + ds[j].v) as i64, ..ds[j] }));
    assert(full[pj.len() as int] == pj1[pj.len() as int]);
}

/// The slot that splash `i` of `ss` takes after an update.
pub open spec fn splash_rank(ss: Seq<Splash>, i: int) -> int {
    aged_splashes(ss.take(i)).len() as int
}

proof fn lemma_splash_prefix(ss: Seq<Splash>, k: int, m: int)
    requires
        0 <= k <= m <= ss.len(),
    ensures
        aged_splashes(ss.take(k)) == aged_splashes(ss.take(m)).take(aged_splashes(ss.take(k)).len() as int),
        aged_splashes(ss.take(k)).len() <= aged_splashes(ss.take(m)).len(),
    decreases m - k,
{
    let a = aged_splashes(ss.take(k));
    if k == m {
        assert(a.take(a.len() as int) =~= a);
    } else {
        lemma_splash_prefix(ss, k, m - 1);
        assert(ss.take(m).drop_last() =~= ss.take(m - 1));
        let b = aged_splashes(ss.take(m - 1));
        let c = aged_splashes(ss.take(m));
        assert(c.take(a.len() as int) =~= b.take(a.len() as int));
    }
}

proof fn lemma_splash_frames(ss: Seq<Splash>)
    ensures
        forall|k: int| 0 <= k < aged_splashes(ss).len() ==>
            1 <= #[trigger] aged_splashes(ss)[k].frame < SPLASH_FRAMES,
    decreases ss.len(),
{
    if ss.len() > 0 {
        lemma_splash_frames(ss.drop_last());
        let rest = aged_splashes(ss.drop_last());
        assert forall|k: int| 0 <= k < aged_splashes(ss).len() implies
            1 <= #[trigger] aged_splashes(ss)[k].frame < SPLASH_FRAMES by {
            if k < rest.len() {
                assert(aged_splashes(ss)[k] == rest[k]);
            }
        }
    }
}

/// Compaction keeps the order of the splashes that survive: if splashes `i`
/// and `j > i` both survive an update, `i` lands in an earlier slot than `j`.
pub proof fn law_splashes_keep_order(ss: Seq<Splash>, i: int, j: int)
    requires
        0 <= i < j < ss.len(),
        ss[i].frame + 1 < SPLASH_FRAMES,
        ss[j].frame + 1 < SPLASH_FRAMES,
    ensures
        splash_rank(ss, i) < splash_rank(ss, j),
        aged_splashes(ss)[splash_rank(ss, i)] == (Splash { frame: (ss[i].frame + 1) as u8, ..ss[i] }),
        aged_splashes(ss)[splash_rank(ss, j)] == (Splash { frame: (ss[j].frame + 1) as u8, ..ss[j] }),
{
    law_splash_frame_advances(ss, i);
    law_splash_frame_advances(ss, j);
    assert(ss.take(i + 1).drop_last() =~= ss.take(i));
    lemma_splash_prefix(ss, i + 1, j);
}

/// A splash's frame advances by exactly one per update, and nothing else of
/// it changes, until the frame would reach `SPLASH_FRAMES`; after an update
/// every splash has a frame in `[1, SPLASH_FRAMES)`.
pub proof fn law_splash_frame_advances(ss: Seq<Splash>, i: int)
    requires
        0 <= i < ss.len(),
    ensures
        ss[i].frame + 1 < SPLASH_FRAMES ==>
            aged_splashes(ss)[splash_rank(ss, i)] == (Splash { frame: (ss[i].frame + 1) as u8, ..ss[i] }),
        forall|k: int| 0 <= k < aged_splashes(ss).len() ==>
            1 <= #[trigger] aged_splashes(ss)[k].frame < SPLASH_FRAMES,
{
    lemma_splash_frames(ss);
    assert(ss.take(ss.len() as int) =~= ss);
    assert(ss.take(i + 1).drop_last() =~= ss.take(i));
    lemma_splash_prefix(ss, i + 1, ss.len() as int);
    let pi = aged_splashes(ss.take(i));
    let pi1 = aged_splashes(ss.take(i + 1));
    if ss[i].frame + 1 < SPLASH_FRAMES {
        assert(pi1 == pi.push(Splash { frame: (ss[i].frame + 1) as u8, ..ss[i] }));
        assert(aged_splashes(ss)[pi.len() as int] == pi1[pi.len() as int]);
    }
}

/// The stream that `t` becomes when it survives an update: moved along the
/// flow and one tick older; `None` when it leaves the screen or its surface,
/// pools, or has no life left.
pub open spec fn stream_next(sc: &Scene, w: u32, h: u32, scale_x: u64, scale_y: u64, t: Stream) -> Option<Stream> {
    let f = flow_at(sc, raster_coord_spec(t.x as int, scale_x as int), raster_coord_spec(t.y as int, scale_y as int));
    let x = t.x + flow_step(f.0 as int, t.z as int);
    let y = t.y + flow_step(f.1 as int, t.z as int);
    let bx = raster_coord_spec(x, scale_x as int);
    let by = raster_coord_spec(y, scale_y as int);
    if t.life <= 1 || !(0 <= x < w * ONE && 0 <= y < h * ONE) || !hits_surface_at(sc, bx, by, t.z as int,
        STREAM_MARGIN as int) || !has_flow_at(sc, bx, by) {
        None
    } else {
        Some(Stream { x: x as i64, y: y as i64, z: t.z, life: (t.life - 1) as u8 })
    }
}

/// The slot that stream `i` of `ts` takes after an update.
pub open spec fn stream_rank(sc: &Scene, w: u32, h: u32, scale_x: u64, scale_y: u64,
    init: (Seq<Stream>, Seq<Splash>, u32), ts: Seq<Stream>, i: int) -> int {
    stream_pass(sc, w, h, scale_x, scale_y, init, ts.take(i)).0.len() as int
}

proof fn lemma_stream_step_kept(sc: &Scene, w: u32, h: u32, scale_x: u64, scale_y: u64,
    acc: (Seq<Stream>, Seq<Splash>, u32), t: Stream)
    ensures
        stream_step(sc, w, h, scale_x, scale_y, acc, t).0 == match stream_next(sc, w, h, scale_x, scale_y, t) {
            Some(u) => acc.0.push(u),
            None => acc.0,
        },
{
}

proof fn lemma_stream_prefix(sc: &Scene, w: u32, h: u32, scale_x: u64, scale_y: u64,
    init: (Seq<Stream>, Seq<Splash>, u32), ts: Seq<Stream>, k: int, m: int)
    requires
        0 <= k <= m <= ts.len(),
    ensures
        stream_pass(sc, w, h, scale_x, scale_y, init, ts.take(k)).0
            == stream_pass(sc, w, h, scale_x, scale_y, init, ts.take(m)).0.take(
                stream_pass(sc, w, h, scale_x, scale_y, init, ts.take(k)).0.len() as int),
        stream_pass(sc, w, h, scale_x, scale_y, init, ts.take(k)).0.len()
            <= stream_pass(sc, w, h, scale_x, scale_y, init, ts.take(m)).0.len(),
    decreases m - k,
{
    let a = stream_pass(sc, w, h, scale_x, scale_y, init, ts.take(k)).0;
    if k == m {
        assert(a.take(a.len() as int) =~= a);
    } else {
        lemma_stream_prefix(sc, w, h, scale_x, scale_y, init, ts, k, m - 1);
        assert(ts.take(m).drop_last() =~= ts.take(m - 1));
        let prev = stream_pass(sc, w, h, scale_x, scale_y, init, ts.take(m - 1));
        lemma_stream_step_kept(sc, w, h, scale_x, scale_y, prev, ts[m - 1]);
        let c = stream_pass(sc, w, h, scale_x, scale_y, init, ts.take(m)).0;
        assert(c.take(a.len() as int) =~= prev.0.take(a.len() as int));
    }
}

proof fn lemma_stream_lives(sc: &Scene, w: u32, h: u32, scale_x: u64, scale_y: u64, init: (Seq<Stream>, Seq<Splash>, u32),
    ts: Seq<Stream>)
    requires
        forall|k: int| 0 <= k < init.0.len() ==> #[trigger] init.0[k].life >= 1,
    ensures
        forall|k: int| 0 <= k < stream_pass(sc, w, h, scale_x, scale_y, init, ts).0.len() ==>
            #[trigger] stream_pass(sc, w, h, scale_x, scale_y, init, ts).0[k].life >= 1,
    decreases ts.len(),
{
    if ts.len() > 0 {
        lemma_stream_lives(sc, w, h, scale_x, scale_y, init, ts.drop_last());
        let prev = stream_pass(sc, w, h, scale_x, scale_y, init, ts.drop_last());
        lemma_stream_step_kept(sc, w, h, scale_x, scale_y, prev, ts.last());
        let cur = stream_pass(sc, w, h, scale_x, scale_y, init, ts).0;
        assert forall|k: int| 0 <= k < cur.len() implies #[trigger] cur[k].life >= 1 by {
            if k < prev.0.len() {
                assert(cur[k] == prev.0[k]);
            }
        }
    }
}

/// A stream that survives an update has lost exactly one unit of life, and
/// after an update no stream is left with no life.
pub proof fn law_stream_life_decreases(sc: &Scene, w: u32, h: u32, scale_x: u64, scale_y: u64, splashes: Seq<Splash>,
    rng: u32, ts: Seq<Stream>, i: int)
    requires
        0 <= i < ts.len(),
    ensures
        stream_next(sc, w, h, scale_x, scale_y, ts[i]) matches Some(u) ==> {
            &&& u.life == ts[i].life - 1
            &&& stream_pass(sc, w, h, scale_x, scale_y, (Seq::empty(), splashes, rng), ts).0[
                stream_rank(sc, w, h, scale_x, scale_y, (Seq::empty(), splashes, rng), ts, i)] == u
        },
        forall|k: int| 0 <= k < stream_pass(sc, w, h, scale_x, scale_y, (Seq::empty(), splashes, rng), ts).0.len() ==>
            #[trigger] stream_pass(sc, w, h, scale_x, scale_y, (Seq::empty(), splashes, rng), ts).0[k].life >= 1,
{
    let init = (Seq::<Stream>::empty(), splashes, rng);
    lemma_stream_lives(sc, w, h, scale_x, scale_y, init, ts);
    lemma_stream_lands(sc, w, h, scale_x, scale_y, init, ts, i);
}

proof fn lemma_stream_lands(sc: &Scene, w: u32, h: u32, scale_x: u64, scale_y: u64, init: (Seq<Stream>, Seq<Splash>, u32),
    ts: Seq<Stream>, i: int)
    requires
        0 <= i < ts.len(),
    ensures
        stream_next(sc, w, h, scale_x, scale_y, ts[i]) matches Some(u) ==> {
            &&& stream_rank(sc, w, h, scale_x, scale_y, init, ts, i) < stream_rank(sc, w, h, scale_x, scale_y, init, ts, i + 1)
            &&& stream_pass(sc, w, h, scale_x, scale_y, init, ts).0[stream_rank(sc, w, h, scale_x, scale_y, init, ts, i)] == u
        },
{
    assert(ts.take(ts.len() as int) =~= ts);
    assert(ts.take(i + 1).drop_last() =~= ts.take(i));
    lemma_stream_prefix(sc, w, h, scale_x, scale_y, init, ts, i + 1, ts.len() as int);
    let prev = stream_pass(sc, w, h, scale_x, scale_y, init, ts.take(i));
    lemma_stream_step_kept(sc, w, h, scale_x, scale_y, prev, ts[i]);
    let pi1 = stream_pass(sc, w, h, scale_x, scale_y, init, ts.take(i + 1)).0;
    if stream_next(sc, w, h, scale_x, scale_y, ts[i]) is Some {
        assert(stream_pass(sc, w, h, scale_x, scale_y, init, ts).0[prev.0.len() as int] == pi1[prev.0.len() as int]);
    }
}

/// Compaction keeps the order of the streams that survive: if streams `i`
/// and `j > i` both survive an update, `i` lands in an earlier slot than `j`.
pub proof fn law_streams_keep_order(sc: &Scene, w: u32, h: u32, scale_x: u64, scale_y: u64,
    init: (Seq<Stream>, Seq<Splash>, u32), ts: Seq<Stream>, i: int, j: int)
    requires
        0 <= i < j < ts.len(),
        stream_next(sc, w, h, scale_x, scale_y, ts[i]) is Some,
        stream_next(sc, w, h, scale_x, scale_y, ts[j]) is Some,
    ensures
        stream_rank(sc, w, h, scale_x, scale_y, init, ts, i) < stream_rank(sc, w, h, scale_x, scale_y, init, ts, j),
        stream_pass(sc, w, h, scale_x, scale_y, init, ts).0[stream_rank(sc, w, h, scale_x, scale_y, init, ts, i)]
            == stream_next(sc, w, h, scale_x, scale_y, ts[i])->0,
        stream_pass(sc, w, h, scale_x, scale_y, init, ts).0[stream_rank(sc, w, h, scale_x, scale_y, init, ts, j)]
            == stream_next(sc, w, h, scale_x, scale_y, ts[j])->0,
{
    lemma_stream_lands(sc, w, h, scale_x, scale_y, init, ts, i);
    lemma_stream_lands(sc, w, h, scale_x, scale_y, init, ts, j);
    lemma_stream_prefix(sc, w, h, scale_x, scale_y, init, ts, i + 1, j);
}

/// Whether pixel `p` lands on byte `idx` of a `w` by `h` buffer.
pub open spec fn lands_on(p: Pixel, w: int, h: int, idx: int) -> bool {
    0 <= p.0 < w && 0 <= p.1 < h && p.1 * w + p.0 == idx
}

/// The largest code among the pixels of `ps` that land on byte `idx`, and
/// 0 when none does.
pub open spec fn max_code_at(ps: Seq<Pixel>, w: int, h: int, idx: int) -> int
    decreases ps.len(),
{
    if ps.len() == 0 {
        0
    } else {
        let m = max_code_at(ps.drop_last(), w, h, idx);
        if lands_on(ps.last(), w, h, idx) && ps.last().2 > m { ps.last().2 as int } else { m }
    }
}

/// The larger of `a` and `b`.
pub open spec fn max(a: int, b: int) -> int {
    if a >= b { a } else { b }
}

/// Overlapping writes resolve to the maximum: after painting `ps` into a
/// `w` by `h` buffer, each byte holds the larger of what it held and the
/// largest code that landed on it, whatever the order of the writes.
pub proof fn law_paint_is_max(out: Seq<u8>, w: int, h: int, ps: Seq<Pixel>)
    requires
        w >= 0,
        h >= 0,
        out.len() == w * h,
    ensures
        paint(out, w, h, ps).len() == out.len(),
        forall|idx: int| 0 <= idx < out.len() ==>
            #[trigger] paint(out, w, h, ps)[idx] as int == max(out[idx] as int, max_code_at(ps, w, h, idx)),
    decreases ps.len(),
{
    if ps.len() > 0 {
        law_paint_is_max(out, w, h, ps.drop_last());
        let prev = paint(out, w, h, ps.drop_last());
        let p = ps.last();
        if 0 <= p.0 < w && 0 <= p.1 < h {
            assert(0 <= p.1 * w + p.0 < w * h) by (nonlinear_arith)
                requires 0 <= p.0 < w, 0 <= p.1 < h;
        }
        assert forall|idx: int| 0 <= idx < out.len() implies
            #[trigger] paint(out, w, h, ps)[idx] as int == max(out[idx] as int, max_code_at(ps, w, h, idx)) by {
            assert(paint(out, w, h, ps) == plot(prev, w, h, p));
        }
    }
}

/// Encoding is idempotent: painting the same pixels again onto a buffer
/// that already holds them changes nothing.
pub proof fn law_paint_idempotent(out: Seq<u8>, w: int, h: int, ps: Seq<Pixel>)
    requires
        w >= 0,
        h >= 0,
        out.len() == w * h,
    ensures
        paint(paint(out, w, h, ps), w, h, ps) == paint(out, w, h, ps),
{
    let once = paint(out, w, h, ps);
    law_paint_is_max(out, w, h, ps);
    law_paint_is_max(once, w, h, ps);
    assert(paint(once, w, h, ps) =~= once);
}

/// Each byte of a tick's output is the largest code that any droplet,
/// splash or stream of the final state writes to that pixel, and 0 where
/// none does.
pub proof fn law_frame_is_max(w: int, h: int, st: WorldState)
    requires
        w >= 0,
        h >= 0,
    ensures
        frame(w, h, st).len() == w * h,
        forall|idx: int| 0 <= idx < w * h ==> #[trigger] frame(w, h, st)[idx] as int
            == max_code_at(drops_marks(st.drops) + splashes_marks(st.splashes) + streams_marks(st.streams), w, h, idx),
{
    let z = zeros(w * h);
    assert(w * h >= 0) by (nonlinear_arith)
        requires w >= 0, h >= 0;
    let all = drops_marks(st.drops) + splashes_marks(st.splashes) + streams_marks(st.streams);
    lemma_paint_append(z, w, h, drops_marks(st.drops), splashes_marks(st.splashes));
    lemma_paint_append(z, w, h, drops_marks(st.drops) + splashes_marks(st.splashes), streams_marks(st.streams));
    law_paint_is_max(z, w, h, all);
    assert forall|idx: int| 0 <= idx < w * h implies #[trigger] frame(w, h, st)[idx] as int == max_code_at(all, w, h, idx) by {
        lemma_max_code_nonneg(all, w, h, idx);
    }
}

proof fn lemma_max_code_nonneg(ps: Seq<Pixel>, w: int, h: int, idx: int)
    ensures
        max_code_at(ps, w, h, idx) >= 0,
    decreases ps.len(),
{
    if ps.len() > 0 {
        lemma_max_code_nonneg(ps.drop_last(), w, h, idx);
    }
}

/// Encoding a tick's final state again onto its own output changes no byte.
pub proof fn law_frame_reencode(w: int, h: int, st: WorldState)
    requires
        w >= 0,
        h >= 0,
    ensures
        paint(frame(w, h, st), w, h, drops_marks(st.drops) + splashes_marks(st.splashes) + streams_marks(st.streams))
            == frame(w, h, st),
{
    let z = zeros(w * h);
    assert(w * h >= 0) by (nonlinear_arith)
        requires w >= 0, h >= 0;
    let all = drops_marks(st.drops) + splashes_marks(st.splashes) + streams_marks(st.streams);
    lemma_paint_append(z, w, h, drops_marks(st.drops), splashes_marks(st.splashes));
    lemma_paint_append(z, w, h, drops_marks(st.drops) + splashes_marks(st.splashes), streams_marks(st.streams));
    law_paint_idempotent(z, w, h, all);
}

/// A droplet that meets a flowing surface while the generator's next draw
/// is below the slide chance leaves exactly one new stream, at its position
/// with full life, and exactly one new splash, and is itself removed (when
/// neither population is full).
pub proof fn law_slide_spawns_stream_and_splash(sc: &Scene, w: u32, h: u32, scale_x: u64, scale_y: u64,
    acc: (Seq<Droplet>, Seq<Splash>, Seq<Stream>, u32), d: Droplet)
    requires
        meets_surface(sc, w, h, scale_x, scale_y, d, d.y + d.v),
        has_flow_at(sc, raster_coord_spec(d.x as int, scale_x as int), raster_coord_spec(d.y + d.v, scale_y as int)),
        chance(draw_of(acc.3), SLIDE_CHANCE_TENTHS as int),
        acc.1.len() < MAX_SPLASHES,
        acc.2.len() < MAX_STREAMS,
    ensures
        drop_step(sc, w, h, scale_x, scale_y, acc, d).0 == acc.0,
        drop_step(sc, w, h, scale_x, scale_y, acc, d).1.len() == acc.1.len() + 1,
        drop_step(sc, w, h, scale_x, scale_y, acc, d).1.drop_last() == acc.1,
        drop_step(sc, w, h, scale_x, scale_y, acc, d).2
            == acc.2.push(Stream { x: d.x, y: (d.y + d.v) as i64, z: d.z, life: FLOW_LIFETIME }),
{
    let r = drop_step(sc, w, h, scale_x, scale_y, acc, d);
    assert(r.1.drop_last() =~= acc.1);
}

/// Over a scene where no cell has flow, droplets never become streams.
proof fn lemma_no_flow_keeps_streams(sc: &Scene, w: u32, h: u32, scale_x: u64, scale_y: u64,
    init: (Seq<Droplet>, Seq<Splash>, Seq<Stream>, u32), ds: Seq<Droplet>)
    requires
        forall|x: int, y: int| !#[trigger] has_flow_at(sc, x, y),
    ensures
        drop_pass(sc, w, h, scale_x, scale_y, init, ds).2 == init.2,
    decreases ds.len(),
{
    if ds.len() > 0 {
        lemma_no_flow_keeps_streams(sc, w, h, scale_x, scale_y, init, ds.drop_last());
    }
}

/// Over a scene where no cell has flow, a tick that starts without streams
/// ends without streams.
pub proof fn law_no_flow_no_streams(sc: &Scene, w: u32, h: u32, scale_x: u64, scale_y: u64, st: WorldState)
    requires
        forall|x: int, y: int| !#[trigger] has_flow_at(sc, x, y),
        st.streams.len() == 0,
    ensures
        tick_state(sc, w, h, scale_x, scale_y, st).streams.len() == 0,
{
    let (spawned, rng1) = crate::droplet::spawn_drops_spec(st.drops, st.rng,
        crate::world::spawn_count(w as int) as nat, w as int);
    let init = (Seq::<Droplet>::empty(), st.splashes, st.streams, rng1);
    lemma_no_flow_keeps_streams(sc, w, h, scale_x, scale_y, init, spawned);
    let p = drop_pass(sc, w, h, scale_x, scale_y, init, spawned);
    assert(p.2.len() == 0);
    assert(p.2.take(0) =~= Seq::<Stream>::empty());
    assert(p.2.skip(0) =~= Seq::<Stream>::empty());
    assert(stream_pass(sc, w, h, scale_x, scale_y, (Seq::empty(), aged_splashes(p.1), STREAM_SEED), p.2.take(0)).0.len() == 0);
}

} // verus!
