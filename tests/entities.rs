use droplet_engine::droplet::{VEL_FAR, VEL_NEAR};
use droplet_engine::{
    Droplet, Droplets, RainWorld, Scene, Splash, Splashes, Stream, Streams, CROWN, DRAW_ONE, LEFT_BURST, MAX_DROPS,
    MAX_SPLASHES, MAX_STREAMS, ONE, RIGHT_BURST, SEED, SPRAY,
};

fn xs(s: u32) -> u32 {
    let mut s = s;
    s ^= s << 13;
    s ^= s >> 17;
    s ^= s << 5;
    s
}

fn draw(s: u32) -> i64 {
    (xs(s) >> 8) as i64
}

/// A seed whose first draw is below (or not below) `tenths / 10`.
fn seed_with_first_draw(tenths: i64, below: bool) -> u32 {
    let mut s: u32 = 1;
    while (draw(s) * 10 < tenths * DRAW_ONE) != below {
        s += 1;
    }
    s
}

/// A `w` by `h` raster with the same depth, flow, normal and ground in every cell.
fn uniform_scene(w: usize, h: usize, depth: u8, fx: i8, fy: i8, nx: i8, ground: u8) -> Scene {
    let n = w * h;
    Scene::new(w, h, vec![depth; n], vec![nx; n], vec![0; n], vec![fx; n], vec![fy; n], vec![ground; n]).unwrap()
}

/// The scale factor of a screen as wide as the raster.
const UNIT_SCALE: u64 = 1 << 32;

#[test]
fn rand_replays_xorshift() {
    let mut rng = SEED;
    for _ in 0..20 {
        let before = rng;
        let r = RainWorld::rand(&mut rng);
        assert_eq!(rng, xs(before));
        assert_eq!(r, (xs(before) >> 8) as i64);
        assert!(r >= 0 && r < DRAW_ONE);
    }
}

#[test]
fn droplet_spawn_follows_draws() {
    let mut d = Droplets::new();
    let mut rng: u32 = 12345;
    d.spawn(3, 640, &mut rng);
    assert_eq!(d.len(), 3);
    let mut s: u32 = 12345;
    for i in 0..3 {
        let r1 = draw(s);
        s = xs(s);
        let r2 = draw(s);
        s = xs(s);
        let r3 = draw(s);
        s = xs(s);
        let r4 = draw(s);
        s = xs(s);
        let z = r1 / 256;
        let v = (VEL_NEAR - (VEL_NEAR - VEL_FAR) * z / ONE) * (4 * DRAW_ONE + 2 * r4) / (5 * DRAW_ONE);
        let got = d.get(i);
        assert_eq!(got, Droplet { x: r2 * 640 / 256, y: -(r3 * 15 / 256), z, v });
        assert!(got.x >= 0 && got.x < 640 * ONE);
        assert!(got.y <= 0 && got.y > -15 * ONE);
        // Speed in pixels: lerp(1.7, 0.35, z) times [0.8, 1.2].
        let zf = z as f64 / ONE as f64;
        let base = 1.7 + (0.35 - 1.7) * zf;
        let vf = v as f64 / ONE as f64;
        assert!(vf >= base * 0.8 - 0.001 && vf <= base * 1.2 + 0.001);
    }
    assert_eq!(rng, s);
}

#[test]
fn nearer_droplets_fall_faster() {
    let mut d = Droplets::new();
    let mut rng: u32 = 99;
    d.spawn(200, 100, &mut rng);
    for i in 0..d.len() {
        for j in 0..d.len() {
            let (a, b) = (d.get(i), d.get(j));
            if a.z + 3 * ONE / 4 < b.z {
                assert!(a.v > b.v);
            }
        }
    }
}

#[test]
fn droplet_spawn_stops_at_capacity() {
    let mut d = Droplets::new();
    let mut rng: u32 = 7;
    d.spawn(MAX_DROPS - 1, 100, &mut rng);
    assert_eq!(d.len(), MAX_DROPS - 1);
    d.spawn(5, 100, &mut rng);
    assert_eq!(d.len(), MAX_DROPS);
    let before = rng;
    d.spawn(5, 100, &mut rng);
    assert_eq!(d.len(), MAX_DROPS);
    assert_eq!(rng, before);
    d.clear();
    assert_eq!(d.len(), 0);
}

#[test]
fn droplet_insert_checks_validity() {
    let mut d = Droplets::new();
    assert!(d.insert(Droplet { x: 0, y: 0, z: 0, v: 1 }));
    assert!(d.insert(Droplet { x: 0, y: 0, z: ONE, v: 1 }));
    assert!(!d.insert(Droplet { x: 0, y: 0, z: ONE + 1, v: 1 }));
    assert!(!d.insert(Droplet { x: 0, y: 0, z: 0, v: 0 }));
    assert_eq!(d.len(), 2);
}

#[test]
fn splash_spawn_jitters_and_biases() {
    let mut s = Splashes::new();
    let mut rng: u32 = 4242;
    s.spawn(10 * ONE, 20 * ONE, ONE / 3, SPRAY, &mut rng);
    let r1 = draw(4242);
    let r2 = draw(xs(4242));
    let sp = s.get(0);
    assert_eq!(sp.x, 10 * ONE + r1 / 64 - 2 * ONE);
    assert!(sp.x >= 8 * ONE && sp.x < 12 * ONE);
    assert_eq!(sp.y, 20 * ONE);
    assert_eq!(sp.z, ONE / 3);
    assert_eq!(sp.frame, 0);
    assert_eq!(sp.dir as i64, r2 * 5 / DRAW_ONE - 2);
    assert!(sp.dir >= -2 && sp.dir <= 2);
    assert_eq!(sp.typ, SPRAY);
    assert_eq!(rng, xs(xs(4242)));
}

#[test]
fn splash_spawn_when_full_draws_nothing() {
    let mut s = Splashes::new();
    let mut rng: u32 = 1;
    for _ in 0..MAX_SPLASHES {
        s.spawn(0, 0, 0, CROWN, &mut rng);
    }
    assert_eq!(s.len(), MAX_SPLASHES);
    let before = rng;
    s.spawn(0, 0, 0, CROWN, &mut rng);
    s.spawn_with_normal(0, 0, 0, 127, 0, &mut rng);
    assert_eq!(s.len(), MAX_SPLASHES);
    assert_eq!(rng, before);
}

#[test]
fn splash_with_normal_follows_tilt() {
    for seed in 1..200u32 {
        for nx in [-127i8, -64, 0, 40, 127] {
            let mut s = Splashes::new();
            let mut rng = seed;
            s.spawn_with_normal(5 * ONE, 5 * ONE, 0, nx, 0, &mut rng);
            let sp = s.get(0);
            let r2 = draw(xs(seed)) as f64 / DRAW_ONE as f64;
            let r3 = draw(xs(xs(seed))) as f64 / DRAW_ONE as f64;
            let n = nx as f64 / 127.0;
            let dir = (n * 6.0 + (r2 - 0.5) * 2.0).clamp(-5.0, 5.0) as i8;
            assert_eq!(sp.dir, dir);
            if r3 < 0.3 + n.abs() * 0.6 {
                assert_eq!(sp.typ, if nx < 0 { LEFT_BURST } else { RIGHT_BURST });
                assert_eq!(rng, xs(xs(xs(seed))));
            } else {
                let r4 = draw(xs(xs(xs(seed)))) as f64 / DRAW_ONE as f64;
                assert_eq!(sp.typ, if r4 < 0.5 { CROWN } else { SPRAY });
                assert_eq!(rng, xs(xs(xs(xs(seed)))));
            }
        }
    }
}

#[test]
fn splash_frames_advance_until_removed() {
    let mut s = Splashes::new();
    assert!(s.insert(Splash { x: 0, y: 0, z: 0, frame: 0, dir: 0, typ: CROWN }));
    for k in 1..24u8 {
        s.update();
        assert_eq!(s.len(), 1);
        assert_eq!(s.get(0).frame, k);
    }
    assert_eq!(s.get(0).frame, 23);
    s.update();
    assert_eq!(s.len(), 0);
}

#[test]
fn splash_compaction_keeps_order() {
    let mut s = Splashes::new();
    for (i, f) in [22u8, 23, 5, 23, 0].iter().enumerate() {
        assert!(s.insert(Splash { x: i as i64, y: 0, z: 0, frame: *f, dir: 1, typ: SPRAY }));
    }
    s.update();
    assert_eq!(s.len(), 3);
    assert_eq!(s.get(0), Splash { x: 0, y: 0, z: 0, frame: 23, dir: 1, typ: SPRAY });
    assert_eq!(s.get(1), Splash { x: 2, y: 0, z: 0, frame: 6, dir: 1, typ: SPRAY });
    assert_eq!(s.get(2), Splash { x: 4, y: 0, z: 0, frame: 1, dir: 1, typ: SPRAY });
    s.update();
    assert_eq!(s.len(), 2);
    assert_eq!(s.get(0).x, 2);
    assert_eq!(s.get(1).x, 4);
}

#[test]
fn stream_spawn_has_full_life_and_capacity() {
    let mut t = Streams::new();
    t.spawn(ONE, 2 * ONE, 5);
    assert_eq!(t.get(0), Stream { x: ONE, y: 2 * ONE, z: 5, life: 120 });
    for _ in 1..MAX_STREAMS + 3 {
        t.spawn(0, 0, 0);
    }
    assert_eq!(t.len(), MAX_STREAMS);
}

#[test]
fn stream_moves_with_flow_and_loses_life() {
    let sc = uniform_scene(10, 10, 255, 127, 0, 0, 1);
    let mut t = Streams::new();
    let mut s = Splashes::new();
    t.spawn(ONE, 5 * ONE, 0);
    t.update(&sc, 10, 10, UNIT_SCALE, UNIT_SCALE, t.len(), &mut s);
    assert_eq!(t.len(), 1);
    // 0.4 pixels per tick at the nearest depth.
    assert_eq!(t.get(0), Stream { x: ONE + 127 * 2 * ONE / 635, y: 5 * ONE, z: 0, life: 119 });
    assert_eq!(s.len(), 0);
}

#[test]
fn stream_far_moves_slower() {
    let sc = uniform_scene(10, 10, 128, 0, 127, 0, 1);
    let mut t = Streams::new();
    let mut s = Splashes::new();
    // z = ONE / 2 gives depth byte 127, within the margin of 128.
    t.spawn(5 * ONE, ONE, ONE / 2);
    t.update(&sc, 10, 10, UNIT_SCALE, UNIT_SCALE, t.len(), &mut s);
    // 0.4 * (1 - 0.25) = 0.3 pixels.
    assert_eq!(t.get(0).y, ONE + 127 * (2 * ONE - ONE / 2) / 635);
    assert_eq!(t.get(0).life, 119);
}

#[test]
fn stream_life_runs_out_without_reaching_zero() {
    let sc = uniform_scene(10, 10, 255, 11, 0, 0, 1);
    let mut t = Streams::new();
    let mut s = Splashes::new();
    t.spawn(ONE / 2, ONE / 2, 0);
    for k in 1..120u8 {
        t.update(&sc, 10, 10, UNIT_SCALE, UNIT_SCALE, t.len(), &mut s);
        assert_eq!(t.len(), 1);
        assert_eq!(t.get(0).life, 120 - k);
    }
    t.update(&sc, 10, 10, UNIT_SCALE, UNIT_SCALE, t.len(), &mut s);
    assert_eq!(t.len(), 0);
    assert_eq!(s.len(), 0);
}

#[test]
fn stream_pools_into_crown() {
    // Flow in the left half only.
    let mut fx = vec![0i8; 100];
    for y in 0..10 {
        for x in 0..5 {
            fx[y * 10 + x] = 127;
        }
    }
    let sc = Scene::new(10, 10, vec![255; 100], vec![0; 100], vec![0; 100], fx, vec![0; 100], vec![1; 100]).unwrap();
    let mut t = Streams::new();
    let mut s = Splashes::new();
    t.spawn(5 * ONE - ONE / 10, 3 * ONE, 0);
    t.update(&sc, 10, 10, UNIT_SCALE, UNIT_SCALE, t.len(), &mut s);
    assert_eq!(t.len(), 0);
    assert_eq!(s.len(), 1);
    assert_eq!(s.get(0).typ, CROWN);
    assert_eq!(s.get(0).y, 3 * ONE);
}

#[test]
fn stream_falling_off_an_edge_sprays_while_fresh() {
    // Near geometry in the left half, far geometry in the right half.
    let mut depth = vec![255u8; 100];
    for y in 0..10 {
        for x in 5..10 {
            depth[y * 10 + x] = 60;
        }
    }
    let sc = Scene::new(10, 10, depth, vec![0; 100], vec![0; 100], vec![127; 100], vec![0; 100], vec![1; 100]).unwrap();
    let mut t = Streams::new();
    let mut s = Splashes::new();
    t.spawn(5 * ONE - ONE / 10, 3 * ONE, 0);
    t.update(&sc, 10, 10, UNIT_SCALE, UNIT_SCALE, t.len(), &mut s);
    assert_eq!(t.len(), 0);
    assert_eq!(s.len(), 1);
    assert_eq!(s.get(0).typ, SPRAY);
    // A stream with little life left falls off without a splash.
    let mut t = Streams::new();
    let mut s = Splashes::new();
    assert!(t.insert(Stream { x: 5 * ONE - ONE / 10, y: 3 * ONE, z: 0, life: 60 }));
    t.update(&sc, 10, 10, UNIT_SCALE, UNIT_SCALE, t.len(), &mut s);
    assert_eq!(t.len(), 0);
    assert_eq!(s.len(), 0);
}

#[test]
fn stream_leaving_the_screen_goes_silently() {
    let sc = uniform_scene(10, 10, 255, 127, 0, 0, 1);
    let mut t = Streams::new();
    let mut s = Splashes::new();
    t.spawn(10 * ONE - 1, ONE, 0);
    t.spawn(ONE, ONE, 0);
    t.update(&sc, 10, 10, UNIT_SCALE, UNIT_SCALE, t.len(), &mut s);
    assert_eq!(t.len(), 1);
    assert_eq!(t.get(0).x, ONE + 127 * 2 * ONE / 635);
    assert_eq!(s.len(), 0);
}

#[test]
fn droplet_sliding_onto_flowing_surface() {
    let sc = uniform_scene(10, 10, 255, 127, 127, 64, 1);
    let seed = seed_with_first_draw(6, true);
    let mut d = Droplets::new();
    let mut s = Splashes::new();
    let mut t = Streams::new();
    assert!(d.insert(Droplet { x: 5 * ONE, y: 5 * ONE, z: 0, v: ONE / 2 }));
    let mut rng = seed;
    d.update(&sc, 10, 10, UNIT_SCALE, UNIT_SCALE, &mut s, &mut t, &mut rng);
    assert_eq!(d.len(), 0);
    assert_eq!(t.len(), 1);
    assert_eq!(t.get(0), Stream { x: 5 * ONE, y: 5 * ONE + ONE / 2, z: 0, life: 120 });
    assert_eq!(s.len(), 1);
    assert_eq!(s.get(0).y, 5 * ONE + ONE / 2);
}

#[test]
fn droplet_hitting_flowing_surface_without_slide() {
    let sc = uniform_scene(10, 10, 255, 127, 127, 0, 1);
    let seed = seed_with_first_draw(6, false);
    let mut d = Droplets::new();
    let mut s = Splashes::new();
    let mut t = Streams::new();
    assert!(d.insert(Droplet { x: 5 * ONE, y: 5 * ONE, z: 0, v: ONE / 2 }));
    let mut rng = seed;
    d.update(&sc, 10, 10, UNIT_SCALE, UNIT_SCALE, &mut s, &mut t, &mut rng);
    assert_eq!(d.len(), 0);
    assert_eq!(t.len(), 0);
    assert_eq!(s.len(), 1);
}

#[test]
fn droplet_passes_geometry_at_another_depth() {
    let sc = uniform_scene(10, 10, 255, 127, 0, 0, 1);
    let mut d = Droplets::new();
    let mut s = Splashes::new();
    let mut t = Streams::new();
    // Depth byte of z = ONE / 2 is 127, far from 255.
    assert!(d.insert(Droplet { x: 5 * ONE, y: ONE, z: ONE / 2, v: ONE / 4 }));
    let mut rng = SEED;
    d.update(&sc, 10, 10, UNIT_SCALE, UNIT_SCALE, &mut s, &mut t, &mut rng);
    assert_eq!(d.len(), 1);
    assert_eq!(d.get(0), Droplet { x: 5 * ONE, y: ONE + ONE / 4, z: ONE / 2, v: ONE / 4 });
    assert_eq!(rng, SEED);
    assert_eq!(s.len() + t.len(), 0);
}

#[test]
fn droplet_past_ground_line_splashes_by_chance() {
    let sc = uniform_scene(10, 10, 0, 0, 0, 0, 1);
    for below in [true, false] {
        let seed = seed_with_first_draw(7, below);
        let mut d = Droplets::new();
        let mut s = Splashes::new();
        let mut t = Streams::new();
        // Ground line of z = 0 is the bottom of the screen.
        assert!(d.insert(Droplet { x: 3 * ONE, y: 10 * ONE - ONE / 10, z: 0, v: ONE / 2 }));
        let mut rng = seed;
        d.update(&sc, 10, 10, UNIT_SCALE, UNIT_SCALE, &mut s, &mut t, &mut rng);
        assert_eq!(d.len(), 0);
        assert_eq!(t.len(), 0);
        if below {
            assert_eq!(s.len(), 1);
            let sp = s.get(0);
            assert_eq!(sp.y, 10 * ONE);
            assert_eq!(sp.typ as i64, draw(xs(seed)) * 4 / DRAW_ONE);
        } else {
            assert_eq!(s.len(), 0);
            assert_eq!(rng, xs(seed));
        }
    }
}

#[test]
fn far_droplets_meet_a_higher_ground_line() {
    let sc = uniform_scene(10, 10, 0, 0, 0, 0, 1);
    let mut d = Droplets::new();
    let mut s = Splashes::new();
    let mut t = Streams::new();
    // At z = ONE / 2 the ground line is 10 * (1 - 0.3) = 7 pixels.
    assert!(d.insert(Droplet { x: ONE, y: 7 * ONE - ONE / 4, z: ONE / 2, v: ONE / 8 }));
    assert!(d.insert(Droplet { x: 2 * ONE, y: 7 * ONE - ONE / 4, z: ONE / 2, v: ONE / 2 }));
    assert!(d.insert(Droplet { x: 3 * ONE, y: 0, z: 0, v: ONE / 2 }));
    let mut rng = SEED;
    d.update(&sc, 10, 10, UNIT_SCALE, UNIT_SCALE, &mut s, &mut t, &mut rng);
    assert_eq!(d.len(), 2);
    assert_eq!(d.get(0).x, ONE);
    assert_eq!(d.get(1).x, 3 * ONE);
}

#[test]
fn streams_spawned_this_tick_wait_a_tick() {
    let sc = uniform_scene(10, 10, 255, 127, 0, 0, 1);
    let mut t = Streams::new();
    let mut s = Splashes::new();
    t.spawn(ONE, ONE, 0);
    t.spawn(10 * ONE - 1, 2 * ONE, 0);
    t.spawn(3 * ONE, 3 * ONE, 0);
    t.spawn(4 * ONE, 4 * ONE, 0);
    // Only the first two move; the second runs off the screen.
    t.update(&sc, 10, 10, UNIT_SCALE, UNIT_SCALE, 2, &mut s);
    assert_eq!(t.len(), 3);
    assert_eq!(t.get(0), Stream { x: ONE + 127 * 2 * ONE / 635, y: ONE, z: 0, life: 119 });
    assert_eq!(t.get(1), Stream { x: 3 * ONE, y: 3 * ONE, z: 0, life: 120 });
    assert_eq!(t.get(2), Stream { x: 4 * ONE, y: 4 * ONE, z: 0, life: 120 });
}
