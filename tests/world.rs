use droplet_engine::{RainWorld, Scene, MAX_DROPS, MAX_SPLASHES, MAX_STREAMS};

fn uniform_scene(w: usize, h: usize, depth: u8, fx: i8, fy: i8, ground: u8) -> Scene {
    let n = w * h;
    Scene::new(w, h, vec![depth; n], vec![0; n], vec![0; n], vec![fx; n], vec![fy; n], vec![ground; n]).unwrap()
}

/// A scene with a flowing near slope in its lower half and sky above.
fn sloped_scene(w: usize, h: usize) -> Scene {
    let n = w * h;
    let mut depth = vec![0u8; n];
    let mut fx = vec![0i8; n];
    let mut nx = vec![0i8; n];
    for y in h / 2..h {
        for x in 0..w {
            depth[y * w + x] = (120 + (y * 135) / h) as u8;
            fx[y * w + x] = if x < w / 2 { 60 } else { 0 };
            nx[y * w + x] = if x < w / 3 { -90 } else { 90 };
        }
    }
    Scene::new(w, h, depth, nx, vec![0; n], fx, vec![40; n], vec![1; n]).unwrap()
}

#[test]
fn new_world_is_empty() {
    let w = RainWorld::new(uniform_scene(8, 8, 0, 0, 0, 1), 100, 50);
    assert_eq!(w.width(), 100);
    assert_eq!(w.height(), 50);
    assert_eq!(w.output_len(), 5000);
    assert_eq!(w.drops().len() + w.splashes().len() + w.streams().len(), 0);
    assert!(w.output_ptr().iter().all(|b| *b == 0));
}

#[test]
fn no_flow_means_no_streams() {
    let mut w = RainWorld::new(uniform_scene(20, 10, 200, 0, 0, 1), 100, 50);
    w.tick();
    assert_eq!(w.streams().len(), 0);
    // 100 / 64 + 1 droplets are spawned per tick.
    assert!(w.drops().len() <= 2);
    for _ in 0..300 {
        w.tick();
        assert_eq!(w.streams().len(), 0);
    }
}

#[test]
fn ticks_are_deterministic() {
    let mut a = RainWorld::new(sloped_scene(40, 30), 160, 90);
    let mut b = RainWorld::new(sloped_scene(40, 30), 160, 90);
    for _ in 0..200 {
        a.tick();
        b.tick();
        assert_eq!(a.output_ptr(), b.output_ptr());
        assert_eq!(a.drops().len(), b.drops().len());
    }
}

#[test]
fn populations_stay_within_capacity() {
    let mut w = RainWorld::new(sloped_scene(40, 30), 4000, 400);
    let mut saw_streams = false;
    let mut saw_splashes = false;
    for _ in 0..600 {
        w.tick();
        assert!(w.drops().len() <= MAX_DROPS);
        assert!(w.splashes().len() <= MAX_SPLASHES);
        assert!(w.streams().len() <= MAX_STREAMS);
        saw_streams |= w.streams().len() > 0;
        saw_splashes |= w.splashes().len() > 0;
        assert!(w.output_ptr().iter().all(|b| *b <= 128));
    }
    assert!(saw_streams);
    assert!(saw_splashes);
}

#[test]
fn resize_is_a_hard_reset() {
    let mut w = RainWorld::new(sloped_scene(40, 30), 160, 90);
    for _ in 0..150 {
        w.tick();
    }
    assert!(w.drops().len() > 0);
    assert!(w.splashes().len() > 0);
    w.resize(64, 48);
    assert_eq!(w.drops().len(), 0);
    assert_eq!(w.splashes().len(), 0);
    assert_eq!(w.streams().len(), 0);
    assert_eq!(w.output_len(), 64 * 48);
    assert_eq!((w.width(), w.height()), (64, 48));
    w.tick();
    assert_eq!(w.output_len(), 64 * 48);
}

#[test]
fn zero_sized_screen_gives_empty_output() {
    let mut w = RainWorld::new(uniform_scene(8, 8, 200, 20, 0, 1), 0, 0);
    assert_eq!(w.output_len(), 0);
    for _ in 0..50 {
        w.tick();
    }
    assert_eq!(w.output_len(), 0);
    w.resize(10, 0);
    w.tick();
    assert_eq!(w.output_len(), 0);
}

#[test]
fn output_shows_falling_rain() {
    let mut w = RainWorld::new(uniform_scene(8, 8, 0, 0, 0, 1), 64, 64);
    for _ in 0..40 {
        w.tick();
    }
    let out = w.output_ptr();
    assert!(out.iter().any(|b| *b >= 1 && *b <= 32));
}
