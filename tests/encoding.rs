use droplet_engine::{Droplet, Droplets, Encoder, Splash, Splashes, Stream, Streams, CROWN, LEFT_BURST, ONE, SPLASH_OFFSET, STREAM_OFFSET};

fn one_drop(x: i64, y: i64, z: i64) -> Droplets {
    let mut d = Droplets::new();
    assert!(d.insert(Droplet { x, y, z, v: 1 }));
    d
}

fn one_stream(x: i64, y: i64, z: i64, life: u8) -> Streams {
    let mut t = Streams::new();
    assert!(t.insert(Stream { x, y, z, life }));
    t
}

fn one_splash(x: i64, y: i64, z: i64, frame: u8, dir: i8, typ: u8) -> Splashes {
    let mut s = Splashes::new();
    assert!(s.insert(Splash { x, y, z, frame, dir, typ }));
    s
}

#[test]
fn new_buffer_is_zeroed() {
    let e = Encoder::new(4, 3);
    assert_eq!(e.len(), 12);
    assert!(e.ptr().iter().all(|b| *b == 0));
    let e = Encoder::new(0, 7);
    assert_eq!(e.len(), 0);
}

#[test]
fn resize_keeps_leading_bytes() {
    let mut e = Encoder::new(4, 3);
    e.encode_streams(&one_stream(ONE, ONE, 0, 120));
    e.encode_streams(&one_stream(3 * ONE, 2 * ONE, 0, 120));
    e.resize(5, 2);
    assert_eq!(e.len(), 10);
    assert_eq!(e.ptr()[5], 128);
    assert_eq!(e.ptr().iter().filter(|b| **b != 0).count(), 1);
    e.resize(5, 4);
    assert_eq!(e.len(), 20);
    assert_eq!(e.ptr()[5], 128);
    assert!(e.ptr()[10..].iter().all(|b| *b == 0));
}

#[test]
fn droplet_trail_codes() {
    let mut e = Encoder::new(4, 3);
    // Nearest bucket (7), trail of 5 pixels of which rows 2, 1, 0 are on screen.
    e.encode_drops(&one_drop(2 * ONE + ONE / 2, 2 * ONE + ONE / 3, 0));
    let out = e.ptr();
    assert_eq!(out[2 * 4 + 2], 7 * 4 + 1);
    assert_eq!(out[4 + 2], 7 * 4 + 2);
    assert_eq!(out[2], 7 * 4 + 3);
    assert_eq!(out.iter().filter(|b| **b != 0).count(), 3);
}

#[test]
fn far_droplet_has_short_dim_trail() {
    let mut e = Encoder::new(4, 4);
    // z = 0.9: bucket floor(0.1 * 8) = 0, trail floor(5 - 3.6) = 1.
    e.encode_drops(&one_drop(ONE, 3 * ONE, ONE * 9 / 10));
    let out = e.ptr();
    assert_eq!(out[3 * 4 + 1], 1);
    assert_eq!(out.iter().filter(|b| **b != 0).count(), 1);
}

#[test]
fn droplet_off_screen_writes_nothing() {
    let mut e = Encoder::new(4, 3);
    e.encode_drops(&one_drop(-ONE, ONE, 0));
    e.encode_drops(&one_drop(4 * ONE, ONE, 0));
    e.encode_drops(&one_drop(ONE, -ONE, 0));
    assert!(e.ptr().iter().all(|b| *b == 0));
}

#[test]
fn pixels_truncate_toward_zero() {
    // A head half a pixel above the screen is drawn on row 0.
    let mut e = Encoder::new(1, 1);
    e.encode_drops(&one_drop(0, -ONE / 2, 0));
    assert_eq!(e.ptr()[0], 29);
    // A stream half a pixel left of the screen is drawn in column 0.
    let mut e = Encoder::new(1, 1);
    e.encode_streams(&one_stream(-ONE / 2, 0, 0, 120));
    assert_eq!(e.ptr()[0], 128);
}

#[test]
fn stream_codes_by_life() {
    for (life, size) in [(120u8, 3u8), (81, 3), (80, 2), (41, 2), (40, 1), (11, 1), (10, 0), (1, 0)] {
        let mut e = Encoder::new(3, 3);
        e.encode_streams(&one_stream(ONE, 2 * ONE, 0, life));
        assert_eq!(e.ptr()[2 * 3 + 1], STREAM_OFFSET + 7 * 4 + size);
    }
    let mut e = Encoder::new(3, 3);
    // z = 0.5: bucket 4.
    e.encode_streams(&one_stream(0, 0, ONE / 2, 50));
    assert_eq!(e.ptr()[0], STREAM_OFFSET + 4 * 4 + 2);
}

#[test]
fn splash_first_frame_is_one_mark() {
    let mut e = Encoder::new(9, 9);
    e.encode_splashes(&one_splash(4 * ONE, 6 * ONE, 0, 0, 3, CROWN));
    let out = e.ptr();
    assert_eq!(out[6 * 9 + 4], SPLASH_OFFSET + 7 * 8);
    assert_eq!(out.iter().filter(|b| **b != 0).count(), 1);
}

#[test]
fn crown_second_bucket_fans_out() {
    let mut e = Encoder::new(9, 9);
    // z = 0: scale round(2.5) = 3; frame 3 is bucket 1; bias 1.
    e.encode_splashes(&one_splash(4 * ONE, 6 * ONE, 0, 3, 1, CROWN));
    let out = e.ptr();
    assert_eq!(out[6 * 9 + 2], SPLASH_OFFSET + 56 + 4);
    assert_eq!(out[6 * 9 + 4], SPLASH_OFFSET + 56);
    assert_eq!(out[6 * 9 + 8], SPLASH_OFFSET + 56 + 5);
    assert_eq!(out.iter().filter(|b| **b != 0).count(), 3);
}

#[test]
fn left_burst_rises_left() {
    let mut e = Encoder::new(12, 9);
    // Bucket 3 of the left burst with scale 3 and bias 0.
    e.encode_splashes(&one_splash(10 * ONE, 6 * ONE, 0, 9, 0, LEFT_BURST));
    let out = e.ptr();
    let code = |g: u8| SPLASH_OFFSET + 56 + g;
    assert_eq!(out[4], code(2));
    assert_eq!(out[3 * 12 + 7], code(4));
    assert_eq!(out[3 * 12 + 10], code(1));
    assert_eq!(out[6 * 12 + 1], code(4));
    assert_eq!(out.iter().filter(|b| **b != 0).count(), 4);
}

#[test]
fn distant_splash_uses_tiny_glyphs() {
    for (frame, glyph) in [(0u8, 0u8), (8, 0), (9, 2), (17, 2), (18, 6), (23, 6)] {
        let mut e = Encoder::new(5, 5);
        // z = 0.9: scale round(0.1 * 2.5) = 0, bucket floor(0.1 * 8) = 0.
        e.encode_splashes(&one_splash(2 * ONE, 2 * ONE, ONE * 9 / 10, frame, 4, LEFT_BURST));
        let out = e.ptr();
        assert_eq!(out[2 * 5 + 2], SPLASH_OFFSET + glyph);
        assert_eq!(out.iter().filter(|b| **b != 0).count(), 1);
    }
}

#[test]
fn overlap_keeps_the_larger_code() {
    let drops = one_drop(ONE, ONE, 0);
    let streams = one_stream(ONE, ONE, ONE * 9 / 10, 5);
    let mut a = Encoder::new(3, 3);
    a.encode_drops(&drops);
    a.encode_streams(&streams);
    let mut b = Encoder::new(3, 3);
    b.encode_streams(&streams);
    b.encode_drops(&drops);
    assert_eq!(a.ptr()[4], STREAM_OFFSET);
    assert_eq!(a.ptr(), b.ptr());
    // Two trails on one pixel: the nearer (larger) code stays.
    let mut both = Droplets::new();
    assert!(both.insert(Droplet { x: ONE, y: ONE, z: 0, v: 1 }));
    assert!(both.insert(Droplet { x: ONE, y: ONE, z: ONE * 9 / 10, v: 1 }));
    let mut c = Encoder::new(3, 3);
    c.encode_drops(&both);
    assert_eq!(c.ptr()[4], 29);
}

#[test]
fn reencoding_after_clear_gives_same_bytes() {
    let mut drops = Droplets::new();
    let mut rng: u32 = 77;
    drops.spawn(40, 30, &mut rng);
    let mut splashes = Splashes::new();
    for i in 0..20 {
        splashes.spawn(i * ONE, (i % 7) * ONE * 2, (i * 3000) % ONE, (i % 4) as u8, &mut rng);
    }
    let streams = one_stream(3 * ONE, 3 * ONE, 0, 90);
    let mut e = Encoder::new(30, 20);
    e.encode_drops(&drops);
    e.encode_splashes(&splashes);
    e.encode_streams(&streams);
    let first: Vec<u8> = e.ptr().to_vec();
    e.encode_drops(&drops);
    e.encode_splashes(&splashes);
    e.encode_streams(&streams);
    assert_eq!(e.ptr(), &first[..]);
    e.clear();
    assert!(e.ptr().iter().all(|b| *b == 0));
    e.encode_drops(&drops);
    e.encode_splashes(&splashes);
    e.encode_streams(&streams);
    assert_eq!(e.ptr(), &first[..]);
}

#[test]
fn splash_scale_rounds() {
    // z = 0.3: (1 - z) * 2.5 = 1.75 rounds to 2; bucket floor(0.7 * 8) = 5.
    let mut e = Encoder::new(30, 30);
    e.encode_splashes(&one_splash(10 * ONE, 10 * ONE, ONE * 3 / 10, 3, 0, CROWN));
    let out = e.ptr();
    assert_eq!(out[10 * 30 + 8], 77);
    assert_eq!(out[10 * 30 + 10], SPLASH_OFFSET + 40);
    assert_eq!(out[10 * 30 + 12], SPLASH_OFFSET + 40 + 5);
    // z = 0.7: 0.75 rounds to 1, so the pattern shows at scale 1.
    let mut e = Encoder::new(30, 30);
    e.encode_splashes(&one_splash(10 * ONE, 10 * ONE, ONE * 7 / 10, 3, 0, CROWN));
    assert_eq!(e.ptr()[10 * 30 + 9], SPLASH_OFFSET + 2 * 8 + 4);
    assert_eq!(e.ptr().iter().filter(|b| **b != 0).count(), 3);
}
