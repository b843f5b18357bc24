use droplet_engine::{flow_strength, get_depth, get_depth_raw, get_flow, get_height, get_normal, has_flow, hits_surface, is_ground, Scene, ONE};

fn scene_2x2() -> Scene {
    Scene::new(
        2,
        2,
        vec![0, 100, 255, 31],
        vec![0, 127, -127, 5],
        vec![1, 2, 3, 4],
        vec![0, 10, 11, -11],
        vec![0, -10, 0, 0],
        vec![1, 0, 1, 0],
    )
    .unwrap()
}

#[test]
fn scene_rejects_mismatched_layers() {
    let s = Scene::new(2, 2, vec![0; 4], vec![0; 4], vec![0; 3], vec![0; 4], vec![0; 4], vec![0; 4]);
    assert!(s.is_none());
    let s = Scene::new(2, 3, vec![0; 4], vec![0; 4], vec![0; 4], vec![0; 4], vec![0; 4], vec![0; 4]);
    assert!(s.is_none());
    let s = Scene::new(usize::MAX, 2, vec![], vec![], vec![], vec![], vec![], vec![]);
    assert!(s.is_none());
}

#[test]
fn scene_accepts_empty_raster() {
    let s = Scene::new(0, 0, vec![], vec![], vec![], vec![], vec![], vec![]).unwrap();
    assert_eq!(get_depth_raw(&s, 0, 0), 0);
    assert!(!is_ground(&s, 0, 0));
}

#[test]
fn depth_queries_read_row_major() {
    let s = scene_2x2();
    assert_eq!(get_depth_raw(&s, 0, 0), 0);
    assert_eq!(get_depth_raw(&s, 1, 0), 100);
    assert_eq!(get_depth_raw(&s, 0, 1), 255);
    assert_eq!(get_depth_raw(&s, 1, 1), 31);
    assert_eq!(get_depth(&s, 0, 1), ONE);
    assert_eq!(get_depth(&s, 1, 0), 100 * ONE / 255);
    assert_eq!(get_height(&s, 0, 1), 0);
    assert_eq!(get_height(&s, 0, 0), ONE);
}

#[test]
fn queries_out_of_bounds_are_neutral() {
    let s = scene_2x2();
    assert_eq!(get_depth_raw(&s, 2, 0), 0);
    assert_eq!(get_depth(&s, 0, 2), 0);
    assert_eq!(get_height(&s, 5, 5), ONE);
    assert!(!is_ground(&s, 2, 1));
    assert_eq!(get_normal(&s, 7, 0), (0, 0));
    assert_eq!(get_flow(&s, 0, 9), (0, 0));
    assert!(!has_flow(&s, 2, 2));
    assert!(!hits_surface(&s, 2, 2, 0, 255));
}

#[test]
fn ground_and_normal_queries() {
    let s = scene_2x2();
    assert!(is_ground(&s, 0, 0));
    assert!(!is_ground(&s, 1, 0));
    assert!(is_ground(&s, 0, 1));
    assert_eq!(get_normal(&s, 1, 0), (127, 2));
    assert_eq!(get_normal(&s, 0, 1), (-127, 3));
}

#[test]
fn flow_threshold_is_strict() {
    let s = scene_2x2();
    assert_eq!(get_flow(&s, 1, 0), (10, -10));
    assert!(!has_flow(&s, 0, 0));
    assert!(!has_flow(&s, 1, 0));
    assert!(has_flow(&s, 0, 1));
    assert!(has_flow(&s, 1, 1));
}

#[test]
fn hits_surface_matches_depth_within_margin() {
    let s = scene_2x2();
    // Raster byte 255 at (0, 1): a droplet at z = 0 has byte 255.
    assert!(hits_surface(&s, 0, 1, 0, 48));
    assert!(!hits_surface(&s, 0, 1, 0, 0));
    // Byte 100 at (1, 0); z = ONE / 2 gives byte 127: difference 27.
    assert!(hits_surface(&s, 1, 0, ONE / 2, 28));
    assert!(!hits_surface(&s, 1, 0, ONE / 2, 27));
    // Sky: byte 0 never collides; byte 31 is just above the cutoff.
    assert!(!hits_surface(&s, 0, 0, ONE, 255));
    assert!(hits_surface(&s, 1, 1, ONE - 1, 40));
}

#[test]
fn flow_strength_is_normalised_magnitude() {
    let s = Scene::new(
        5,
        1,
        vec![0; 5],
        vec![0; 5],
        vec![0; 5],
        vec![127, 0, 3, -128, 90],
        vec![0, 0, 4, -128, -90],
        vec![1; 5],
    )
    .unwrap();
    assert_eq!(flow_strength(&s, 0, 0), ONE);
    assert_eq!(flow_strength(&s, 1, 0), 0);
    assert_eq!(flow_strength(&s, 2, 0), 5 * ONE / 127);
    assert_eq!(flow_strength(&s, 3, 0), ONE);
    // |(90, -90)| = 127.279..., just above full strength.
    assert_eq!(flow_strength(&s, 4, 0), ONE);
    assert_eq!(flow_strength(&s, 9, 0), 0);
}
