use alpha::batch::{quad_corner, quad_index, Scene, MAX_QUADS};

#[test]
fn empty_batch_has_no_geometry() {
    let scene: Scene<u32> = Scene::new();
    assert_eq!(scene.quad_count(), 0);
    assert!(scene.vertices().is_empty());
    assert!(scene.indices().is_empty());
}

#[test]
fn n_quads_give_4n_vertices_and_6n_indices_in_range() {
    let mut scene: Scene<u32> = Scene::new();
    let n: u32 = 7;
    for q in 0..n {
        scene.push_quad(4 * q, 4 * q + 1, 4 * q + 2, 4 * q + 3);
    }
    assert_eq!(scene.quad_count(), n as usize);
    assert_eq!(scene.vertices().len(), 4 * n as usize);
    assert_eq!(scene.indices().len(), 6 * n as usize);
    assert!(scene.indices().iter().all(|&i| (i as u32) < 4 * n));
    let expected: Vec<u32> = (0..4 * n).collect();
    assert_eq!(scene.vertices(), &expected);
}

#[test]
fn two_quads_have_exact_indices() {
    let mut scene: Scene<char> = Scene::new();
    scene.push_quad('a', 'b', 'c', 'd');
    scene.push_quad('e', 'f', 'g', 'h');
    let (vertices, indices) = scene.into_parts();
    assert_eq!(vertices, vec!['a', 'b', 'c', 'd', 'e', 'f', 'g', 'h']);
    assert_eq!(indices, vec![0, 1, 2, 0, 2, 3, 4, 5, 6, 4, 6, 7]);
}

#[test]
fn quad_pattern_and_corners() {
    let pattern: Vec<u16> = (0..6).map(quad_index).collect();
    assert_eq!(pattern, vec![0, 1, 2, 0, 2, 3]);
    let corners: Vec<(u32, u32)> = (0..4).map(quad_corner).collect();
    assert_eq!(corners, vec![(1, 1), (0, 1), (0, 0), (1, 0)]);
}

#[test]
fn a_full_batch_uses_every_16_bit_index() {
    let mut scene: Scene<()> = Scene::new();
    for _ in 0..MAX_QUADS {
        assert!(!scene.is_full());
        scene.push_quad((), (), (), ());
    }
    assert!(scene.is_full());
    assert_eq!(scene.vertices().len(), 65536);
    assert_eq!(*scene.indices().iter().max().unwrap(), 65535);
}
