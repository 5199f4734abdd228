use alpha::camera::{Camera, LookAt, Orthographic, Point3};

#[test]
fn projection_of_a_new_camera() {
    let camera = Camera::new(800, 600);
    assert_eq!(
        camera.get_projection(),
        Orthographic { left: 0, right: 800, bottom: 0, top: 600, near: -1, far: 1 }
    );
    assert_eq!((camera.width(), camera.height()), (800, 600));
}

#[test]
fn resize_matches_a_fresh_camera() {
    let mut camera = Camera::new(800, 600);
    for (w, h) in [(1024u32, 768u32), (1, 1), (0, 0), (1920, 1080)] {
        camera.resize(w, h);
        assert_eq!(camera.get_projection(), Camera::new(w, h).get_projection());
    }
}

#[test]
fn default_view_and_its_independence_of_size() {
    let mut camera = Camera::new(800, 600);
    let expected = LookAt {
        eye: Point3 { x: -200, y: -200, z: -1 },
        target: Point3 { x: -200, y: -200, z: 0 },
        up: Point3 { x: 0, y: 1, z: 0 },
    };
    assert_eq!(camera.get_view(), expected);
    camera.resize(10, 20);
    assert_eq!(camera.get_view(), expected);
    let other = LookAt { eye: Point3 { x: 0, y: 0, z: -1 }, target: Point3 { x: 0, y: 0, z: 0 }, up: expected.up };
    camera.set_view(other);
    assert_eq!(camera.get_view(), other);
    assert_eq!(camera.get_projection().right, 10);
}
