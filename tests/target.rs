use alpha::target::{OutputTarget, RenderTargets};

fn is_texture(t: &OutputTarget<&'static str>, name: &str) -> bool {
    matches!(t, OutputTarget::Texture(h) if *h == name)
}

#[test]
fn frames_go_to_the_surface_by_default() {
    let mut targets: RenderTargets<&'static str> = RenderTargets::new();
    let t = targets.prepare();
    assert!(matches!(t, OutputTarget::Surface));
    targets.finalise(t);
    assert!(!targets.is_redirected());
}

#[test]
fn one_redirected_frame_then_back_to_the_surface() {
    let mut targets = RenderTargets::new();
    targets.render_to_texture(Some("scene"));
    let t = targets.prepare();
    assert!(is_texture(&t, "scene"));
    targets.finalise(t);
    targets.render_to_texture(None);
    let next = targets.prepare();
    assert!(matches!(next, OutputTarget::Surface));
}

#[test]
fn redirection_holds_across_frames_until_lifted() {
    let mut targets = RenderTargets::new();
    targets.render_to_texture(Some("scene"));
    for _ in 0..3 {
        let t = targets.prepare();
        assert!(is_texture(&t, "scene"));
        assert!(!targets.is_redirected());
        targets.finalise(t);
        assert!(targets.is_redirected());
    }
}
