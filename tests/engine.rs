use alpha::engine::{frame_step, FrameStep, SurfaceSize};

#[test]
fn loop_steps() {
    assert_eq!(frame_step(false, false), FrameStep::Wait);
    assert_eq!(frame_step(false, true), FrameStep::Wait);
    assert_eq!(frame_step(true, false), FrameStep::Update);
    assert_eq!(frame_step(true, true), FrameStep::Exit);
}

#[test]
fn zero_sized_resizes_are_ignored() {
    let mut size = SurfaceSize { width: 800, height: 600 };
    assert!(!size.resize(0, 600));
    assert!(!size.resize(800, 0));
    assert_eq!(size, SurfaceSize { width: 800, height: 600 });
    assert!(size.resize(1024, 768));
    assert_eq!(size, SurfaceSize { width: 1024, height: 768 });
}
