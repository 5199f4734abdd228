use alpha::editor::{play_game_at, EditorState, GameState, Pause};

#[test]
fn the_editor_plays_the_game_in_frames_one_and_two() {
    let plays: Vec<bool> = (0..6).map(play_game_at).collect();
    assert_eq!(plays, vec![false, true, true, false, false, false]);
}

#[test]
fn title_marks_unsaved_changes() {
    let mut state: EditorState<u32> = EditorState::new("Alpha Editor".to_string());
    assert_eq!(state.window_title(), "Alpha Editor");
    state.mark_changed();
    assert_eq!(state.window_title(), "Alpha Editor*");
}

#[test]
fn taking_a_save_request_clears_the_change_mark() {
    let mut state: EditorState<u32> = EditorState::new("E".to_string());
    state.mark_changed();
    assert!(!state.take_save_request());
    assert!(state.changed_since_last_save);
    state.save_requested = true;
    assert!(state.take_save_request());
    assert!(!state.save_requested);
    assert!(!state.changed_since_last_save);
    assert_eq!(state.window_title(), "E");
}

#[test]
fn build_and_resize_requests_are_taken_once() {
    let mut state: EditorState<u32> = EditorState::new("E".to_string());
    assert!(state.take_resize());
    assert!(!state.take_resize());
    state.build_requested = true;
    assert!(state.take_build_request());
    assert!(!state.take_build_request());
}

#[test]
fn selecting_an_entity() {
    let mut state: EditorState<u32> = EditorState::new("E".to_string());
    assert_eq!(state.active_entity, None);
    state.select(7);
    assert_eq!(state.active_entity, Some(7));
}

#[test]
fn pausing_the_game_stops_its_scripts() {
    let mut game = GameState::new(800, 600);
    assert!(game.runs_scripts());
    game.pause(true);
    assert!(!game.runs_scripts());
    game.pause(false);
    assert!(game.runs_scripts());
    let view = game.camera.get_view();
    game.on_resize(640, 480);
    assert_eq!(game.camera.get_projection().top, 480);
    assert_eq!((game.camera.width(), game.camera.height()), (640, 480));
    assert_eq!(game.camera.get_view(), view);
}
