use vstd::prelude::*;

use crate::camera::{default_view, projection_for, Camera};

verus! {

/// Something that can be paused and resumed.
pub trait Pause {
    fn pause(&mut self, paused: bool);
}

/// The state of the game that the engine drives: whether it is paused, and its camera.
pub struct GameState {
    pub paused: bool,
    pub camera: Camera,
}

impl GameState {
    /// A running game viewed through a camera of `width` by `height` pixels.
    pub fn new(width: u32, height: u32) -> (r: GameState)
        ensures
            !r.paused,
            r.camera == Camera::spec_new(width, height),
            r.camera.spec_width() == width,
            r.camera.spec_height() == height,
            r.camera.spec_view() == default_view(),
            r.camera.spec_projection() == projection_for(width, height),
    {
        GameState { paused: false, camera: Camera::new(width, height) }
    }

    pub fn set_paused(&mut self, paused: bool)
        ensures
            final(self).paused == paused,
            final(self).camera == old(self).camera,
    {
        self.paused = paused;
    }

    /// Scripts run only while the game is not paused; drawing goes on regardless.
    pub fn runs_scripts(&self) -> (r: bool)
        ensures
            r == !self.paused,
    {
        !self.paused
    }

    /// Follows a resize of the window or of the view the game is shown in.
    pub fn on_resize(&mut self, width: u32, height: u32)
        ensures
            final(self).camera == old(self).camera.spec_resized(width, height),
            final(self).camera.spec_width() == width,
            final(self).camera.spec_height() == height,
            final(self).camera.spec_view() == old(self).camera.spec_view(),
            final(self).camera.spec_projection() == projection_for(width, height),
            final(self).paused == old(self).paused,
    {
        self.camera.resize(width, height);
    }
}

impl Pause for GameState {
    fn pause(&mut self, paused: bool) {
        self.set_paused(paused);
    }
}

/// Whether the editor lets the game play in frame `frame`: it plays in frames
/// 1 and 2 and is paused otherwise.
pub fn play_game_at(frame: usize) -> (r: bool)
    ensures
        r == (frame == 1 || frame == 2),
{
    frame == 1 || frame == 2
}

/// The editor's own bookkeeping, over entity handles of type `E`.
pub struct EditorState<E> {
    pub editor_title: String,
    pub changed_since_last_save: bool,
    pub save_requested: bool,
    pub build_requested: bool,
    pub window_resized: bool,
    pub active_entity: Option<E>,
}

impl<E> EditorState<E> {
    /// A fresh editor; the view counts as resized, so the game view is laid out
    /// on the first frame.
    pub fn new(title: String) -> (r: EditorState<E>)
        ensures
            r.editor_title@ == title@,
            !r.changed_since_last_save,
            !r.save_requested,
            !r.build_requested,
            r.window_resized,
            r.active_entity.is_none(),
    {
        EditorState {
            editor_title: title,
            changed_since_last_save: false,
            save_requested: false,
            build_requested: false,
            window_resized: true,
            active_entity: None,
        }
    }

    /// The window title: the editor's title, marked with `*` while there are unsaved changes.
    pub fn window_title(&self) -> (r: String)
        ensures
            r@ == if self.changed_since_last_save {
                self.editor_title@.push('*')
            } else {
                self.editor_title@
            },
    {
        let mut title = self.editor_title.clone();
        if self.changed_since_last_save {
            let star = "*";
            proof {
                reveal_strlit("*");
            }
            title.append(star);
            assert(title@ =~= self.editor_title@.push('*'));
        }
        title
    }

    pub fn mark_changed(&mut self)
        ensures
            final(self).changed_since_last_save,
            final(self).save_requested == old(self).save_requested,
            final(self).build_requested == old(self).build_requested,
            final(self).window_resized == old(self).window_resized,
            final(self).active_entity == old(self).active_entity,
            final(self).editor_title == old(self).editor_title,
    {
        self.changed_since_last_save = true;
    }

    pub fn select(&mut self, entity: E)
        ensures
            final(self).active_entity == Some(entity),
            final(self).changed_since_last_save == old(self).changed_since_last_save,
            final(self).save_requested == old(self).save_requested,
            final(self).build_requested == old(self).build_requested,
            final(self).window_resized == old(self).window_resized,
            final(self).editor_title == old(self).editor_title,
    {
        self.active_entity = Some(entity);
    }

    /// Whether a save is due. Taking it counts the scene as saved: both the
    /// request and the unsaved-changes mark are cleared.
    pub fn take_save_request(&mut self) -> (r: bool)
        ensures
            r == old(self).save_requested,
            !final(self).save_requested,
            final(self).changed_since_last_save == (old(self).changed_since_last_save && !r),
            final(self).build_requested == old(self).build_requested,
            final(self).window_resized == old(self).window_resized,
            final(self).active_entity == old(self).active_entity,
            final(self).editor_title == old(self).editor_title,
    {
        let r = self.save_requested;
        if r {
            self.save_requested = false;
            self.changed_since_last_save = false;
        }
        r
    }

    /// Whether a build is due; taking it clears the request.
    pub fn take_build_request(&mut self) -> (r: bool)
        ensures
            r == old(self).build_requested,
            !final(self).build_requested,
            final(self).changed_since_last_save == old(self).changed_since_last_save,
            final(self).save_requested == old(self).save_requested,
            final(self).window_resized == old(self).window_resized,
            final(self).active_entity == old(self).active_entity,
            final(self).editor_title == old(self).editor_title,
    {
        let r = self.build_requested;
        self.build_requested = false;
        r
    }

    /// Whether the view was resized since last asked; asking clears the mark.
    pub fn take_resize(&mut self) -> (r: bool)
        ensures
            r == old(self).window_resized,
            !final(self).window_resized,
            final(self).changed_since_last_save == old(self).changed_since_last_save,
            final(self).save_requested == old(self).save_requested,
            final(self).build_requested == old(self).build_requested,
            final(self).active_entity == old(self).active_entity,
            final(self).editor_title == old(self).editor_title,
    {
        let r = self.window_resized;
        self.window_resized = false;
        r
    }
}

} // verus!
