use vstd::prelude::*;

verus! {

/// Where one frame's output goes: the window's surface, or a texture that the
/// caller lent for the frame.
pub enum OutputTarget<H> {
    Surface,
    Texture(H),
}

/// The redirection state: a texture to render the next frame into, or none,
/// in which case frames go to the surface.
pub struct RenderTargets<H> {
    output_texture: Option<H>,
}

/// The state after `render_to_texture(texture)`.
pub open spec fn redirected<H>(texture: Option<H>) -> Option<H> {
    texture
}

/// The target that `prepare` picks in a state.
pub open spec fn prepared_target<H>(state: Option<H>) -> OutputTarget<H> {
    match state {
        Some(h) => OutputTarget::Texture(h),
        None => OutputTarget::Surface,
    }
}

/// The state `finalise` leaves: a texture goes back where it came from, so the
/// redirection holds until the caller lifts it.
pub open spec fn after_finalise<H>(state: Option<H>, used: OutputTarget<H>) -> Option<H> {
    match used {
        OutputTarget::Texture(h) => Some(h),
        OutputTarget::Surface => state,
    }
}

impl<H> RenderTargets<H> {
    pub closed spec fn spec_output_texture(&self) -> Option<H> {
        self.output_texture
    }

    /// Frames go to the surface.
    pub fn new() -> (r: RenderTargets<H>)
        ensures
            r.spec_output_texture().is_none(),
    {
        RenderTargets { output_texture: None }
    }

    /// Sends the following frames to `texture`, or back to the surface when it is `None`.
    pub fn render_to_texture(&mut self, texture: Option<H>)
        ensures
            final(self).spec_output_texture() == redirected(texture),
    {
        self.output_texture = texture;
    }

    /// Picks the target of the frame that begins: the lent texture if there is
    /// one, else the surface. Exactly one of the two is picked.
    pub fn prepare(&mut self) -> (r: OutputTarget<H>)
        ensures
            r == prepared_target(old(self).spec_output_texture()),
            final(self).spec_output_texture().is_none(),
    {
        match self.output_texture.take() {
            Some(h) => OutputTarget::Texture(h),
            None => OutputTarget::Surface,
        }
    }

    /// Ends a frame begun by `prepare`. A texture is kept for the next frame;
    /// the surface is the caller's to present.
    pub fn finalise(&mut self, used: OutputTarget<H>)
        ensures
            final(self).spec_output_texture() == after_finalise(old(self).spec_output_texture(), used),
    {
        match used {
            OutputTarget::Texture(h) => {
                self.output_texture = Some(h);
            },
            OutputTarget::Surface => {},
        }
    }

    pub fn is_redirected(&self) -> (r: bool)
        ensures
            r == self.spec_output_texture().is_some(),
    {
        self.output_texture.is_some()
    }
}

/// Redirecting to a texture, drawing one frame, then lifting the redirection
/// sends that frame to the texture and the next frame to the surface.
pub proof fn lemma_redirect_one_frame<H>(state: Option<H>, texture: H)
    ensures
        ({
            let s1 = redirected(Some(texture));
            let first = prepared_target(s1);
            // `prepare` leaves no texture behind; `finalise` puts it back.
            let s2 = after_finalise(None, first);
            let s3 = redirected::<H>(None);
            &&& first == OutputTarget::Texture(texture)
            &&& s2 == Some(texture)
            &&& prepared_target(s3) == OutputTarget::<H>::Surface
        }),
{
}

/// While redirected, every frame goes to the same texture.
pub proof fn lemma_redirect_persists<H>(texture: H)
    ensures
        after_finalise(None, prepared_target(Some(texture))) == Some(
            texture,
        ),
{
}

} // verus!
