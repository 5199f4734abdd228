use vstd::prelude::*;

verus! {

/// An orthographic projection given by its clipping planes, in world units.
#[derive(Clone, Copy, Debug, PartialEq, Eq, Structural)]
pub struct Orthographic {
    pub left: i64,
    pub right: i64,
    pub bottom: i64,
    pub top: i64,
    pub near: i64,
    pub far: i64,
}

/// A point or direction in world space, in whole world units.
#[derive(Clone, Copy, Debug, PartialEq, Eq, Structural)]
pub struct Point3 {
    pub x: i64,
    pub y: i64,
    pub z: i64,
}

/// A left-handed look-at view: where the eye is, what it looks at, which way is up.
#[derive(Clone, Copy, Debug, PartialEq, Eq, Structural)]
pub struct LookAt {
    pub eye: Point3,
    pub target: Point3,
    pub up: Point3,
}

/// The view the engine uses unless told otherwise: looking along +Z from
/// (-200, -200, -1), with +Y up.
pub open spec fn default_view() -> LookAt {
    LookAt {
        eye: Point3 { x: -200i64, y: -200i64, z: -1i64 },
        target: Point3 { x: -200i64, y: -200i64, z: 0 },
        up: Point3 { x: 0, y: 1, z: 0 },
    }
}

/// The projection of a viewport of `width` by `height` pixels: the origin at the
/// bottom-left corner, one world unit per pixel, depth clipped to [-1, 1].
pub open spec fn projection_for(width: u32, height: u32) -> Orthographic {
    Orthographic {
        left: 0,
        right: width as i64,
        bottom: 0,
        top: height as i64,
        near: -1i64,
        far: 1,
    }
}

/// A 2D camera over a viewport measured in pixels.
pub struct Camera {
    width: u32,
    height: u32,
    view: LookAt,
}

impl Camera {
    pub closed spec fn spec_width(&self) -> u32 {
        self.width
    }

    pub closed spec fn spec_height(&self) -> u32 {
        self.height
    }

    pub closed spec fn spec_view(&self) -> LookAt {
        self.view
    }

    /// The camera that `new(width, height)` makes.
    pub closed spec fn spec_new(width: u32, height: u32) -> Camera {
        Camera { width, height, view: default_view() }
    }

    /// This camera after `resize(width, height)`.
    pub closed spec fn spec_resized(self, width: u32, height: u32) -> Camera {
        Camera { width, height, view: self.view }
    }

    /// The projection is a function of the viewport size alone.
    pub open spec fn spec_projection(&self) -> Orthographic {
        projection_for(self.spec_width(), self.spec_height())
    }

    pub fn new(width: u32, height: u32) -> (r: Camera)
        ensures
            r == Camera::spec_new(width, height),
            r.spec_width() == width,
            r.spec_height() == height,
            r.spec_view() == default_view(),
    {
        Camera {
            width,
            height,
            view: LookAt {
                eye: Point3 { x: -200, y: -200, z: -1 },
                target: Point3 { x: -200, y: -200, z: 0 },
                up: Point3 { x: 0, y: 1, z: 0 },
            },
        }
    }

    /// Follows a change of viewport size; the view is left as it was.
    pub fn resize(&mut self, width: u32, height: u32)
        ensures
            *final(self) == old(self).spec_resized(width, height),
            final(self).spec_width() == width,
            final(self).spec_height() == height,
            final(self).spec_view() == old(self).spec_view(),
    {
        self.width = width;
        self.height = height;
    }

    pub fn set_view(&mut self, view: LookAt)
        ensures
            final(self).spec_width() == old(self).spec_width(),
            final(self).spec_height() == old(self).spec_height(),
            final(self).spec_view() == view,
    {
        self.view = view;
    }

    pub fn width(&self) -> (r: u32)
        ensures
            r == self.spec_width(),
    {
        self.width
    }

    pub fn height(&self) -> (r: u32)
        ensures
            r == self.spec_height(),
    {
        self.height
    }

    pub fn get_view(&self) -> (r: LookAt)
        ensures
            r == self.spec_view(),
    {
        self.view
    }

    pub fn get_projection(&self) -> (r: Orthographic)
        ensures
            r == self.spec_projection(),
    {
        Orthographic {
            left: 0,
            right: self.width as i64,
            bottom: 0,
            top: self.height as i64,
            near: -1,
            far: 1,
        }
    }
}

/// The camera after each size of `sizes` was applied by `resize`, in order.
pub open spec fn resized_through(camera: Camera, sizes: Seq<(u32, u32)>) -> Camera
    decreases sizes.len(),
{
    if sizes.len() == 0 {
        camera
    } else {
        resized_through(camera, sizes.drop_last()).spec_resized(sizes.last().0, sizes.last().1)
    }
}

/// After any sequence of resizes ending in `resize(w, h)`, the camera has the
/// projection (and the size) of a fresh `Camera::new(w, h)`.
pub proof fn lemma_resize_matches_new(camera: Camera, sizes: Seq<(u32, u32)>)
    requires
        sizes.len() > 0,
    ensures
        resized_through(camera, sizes).spec_projection() == Camera::spec_new(
            sizes.last().0,
            sizes.last().1,
        ).spec_projection(),
        resized_through(camera, sizes).spec_width() == sizes.last().0,
        resized_through(camera, sizes).spec_height() == sizes.last().1,
{
}

} // verus!
