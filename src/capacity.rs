use vstd::prelude::*;

verus! {

/// How many rects the GPU buffers hold when the pipeline is created.
pub const INITIAL_RECT_COUNT: usize = 1;

pub open spec fn max_nat(a: nat, b: nat) -> nat {
    if a >= b {
        a
    } else {
        b
    }
}

/// What to do with the GPU buffers before one batched draw.
#[derive(Clone, Copy, Debug)]
pub struct UploadPlan {
    /// New sizes, in vertices and in indices, when the buffers must be made again.
    pub grow_to: Option<(usize, usize)>,
    /// Whether there are vertices to copy; a copy of zero bytes is skipped.
    pub copy_vertices: bool,
    /// Whether there are indices to copy.
    pub copy_indices: bool,
    /// How many indices the draw call covers.
    pub draw_count: usize,
}

/// The sizes, in elements, of the vertex and index buffers that the GPU holds.
/// They only grow, and never below what the last batch needed.
pub struct BufferCapacity {
    max_vertices: usize,
    max_indices: usize,
}

impl BufferCapacity {
    pub closed spec fn spec_max_vertices(&self) -> nat {
        self.max_vertices as nat
    }

    pub closed spec fn spec_max_indices(&self) -> nat {
        self.max_indices as nat
    }

    /// Room for `INITIAL_RECT_COUNT` rects.
    pub fn new() -> (r: BufferCapacity)
        ensures
            r.spec_max_vertices() == 4 * INITIAL_RECT_COUNT,
            r.spec_max_indices() == 6 * INITIAL_RECT_COUNT,
    {
        BufferCapacity { max_vertices: 4 * INITIAL_RECT_COUNT, max_indices: 6 * INITIAL_RECT_COUNT }
    }

    pub fn max_vertices(&self) -> (r: usize)
        ensures
            r == self.spec_max_vertices(),
    {
        self.max_vertices
    }

    pub fn max_indices(&self) -> (r: usize)
        ensures
            r == self.spec_max_indices(),
    {
        self.max_indices
    }

    /// Plans the upload of `vertex_count` vertices and `index_count` indices.
    /// Where either exceeds its buffer, both buffers are made again, each at
    /// the larger of its old size and what is asked; nothing is ever cut off.
    pub fn plan_upload(&mut self, vertex_count: usize, index_count: usize) -> (r: UploadPlan)
        ensures
            ({
                let grow = vertex_count > old(self).spec_max_vertices()
                    || index_count > old(self).spec_max_indices();
                &&& grow ==> r.grow_to.is_some() && r.grow_to.unwrap().0
                    == final(self).spec_max_vertices() && r.grow_to.unwrap().1
                    == final(self).spec_max_indices()
                &&& !grow ==> r.grow_to.is_none()
                &&& final(self).spec_max_vertices() == max_nat(
                    old(self).spec_max_vertices(),
                    vertex_count as nat,
                )
                &&& final(self).spec_max_indices() == max_nat(
                    old(self).spec_max_indices(),
                    index_count as nat,
                )
            }),
            final(self).spec_max_vertices() >= vertex_count,
            final(self).spec_max_indices() >= index_count,
            r.copy_vertices == (vertex_count > 0),
            r.copy_indices == (index_count > 0),
            r.draw_count == index_count,
    {
        let grow = vertex_count > self.max_vertices || index_count > self.max_indices;
        if vertex_count > self.max_vertices {
            self.max_vertices = vertex_count;
        }
        if index_count > self.max_indices {
            self.max_indices = index_count;
        }
        let grow_to = if grow {
            Some((self.max_vertices, self.max_indices))
        } else {
            None
        };
        UploadPlan {
            grow_to,
            copy_vertices: vertex_count > 0,
            copy_indices: index_count > 0,
            draw_count: index_count,
        }
    }
}

} // verus!
