use vstd::prelude::*;

verus! {

/// The most quads one batch holds: with 16-bit indices, vertex numbers stop at 65535.
pub const MAX_QUADS: usize = 16384;

/// The six corner numbers, within one quad, of its two triangles {0, 1, 2} and {0, 2, 3}.
pub open spec fn quad_index_spec(k: int) -> int {
    if k == 0 || k == 3 {
        0
    } else if k == 1 {
        1
    } else if k == 2 || k == 4 {
        2
    } else {
        3
    }
}

/// The corners of the unit quad, in the order its vertices are emitted.
pub open spec fn quad_corner_spec(k: int) -> (u32, u32) {
    if k == 0 {
        (1, 1)
    } else if k == 1 {
        (0, 1)
    } else if k == 2 {
        (0, 0)
    } else {
        (1, 0)
    }
}

pub fn quad_index(k: usize) -> (r: u16)
    requires
        k < 6,
    ensures
        r as int == quad_index_spec(k as int),
{
    if k == 0 || k == 3 {
        0
    } else if k == 1 {
        1
    } else if k == 2 || k == 4 {
        2
    } else {
        3
    }
}

/// The local position, within the unit square, of corner `k` of a quad.
pub fn quad_corner(k: usize) -> (r: (u32, u32))
    requires
        k < 4,
    ensures
        r == quad_corner_spec(k as int),
{
    if k == 0 {
        (1, 1)
    } else if k == 1 {
        (0, 1)
    } else if k == 2 {
        (0, 0)
    } else {
        (1, 0)
    }
}

/// The indices of quad number `q` of a batch: its two triangles, over its own four vertices.
pub open spec fn quad_indices_at(q: nat) -> Seq<int> {
    Seq::new(6, |k: int| 4 * q + quad_index_spec(k))
}

/// The vertices of a batch of quads, four per quad, in drawing order.
pub open spec fn batch_vertices<V>(quads: Seq<(V, V, V, V)>) -> Seq<V>
    decreases quads.len(),
{
    if quads.len() == 0 {
        Seq::empty()
    } else {
        let q = quads.last();
        batch_vertices(quads.drop_last()) + seq![q.0, q.1, q.2, q.3]
    }
}

/// The indices of a batch of `n` quads, six per quad, in drawing order.
pub open spec fn batch_indices(n: nat) -> Seq<int>
    decreases n,
{
    if n == 0 {
        Seq::empty()
    } else {
        batch_indices((n - 1) as nat) + quad_indices_at((n - 1) as nat)
    }
}

pub open spec fn indices_view(s: Seq<u16>) -> Seq<int> {
    s.map_values(|i: u16| i as int)
}

/// The geometry of one frame, gathered for a single indexed draw. Later quads
/// paint over earlier ones.
pub struct Scene<V> {
    vertices: Vec<V>,
    indices: Vec<u16>,
    quads: Ghost<Seq<(V, V, V, V)>>,
}

impl<V> View for Scene<V> {
    type V = Seq<(V, V, V, V)>;

    /// The quads drawn so far, each as its four corner vertices.
    closed spec fn view(&self) -> Seq<(V, V, V, V)> {
        self.quads@
    }
}

impl<V> Scene<V> {
    pub closed spec fn spec_vertices(&self) -> Seq<V> {
        self.vertices@
    }

    pub closed spec fn spec_indices(&self) -> Seq<u16> {
        self.indices@
    }

    pub closed spec fn wf(&self) -> bool {
        &&& self.quads@.len() <= MAX_QUADS
        &&& self.vertices@ == batch_vertices(self.quads@)
        &&& indices_view(self.indices@) == batch_indices(self.quads@.len())
    }

    /// An empty batch.
    pub fn new() -> (r: Scene<V>)
        ensures
            r.wf(),
            r@ == Seq::<(V, V, V, V)>::empty(),
            r.spec_vertices() == batch_vertices(r@),
            indices_view(r.spec_indices()) == batch_indices(0),
    {
        let r = Scene { vertices: Vec::new(), indices: Vec::new(), quads: Ghost(Seq::empty()) };
        assert(indices_view(r.indices@) =~= batch_indices(0));
        r
    }

    pub fn quad_count(&self) -> (r: usize)
        requires
            self.wf(),
        ensures
            r == self@.len(),
    {
        proof {
            lemma_batch_vertices_len(self.quads@);
        }
        self.vertices.len() / 4
    }

    pub fn is_full(&self) -> (r: bool)
        requires
            self.wf(),
        ensures
            r == (self@.len() >= MAX_QUADS),
    {
        self.quad_count() >= MAX_QUADS
    }

    /// Appends one quad: its four vertices, and six indices that number them
    /// from the running vertex count.
    pub fn push_quad(&mut self, v0: V, v1: V, v2: V, v3: V)
        requires
            old(self).wf(),
            old(self)@.len() < MAX_QUADS,
        ensures
            final(self).wf(),
            final(self)@ == old(self)@.push((v0, v1, v2, v3)),
            final(self).spec_vertices() == old(self).spec_vertices() + seq![v0, v1, v2, v3],
            indices_view(final(self).spec_indices()) == indices_view(old(self).spec_indices())
                + quad_indices_at(old(self)@.len()),
    {
        proof {
            lemma_batch_vertices_len(self.quads@);
        }
        let base = self.vertices.len() as u16;
        let ghost q = (v0, v1, v2, v3);
        let ghost old_indices = self.indices@;
        self.vertices.push(v0);
        self.vertices.push(v1);
        self.vertices.push(v2);
        self.vertices.push(v3);
        let mut k: usize = 0;
        while k < 6
            invariant
                k <= 6,
                self.quads@ == old(self).quads@,
                self.vertices@ == old(self).vertices@ + seq![v0, v1, v2, v3],
                base as int == 4 * self.quads@.len(),
                self.quads@.len() < MAX_QUADS,
                self.indices@.len() == old_indices.len() + k,
                indices_view(self.indices@) == indices_view(old_indices) + quad_indices_at(
                    self.quads@.len(),
                ).take(k as int),
            decreases 6 - k,
        {
            let i = base + quad_index(k);
            let ghost before = self.indices@;
            self.indices.push(i);
            assert(indices_view(self.indices@) =~= indices_view(before).push(i as int));
            assert(quad_indices_at(self.quads@.len()).take(k as int + 1) =~= quad_indices_at(
                self.quads@.len(),
            ).take(k as int).push(i as int));
            k = k + 1;
        }
        proof {
            let n = self.quads@.len();
            assert(quad_indices_at(n).take(6) =~= quad_indices_at(n));
            self.quads = Ghost(self.quads@.push(q));
            assert(self.quads@.drop_last() =~= old(self).quads@);
            assert(self.vertices@ =~= batch_vertices(self.quads@));
        }
    }

    /// Hands out the gathered vertices and indices, for upload.
    pub fn into_parts(self) -> (r: (Vec<V>, Vec<u16>))
        requires
            self.wf(),
        ensures
            r.0@ == self.spec_vertices(),
            r.1@ == self.spec_indices(),
            r.0@ == batch_vertices(self@),
            indices_view(r.1@) == batch_indices(self@.len()),
    {
        (self.vertices, self.indices)
    }

    pub fn vertices(&self) -> (r: &Vec<V>)
        requires
            self.wf(),
        ensures
            r@ == self.spec_vertices(),
            r@ == batch_vertices(self@),
    {
        &self.vertices
    }

    pub fn indices(&self) -> (r: &Vec<u16>)
        requires
            self.wf(),
        ensures
            r@ == self.spec_indices(),
            indices_view(r@) == batch_indices(self@.len()),
    {
        &self.indices
    }
}

pub proof fn lemma_batch_vertices_len<V>(quads: Seq<(V, V, V, V)>)
    ensures
        batch_vertices(quads).len() == 4 * quads.len(),
    decreases quads.len(),
{
    if quads.len() > 0 {
        lemma_batch_vertices_len(quads.drop_last());
    }
}

/// Drawing `n` quads gives exactly `6 * n` indices, each naming one of the
/// `4 * n` vertices; quad `q` refers to its own four vertices only.
pub proof fn lemma_batch_indices(n: nat)
    ensures
        batch_indices(n).len() == 6 * n,
        forall|i: int| 0 <= i < 6 * n ==> 0 <= #[trigger] batch_indices(n)[i] < 4 * n,
        forall|q: int, k: int|
            0 <= q < n && 0 <= k < 6 ==> #[trigger] batch_indices(n)[6 * q + k] == 4 * q
                + quad_index_spec(k),
    decreases n,
{
    if n > 0 {
        let m = (n - 1) as nat;
        lemma_batch_indices(m);
        let prev = batch_indices(m);
        let all = batch_indices(n);
        assert(all == prev + quad_indices_at(m));
        assert forall|i: int| 0 <= i < 6 * n implies 0 <= #[trigger] all[i] < 4 * n by {
            if i < 6 * m {
                assert(all[i] == prev[i]);
            } else {
                assert(all[i] == quad_indices_at(m)[i - 6 * m]);
            }
        }
        assert forall|q: int, k: int| 0 <= q < n && 0 <= k < 6 implies #[trigger] all[6 * q + k]
            == 4 * q + quad_index_spec(k) by {
            if q < m {
                assert(all[6 * q + k] == prev[6 * q + k]);
            } else {
                assert(all[6 * q + k] == quad_indices_at(m)[k]);
            }
        }
    }
}

/// Drawing `n` quads into a batch gives exactly `4 * n` vertices and `6 * n`
/// indices, and every index names one of those vertices.
pub proof fn lemma_batch_shape<V>(quads: Seq<(V, V, V, V)>)
    ensures
        batch_vertices(quads).len() == 4 * quads.len(),
        batch_indices(quads.len()).len() == 6 * quads.len(),
        forall|i: int|
            0 <= i < batch_indices(quads.len()).len() ==> 0 <= #[trigger] batch_indices(
                quads.len(),
            )[i] < batch_vertices(quads).len(),
{
    lemma_batch_vertices_len(quads);
    lemma_batch_indices(quads.len());
}

/// Every batch that `new` and `push_quad` build holds `4 * n` vertices and
/// `6 * n` indices for its `n` quads, and each index names one of its vertices.
pub proof fn lemma_scene_shape<V>(scene: &Scene<V>)
    requires
        scene.wf(),
    ensures
        scene.spec_vertices().len() == 4 * scene@.len(),
        scene.spec_indices().len() == 6 * scene@.len(),
        forall|i: int|
            0 <= i < scene.spec_indices().len() ==> (#[trigger] scene.spec_indices()[i]) < 4
                * scene@.len(),
{
    lemma_batch_shape(scene@);
    let iv = indices_view(scene.spec_indices());
    assert(iv.len() == scene.spec_indices().len());
    assert forall|i: int| 0 <= i < scene.spec_indices().len() implies (
    #[trigger] scene.spec_indices()[i]) < 4 * scene@.len() by {
        assert(iv[i] == scene.spec_indices()[i] as int);
    }
}

} // verus!
