//! Triangle indices of UI render data: quads are two triangles over four
//! new vertices, and merged data has its indices shifted past the vertices
//! already present. Vertex positions, colors and texture coordinates are
//! kept alongside by the caller, one entry per vertex counted here.

use vstd::prelude::*;

verus! {

/// Every index names one of the `vertex_count` vertices.
pub open spec fn indices_in_range(indices: Seq<u32>, vertex_count: nat) -> bool {
    forall|i: int| 0 <= i < indices.len() ==> #[trigger] indices[i] < vertex_count
}

/// The six indices of a quad whose four vertices start at `base`: the
/// triangles (0, 1, 2) and (0, 2, 3).
pub open spec fn quad_indices(base: u32) -> Seq<u32> {
    seq![base, (base + 1) as u32, (base + 2) as u32, base, (base + 2) as u32, (base + 3) as u32]
}

/// `indices` with `offset` added to each.
pub open spec fn shifted(indices: Seq<u32>, offset: u32) -> Seq<u32> {
    indices.map_values(|i: u32| (i + offset) as u32)
}

/// Vertex count and triangle indices of render data.
#[derive(Debug, Clone)]
pub struct MeshIndices {
    vertex_count: u32,
    indices: Vec<u32>,
}

impl MeshIndices {
    /// Number of vertices.
    pub closed spec fn count(&self) -> nat {
        self.vertex_count as nat
    }

    /// The triangle indices.
    pub closed spec fn index_seq(&self) -> Seq<u32> {
        self.indices@
    }

    /// Every index names a vertex.
    pub open spec fn wf(&self) -> bool {
        indices_in_range(self.index_seq(), self.count())
    }

    /// No vertices and no triangles.
    pub fn new() -> (m: Self)
        ensures
            m.wf(),
            m.count() == 0,
            m.index_seq().len() == 0,
    {
        MeshIndices { vertex_count: 0, indices: Vec::new() }
    }

    /// Number of vertices.
    pub fn vertex_count(&self) -> (n: u32)
        ensures
            n == self.count(),
    {
        self.vertex_count
    }

    /// The triangle indices.
    pub fn indices(&self) -> (v: &Vec<u32>)
        ensures
            v@ == self.index_seq(),
    {
        &self.indices
    }

    /// Adds a quad: four vertices after the present ones and its two triangles.
    pub fn add_quad(&mut self)
        requires
            old(self).wf(),
            old(self).count() + 4 <= u32::MAX,
        ensures
            final(self).wf(),
            final(self).count() == old(self).count() + 4,
            final(self).index_seq() == old(self).index_seq() + quad_indices(old(self).count() as u32),
    {
        let base = self.vertex_count;
        self.indices.push(base);
        self.indices.push(base + 1);
        self.indices.push(base + 2);
        self.indices.push(base);
        self.indices.push(base + 2);
        self.indices.push(base + 3);
        self.vertex_count = base + 4;
        proof {
            assert(self.indices@ =~= old(self).index_seq() + quad_indices(base));
        }
    }

    /// Appends the vertices and triangles of `other`, its indices shifted
    /// past the vertices already present.
    pub fn merge(&mut self, other: &MeshIndices)
        requires
            old(self).count() + other.count() <= u32::MAX,
            forall|i: int| 0 <= i < other.index_seq().len() ==> #[trigger] other.index_seq()[i] + old(self).count() <= u32::MAX,
        ensures
            old(self).wf() && other.wf() ==> final(self).wf(),
            final(self).count() == old(self).count() + other.count(),
            final(self).index_seq() == old(self).index_seq() + shifted(other.index_seq(), old(self).count() as u32),
    {
        let offset = self.vertex_count;
        let mut k: usize = 0;
        while k < other.indices.len()
            invariant
                0 <= k <= other.indices@.len(),
                offset == old(self).count(),
                offset + other.count() <= u32::MAX,
                forall|i: int| 0 <= i < other.index_seq().len() ==> #[trigger] other.index_seq()[i] + offset <= u32::MAX,
                self.vertex_count == offset,
                self.indices@ == old(self).index_seq() + shifted(other.index_seq().take(k as int), offset),
            decreases other.indices@.len() - k,
        {
            let idx = other.indices[k];
            proof {
                assert(other.index_seq()[k as int] + offset <= u32::MAX);
            }
            self.indices.push(idx + offset);
            proof {
                assert(shifted(other.index_seq().take(k + 1), offset) =~= shifted(other.index_seq().take(k as int), offset).push(
                    (idx + offset) as u32,
                ));
            }
            k = k + 1;
        }
        self.vertex_count = offset + other.vertex_count;
        proof {
            assert(other.index_seq().take(other.index_seq().len() as int) =~= other.index_seq());
            if old(self).wf() && other.wf() {
                assert forall|i: int| 0 <= i < self.index_seq().len() implies #[trigger] self.index_seq()[i] < self.count() by {
                    if i >= old(self).index_seq().len() {
                        let j = i - old(self).index_seq().len();
                        assert(other.index_seq()[j] < other.count());
                    }
                }
            }
        }
    }
}

} // verus!
