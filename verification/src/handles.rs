//! Fixed handles: plain integer identifiers of vertices, edges and faces.
//!
//! A fixed handle does not borrow the mesh it points into. It stays usable
//! across insertions and may go stale when a vertex is removed. The only
//! arithmetic defined on handles converts between the two directed edges of
//! an undirected edge: the directed edges `2 * u` and `2 * u + 1` belong to
//! the undirected edge `u`.
use vstd::prelude::*;

verus! {

/// The index of the directed edge that runs opposite to the directed edge `e`.
pub open spec fn twin_index(e: int) -> int {
    if e % 2 == 0 {
        e + 1
    } else {
        e - 1
    }
}

/// Reversing a directed edge twice gives the edge back.
pub proof fn lemma_twin_involution(e: int)
    ensures
        twin_index(twin_index(e)) == e,
        twin_index(e) != e,
        twin_index(e) / 2 == e / 2,
{
}

/// Marks a face handle that never refers to the outer face.
#[derive(Clone, Copy, Debug, PartialEq, Eq, Hash)]
pub struct InnerTag;

/// Marks a face handle that may refer to the outer face.
#[derive(Clone, Copy, Debug, PartialEq, Eq, Hash)]
pub struct PossiblyOuterTag;

/// Identifies a vertex.
#[derive(Clone, Copy, Debug, PartialEq, Eq, Structural, Hash)]
pub struct FixedVertexHandle {
    index: usize,
}

/// Identifies one of the two directed edges of an undirected edge.
#[derive(Clone, Copy, Debug, PartialEq, Eq, Structural, Hash)]
pub struct FixedDirectedEdgeHandle {
    index: usize,
}

/// Identifies an undirected edge.
#[derive(Clone, Copy, Debug, PartialEq, Eq, Structural, Hash)]
pub struct FixedUndirectedEdgeHandle {
    index: usize,
}

/// Identifies a face. The tag tells whether the outer face is a possible
/// value.
#[derive(Clone, Copy, Debug, PartialEq, Eq, Hash)]
pub struct FixedFaceHandle<Tag> {
    index: usize,
    tag: Tag,
}

impl View for FixedVertexHandle {
    type V = int;

    closed spec fn view(&self) -> int {
        self.index as int
    }
}

impl View for FixedDirectedEdgeHandle {
    type V = int;

    closed spec fn view(&self) -> int {
        self.index as int
    }
}

impl View for FixedUndirectedEdgeHandle {
    type V = int;

    closed spec fn view(&self) -> int {
        self.index as int
    }
}

impl<Tag> View for FixedFaceHandle<Tag> {
    type V = int;

    closed spec fn view(&self) -> int {
        self.index as int
    }
}

impl FixedVertexHandle {
    pub fn new(index: usize) -> (h: Self)
        ensures
            h@ == index,
    {
        FixedVertexHandle { index }
    }

    pub fn index(&self) -> (i: usize)
        ensures
            i == self@,
    {
        self.index
    }

    /// A vertex handle is determined by its index.
    pub proof fn lemma_view_determines(self, other: Self)
        ensures
            self@ == other@ <==> self == other,
            0 <= self@ <= usize::MAX,
    {
    }
}

impl FixedDirectedEdgeHandle {
    pub fn new(index: usize) -> (h: Self)
        ensures
            h@ == index,
    {
        FixedDirectedEdgeHandle { index }
    }

    pub fn index(&self) -> (i: usize)
        ensures
            i == self@,
    {
        self.index
    }

    /// A directed edge handle is determined by its index.
    pub proof fn lemma_view_determines(self, other: Self)
        ensures
            self@ == other@ <==> self == other,
            0 <= self@ <= usize::MAX,
    {
    }

    /// The normalized directed edge of the undirected edge `index`.
    pub fn new_normalized(index: usize) -> (h: Self)
        requires
            index <= usize::MAX / 2,
        ensures
            h@ == 2 * index,
    {
        assert(index << 1 == (2 * index) as usize) by (bit_vector);
        Self::new(index << 1)
    }

    /// Whether this is the normalized edge of its pair, the one with the even
    /// index.
    pub fn is_normalized(self) -> (b: bool)
        ensures
            b == (self@ % 2 == 0),
    {
        let i: usize = self.index;
        assert((i & 0x1 == 0x0) == (i % 2 == 0)) by (bit_vector);
        self.index & 0x1 == 0x0
    }

    /// The position of this edge within its pair: 0 for the normalized edge, 1
    /// for the other.
    pub fn normalize_index(self) -> (i: usize)
        ensures
            i == self@ % 2,
    {
        let i: usize = self.index;
        assert(i & 0x1 == i % 2) by (bit_vector);
        self.index & 0x1
    }

    /// Returns this edge with its direction reversed.
    ///
    /// If this edge points from `v0` to `v1`, the returned edge points from
    /// `v1` to `v0`. Reversing twice returns the edge itself.
    pub fn rev(self) -> (h: Self)
        ensures
            h@ == twin_index(self@),
            h.rev_spec() == self,
    {
        let i: usize = self.index;
        assert(i ^ 0x1 == if i % 2 == 0 {
            (i + 1) as usize
        } else {
            (i - 1) as usize
        }) by (bit_vector);
        assert(usize::MAX % 2 == 1);
        Self::new(self.index ^ 0x1)
    }

    /// The handle of the reversed edge.
    pub closed spec fn rev_spec(self) -> Self {
        FixedDirectedEdgeHandle { index: twin_index(self.index as int) as usize }
    }

    /// Converts this directed edge handle into the handle of its undirected
    /// edge.
    pub fn as_undirected(self) -> (h: FixedUndirectedEdgeHandle)
        ensures
            h@ == self@ / 2,
    {
        let i: usize = self.index;
        assert(i >> 1 == i / 2) by (bit_vector);
        FixedUndirectedEdgeHandle::new(self.index >> 1)
    }
}

impl FixedUndirectedEdgeHandle {
    pub fn new(index: usize) -> (h: Self)
        ensures
            h@ == index,
    {
        FixedUndirectedEdgeHandle { index }
    }

    pub fn index(&self) -> (i: usize)
        ensures
            i == self@,
    {
        self.index
    }

    /// An undirected edge handle is determined by its index.
    pub proof fn lemma_view_determines(self, other: Self)
        ensures
            self@ == other@ <==> self == other,
            0 <= self@ <= usize::MAX,
    {
    }

    /// The normalized one of the two directed edges of this edge.
    pub fn as_directed(&self) -> (h: FixedDirectedEdgeHandle)
        requires
            self@ <= usize::MAX / 2,
        ensures
            h@ == 2 * self@,
    {
        FixedDirectedEdgeHandle::new_normalized(self.index)
    }

    /// The directed edge with the even index.
    pub fn normalized(&self) -> (h: FixedDirectedEdgeHandle)
        requires
            self@ <= usize::MAX / 2,
        ensures
            h@ == 2 * self@,
    {
        self.as_directed()
    }

    /// The directed edge with the odd index.
    pub fn not_normalized(&self) -> (h: FixedDirectedEdgeHandle)
        requires
            self@ <= usize::MAX / 2,
        ensures
            h@ == 2 * self@ + 1,
    {
        self.as_directed().rev()
    }
}

impl<Tag> FixedFaceHandle<Tag> {
    pub fn index(&self) -> (i: usize)
        ensures
            i == self@,
    {
        self.index
    }

}

impl FixedFaceHandle<PossiblyOuterTag> {
    pub fn new(index: usize) -> (h: Self)
        ensures
            h@ == index,
    {
        FixedFaceHandle { index, tag: PossiblyOuterTag }
    }

    /// The handle of the outer face.
    pub fn outer() -> (h: Self)
        ensures
            h@ == 0,
    {
        FixedFaceHandle { index: 0, tag: PossiblyOuterTag }
    }

    /// Returns `true` if this face is the single outer face.
    pub fn is_outer(&self) -> (b: bool)
        ensures
            b == (self@ == 0),
    {
        self.index == 0
    }

    /// Converts this face handle to an inner face.
    ///
    /// Returns `None` if this handle refers to the single outer face.
    pub fn as_inner(&self) -> (r: Option<FixedFaceHandle<InnerTag>>)
        ensures
            self@ == 0 ==> r.is_none(),
            self@ != 0 ==> r.is_some() && r.unwrap()@ == self@,
    {
        if self.is_outer() {
            None
        } else {
            Some(FixedFaceHandle { index: self.index, tag: InnerTag })
        }
    }
}

impl FixedFaceHandle<InnerTag> {
    /// The handle of the inner face `index`.
    pub fn new_inner(index: usize) -> (h: Self)
        requires
            index != 0,
        ensures
            h@ == index,
    {
        FixedFaceHandle { index, tag: InnerTag }
    }

    /// Forgets that this face is an inner face.
    pub fn as_possibly_outer(&self) -> (h: FixedFaceHandle<PossiblyOuterTag>)
        ensures
            h@ == self@,
    {
        FixedFaceHandle { index: self.index, tag: PossiblyOuterTag }
    }
}

} // verus!
