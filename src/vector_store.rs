use vstd::prelude::*;

verus! {

/// The positional side of the nearest-neighbour index: the dimension its
/// vectors must have and how many have been appended. A vector's id is its
/// position in append order.
pub struct VectorStore {
    dim: usize,
    count: usize,
}

impl VectorStore {
    pub closed spec fn dimension(&self) -> nat {
        self.dim as nat
    }

    pub closed spec fn size(&self) -> nat {
        self.count as nat
    }

    /// An empty store for vectors of `dim` components.
    pub fn new(dim: usize) -> (r: Self)
        ensures
            r.dimension() == dim,
            r.size() == 0,
    {
        VectorStore { dim, count: 0 }
    }

    /// Appends vectors whose lengths are given, in order; each must have the
    /// store's dimension.
    pub fn add(&mut self, vector_lens: &Vec<usize>)
        requires
            forall|j: int| 0 <= j < vector_lens@.len() ==> #[trigger] vector_lens@[j] == old(self).dimension(),
            old(self).size() + vector_lens@.len() <= usize::MAX,
        ensures
            final(self).size() == old(self).size() + vector_lens@.len(),
            final(self).dimension() == old(self).dimension(),
    {
        self.count = self.count + vector_lens.len();
    }

    /// Number of vectors in the store.
    pub fn len(&self) -> (r: usize)
        ensures
            r == self.size(),
    {
        self.count
    }

    /// The dimension every vector of the store has.
    pub fn dim(&self) -> (r: usize)
        ensures
            r == self.dimension(),
    {
        self.dim
    }
}

} // verus!
