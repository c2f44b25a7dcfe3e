use vstd::prelude::*;

verus! {

/// The index of a self-play slot, which is also the index of its row in a batch.
#[derive(Debug, Clone, PartialEq, Eq, Hash)]
pub struct ThreadID {
    id: usize,
}

impl ThreadID {
    pub closed spec fn spec_id(&self) -> usize {
        self.id
    }

    pub fn new(id: usize) -> (r: Self)
        ensures
            r.spec_id() == id,
    {
        Self { id }
    }

    pub fn id(&self) -> (r: usize)
        ensures
            r == self.spec_id(),
    {
        self.id
    }
}

} // verus!
