use vstd::prelude::*;

verus! {

/// A generational handle to one playing voice in an audio backend.
///
/// Like `Entity`, identity is the pair of slot index and slot
/// generation: a handle to a stopped voice is stale rather than aliasing
/// whatever voice later reuses its slot.
#[derive(Debug, Clone, Copy, PartialEq, Eq, Hash, Structural)]
pub struct SourceHandle {
    index: u32,
    generation: u64,
}

impl SourceHandle {
    /// The slot index, as a specification value.
    pub closed spec fn spec_index(&self) -> u32 {
        self.index
    }

    /// The slot generation, as a specification value.
    pub closed spec fn spec_generation(&self) -> u64 {
        self.generation
    }

    /// Two handles are the same value exactly when their parts agree.
    pub proof fn lemma_eq(a: Self, b: Self)
        ensures
            (a == b) <==> (a.spec_index() == b.spec_index() && a.spec_generation() == b.spec_generation()),
    {
    }

    /// The backend slot this handle refers to.
    #[verifier::when_used_as_spec(spec_index)]
    pub fn index(&self) -> (r: u32)
        ensures
            r == self.spec_index(),
    {
        self.index
    }

    /// The generation of the slot when this voice started.
    #[verifier::when_used_as_spec(spec_generation)]
    pub fn generation(&self) -> (r: u64)
        ensures
            r == self.spec_generation(),
    {
        self.generation
    }

    /// Rebuilds a handle from raw parts, for backends that mint handles
    /// and for boundaries that only carry the bits. Verifies nothing: a
    /// forged handle is as safe as a stale one, because backends check
    /// liveness themselves.
    pub fn from_raw_parts(index: u32, generation: u64) -> (h: Self)
        ensures
            h.index() == index,
            h.generation() == generation,
    {
        SourceHandle { index, generation }
    }
}

} // verus!
