use std::marker::PhantomData;

use vstd::prelude::*;
use vstd::string::StringExecFns;

use crate::text::{decimal, push_decimal};

verus! {

/// A typed, generational reference to an asset held by an `AssetStore`.
///
/// Identity is the pair of slot `index` and slot `generation`: a handle
/// stays valid only while the store's slot still carries the generation
/// it was issued for, so a handle to a removed (and possibly recycled)
/// asset is detectably stale rather than silently aliasing a new asset.
/// The type parameter only keeps handles of different asset types apart
/// at compile time; it never influences identity.
#[derive(Debug, Hash)]
pub struct AssetHandle<T> {
    index: u32,
    generation: u64,
    marker: PhantomData<T>,
}

impl<T> Clone for AssetHandle<T> {
    fn clone(&self) -> (r: Self)
        ensures
            r == *self,
    {
        *self
    }
}

impl<T> Copy for AssetHandle<T> {
}

impl<T> PartialEq for AssetHandle<T> {
    fn eq(&self, other: &Self) -> (r: bool) {
        self.index == other.index && self.generation == other.generation
    }
}

impl<T> vstd::std_specs::cmp::PartialEqSpecImpl for AssetHandle<T> {
    open spec fn obeys_eq_spec() -> bool {
        true
    }

    open spec fn eq_spec(&self, other: &Self) -> bool {
        self.spec_index() == other.spec_index() && self.spec_generation() == other.spec_generation()
    }
}

impl<T> Eq for AssetHandle<T> {
}

impl<T> AssetHandle<T> {
    /// The slot index, as a specification value.
    pub closed spec fn spec_index(&self) -> u32 {
        self.index
    }

    /// The slot generation, as a specification value.
    pub closed spec fn spec_generation(&self) -> u64 {
        self.generation
    }

    /// The handle with the given parts, as a specification value.
    pub closed spec fn spec_from_parts(index: u32, generation: u64) -> Self {
        AssetHandle { index, generation, marker: PhantomData }
    }

    /// A handle is determined by its parts.
    pub proof fn lemma_parts(index: u32, generation: u64)
        ensures
            Self::spec_from_parts(index, generation).spec_index() == index,
            Self::spec_from_parts(index, generation).spec_generation() == generation,
    {
    }

    /// Two handles of one asset type are the same value exactly when
    /// their parts agree.
    pub proof fn lemma_eq(a: Self, b: Self)
        ensures
            (a == b) <==> (a.spec_index() == b.spec_index() && a.spec_generation() == b.spec_generation()),
    {
        if a.spec_index() == b.spec_index() && a.spec_generation() == b.spec_generation() {
            assert(a.marker == b.marker);
        }
    }

    /// The slot index this handle points at. Slots are recycled, so only
    /// the index together with the generation identifies an asset.
    #[verifier::when_used_as_spec(spec_index)]
    pub fn index(&self) -> (r: u32)
        ensures
            r == self.spec_index(),
    {
        self.index
    }

    /// The generation of the slot this handle was issued for.
    #[verifier::when_used_as_spec(spec_generation)]
    pub fn generation(&self) -> (r: u64)
        ensures
            r == self.spec_generation(),
    {
        self.generation
    }

    /// Rebuilds a handle from raw `index` and `generation` parts, for a
    /// boundary that can only carry the bits. Verifies nothing: a forged
    /// handle is exactly as safe as a stale one, because the store checks
    /// liveness itself.
    pub fn from_raw_parts(index: u32, generation: u64) -> (h: Self)
        ensures
            h == Self::spec_from_parts(index, generation),
            h.index() == index,
            h.generation() == generation,
    {
        AssetHandle { index, generation, marker: PhantomData }
    }

    /// The handle as displayed: `Asset(<index>v<generation>)`.
    pub fn to_text(&self) -> (r: String)
        ensures
            r@ == "Asset("@ + decimal(self.spec_index() as nat) + "v"@ + decimal(self.spec_generation() as nat)
                + ")"@,
    {
        let mut s = String::from_str("Asset(");
        push_decimal(&mut s, self.index as u64);
        s.append("v");
        push_decimal(&mut s, self.generation);
        s.append(")");
        s
    }

    /// The same slot identity as a handle for another asset type `U`,
    /// for a caller that knows the slot actually holds a `U`.
    pub fn with_type<U>(&self) -> (h: AssetHandle<U>)
        ensures
            h.index() == self.index(),
            h.generation() == self.generation(),
    {
        AssetHandle::from_raw_parts(self.index, self.generation)
    }
}

} // verus!
