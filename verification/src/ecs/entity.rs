use vstd::prelude::*;
use vstd::string::StringExecFns;

use crate::text::{decimal, push_decimal};

verus! {

/// A generational entity identifier.
///
/// Two `Entity` values are equal only if both `index` and `generation`
/// match, so a stale handle to a despawned (and possibly index-recycled)
/// entity is detectable rather than silently aliasing a new one.
///
/// `generation` is a `u64` so that a frequently recycled slot cannot wrap
/// back onto an old handle's generation within any realistic runtime;
/// `index` stays `u32`, bounded by the number of slots ever created.
#[derive(Debug, Clone, Copy, PartialEq, Eq, Hash, Structural)]
pub struct Entity {
    pub(crate) index: u32,
    pub(crate) generation: u64,
}

impl Entity {
    /// The slot index, as a specification value.
    pub open(crate) spec fn spec_index(&self) -> u32 {
        self.index
    }

    /// The slot generation, as a specification value.
    pub open(crate) spec fn spec_generation(&self) -> u64 {
        self.generation
    }

    /// The handle with the given parts, as a specification value.
    pub open(crate) spec fn spec_from_parts(index: u32, generation: u64) -> Entity {
        Entity { index, generation }
    }

    /// The slot index this entity occupies. Slots are recycled, so the
    /// index alone is not a stable identifier; the generation is what
    /// makes a full `Entity` value unambiguous.
    #[verifier::when_used_as_spec(spec_index)]
    pub fn index(&self) -> (r: u32)
        ensures
            r == self.spec_index(),
    {
        self.index
    }

    /// The generation of the slot this entity occupied at spawn time.
    #[verifier::when_used_as_spec(spec_generation)]
    pub fn generation(&self) -> (r: u64)
        ensures
            r == self.spec_generation(),
    {
        self.generation
    }

    /// The handle as displayed: `Entity(<index>v<generation>)`.
    pub fn to_text(&self) -> (r: String)
        ensures
            r@ == "Entity("@ + decimal(self.spec_index() as nat) + "v"@ + decimal(self.spec_generation() as nat) + ")"@,
    {
        let mut s = String::from_str("Entity(");
        push_decimal(&mut s, self.index as u64);
        s.append("v");
        push_decimal(&mut s, self.generation);
        s.append(")");
        s
    }

    /// Rebuilds a handle from raw `index` and `generation` parts, for a
    /// caller on the far side of a boundary that only has the bits.
    /// Verifies nothing: a forged handle is exactly as safe as a stale
    /// one, because every `World` operation checks liveness itself.
    pub fn from_raw_parts(index: u32, generation: u64) -> (e: Entity)
        ensures
            e.index() == index,
            e.generation() == generation,
    {
        Entity { index, generation }
    }
}

/// Two entities are the same value exactly when their parts agree.
pub proof fn lemma_entity_eq(a: Entity, b: Entity)
    ensures
        (a == b) <==> (a.index() == b.index() && a.generation() == b.generation()),
{
}

/// A monotonically increasing point in a `World`'s history, used to
/// detect whether a component or resource has been written since some
/// earlier point in time.
///
/// `Tick` is a `u64` so that a stale `since` value captured long ago can
/// never compare greater than a genuinely more recent tick within any
/// realistic runtime.
#[derive(Debug, Clone, Copy, PartialEq, Eq, PartialOrd, Ord, Hash, Structural)]
pub struct Tick(pub(crate) u64);

impl Tick {
    /// The tick's position in the world's history.
    pub open(crate) spec fn spec_value(&self) -> u64 {
        self.0
    }

    /// The tick's position in the world's history.
    #[verifier::when_used_as_spec(spec_value)]
    pub fn value(&self) -> (r: u64)
        ensures
            r == self.spec_value(),
    {
        self.0
    }

    /// The tick one step after this one (wrapping, so debug and release
    /// builds agree even at the unreachable limit).
    pub open(crate) spec fn spec_next(&self) -> Tick {
        Tick(if self.0 == u64::MAX { 0 } else { (self.0 + 1) as u64 })
    }

    /// Advances to the next tick: the only way a tick ever changes.
    pub(crate) fn increment(&mut self)
        ensures
            *final(self) == old(self).spec_next(),
    {
        self.0 = self.0.wrapping_add(1);
    }

    /// Whether this tick is strictly later than `since`.
    pub fn is_after(&self, since: Tick) -> (r: bool)
        ensures
            r == (self.spec_value() > since.spec_value()),
    {
        self.0 > since.0
    }
}

impl Default for Tick {
    /// The first tick of every world's history.
    fn default() -> (t: Tick)
        ensures
            t.spec_value() == 0,
    {
        Tick(0)
    }
}

/// A component kind: the key under which a `World` stores one kind of
/// component (or resource) value.
///
/// This is the host-side identity the storage is keyed by; the stable,
/// language-independent schema names of `World::register_component` map
/// onto it.
#[derive(Debug, Clone, Copy, PartialEq, Eq, PartialOrd, Ord, Hash, Structural)]
pub struct ComponentId(pub u64);

} // verus!
