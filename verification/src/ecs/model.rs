use vstd::prelude::*;

use crate::ecs::entity::{ComponentId, Entity, Tick};

verus! {

/// The abstract state of a `World`: what its operations are specified
/// against, with the archetype tables, rows and columns abstracted away.
#[verifier::ext_equal]
pub struct WorldModel<V> {
    /// Every slot ever created, as `(generation, occupied)`.
    pub slots: Seq<(u64, bool)>,
    /// Despawned slot indices awaiting reuse, most recently freed last.
    pub free: Seq<u32>,
    /// Each stored component, keyed by entity and kind, with the tick it
    /// was last written at.
    pub components: Map<(Entity, ComponentId), (V, Tick)>,
    /// Each stored resource, keyed by kind, with the tick it was last
    /// written at.
    pub resources: Map<ComponentId, (V, Tick)>,
    /// Registered stable schema identities (as UTF-8 bytes) and the kind
    /// each names.
    pub schemas: Map<Seq<u8>, ComponentId>,
    /// The tick the next write is stamped with.
    pub tick: Tick,
}

/// The generation a slot moves to when its occupant is despawned or
/// removed (wrapping, so debug and release builds agree at the
/// unreachable limit).
pub open spec fn bump_generation(g: u64) -> u64 {
    if g == u64::MAX {
        0
    } else {
        (g + 1) as u64
    }
}

impl<V> WorldModel<V> {
    /// Whether `e` names the entity currently occupying its slot.
    pub open spec fn is_live(self, e: Entity) -> bool {
        &&& (e.index() as int) < self.slots.len()
        &&& self.slots[e.index() as int].1
        &&& self.slots[e.index() as int].0 == e.generation()
    }

    /// The invariants every reachable state satisfies: only live entities
    /// hold components, and the free list names distinct, unoccupied
    /// slots.
    pub open spec fn valid(self) -> bool {
        &&& forall|p: (Entity, ComponentId)| #[trigger] self.components.contains_key(p) ==> self.is_live(p.0)
        &&& forall|f: int|
            0 <= f < self.free.len() ==> {
                &&& (#[trigger] self.free[f] as int) < self.slots.len()
                &&& !self.slots[self.free[f] as int].1
            }
        &&& forall|f: int, g: int| 0 <= f < g < self.free.len() ==> #[trigger] self.free[f] != #[trigger] self.free[g]
        &&& self.slots.len() <= u32::MAX as int + 1
    }

    /// Spawning: the most recently freed slot is reused at its current
    /// generation; with none free, a new slot is created at generation 0.
    pub open spec fn spawn(self) -> (Self, Entity) {
        if self.free.len() > 0 {
            let i = self.free.last();
            let g = self.slots[i as int].0;
            (
                WorldModel {
                    slots: self.slots.update(i as int, (g, true)),
                    free: self.free.drop_last(),
                    ..self
                },
                Entity::spec_from_parts(i, g),
            )
        } else {
            (
                WorldModel { slots: self.slots.push((0, true)), ..self },
                Entity::spec_from_parts(self.slots.len() as u32, 0),
            )
        }
    }

    /// Despawning a live entity: its slot is freed at the next
    /// generation and its components are dropped. A stale handle changes
    /// nothing.
    pub open spec fn despawn(self, e: Entity) -> Self {
        if self.is_live(e) {
            WorldModel {
                slots: self.slots.update(e.index() as int, (bump_generation(e.generation()), false)),
                free: self.free.push(e.index()),
                components: Map::new(
                    |p: (Entity, ComponentId)| self.components.contains_key(p) && p.0 != e,
                    |p: (Entity, ComponentId)| self.components[p],
                ),
                ..self
            }
        } else {
            self
        }
    }

    /// Inserting (or overwriting) a component on a live entity, stamped
    /// with the current tick. A stale handle changes nothing.
    pub open spec fn insert(self, e: Entity, k: ComponentId, v: V) -> Self {
        if self.is_live(e) {
            WorldModel { components: self.components.insert((e, k), (v, self.tick)), ..self }
        } else {
            self
        }
    }

    /// Removing a component, if present.
    pub open spec fn remove(self, e: Entity, k: ComponentId) -> Self {
        WorldModel { components: self.components.remove((e, k)), ..self }
    }

    /// Overwriting a component only where one is already present.
    pub open spec fn set(self, e: Entity, k: ComponentId, v: V) -> Self {
        if self.components.contains_key((e, k)) {
            WorldModel { components: self.components.insert((e, k), (v, self.tick)), ..self }
        } else {
            self
        }
    }

    /// Moving to the next tick.
    pub open spec fn advance(self) -> Self {
        WorldModel { tick: self.tick.spec_next(), ..self }
    }

    /// Inserting (or overwriting) a resource, stamped with the current
    /// tick.
    pub open spec fn insert_resource(self, k: ComponentId, v: V) -> Self {
        WorldModel { resources: self.resources.insert(k, (v, self.tick)), ..self }
    }

    /// Removing a resource, if present.
    pub open spec fn remove_resource(self, k: ComponentId) -> Self {
        WorldModel { resources: self.resources.remove(k), ..self }
    }

    /// Registering a schema identity: `None` when it is already taken by
    /// a different kind; unchanged when it already names `k`.
    pub open spec fn register(self, id: Seq<u8>, k: ComponentId) -> Option<Self> {
        if self.schemas.contains_key(id) {
            if self.schemas[id] == k {
                Some(self)
            } else {
                None
            }
        } else {
            Some(WorldModel { schemas: self.schemas.insert(id, k), ..self })
        }
    }
}

/// A component read back after an insert on a live entity is the value
/// inserted, stamped with the tick of the insert.
pub proof fn law_insert_then_get<V>(m: WorldModel<V>, e: Entity, k: ComponentId, v: V)
    requires
        m.is_live(e),
    ensures
        m.insert(e, k, v).components.contains_key((e, k)),
        m.insert(e, k, v).components[(e, k)] == (v, m.tick),
{
}

/// Inserting a component leaves every other entity's and every other
/// kind's component untouched.
pub proof fn law_insert_preserves_others<V>(
    m: WorldModel<V>,
    e: Entity,
    k: ComponentId,
    v: V,
    e2: Entity,
    k2: ComponentId,
)
    requires
        e2 != e || k2 != k,
    ensures
        m.insert(e, k, v).components.contains_key((e2, k2)) == m.components.contains_key((e2, k2)),
        m.components.contains_key((e2, k2)) ==> m.insert(e, k, v).components[(e2, k2)]
            == m.components[(e2, k2)],
{
}

/// Inserting the same kind twice keeps only the second value.
pub proof fn law_insert_overwrites<V>(m: WorldModel<V>, e: Entity, k: ComponentId, v1: V, v2: V)
    ensures
        m.insert(e, k, v1).insert(e, k, v2) == m.insert(e, k, v2),
{
    if m.is_live(e) {
        assert(m.insert(e, k, v1).insert(e, k, v2).components =~= m.insert(e, k, v2).components);
    }
}

/// Removing what was just inserted gives back the state without that
/// component.
pub proof fn law_remove_after_insert<V>(m: WorldModel<V>, e: Entity, k: ComponentId, v: V)
    requires
        m.is_live(e),
    ensures
        m.insert(e, k, v).remove(e, k) == m.remove(e, k),
{
    assert(m.insert(e, k, v).remove(e, k).components =~= m.remove(e, k).components);
}

/// A despawned handle is stale, holds no components, and the entity
/// spawned next reuses its slot index under a different generation, so
/// the old handle does not alias the new entity.
pub proof fn law_despawn_then_spawn_recycles_the_slot_not_the_handle<V>(m: WorldModel<V>, e: Entity)
    requires
        m.valid(),
        m.is_live(e),
    ensures
        !m.despawn(e).is_live(e),
        forall|k: ComponentId| !(#[trigger] m.despawn(e).components.contains_key((e, k))),
        m.despawn(e).spawn().1.index() == e.index(),
        m.despawn(e).spawn().1 != e,
        m.despawn(e).spawn().0.is_live(m.despawn(e).spawn().1),
        !m.despawn(e).spawn().0.is_live(e),
{
    let m1 = m.despawn(e);
    assert(m1.free.last() == e.index());
    assert(bump_generation(e.generation()) != e.generation());
}

/// Spawning makes exactly one more handle live, and that handle holds no
/// components yet.
pub proof fn law_spawn_revives_no_other_handle<V>(m: WorldModel<V>, h: Entity)
    requires
        m.valid(),
        m.free.len() > 0 || m.slots.len() <= u32::MAX,
    ensures
        !m.is_live(m.spawn().1),
        m.spawn().0.is_live(m.spawn().1),
        h != m.spawn().1 ==> m.spawn().0.is_live(h) == m.is_live(h),
        forall|k: ComponentId| !(#[trigger] m.spawn().0.components.contains_key((m.spawn().1, k))),
{
    let e = m.spawn().1;
    if m.free.len() > 0 {
        assert(!m.slots[m.free.last() as int].1);
    }
    assert forall|k: ComponentId| !(#[trigger] m.spawn().0.components.contains_key((e, k))) by {
        if m.components.contains_key((e, k)) {
            assert(m.is_live(e));
        }
    }
}

/// Resources of different kinds do not interfere.
pub proof fn law_resources_are_independent<V>(m: WorldModel<V>, k1: ComponentId, v: V, k2: ComponentId)
    requires
        k1 != k2,
    ensures
        m.insert_resource(k1, v).resources.contains_key(k2) == m.resources.contains_key(k2),
        m.resources.contains_key(k2) ==> m.insert_resource(k1, v).resources[k2] == m.resources[k2],
        m.remove_resource(k1).resources.contains_key(k2) == m.resources.contains_key(k2),
{
}

/// A resource read back after an insert is the value inserted, and
/// inserting again overwrites it.
pub proof fn law_resource_round_trip<V>(m: WorldModel<V>, k: ComponentId, v1: V, v2: V)
    ensures
        m.insert_resource(k, v1).resources[k] == (v1, m.tick),
        m.insert_resource(k, v1).insert_resource(k, v2) == m.insert_resource(k, v2),
        !m.insert_resource(k, v1).remove_resource(k).resources.contains_key(k),
{
    assert(m.insert_resource(k, v1).insert_resource(k, v2).resources =~= m.insert_resource(k, v2).resources);
}

/// Registering the same schema identity for the same kind twice is
/// idempotent; registering it for a different kind afterwards is
/// refused.
pub proof fn law_register_is_idempotent<V>(m: WorldModel<V>, id: Seq<u8>, k: ComponentId, k2: ComponentId)
    requires
        m.register(id, k) is Some,
    ensures
        m.register(id, k).unwrap().register(id, k) == m.register(id, k),
        k2 != k ==> m.register(id, k).unwrap().register(id, k2) is None,
{
}

/// One operation on a world, as far as entity lifetimes go.
pub enum WorldOp<V> {
    Spawn,
    Despawn(Entity),
    Insert(Entity, ComponentId, V),
    Remove(Entity, ComponentId),
    Advance,
}

/// Whether the world in state `m` has handed out `e`: its slot exists and
/// has either moved past `e`'s generation or is occupied under it.
pub open spec fn handed_out<V>(m: WorldModel<V>, e: Entity) -> bool {
    &&& (e.index() as int) < m.slots.len()
    &&& (e.generation() < m.slots[e.index() as int].0 || (e.generation() == m.slots[e.index() as int].0
        && m.slots[e.index() as int].1))
}

/// Whether `e` is retired in `m`: its slot has moved past its generation,
/// so it names no entity now.
pub open spec fn retired<V>(m: WorldModel<V>, e: Entity) -> bool {
    (e.index() as int) < m.slots.len() && e.generation() < m.slots[e.index() as int].0
}

/// Running `ops` from `m`: the final state and the handles the spawns
/// returned, in order.
pub open spec fn run_world<V>(m: WorldModel<V>, ops: Seq<WorldOp<V>>) -> (WorldModel<V>, Seq<Entity>)
    decreases ops.len(),
{
    if ops.len() == 0 {
        (m, seq![])
    } else {
        let prev = run_world(m, ops.drop_last());
        match ops.last() {
            WorldOp::Spawn => (prev.0.spawn().0, prev.1.push(prev.0.spawn().1)),
            WorldOp::Despawn(e) => (prev.0.despawn(e), prev.1),
            WorldOp::Insert(e, k, v) => (prev.0.insert(e, k, v), prev.1),
            WorldOp::Remove(e, k) => (prev.0.remove(e, k), prev.1),
            WorldOp::Advance => (prev.0.advance(), prev.1),
        }
    }
}

/// The free list of `m` names distinct, unoccupied slots within the
/// index space.
pub open spec fn free_ok<V>(m: WorldModel<V>) -> bool {
    &&& forall|f: int|
        0 <= f < m.free.len() ==> {
            &&& (#[trigger] m.free[f] as int) < m.slots.len()
            &&& !m.slots[m.free[f] as int].1
        }
    &&& forall|f: int, g: int| 0 <= f < g < m.free.len() ==> #[trigger] m.free[f] != #[trigger] m.free[g]
    &&& m.slots.len() <= u32::MAX as int + 1
}

/// The generation a slot of `m` starts a run from (a slot the run
/// creates starts at 0).
pub open spec fn start_gen<V>(m: WorldModel<V>, i: int) -> int {
    if i < m.slots.len() {
        m.slots[i].0 as int
    } else {
        0
    }
}

proof fn lemma_run_world<V>(m: WorldModel<V>, ops: Seq<WorldOp<V>>)
    requires
        free_ok(m),
        m.slots.len() + ops.len() <= u32::MAX as int + 1,
        forall|i: int| 0 <= i < m.slots.len() ==> m.slots[i].0 + ops.len() <= u64::MAX,
    ensures
        ({
            let (m2, es) = run_world(m, ops);
            &&& free_ok(m2)
            &&& m.slots.len() <= m2.slots.len() <= m.slots.len() + ops.len()
            &&& forall|i: int| 0 <= i < m2.slots.len() ==> m2.slots[i].0 <= start_gen(m, i) + ops.len()
            &&& forall|e: Entity| handed_out(m, e) ==> #[trigger] handed_out(m2, e)
            &&& forall|e: Entity| retired(m, e) ==> #[trigger] retired(m2, e)
            &&& forall|j: int| 0 <= j < es.len() ==> handed_out(m2, #[trigger] es[j]) && !handed_out(m, es[j])
            &&& forall|j: int, k: int| 0 <= j < k < es.len() ==> es[j] != es[k]
        }),
    decreases ops.len(),
{
    if ops.len() > 0 {
        let pre = ops.drop_last();
        lemma_run_world(m, pre);
        let (m1, es1) = run_world(m, pre);
        let (m2, es) = run_world(m, ops);
        match ops.last() {
            WorldOp::Spawn => {
                let e = m1.spawn().1;
                if m1.free.len() > 0 {
                    let i = m1.free.last();
                    assert(!m1.slots[i as int].1);
                    assert forall|f: int| 0 <= f < m2.free.len() implies {
                        &&& (#[trigger] m2.free[f] as int) < m2.slots.len()
                        &&& !m2.slots[m2.free[f] as int].1
                    } by {
                        assert(m1.free[f] != m1.free[m1.free.len() - 1]);
                    }
                    assert forall|g: Entity| handed_out(m1, g) implies #[trigger] handed_out(m2, g) by {
                    }
                    assert forall|g: Entity| retired(m1, g) implies #[trigger] retired(m2, g) by {
                    }
                } else {
                    assert forall|g: Entity| handed_out(m1, g) implies #[trigger] handed_out(m2, g) by {
                        assert(m2.slots[g.index() as int] == m1.slots[g.index() as int]);
                    }
                    assert forall|g: Entity| retired(m1, g) implies #[trigger] retired(m2, g) by {
                        assert(m2.slots[g.index() as int] == m1.slots[g.index() as int]);
                    }
                }
                assert(!handed_out(m1, e));
                assert forall|j: int| 0 <= j < es.len() implies handed_out(m2, #[trigger] es[j]) && !handed_out(m, es[j]) by {
                    if j < es1.len() {
                        assert(es[j] == es1[j]);
                        assert(handed_out(m1, es1[j]));
                    } else {
                        assert(es[j] == e);
                        if handed_out(m, e) {
                            assert(handed_out(m1, e));
                        }
                    }
                }
                assert forall|j: int, k: int| 0 <= j < k < es.len() implies es[j] != es[k] by {
                    if k < es1.len() {
                        assert(es[j] == es1[j] && es[k] == es1[k]);
                    } else {
                        assert(es[j] == es1[j]);
                        assert(handed_out(m1, es1[j]));
                        assert(es[k] == e);
                    }
                }
                assert forall|i: int| 0 <= i < m2.slots.len() implies m2.slots[i].0 <= start_gen(m, i) + ops.len() by {
                    if i < m1.slots.len() {
                        assert(m2.slots[i].0 == m1.slots[i].0);
                    }
                }
            },
            WorldOp::Despawn(e) => {
                if m1.is_live(e) {
                    let i = e.index() as int;
                    assert(m1.slots[i].0 <= start_gen(m, i) + pre.len());
                    assert(bump_generation(e.generation()) == e.generation() + 1);
                    assert forall|f: int| 0 <= f < m2.free.len() implies {
                        &&& (#[trigger] m2.free[f] as int) < m2.slots.len()
                        &&& !m2.slots[m2.free[f] as int].1
                    } by {
                        if f < m1.free.len() {
                            assert(m2.free[f] == m1.free[f]);
                        }
                    }
                    assert forall|f: int, g: int| 0 <= f < g < m2.free.len() implies #[trigger] m2.free[f]
                        != #[trigger] m2.free[g] by {
                        if g == m1.free.len() {
                            assert(!m1.slots[m1.free[f] as int].1);
                        } else {
                            assert(m2.free[f] == m1.free[f] && m2.free[g] == m1.free[g]);
                        }
                    }
                    assert forall|g: Entity| handed_out(m1, g) implies #[trigger] handed_out(m2, g) by {
                    }
                    assert forall|g: Entity| retired(m1, g) implies #[trigger] retired(m2, g) by {
                    }
                    assert forall|k: int| 0 <= k < m2.slots.len() implies m2.slots[k].0 <= start_gen(m, k) + ops.len() by {
                        assert(m1.slots[k].0 <= start_gen(m, k) + pre.len());
                    }
                } else {
                    assert forall|k: int| 0 <= k < m2.slots.len() implies m2.slots[k].0 <= start_gen(m, k) + ops.len() by {
                        assert(m1.slots[k].0 <= start_gen(m, k) + pre.len());
                    }
                }
                assert forall|j: int| 0 <= j < es.len() implies handed_out(m2, #[trigger] es[j]) && !handed_out(m, es[j]) by {
                    assert(handed_out(m1, es1[j]));
                }
            },
            _ => {
                assert(m2.slots == m1.slots && m2.free == m1.free);
                assert forall|j: int| 0 <= j < es.len() implies handed_out(m2, #[trigger] es[j]) && !handed_out(m, es[j]) by {
                    assert(handed_out(m1, es1[j]));
                }
                assert forall|k: int| 0 <= k < m2.slots.len() implies m2.slots[k].0 <= start_gen(m, k) + ops.len() by {
                    assert(m1.slots[k].0 <= start_gen(m, k) + pre.len());
                }
            },
        }
    }
}

/// Entity handles are never reused: over any run of spawns, despawns and
/// component operations on a valid world, the spawns return pairwise
/// distinct handles that the world had not handed out before, and a
/// retired handle (one whose entity was despawned) stays retired, so it is
/// never live again. The run stays within the index space, and no slot's
/// generation runs past `u64::MAX`, which would wrap it back to 0.
pub proof fn law_entities_are_never_reissued<V>(m: WorldModel<V>, ops: Seq<WorldOp<V>>)
    requires
        m.valid(),
        m.slots.len() + ops.len() <= u32::MAX as int + 1,
        forall|i: int| 0 <= i < m.slots.len() ==> m.slots[i].0 + ops.len() <= u64::MAX,
    ensures
        forall|j: int, k: int| 0 <= j < k < run_world(m, ops).1.len() ==> run_world(m, ops).1[j] != run_world(
            m,
            ops,
        ).1[k],
        forall|j: int| 0 <= j < run_world(m, ops).1.len() ==> !handed_out(m, #[trigger] run_world(m, ops).1[j]),
        forall|e: Entity| handed_out(m, e) ==> #[trigger] handed_out(run_world(m, ops).0, e),
        forall|e: Entity| retired(m, e) ==> #[trigger] retired(run_world(m, ops).0, e) && !run_world(
            m,
            ops,
        ).0.is_live(e),
{
    lemma_run_world(m, ops);
}

} // verus!

