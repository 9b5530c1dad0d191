use vstd::prelude::*;
use vstd::string::StringSliceAdditionalSpecFns;

use super::entity::{ComponentId, Entity, Tick};
use super::error::EcsError;
use super::model::{bump_generation, WorldModel};

verus! {

/// Where one entity's row currently lives: which archetype, and which
/// row within it.
#[derive(Clone, Copy, PartialEq, Eq, Structural)]
struct EntityLocation {
    archetype: usize,
    row: usize,
}

/// Per-slot bookkeeping: the generation to stamp on the entity that
/// occupies (or next occupies) the slot, whether it is occupied, and,
/// while occupied, where its row lives.
struct Slot {
    generation: u64,
    alive: bool,
    location: Option<EntityLocation>,
}

/// The contiguous storage of one component kind within one archetype:
/// the values plus a row-aligned record of when each row was written.
struct Column<V> {
    values: Vec<V>,
    changed_ticks: Vec<Tick>,
}

/// An archetype table: every entity in `entities` has exactly the
/// component kinds named by `signature` (sorted, no repeats), and
/// `columns[j]` stores the values of kind `signature[j]`, row-parallel to
/// `entities`.
struct Archetype<V> {
    signature: Vec<u64>,
    entities: Vec<Entity>,
    columns: Vec<Column<V>>,
}

/// What `Archetype::extract_row` hands back: the entity that lived at the
/// row, its values in signature order, and the entity that the
/// `swap_remove` moved into the vacated row, if any.
struct ExtractedRow<V> {
    entity: Entity,
    values: Vec<(V, Tick)>,
    moved_into_row: Option<Entity>,
}

/// How a row's values change on an archetype move: a component inserted
/// at a signature position, or the one at a position removed.
enum RowEdit<V> {
    Insert(usize, V, Tick),
    Remove(usize),
}

spec fn edit_ok<V>(n: nat, edit: RowEdit<V>) -> bool {
    match edit {
        RowEdit::Insert(p, _, _) => p <= n,
        RowEdit::Remove(p) => p < n,
    }
}

spec fn edited_len<V>(n: nat, edit: RowEdit<V>) -> nat {
    match edit {
        RowEdit::Insert(..) => n + 1,
        RowEdit::Remove(..) => (n - 1) as nat,
    }
}

spec fn apply_edit<V>(row: Seq<(V, Tick)>, edit: RowEdit<V>) -> Seq<(V, Tick)> {
    match edit {
        RowEdit::Insert(p, v, t) => row.insert(p as int, (v, t)),
        RowEdit::Remove(p) => row.remove(p as int),
    }
}

/// The values (with ticks) stored at row `r` of `arch`, in signature order.
spec fn row_values<V>(arch: Archetype<V>, r: int) -> Seq<(V, Tick)> {
    Seq::new(
        arch.columns@.len(),
        |j: int| (arch.columns@[j].values@[r], arch.columns@[j].changed_ticks@[r]),
    )
}

/// One resource: a value plus the tick it was last written at.
struct ResourceEntry<V> {
    kind: u64,
    value: V,
    changed_tick: Tick,
}

/// One registered stable schema identity.
struct SchemaEntry {
    schema_id: &'static str,
    kind: u64,
}

pub open spec fn sorted_strict(s: Seq<u64>) -> bool {
    forall|i: int, j: int| 0 <= i < j < s.len() ==> s[i] < s[j]
}

pub open spec fn has_kind(sig: Seq<u64>, k: u64) -> bool {
    exists|j: int| 0 <= j < sig.len() && sig[j] == k
}

pub open spec fn pos_in(sig: Seq<u64>, k: u64) -> int {
    choose|j: int| 0 <= j < sig.len() && sig[j] == k
}

proof fn lemma_pos_unique(sig: Seq<u64>, k: u64, j: int)
    requires
        sorted_strict(sig),
        0 <= j < sig.len(),
        sig[j] == k,
    ensures
        has_kind(sig, k),
        pos_in(sig, k) == j,
{
    assert(has_kind(sig, k));
    let p = pos_in(sig, k);
    if p < j {
        assert(sig[p] < sig[j]);
    } else if p > j {
        assert(sig[j] < sig[p]);
    }
}

proof fn lemma_not_has(sig: Seq<u64>, k: u64)
    requires
        forall|j: int| 0 <= j < sig.len() ==> sig[j] != k,
    ensures
        !has_kind(sig, k),
{
}

/// Number of occupied slots.
spec fn count_alive(s: Seq<Slot>) -> nat
    decreases s.len(),
{
    if s.len() == 0 {
        0
    } else {
        count_alive(s.drop_last()) + if s.last().alive { 1nat } else { 0nat }
    }
}

proof fn lemma_count_alive_le(s: Seq<Slot>)
    ensures
        count_alive(s) <= s.len(),
    decreases s.len(),
{
    if s.len() > 0 {
        lemma_count_alive_le(s.drop_last());
    }
}

proof fn lemma_count_alive_push(s: Seq<Slot>, x: Slot)
    ensures
        count_alive(s.push(x)) == count_alive(s) + if x.alive { 1nat } else { 0nat },
{
    assert(s.push(x).drop_last() =~= s);
}

proof fn lemma_count_alive_update(s: Seq<Slot>, i: int, x: Slot)
    requires
        0 <= i < s.len(),
    ensures
        count_alive(s.update(i, x)) + (if s[i].alive { 1nat } else { 0nat }) == count_alive(s)
            + (if x.alive { 1nat } else { 0nat }),
    decreases s.len(),
{
    if i == s.len() - 1 {
        assert(s.update(i, x).drop_last() =~= s.drop_last());
    } else {
        lemma_count_alive_update(s.drop_last(), i, x);
        assert(s.update(i, x).drop_last() =~= s.drop_last().update(i, x));
    }
}

impl<V> Archetype<V> {
    /// Appends a row: `entity` plus one `(value, tick)` per column, in
    /// signature order.
    fn push_row(&mut self, entity: Entity, values: Vec<(V, Tick)>)
        requires
            old(self).wf(),
            values@.len() == old(self).columns@.len(),
        ensures
            final(self).wf(),
            final(self).signature@ == old(self).signature@,
            final(self).entities@ == old(self).entities@.push(entity),
            final(self).columns@.len() == old(self).columns@.len(),
            forall|j: int|
                0 <= j < old(self).columns@.len() ==> {
                    &&& (#[trigger] final(self).columns@[j]).values@ == old(self).columns@[j].values@.push(
                        values@[j].0,
                    )
                    &&& final(self).columns@[j].changed_ticks@ == old(self).columns@[
                        j
                    ].changed_ticks@.push(values@[j].1)
                },
    {
        let ghost orig = values@;
        let ghost old_cols = self.columns@;
        self.entities.push(entity);
        let mut values = values;
        let n = self.columns.len();
        let mut j = n;
        while j > 0
            invariant
                j <= n,
                n == self.columns@.len(),
                n == old_cols.len(),
                values@ == orig.take(j as int),
                orig.len() == n,
                self.signature@ == old(self).signature@,
                self.entities@ == old(self).entities@.push(entity),
                sorted_strict(self.signature@),
                self.columns@.len() == self.signature@.len(),
                forall|jj: int| 0 <= jj < j ==> #[trigger] self.columns@[jj] == old_cols[jj],
                forall|jj: int|
                    j <= jj < n ==> {
                        &&& (#[trigger] self.columns@[jj]).values@ == old_cols[jj].values@.push(
                            orig[jj].0,
                        )
                        &&& self.columns@[jj].changed_ticks@ == old_cols[jj].changed_ticks@.push(
                            orig[jj].1,
                        )
                    },
                forall|jj: int|
                    0 <= jj < n ==> {
                        &&& (#[trigger] old_cols[jj]).values@.len() == old(self).entities@.len()
                        &&& old_cols[jj].changed_ticks@.len() == old(self).entities@.len()
                    },
            decreases j,
        {
            j = j - 1;
            let pair = values.pop();
            assert(orig.take(j as int + 1).drop_last() =~= orig.take(j as int));
            let (v, t) = pair.unwrap();
            self.columns[j].values.push(v);
            self.columns[j].changed_ticks.push(t);
        }
    }

    /// Removes row `row` from the entity list and every column (via
    /// `swap_remove`, so the archetype's last row moves into its place),
    /// handing back what lived there.
    fn extract_row(&mut self, row: usize) -> (out: ExtractedRow<V>)
        requires
            old(self).wf(),
            row < old(self).entities@.len(),
        ensures
            final(self).wf(),
            final(self).signature@ == old(self).signature@,
            final(self).entities@ == old(self).entities@.update(
                row as int,
                old(self).entities@.last(),
            ).drop_last(),
            final(self).columns@.len() == old(self).columns@.len(),
            forall|j: int|
                0 <= j < old(self).columns@.len() ==> {
                    &&& (#[trigger] final(self).columns@[j]).values@ == old(self).columns@[
                        j
                    ].values@.update(row as int, old(self).columns@[j].values@.last()).drop_last()
                    &&& final(self).columns@[j].changed_ticks@ == old(self).columns@[
                        j
                    ].changed_ticks@.update(row as int, old(self).columns@[j].changed_ticks@.last()).drop_last()
                },
            out.entity == old(self).entities@[row as int],
            out.moved_into_row == (if (row as int) < old(self).entities@.len() - 1 {
                Some(old(self).entities@.last())
            } else {
                None
            }),
            out.values@.len() == old(self).columns@.len(),
            forall|j: int|
                0 <= j < old(self).columns@.len() ==> #[trigger] out.values@[j] == (
                    old(self).columns@[j].values@[row as int],
                    old(self).columns@[j].changed_ticks@[row as int],
                ),
    {
        let ghost old_cols = self.columns@;
        let entity = self.entities.swap_remove(row);
        let moved_into_row = if row < self.entities.len() {
            Some(self.entities[row])
        } else {
            None
        };
        let n = self.columns.len();
        let mut values: Vec<(V, Tick)> = Vec::new();
        let mut j: usize = 0;
        while j < n
            invariant
                j <= n,
                n == self.columns@.len(),
                n == old_cols.len(),
                self.signature@ == old(self).signature@,
                self.entities@ == old(self).entities@.update(
                    row as int,
                    old(self).entities@.last(),
                ).drop_last(),
                row < old(self).entities@.len(),
                sorted_strict(self.signature@),
                self.columns@.len() == self.signature@.len(),
                values@.len() == j,
                forall|jj: int|
                    0 <= jj < j ==> #[trigger] values@[jj] == (
                        old_cols[jj].values@[row as int],
                        old_cols[jj].changed_ticks@[row as int],
                    ),
                forall|jj: int| j <= jj < n ==> #[trigger] self.columns@[jj] == old_cols[jj],
                forall|jj: int|
                    0 <= jj < j ==> {
                        &&& (#[trigger] self.columns@[jj]).values@ == old_cols[jj].values@.update(
                            row as int,
                            old_cols[jj].values@.last(),
                        ).drop_last()
                        &&& self.columns@[jj].changed_ticks@ == old_cols[jj].changed_ticks@.update(
                            row as int,
                            old_cols[jj].changed_ticks@.last(),
                        ).drop_last()
                    },
                forall|jj: int|
                    0 <= jj < n ==> {
                        &&& (#[trigger] old_cols[jj]).values@.len() == old(self).entities@.len()
                        &&& old_cols[jj].changed_ticks@.len() == old(self).entities@.len()
                    },
            decreases n - j,
        {
            let v = self.columns[j].values.swap_remove(row);
            let t = self.columns[j].changed_ticks.swap_remove(row);
            values.push((v, t));
            j = j + 1;
        }
        ExtractedRow { entity, values, moved_into_row }
    }
}

impl<V> Archetype<V> {
    spec fn wf(&self) -> bool {
        &&& sorted_strict(self.signature@)
        &&& self.columns@.len() == self.signature@.len()
        &&& forall|j: int|
            0 <= j < self.columns@.len() ==> {
                &&& (#[trigger] self.columns@[j]).values@.len() == self.entities@.len()
                &&& self.columns@[j].changed_ticks@.len() == self.entities@.len()
            }
    }
}

/// The ECS world: owns entities, their components, and global resources.
///
/// Backed by archetype storage: entities that share the same set of
/// component kinds live together in one archetype table, each kind
/// stored as its own contiguous column, row-parallel to the entities.
/// Every value stored is of the world's value type `V`; the component
/// kind it is stored under is a `ComponentId`.
pub struct World<V> {
    slots: Vec<Slot>,
    free_indices: Vec<u32>,
    archetypes: Vec<Archetype<V>>,
    empty_archetype: usize,
    current_tick: Tick,
    schema_registry: Vec<SchemaEntry>,
    resources: Vec<ResourceEntry<V>>,
    alive_count: usize,
}

impl<V> World<V> {
    // ------------------------------------------------------------------
    // Internal well-formedness
    // ------------------------------------------------------------------

    spec fn wf_archetypes(&self) -> bool {
        &&& self.archetypes@.len() >= 1
        &&& self.empty_archetype == 0
        &&& self.archetypes@[0].signature@.len() == 0
        &&& forall|a: int|
            0 <= a < self.archetypes@.len() ==> (#[trigger] self.archetypes@[a]).wf()
        &&& forall|a: int, b: int|
            0 <= a < self.archetypes@.len() && 0 <= b < self.archetypes@.len() && a != b
                ==> #[trigger] self.archetypes@[a].signature@ != #[trigger] self.archetypes@[b].signature@
    }

    /// The entity at row `r` of archetype `a` is backed by a live slot
    /// that records exactly this location.
    spec fn row_ok(&self, a: int, r: int) -> bool {
        let e = self.archetypes@[a].entities@[r];
        &&& (e.index as int) < self.slots@.len()
        &&& self.slots@[e.index as int].alive
        &&& self.slots@[e.index as int].generation == e.generation
        &&& self.slots@[e.index as int].location == Some(
            EntityLocation { archetype: a as usize, row: r as usize },
        )
    }

    /// A live slot points at a row holding an entity of that index; a
    /// dead slot points nowhere.
    spec fn slot_ok(&self, i: int) -> bool {
        let s = self.slots@[i];
        if s.alive {
            match s.location {
                Some(l) => {
                    &&& (l.archetype as int) < self.archetypes@.len()
                    &&& (l.row as int) < self.archetypes@[l.archetype as int].entities@.len()
                    &&& self.archetypes@[l.archetype as int].entities@[l.row as int].index == i
                },
                None => false,
            }
        } else {
            s.location is None
        }
    }

    spec fn wf_slots(&self) -> bool {
        &&& forall|a: int, r: int|
            0 <= a < self.archetypes@.len() && 0 <= r < self.archetypes@[a].entities@.len()
                ==> #[trigger] self.row_ok(a, r)
        &&& forall|i: int| 0 <= i < self.slots@.len() ==> #[trigger] self.slot_ok(i)
        &&& self.slots@.len() <= u32::MAX as int + 1
        &&& forall|f: int|
            0 <= f < self.free_indices@.len() ==> {
                &&& (#[trigger] self.free_indices@[f] as int) < self.slots@.len()
                &&& !self.slots@[self.free_indices@[f] as int].alive
            }
        &&& forall|f: int, g: int|
            0 <= f < g < self.free_indices@.len() ==> #[trigger] self.free_indices@[f]
                != #[trigger] self.free_indices@[g]
        &&& self.alive_count as nat == count_alive(self.slots@)
    }

    /// The world's internal invariant, established by `World::new` and
    /// kept by every operation.
    pub closed spec fn wf(&self) -> bool {
        &&& self.wf_archetypes()
        &&& self.wf_slots()
        &&& self.wf_globals()
    }

    // ------------------------------------------------------------------
    // Model
    // ------------------------------------------------------------------

    /// Every slot ever created, as `(generation, occupied)`: the
    /// generation is the one stamped on the slot's current (or next)
    /// occupant.
    pub closed spec fn slots_view(&self) -> Seq<(u64, bool)> {
        Seq::new(self.slots@.len(), |i: int| (self.slots@[i].generation, self.slots@[i].alive))
    }

    /// The free list: despawned slot indices awaiting reuse, most
    /// recently freed last.
    pub closed spec fn free_view(&self) -> Seq<u32> {
        self.free_indices@
    }

    /// The tick the next write will be stamped with.
    pub closed spec fn tick(&self) -> Tick {
        self.current_tick
    }

    /// Whether `e` names the entity currently occupying its slot.
    pub open spec fn is_live(&self, e: Entity) -> bool {
        let s = self.slots_view();
        &&& (e.index() as int) < s.len()
        &&& s[e.index() as int].1
        &&& s[e.index() as int].0 == e.generation()
    }

    /// Number of currently live entities.
    pub closed spec fn live_count(&self) -> nat {
        count_alive(self.slots@)
    }

    spec fn location(&self, e: Entity) -> EntityLocation {
        self.slots@[e.index as int].location.unwrap()
    }

    /// The component of kind `k` on `e`, with the tick it was last
    /// written at: `None` when `e` is not live or has no such component.
    pub closed spec fn comp(&self, e: Entity, k: ComponentId) -> Option<(V, Tick)> {
        if self.is_live(e) {
            let l = self.location(e);
            let arch = self.archetypes@[l.archetype as int];
            if has_kind(arch.signature@, k.0) {
                let j = pos_in(arch.signature@, k.0);
                Some(
                    (
                        arch.columns@[j].values@[l.row as int],
                        arch.columns@[j].changed_ticks@[l.row as int],
                    ),
                )
            } else {
                None
            }
        } else {
            None
        }
    }

    // ------------------------------------------------------------------
    // Construction and entity lifecycle
    // ------------------------------------------------------------------

    /// Creates an empty world: no entities, no resources, no registered
    /// schemas, at tick zero.
    pub fn new() -> (w: Self)
        ensures
            w.wf(),
            w.slots_view() == Seq::<(u64, bool)>::empty(),
            w.free_view() == Seq::<u32>::empty(),
            w.tick().value() == 0,
            w.resources_view() == Map::<ComponentId, (V, Tick)>::empty(),
            w.schemas_view() == Map::<Seq<u8>, ComponentId>::empty(),
            forall|e: Entity, k: ComponentId| #[trigger] w.comp(e, k) is None,
            forall|e: Entity| !#[trigger] w.is_live(e),
            w.live_count() == 0,
    {
        let mut archetypes: Vec<Archetype<V>> = Vec::new();
        archetypes.push(Archetype { signature: Vec::new(), entities: Vec::new(), columns: Vec::new() });
        let w = World {
            slots: Vec::new(),
            free_indices: Vec::new(),
            archetypes,
            empty_archetype: 0,
            current_tick: Tick(0),
            schema_registry: Vec::new(),
            resources: Vec::new(),
            alive_count: 0,
        };
        assert(w.slots_view() =~= Seq::<(u64, bool)>::empty());
        assert(w.resources_view() =~= Map::<ComponentId, (V, Tick)>::empty());
        assert(w.schemas_view() =~= Map::<Seq<u8>, ComponentId>::empty());
        w
    }
}


impl<V> View for World<V> {
    type V = WorldModel<V>;

    /// The world's abstract state: slots, free list, components keyed by
    /// entity and kind, resources, registered schemas and the tick.
    open spec fn view(&self) -> WorldModel<V> {
        WorldModel {
            slots: self.slots_view(),
            free: self.free_view(),
            components: Map::new(
                |p: (Entity, ComponentId)| self.comp(p.0, p.1) is Some,
                |p: (Entity, ComponentId)| self.comp(p.0, p.1).unwrap(),
            ),
            resources: self.resources_view(),
            schemas: self.schemas_view(),
            tick: self.tick(),
        }
    }
}

impl<V> World<V> {
    /// Every well-formed world's abstract state satisfies the model's
    /// invariants.
    pub proof fn lemma_view_valid(&self)
        requires
            self.wf(),
        ensures
            self@.valid(),
    {
        let m = self@;
        assert forall|f: int| 0 <= f < m.free.len() implies {
            &&& (#[trigger] m.free[f] as int) < m.slots.len()
            &&& !m.slots[m.free[f] as int].1
        } by {
            assert(self.free_indices@[f] == m.free[f]);
        }
    }

    /// Only a live entity holds components: a stale or unknown handle
    /// holds none.
    pub broadcast proof fn lemma_comp_only_on_live(&self, e: Entity, k: ComponentId)
        ensures
            #[trigger] self.comp(e, k) is Some ==> self.is_live(e),
    {
    }

    /// A component is in the abstract state exactly when `comp` reports it.
    pub proof fn lemma_view_components(&self, e: Entity, k: ComponentId)
        ensures
            self@.components.contains_key((e, k)) == self.comp(e, k) is Some,
            self.comp(e, k) is Some ==> self@.components[(e, k)] == self.comp(e, k).unwrap(),
    {
    }
}

impl<V> World<V> {
    /// Where a live entity's row lives; `None` for a stale or unknown
    /// handle.
    fn location_of(&self, entity: Entity) -> (r: Option<EntityLocation>)
        requires
            self.wf(),
        ensures
            r == (if self.is_live(entity) { Some(self.location(entity)) } else { None }),
            r matches Some(l) ==> {
                &&& (l.archetype as int) < self.archetypes@.len()
                &&& (l.row as int) < self.archetypes@[l.archetype as int].entities@.len()
                &&& self.archetypes@[l.archetype as int].entities@[l.row as int] == entity
            },
    {
        let idx = entity.index as usize;
        if idx < self.slots.len() {
            let slot = &self.slots[idx];
            if slot.alive && slot.generation == entity.generation {
                proof {
                    assert(self.slot_ok(idx as int));
                    let l = slot.location.unwrap();
                    assert(self.row_ok(l.archetype as int, l.row as int));
                }
                return slot.location;
            }
        }
        None
    }

    /// Spawns a new entity with no components and returns its handle.
    ///
    /// Reuses the most recently freed slot when one is available (its
    /// generation was already bumped by the despawn that freed it, so old
    /// handles into it stay stale); otherwise creates a new slot at
    /// generation zero. Creating a slot past the `u32` index space is not
    /// possible, so that case is excluded.
    pub fn spawn(&mut self) -> (e: Entity)
        requires
            old(self).wf(),
            old(self).free_view().len() > 0 || old(self).slots_view().len() <= u32::MAX,
        ensures
            (final(self)@, e) == old(self)@.spawn(),
            final(self).wf(),
            old(self).free_view().len() > 0 ==> {
                let i = old(self).free_view().last();
                &&& e.index() == i
                &&& e.generation() == old(self).slots_view()[i as int].0
                &&& final(self).slots_view() == old(self).slots_view().update(
                    i as int,
                    (e.generation(), true),
                )
                &&& final(self).free_view() == old(self).free_view().drop_last()
            },
            old(self).free_view().len() == 0 ==> {
                &&& e.index() as int == old(self).slots_view().len()
                &&& e.generation() == 0
                &&& final(self).slots_view() == old(self).slots_view().push((0, true))
                &&& final(self).free_view() == old(self).free_view()
            },
            final(self).is_live(e),
            !old(self).is_live(e),
            forall|e2: Entity| e2 != e ==> #[trigger] final(self).is_live(e2) == old(self).is_live(e2),
            final(self).tick() == old(self).tick(),
            final(self).resources_view() == old(self).resources_view(),
            final(self).schemas_view() == old(self).schemas_view(),
            final(self).live_count() == old(self).live_count() + 1,
            forall|e2: Entity, k: ComponentId| #[trigger]
                final(self).comp(e2, k) == (if e2 == e {
                    None
                } else {
                    old(self).comp(e2, k)
                }),
    {
        let ghost old_self = *self;
        let popped = self.free_indices.pop();
        let entity = match popped {
            Some(index) => {
                proof {
                    assert(old_self.free_indices@[old_self.free_indices@.len() - 1] == index);
                }
                let generation = self.slots[index as usize].generation;
                let location = self.slots[index as usize].location;
                self.slots.set(index as usize, Slot { generation, alive: true, location });
                Entity { index, generation }
            },
            None => {
                let index = self.slots.len() as u32;
                self.slots.push(Slot { generation: 0, alive: true, location: None });
                Entity { index, generation: 0 }
            },
        };
        let ghost mid_slots = self.slots@;
        proof {
            lemma_count_alive_le(old_self.slots@);
            if popped is Some {
                lemma_count_alive_update(
                    old_self.slots@,
                    entity.index as int,
                    self.slots@[entity.index as int],
                );
            } else {
                lemma_count_alive_push(old_self.slots@, self.slots@.last());
            }
            lemma_count_alive_le(self.slots@);
            assert(self.slots.len() <= usize::MAX);
            if popped is Some {
                assert(!old_self.slots@[entity.index as int].alive);
            }
        }
        self.alive_count = self.alive_count + 1;
        self.archetypes[0].push_row(entity, Vec::new());
        let row = self.archetypes[0].entities.len() - 1;
        let slot_generation = self.slots[entity.index as usize].generation;
        self.slots.set(
            entity.index as usize,
            Slot {
                generation: slot_generation,
                alive: true,
                location: Some(EntityLocation { archetype: 0, row }),
            },
        );
        proof {
            lemma_count_alive_update(mid_slots, entity.index as int, self.slots@[entity.index as int]);
            assert forall|a: int, r: int|
                0 <= a < self.archetypes@.len() && 0 <= r < self.archetypes@[a].entities@.len()
                    implies #[trigger] self.row_ok(a, r) by {
                if a == 0 && r == row {
                } else {
                    assert(old_self.row_ok(a, r));
                }
            }
            assert forall|i: int| 0 <= i < self.slots@.len() implies #[trigger] self.slot_ok(i) by {
                if i != entity.index as int {
                    assert(old_self.slot_ok(i));
                }
            }
            assert forall|f: int|
                0 <= f < self.free_indices@.len() implies {
                    &&& (#[trigger] self.free_indices@[f] as int) < self.slots@.len()
                    &&& !self.slots@[self.free_indices@[f] as int].alive
                } by {
                if popped is Some {
                    assert(old_self.free_indices@[f] != old_self.free_indices@[old_self.free_indices@.len()
                        - 1]);
                }
            }
            assert forall|a: int|
                0 <= a < self.archetypes@.len() implies (#[trigger] self.archetypes@[a]).wf() by {
                if a != 0 {
                    assert(self.archetypes@[a] == old_self.archetypes@[a]);
                }
            }
            assert(self.slots_view() =~= (if popped is Some {
                old_self.slots_view().update(entity.index as int, (entity.generation, true))
            } else {
                old_self.slots_view().push((0, true))
            }));
            assert forall|e2: Entity, k: ComponentId|
                #[trigger] self.comp(e2, k) == (if e2 == entity {
                    None
                } else {
                    old_self.comp(e2, k)
                }) by {
                if e2 == entity {
                } else if old_self.is_live(e2) {
                    assert(old_self.slot_ok(e2.index as int));
                    assert(e2.index != entity.index);
                    let l = old_self.location(e2);
                    assert(self.location(e2) == l);
                    if l.archetype == 0 {
                        assert(!has_kind(self.archetypes@[0].signature@, k.0));
                        assert(!has_kind(old_self.archetypes@[0].signature@, k.0));
                    } else {
                        assert(self.archetypes@[l.archetype as int] == old_self.archetypes@[l.archetype as int]);
                    }
                } else {
                    assert(!self.is_live(e2));
                }
            }
        }
        entity
    }
}


impl<V> World<V> {
    /// Despawns an entity, removing all of its components and marking its
    /// slot free for reuse by a later `spawn`. The slot's generation is
    /// bumped, so `entity` (and every copy of it) is reported dead from
    /// now on, even after the slot is recycled.
    ///
    /// Returns `EcsError::StaleOrUnknownEntity`, changing nothing, if
    /// `entity` was already not alive.
    pub fn despawn(&mut self, entity: Entity) -> (r: Result<(), EcsError>)
        requires
            old(self).wf(),
        ensures
            final(self)@ == old(self)@.despawn(entity),
            final(self).wf(),
            !old(self).is_live(entity) ==> r == Err::<(), EcsError>(EcsError::StaleOrUnknownEntity)
                && *final(self) == *old(self),
            old(self).is_live(entity) ==> {
                &&& r == Ok::<(), EcsError>(())
                &&& final(self).slots_view() == old(self).slots_view().update(
                    entity.index() as int,
                    (bump_generation(entity.generation()), false),
                )
                &&& final(self).free_view() == old(self).free_view().push(entity.index())
                &&& final(self).live_count() + 1 == old(self).live_count()
            },
            final(self).tick() == old(self).tick(),
            final(self).resources_view() == old(self).resources_view(),
            final(self).schemas_view() == old(self).schemas_view(),
            forall|e2: Entity, k: ComponentId| #[trigger]
                final(self).comp(e2, k) == (if e2 == entity {
                    None
                } else {
                    old(self).comp(e2, k)
                }),
    {
        let loc = match self.location_of(entity) {
            Some(l) => l,
            None => {
                return Err(EcsError::StaleOrUnknownEntity);
            },
        };
        let ghost old_self = *self;
        let a = loc.archetype;
        let r = loc.row;
        let ghost last = old_self.archetypes@[a as int].entities@.len() - 1;
        let ghost m = old_self.archetypes@[a as int].entities@[last];
        assert(old_self.archetypes@[a as int].entities.len() <= usize::MAX);
        assert(old_self.archetypes.len() <= usize::MAX);
        let extracted = self.archetypes[a].extract_row(r);
        if let Some(moved) = extracted.moved_into_row {
            proof {
                assert(old_self.row_ok(a as int, last));
            }
            let g = self.slots[moved.index as usize].generation;
            self.slots.set(
                moved.index as usize,
                Slot { generation: g, alive: true, location: Some(loc) },
            );
        }
        let ghost mid_slots = self.slots@;
        let i = entity.index as usize;
        let g = self.slots[i].generation;
        self.slots.set(i, Slot { generation: g.wrapping_add(1), alive: false, location: None });
        proof {
            assert(old_self.row_ok(a as int, r as int));
            lemma_count_alive_update(mid_slots, i as int, self.slots@[i as int]);
            if extracted.moved_into_row is Some {
                lemma_count_alive_update(old_self.slots@, m.index as int, mid_slots[m.index as int]);
                assert(mid_slots[m.index as int].alive == old_self.slots@[m.index as int].alive);
            } else {
                assert(mid_slots == old_self.slots@);
            }
            assert(mid_slots[i as int].alive);
            lemma_count_alive_le(old_self.slots@);
        }
        self.alive_count = self.alive_count - 1;
        self.free_indices.push(entity.index);
        proof {
            assert forall|a2: int, r2: int|
                0 <= a2 < self.archetypes@.len() && 0 <= r2 < self.archetypes@[a2].entities@.len()
                    implies #[trigger] self.row_ok(a2, r2) by {
                if a2 == a as int {
                    if r2 == r as int {
                        assert(old_self.row_ok(a2, last));
                        assert(r2 < last);
                        assert(extracted.moved_into_row == Some(m));
                        assert(self.archetypes@[a2].entities@[r2] == m);
                        assert(old_self.archetypes@[a as int].entities@[r as int] == entity);
                        assert(old_self.slots@[entity.index as int].location == Some(
                            EntityLocation { archetype: a, row: r },
                        ));
                        assert(old_self.slots@[m.index as int].location == Some(
                            EntityLocation { archetype: a, row: last as usize },
                        ));
                        assert(m.index != entity.index);
                        assert(self.slots@[m.index as int] == Slot {
                            generation: m.generation,
                            alive: true,
                            location: Some(loc),
                        });
                    } else {
                        assert(old_self.row_ok(a2, r2));
                        assert(old_self.row_ok(a2, last));
                        let e2 = old_self.archetypes@[a2].entities@[r2];
                        assert(self.archetypes@[a2].entities@[r2] == e2);
                        assert(old_self.archetypes@[a as int].entities@[r as int] == entity);
                        assert(e2.index != entity.index);
                        assert(e2.index != m.index);
                        assert(self.slots@[e2.index as int] == old_self.slots@[e2.index as int]);
                    }
                } else {
                    assert(old_self.row_ok(a2, r2));
                    assert(old_self.row_ok(a as int, last));
                    assert(self.archetypes@[a2] == old_self.archetypes@[a2]);
                    let e2 = old_self.archetypes@[a2].entities@[r2];
                    assert(old_self.archetypes@[a as int].entities@[r as int] == entity);
                    assert(e2.index != entity.index);
                    assert(e2.index != m.index);
                    assert(self.slots@[e2.index as int] == old_self.slots@[e2.index as int]);
                }
            }
            assert forall|i2: int| 0 <= i2 < self.slots@.len() implies #[trigger] self.slot_ok(i2) by {
                if i2 != i as int && !(extracted.moved_into_row is Some && i2 == m.index as int) {
                    assert(old_self.slot_ok(i2));
                    let s2 = old_self.slots@[i2];
                    if s2.alive {
                        let l2 = s2.location.unwrap();
                        assert(old_self.row_ok(l2.archetype as int, l2.row as int));
                        assert(old_self.row_ok(a as int, last));
                        if l2.archetype == a {
                            assert(l2.row != r);
                            assert(l2.row as int != last);
                        } else {
                            assert(self.archetypes@[l2.archetype as int]
                                == old_self.archetypes@[l2.archetype as int]);
                        }
                    }
                }
            }
            assert forall|f: int|
                0 <= f < self.free_indices@.len() implies {
                    &&& (#[trigger] self.free_indices@[f] as int) < self.slots@.len()
                    &&& !self.slots@[self.free_indices@[f] as int].alive
                } by {
                if f < old_self.free_indices@.len() {
                    let fi = old_self.free_indices@[f] as int;
                    assert(!old_self.slots@[fi].alive);
                    if extracted.moved_into_row is Some {
                        assert(old_self.row_ok(a as int, last));
                    }
                }
            }
            assert forall|f: int, f2: int|
                0 <= f < f2 < self.free_indices@.len() implies #[trigger] self.free_indices@[f]
                    != #[trigger] self.free_indices@[f2] by {
                if f2 == old_self.free_indices@.len() {
                    assert(!old_self.slots@[old_self.free_indices@[f] as int].alive);
                }
            }
            assert forall|a2: int|
                0 <= a2 < self.archetypes@.len() implies (#[trigger] self.archetypes@[a2]).wf() by {
                if a2 != a as int {
                    assert(self.archetypes@[a2] == old_self.archetypes@[a2]);
                }
            }
            assert(self.slots_view() =~= old_self.slots_view().update(
                entity.index as int,
                (bump_generation(entity.generation), false),
            ));
            assert forall|e2: Entity, k: ComponentId|
                #[trigger] self.comp(e2, k) == (if e2 == entity {
                    None
                } else {
                    old_self.comp(e2, k)
                }) by {
                if e2 == entity {
                } else if old_self.is_live(e2) {
                    assert(old_self.slot_ok(e2.index as int));
                    let l = old_self.location(e2);
                    assert(old_self.row_ok(l.archetype as int, l.row as int));
                    assert(old_self.row_ok(a as int, last));
                    if l.archetype == a {
                        let arch = self.archetypes@[a as int];
                        let oarch = old_self.archetypes@[a as int];
                        if extracted.moved_into_row is Some && e2 == m {
                            assert(self.location(e2) == loc);
                        } else {
                            assert(self.location(e2) == l);
                        }
                        if has_kind(oarch.signature@, k.0) {
                            let j = pos_in(oarch.signature@, k.0);
                            assert(arch.columns@[j].values@.len() == arch.entities@.len());
                        }
                    } else {
                        assert(self.location(e2) == l);
                        assert(self.archetypes@[l.archetype as int]
                            == old_self.archetypes@[l.archetype as int]);
                    }
                } else {
                    if e2.index == entity.index {
                    } else if extracted.moved_into_row is Some && e2.index == m.index {
                        assert(old_self.row_ok(a as int, last));
                    }
                    assert(!self.is_live(e2));
                }
            }
        }
        Ok(())
    }

    /// Whether `entity` refers to a currently live entity in this world
    /// (spawned and not since despawned).
    pub fn is_alive(&self, entity: Entity) -> (r: bool)
        requires
            self.wf(),
        ensures
            r == self.is_live(entity),
    {
        let idx = entity.index as usize;
        if idx < self.slots.len() {
            self.slots[idx].alive && self.slots[idx].generation == entity.generation
        } else {
            false
        }
    }

    /// The number of currently live entities (maintained incrementally by
    /// `spawn`/`despawn`, so this is O(1)).
    pub fn entity_count(&self) -> (r: usize)
        requires
            self.wf(),
        ensures
            r as nat == self.live_count(),
    {
        self.alive_count
    }
}


/// Where `k` sits in the sorted signature `sig`: `Ok(j)` when `sig[j] == k`,
/// otherwise `Err(p)`, the position that keeps `sig` sorted once `k` is
/// inserted there.
fn find_kind(sig: &Vec<u64>, k: u64) -> (r: Result<usize, usize>)
    requires
        sorted_strict(sig@),
    ensures
        r matches Ok(j) ==> j < sig@.len() && sig@[j as int] == k && has_kind(sig@, k) && pos_in(
            sig@,
            k,
        ) == j,
        r matches Err(p) ==> {
            &&& p <= sig@.len()
            &&& !has_kind(sig@, k)
            &&& forall|j: int| 0 <= j < p ==> sig@[j] < k
            &&& forall|j: int| p <= j < sig@.len() ==> sig@[j] > k
        },
{
    let mut j: usize = 0;
    while j < sig.len()
        invariant
            j <= sig@.len(),
            sorted_strict(sig@),
            forall|jj: int| 0 <= jj < j ==> sig@[jj] < k,
        decreases sig@.len() - j,
    {
        if sig[j] == k {
            proof {
                lemma_pos_unique(sig@, k, j as int);
            }
            return Ok(j);
        }
        if sig[j] > k {
            proof {
                assert forall|jj: int| j <= jj < sig@.len() implies sig@[jj] > k by {
                    if jj > j {
                        assert(sig@[j as int] < sig@[jj]);
                    }
                }
                lemma_not_has(sig@, k);
            }
            return Err(j);
        }
        j = j + 1;
    }
    proof {
        lemma_not_has(sig@, k);
    }
    Err(j)
}

/// A copy of a signature.
fn copy_signature(sig: &Vec<u64>) -> (r: Vec<u64>)
    ensures
        r@ == sig@,
{
    let mut out: Vec<u64> = Vec::new();
    let mut j: usize = 0;
    while j < sig.len()
        invariant
            j <= sig@.len(),
            out@ == sig@.take(j as int),
        decreases sig@.len() - j,
    {
        out.push(sig[j]);
        j = j + 1;
        proof {
            assert(out@ =~= sig@.take(j as int));
        }
    }
    proof {
        assert(out@ =~= sig@);
    }
    out
}

/// Whether two signatures are equal.
fn same_signature(a: &Vec<u64>, b: &Vec<u64>) -> (r: bool)
    ensures
        r == (a@ == b@),
{
    if a.len() != b.len() {
        return false;
    }
    let mut j: usize = 0;
    while j < a.len()
        invariant
            j <= a@.len(),
            a@.len() == b@.len(),
            forall|jj: int| 0 <= jj < j ==> a@[jj] == b@[jj],
        decreases a@.len() - j,
    {
        if a[j] != b[j] {
            return false;
        }
        j = j + 1;
    }
    proof {
        assert(a@ =~= b@);
    }
    true
}

/// Inserting `k` at its sorted position keeps a signature sorted, and a
/// kind is present afterwards exactly when it is `k` or was present
/// before (at a position shifted past `p`).
proof fn lemma_sig_insert(sig: Seq<u64>, p: int, k: u64)
    requires
        sorted_strict(sig),
        0 <= p <= sig.len(),
        forall|j: int| 0 <= j < p ==> sig[j] < k,
        forall|j: int| p <= j < sig.len() ==> sig[j] > k,
    ensures
        sorted_strict(sig.insert(p, k)),
        has_kind(sig.insert(p, k), k),
        pos_in(sig.insert(p, k), k) == p,
        forall|k2: u64|
            k2 != k ==> (#[trigger] has_kind(sig.insert(p, k), k2) <==> has_kind(sig, k2)),
        forall|k2: u64|
            k2 != k && has_kind(sig, k2) ==> #[trigger] pos_in(sig.insert(p, k), k2) == if pos_in(
                sig,
                k2,
            ) < p {
                pos_in(sig, k2)
            } else {
                pos_in(sig, k2) + 1
            },
{
    let s2 = sig.insert(p, k);
    assert forall|i: int, j: int| 0 <= i < j < s2.len() implies s2[i] < s2[j] by {
        if i < p && j < p {
        } else if i < p && j == p {
        } else if i < p && j > p {
            assert(s2[j] == sig[j - 1]);
        } else if i == p {
            assert(s2[j] == sig[j - 1]);
        } else {
            assert(s2[i] == sig[i - 1]);
            assert(s2[j] == sig[j - 1]);
        }
    }
    lemma_pos_unique(s2, k, p);
    assert forall|k2: u64| k2 != k implies (#[trigger] has_kind(s2, k2) <==> has_kind(sig, k2)) by {
        if has_kind(s2, k2) {
            let j = pos_in(s2, k2);
            if j < p {
                assert(sig[j] == k2);
            } else {
                assert(j != p);
                assert(sig[j - 1] == k2);
            }
        }
        if has_kind(sig, k2) {
            let j = pos_in(sig, k2);
            if j < p {
                assert(s2[j] == k2);
            } else {
                assert(s2[j + 1] == k2);
            }
        }
    }
    assert forall|k2: u64| k2 != k && has_kind(sig, k2) implies #[trigger] pos_in(s2, k2) == if pos_in(
        sig,
        k2,
    ) < p {
        pos_in(sig, k2)
    } else {
        pos_in(sig, k2) + 1
    } by {
        let j = pos_in(sig, k2);
        if j < p {
            lemma_pos_unique(s2, k2, j);
        } else {
            lemma_pos_unique(s2, k2, j + 1);
        }
    }
}

/// Removing the entry at position `p` keeps a signature sorted; every
/// other kind keeps its presence, shifted down past `p`.
proof fn lemma_sig_remove(sig: Seq<u64>, p: int)
    requires
        sorted_strict(sig),
        0 <= p < sig.len(),
    ensures
        sorted_strict(sig.remove(p)),
        !has_kind(sig.remove(p), sig[p]),
        forall|k2: u64|
            k2 != sig[p] ==> (#[trigger] has_kind(sig.remove(p), k2) <==> has_kind(sig, k2)),
        forall|k2: u64|
            k2 != sig[p] && has_kind(sig, k2) ==> #[trigger] pos_in(sig.remove(p), k2) == if pos_in(
                sig,
                k2,
            ) < p {
                pos_in(sig, k2)
            } else {
                pos_in(sig, k2) - 1
            },
{
    let s2 = sig.remove(p);
    let k = sig[p];
    assert forall|i: int, j: int| 0 <= i < j < s2.len() implies s2[i] < s2[j] by {
        if j < p {
        } else if i < p {
            assert(s2[j] == sig[j + 1]);
        } else {
            assert(s2[i] == sig[i + 1]);
            assert(s2[j] == sig[j + 1]);
        }
    }
    assert forall|j: int| 0 <= j < s2.len() implies s2[j] != k by {
        if j < p {
            assert(sig[j] < sig[p]);
        } else {
            assert(s2[j] == sig[j + 1]);
            assert(sig[p] < sig[j + 1]);
        }
    }
    lemma_not_has(s2, k);
    assert forall|k2: u64| k2 != k implies (#[trigger] has_kind(s2, k2) <==> has_kind(sig, k2)) by {
        if has_kind(s2, k2) {
            let j = pos_in(s2, k2);
            if j < p {
                assert(sig[j] == k2);
            } else {
                assert(sig[j + 1] == k2);
            }
        }
        if has_kind(sig, k2) {
            let j = pos_in(sig, k2);
            if j < p {
                assert(s2[j] == k2);
            } else {
                assert(j != p);
                assert(s2[j - 1] == k2);
            }
        }
    }
    assert forall|k2: u64| k2 != k && has_kind(sig, k2) implies #[trigger] pos_in(s2, k2) == if pos_in(
        sig,
        k2,
    ) < p {
        pos_in(sig, k2)
    } else {
        pos_in(sig, k2) - 1
    } by {
        let j = pos_in(sig, k2);
        if j < p {
            lemma_pos_unique(s2, k2, j);
        } else {
            assert(j != p);
            lemma_pos_unique(s2, k2, j - 1);
        }
    }
}


impl<V> World<V> {
    /// Finds the archetype whose signature is `signature`, creating an
    /// empty one (with one empty column per kind) if none exists yet.
    fn get_or_create_archetype(&mut self, signature: Vec<u64>) -> (id: usize)
        requires
            old(self).wf(),
            sorted_strict(signature@),
        ensures
            final(self).wf(),
            (id as int) < final(self).archetypes@.len(),
            final(self).archetypes@[id as int].signature@ == signature@,
            final(self).archetypes@.len() == old(self).archetypes@.len() || (
                final(self).archetypes@.len() == old(self).archetypes@.len() + 1
                && id as int == old(self).archetypes@.len()
                && final(self).archetypes@[id as int].entities@.len() == 0),
            forall|a: int| 0 <= a < old(self).archetypes@.len()
                ==> #[trigger] final(self).archetypes@[a] == old(self).archetypes@[a],
            final(self).slots == old(self).slots,
            final(self).free_indices == old(self).free_indices,
            final(self).current_tick == old(self).current_tick,
            final(self).resources == old(self).resources,
            final(self).schema_registry == old(self).schema_registry,
            final(self).alive_count == old(self).alive_count,
    {
        let mut a: usize = 0;
        while a < self.archetypes.len()
            invariant
                a <= self.archetypes@.len(),
                *self == *old(self),
                self.wf(),
                forall|b: int| 0 <= b < a ==> #[trigger] self.archetypes@[b].signature@ != signature@,
            decreases self.archetypes@.len() - a,
        {
            if same_signature(&self.archetypes[a].signature, &signature) {
                return a;
            }
            a = a + 1;
        }
        let n = signature.len();
        let mut columns: Vec<Column<V>> = Vec::new();
        let mut j: usize = 0;
        while j < n
            invariant
                j <= n,
                columns@.len() == j,
                forall|jj: int|
                    0 <= jj < j ==> {
                        &&& (#[trigger] columns@[jj]).values@.len() == 0
                        &&& columns@[jj].changed_ticks@.len() == 0
                    },
            decreases n - j,
        {
            columns.push(Column { values: Vec::new(), changed_ticks: Vec::new() });
            j = j + 1;
        }
        let ghost old_self = *self;
        let id = self.archetypes.len();
        self.archetypes.push(Archetype { signature, entities: Vec::new(), columns });
        proof {
            assert forall|a2: int, r2: int|
                0 <= a2 < self.archetypes@.len() && 0 <= r2 < self.archetypes@[a2].entities@.len()
                    implies #[trigger] self.row_ok(a2, r2) by {
                assert(old_self.row_ok(a2, r2));
            }
            assert forall|i: int| 0 <= i < self.slots@.len() implies #[trigger] self.slot_ok(i) by {
                assert(old_self.slot_ok(i));
            }
            assert forall|a2: int|
                0 <= a2 < self.archetypes@.len() implies (#[trigger] self.archetypes@[a2]).wf() by {
                if a2 < id {
                    assert(old_self.archetypes@[a2].wf());
                }
            }
        }
        id
    }
}


impl<V> World<V> {
    /// The bookkeeping of moving one live entity `e` from row `r` of
    /// archetype `a` to a fresh last row of archetype `b` (with the
    /// `swap_remove` in `a` relocating `a`'s last row to `r`) keeps the
    /// world well-formed, keeps every other entity's components, and gives
    /// `e` exactly the values pushed into `b`.
    proof fn lemma_move_row(w1: Self, w2: Self, e: Entity, a: int, r: int, b: int, vals: Seq<(V, Tick)>)
        requires
            w1.wf(),
            0 <= a < w1.archetypes@.len(),
            0 <= b < w1.archetypes@.len(),
            a != b,
            w1.archetypes@.len() <= usize::MAX,
            w1.archetypes@[a].entities@.len() <= usize::MAX,
            w1.archetypes@[b].entities@.len() <= usize::MAX,
            0 <= r < w1.archetypes@[a].entities@.len(),
            w1.archetypes@[a].entities@[r] == e,
            w2.archetypes@.len() == w1.archetypes@.len(),
            forall|x: int|
                0 <= x < w1.archetypes@.len() && x != a && x != b ==> #[trigger] w2.archetypes@[x]
                    == w1.archetypes@[x],
            ({
                let oa = w1.archetypes@[a];
                let na = w2.archetypes@[a];
                &&& na.wf()
                &&& na.signature@ == oa.signature@
                &&& na.entities@ == oa.entities@.update(r, oa.entities@.last()).drop_last()
                &&& na.columns@.len() == oa.columns@.len()
                &&& forall|j: int|
                    0 <= j < oa.columns@.len() ==> {
                        &&& (#[trigger] na.columns@[j]).values@ == oa.columns@[j].values@.update(
                            r,
                            oa.columns@[j].values@.last(),
                        ).drop_last()
                        &&& na.columns@[j].changed_ticks@ == oa.columns@[j].changed_ticks@.update(
                            r,
                            oa.columns@[j].changed_ticks@.last(),
                        ).drop_last()
                    }
            }),
            ({
                let ob = w1.archetypes@[b];
                let nb = w2.archetypes@[b];
                &&& nb.wf()
                &&& nb.signature@ == ob.signature@
                &&& nb.entities@ == ob.entities@.push(e)
                &&& nb.columns@.len() == ob.columns@.len()
                &&& vals.len() == ob.columns@.len()
                &&& forall|j: int|
                    0 <= j < ob.columns@.len() ==> {
                        &&& (#[trigger] nb.columns@[j]).values@ == ob.columns@[j].values@.push(
                            vals[j].0,
                        )
                        &&& nb.columns@[j].changed_ticks@ == ob.columns@[j].changed_ticks@.push(
                            vals[j].1,
                        )
                    }
            }),
            w2.slots@.len() == w1.slots@.len(),
            ({
                let last = w1.archetypes@[a].entities@.len() - 1;
                let m = w1.archetypes@[a].entities@[last];
                forall|i: int|
                    0 <= i < w1.slots@.len() ==> #[trigger] w2.slots@[i] == if i == e.index as int {
                        Slot {
                            generation: e.generation,
                            alive: true,
                            location: Some(
                                EntityLocation {
                                    archetype: b as usize,
                                    row: w1.archetypes@[b].entities@.len() as usize,
                                },
                            ),
                        }
                    } else if r < last && i == m.index as int {
                        Slot {
                            generation: m.generation,
                            alive: true,
                            location: Some(EntityLocation { archetype: a as usize, row: r as usize }),
                        }
                    } else {
                        w1.slots@[i]
                    }
            }),
            w2.free_indices == w1.free_indices,
            w2.empty_archetype == w1.empty_archetype,
            w2.alive_count == w1.alive_count,
            w2.resources == w1.resources,
            w2.schema_registry == w1.schema_registry,
        ensures
            w2.wf(),
            w2.slots_view() == w1.slots_view(),
            w2.live_count() == w1.live_count(),
            w2.is_live(e),
            forall|e2: Entity, k: ComponentId|
                e2 != e ==> #[trigger] w2.comp(e2, k) == w1.comp(e2, k),
            forall|k: ComponentId| #[trigger]
                w2.comp(e, k) == if has_kind(w1.archetypes@[b].signature@, k.0) {
                    Some(vals[pos_in(w1.archetypes@[b].signature@, k.0)])
                } else {
                    None
                },
    {
        let last = w1.archetypes@[a].entities@.len() - 1;
        let m = w1.archetypes@[a].entities@[last];
        let blen = w1.archetypes@[b].entities@.len();
        assert(w1.row_ok(a, r));
        assert(w1.row_ok(a, last));
        assert(r < last ==> m.index != e.index);
        assert(w1.archetypes@[0].signature@ == w2.archetypes@[0].signature@);
        // Slots of entities other than e and m are untouched.
        assert forall|x: int, y: int|
            0 <= x < w1.archetypes@.len() && 0 <= y < w1.archetypes@[x].entities@.len() && !(x == a
                && (y == r || y == last)) implies #[trigger] w1.archetypes@[x].entities@[y].index != e.index
            && w1.archetypes@[x].entities@[y].index != m.index by {
            assert(w1.row_ok(x, y));
        }
        assert forall|a2: int, r2: int|
            0 <= a2 < w2.archetypes@.len() && 0 <= r2 < w2.archetypes@[a2].entities@.len()
                implies #[trigger] w2.row_ok(a2, r2) by {
            if a2 == a {
                if r2 == r {
                    assert(w2.archetypes@[a2].entities@[r2] == m);
                } else {
                    assert(w1.row_ok(a2, r2));
                    assert(w2.archetypes@[a2].entities@[r2] == w1.archetypes@[a2].entities@[r2]);
                }
            } else if a2 == b {
                if r2 < blen {
                    assert(w1.row_ok(a2, r2));
                    assert(w2.archetypes@[a2].entities@[r2] == w1.archetypes@[a2].entities@[r2]);
                } else {
                    assert(w2.archetypes@[a2].entities@[r2] == e);
                }
            } else {
                assert(w1.row_ok(a2, r2));
            }
        }
        assert forall|i: int| 0 <= i < w2.slots@.len() implies #[trigger] w2.slot_ok(i) by {
            if i == e.index as int {
                assert(w2.archetypes@[b].entities@[blen as int] == e);
            } else if r < last && i == m.index as int {
                assert(w2.archetypes@[a].entities@[r] == m);
            } else {
                assert(w1.slot_ok(i));
                let s = w1.slots@[i];
                if s.alive {
                    let l = s.location.unwrap();
                    assert(w1.row_ok(l.archetype as int, l.row as int));
                    if l.archetype as int == a {
                        assert(l.row as int != r);
                        assert(l.row as int != last);
                        assert(w2.archetypes@[a].entities@[l.row as int] == w1.archetypes@[a].entities@[
                            l.row as int
                        ]);
                    } else if l.archetype as int == b {
                        assert(w2.archetypes@[b].entities@[l.row as int] == w1.archetypes@[b].entities@[
                            l.row as int
                        ]);
                    }
                }
            }
        }
        assert(w2.slots@ =~= w1.slots@.update(e.index as int, w2.slots@[e.index as int]).update(
            m.index as int,
            w2.slots@[m.index as int],
        ));
        lemma_count_alive_update(
            w1.slots@.update(e.index as int, w2.slots@[e.index as int]),
            m.index as int,
            w2.slots@[m.index as int],
        );
        lemma_count_alive_update(w1.slots@, e.index as int, w2.slots@[e.index as int]);
        assert forall|f: int|
            0 <= f < w2.free_indices@.len() implies {
                &&& (#[trigger] w2.free_indices@[f] as int) < w2.slots@.len()
                &&& !w2.slots@[w2.free_indices@[f] as int].alive
            } by {
            assert(!w1.slots@[w1.free_indices@[f] as int].alive);
        }
        assert forall|x: int|
            0 <= x < w2.archetypes@.len() implies (#[trigger] w2.archetypes@[x]).wf() by {
            assert(w1.archetypes@[x].wf());
        }
        assert forall|x: int, y: int|
            0 <= x < w2.archetypes@.len() && 0 <= y < w2.archetypes@.len() && x != y
                implies #[trigger] w2.archetypes@[x].signature@ != #[trigger] w2.archetypes@[y].signature@ by {
            assert(w1.archetypes@[x].signature@ != w1.archetypes@[y].signature@);
        }
        assert(w2.slots_view() =~= w1.slots_view());
        assert forall|e2: Entity, k: ComponentId|
            e2 != e implies #[trigger] w2.comp(e2, k) == w1.comp(e2, k) by {
            if w1.is_live(e2) {
                assert(w1.slot_ok(e2.index as int));
                let l = w1.location(e2);
                assert(w1.row_ok(l.archetype as int, l.row as int));
                let x = l.archetype as int;
                let sig = w1.archetypes@[x].signature@;
                if r < last && e2 == m {
                    assert(w2.location(e2) == EntityLocation { archetype: a as usize, row: r as usize });
                    if has_kind(sig, k.0) {
                        let j = pos_in(sig, k.0);
                        assert(w1.archetypes@[a].columns@[j].values@.len() == w1.archetypes@[a].entities@.len());
                    }
                } else {
                    assert(e2.index != e.index);
                    assert(w2.location(e2) == l);
                    if has_kind(sig, k.0) {
                        let j = pos_in(sig, k.0);
                        assert(w1.archetypes@[x].columns@[j].values@.len() == w1.archetypes@[x].entities@.len());
                        if x == a {
                            assert(l.row as int != r && l.row as int != last);
                        }
                    }
                }
            } else {
                assert(!w2.is_live(e2));
            }
        }
        assert forall|k: ComponentId| #[trigger]
            w2.comp(e, k) == if has_kind(w1.archetypes@[b].signature@, k.0) {
                Some(vals[pos_in(w1.archetypes@[b].signature@, k.0)])
            } else {
                None
            } by {
            assert(w2.location(e) == EntityLocation { archetype: b as usize, row: blen as usize });
        }
    }
}


impl<V> World<V> {
    /// Adding archetypes (without touching rows or slots) changes nobody's
    /// components.
    proof fn lemma_extend_archetypes(w1: Self, w2: Self)
        requires
            w1.wf(),
            w2.wf(),
            w2.slots == w1.slots,
            w2.archetypes@.len() >= w1.archetypes@.len(),
            forall|a: int| 0 <= a < w1.archetypes@.len() ==> #[trigger] w2.archetypes@[a] == w1.archetypes@[a],
        ensures
            w2.slots_view() == w1.slots_view(),
            forall|e: Entity, k: ComponentId| #[trigger] w2.comp(e, k) == w1.comp(e, k),
    {
        assert(w2.slots_view() =~= w1.slots_view());
        assert forall|e: Entity, k: ComponentId| #[trigger] w2.comp(e, k) == w1.comp(e, k) by {
            if w1.is_live(e) {
                assert(w1.slot_ok(e.index as int));
            }
        }
    }

    /// Moves live `entity` out of row `r` of archetype `a` into a fresh
    /// row of archetype `b`: the row's values (in `a`'s signature order)
    /// are edited by `edit` into `b`'s signature order, and the location
    /// of whichever entity the `swap_remove` relocated is fixed up. A
    /// removal edit hands back the value it took out.
    fn move_row(&mut self, entity: Entity, a: usize, r: usize, b: usize, edit: RowEdit<V>) -> (removed:
        Option<(V, Tick)>)
        requires
            old(self).wf(),
            (a as int) < old(self).archetypes@.len(),
            (b as int) < old(self).archetypes@.len(),
            a != b,
            (r as int) < old(self).archetypes@[a as int].entities@.len(),
            old(self).archetypes@[a as int].entities@[r as int] == entity,
            edit_ok(old(self).archetypes@[a as int].columns@.len(), edit),
            edited_len(old(self).archetypes@[a as int].columns@.len(), edit) == old(
                self,
            ).archetypes@[b as int].columns@.len(),
        ensures
            final(self).wf(),
            final(self).slots_view() == old(self).slots_view(),
            final(self).live_count() == old(self).live_count(),
            final(self).free_view() == old(self).free_view(),
            final(self).current_tick == old(self).current_tick,
            final(self).resources == old(self).resources,
            final(self).schema_registry == old(self).schema_registry,
            final(self).is_live(entity),
            forall|e2: Entity, k: ComponentId|
                e2 != entity ==> #[trigger] final(self).comp(e2, k) == old(self).comp(e2, k),
            forall|k: ComponentId| #[trigger]
                final(self).comp(entity, k) == if has_kind(
                    old(self).archetypes@[b as int].signature@,
                    k.0,
                ) {
                    Some(
                        apply_edit(row_values(old(self).archetypes@[a as int], r as int), edit)[pos_in(
                            old(self).archetypes@[b as int].signature@,
                            k.0,
                        )],
                    )
                } else {
                    None
                },
            removed == match edit {
                RowEdit::Remove(p) => Some(row_values(old(self).archetypes@[a as int], r as int)[p as int]),
                RowEdit::Insert(..) => None,
            },
    {
        let ghost w1 = *self;
        let ghost row = row_values(w1.archetypes@[a as int], r as int);
        assert(self.archetypes.len() <= usize::MAX);
        assert(self.archetypes@[a as int].entities.len() <= usize::MAX);
        proof {
            assert(w1.row_ok(a as int, r as int));
            assert(w1.archetypes@[a as int].wf());
        }
        let blen = self.archetypes[b].entities.len();
        let extracted = self.archetypes[a].extract_row(r);
        let mut values = extracted.values;
        proof {
            assert(values@ =~= row);
        }
        let removed = match edit {
            RowEdit::Insert(p, v, t) => {
                values.insert(p, (v, t));
                None
            },
            RowEdit::Remove(p) => Some(values.remove(p)),
        };
        let ghost vals = values@;
        self.archetypes[b].push_row(entity, values);
        self.slots.set(
            entity.index as usize,
            Slot {
                generation: entity.generation,
                alive: true,
                location: Some(EntityLocation { archetype: b, row: blen }),
            },
        );
        if let Some(moved) = extracted.moved_into_row {
            proof {
                let last = w1.archetypes@[a as int].entities@.len() - 1;
                assert(w1.row_ok(a as int, last));
            }
            self.slots.set(
                moved.index as usize,
                Slot {
                    generation: moved.generation,
                    alive: true,
                    location: Some(EntityLocation { archetype: a, row: r }),
                },
            );
        }
        proof {
            Self::lemma_move_row(w1, *self, entity, a as int, r as int, b as int, vals);
        }
        removed
    }
}


impl<V> World<V> {
    /// Inserts (or replaces) the component of kind `kind` on `entity`,
    /// stamping it with the current tick.
    ///
    /// If `entity` has no component of that kind yet, it moves to the
    /// archetype with that kind added (created on first use), carrying
    /// every other component along unchanged, values and change ticks
    /// alike. If it already has one, the value is overwritten in place.
    ///
    /// Returns `EcsError::StaleOrUnknownEntity`, changing nothing, if
    /// `entity` is not alive.
    pub fn insert(&mut self, entity: Entity, kind: ComponentId, component: V) -> (r: Result<
        (),
        EcsError,
    >)
        requires
            old(self).wf(),
        ensures
            final(self)@ == old(self)@.insert(entity, kind, component),
            final(self).wf(),
            !old(self).is_live(entity) ==> r == Err::<(), EcsError>(EcsError::StaleOrUnknownEntity)
                && *final(self) == *old(self),
            old(self).is_live(entity) ==> r == Ok::<(), EcsError>(()),
            final(self).slots_view() == old(self).slots_view(),
            final(self).free_view() == old(self).free_view(),
            final(self).live_count() == old(self).live_count(),
            final(self).tick() == old(self).tick(),
            final(self).resources_view() == old(self).resources_view(),
            final(self).schemas_view() == old(self).schemas_view(),
            forall|e2: Entity, k: ComponentId| #[trigger]
                final(self).comp(e2, k) == if old(self).is_live(entity) && e2 == entity && k == kind {
                    Some((component, old(self).tick()))
                } else {
                    old(self).comp(e2, k)
                },
    {
        let loc = match self.location_of(entity) {
            Some(l) => l,
            None => {
                return Err(EcsError::StaleOrUnknownEntity);
            },
        };
        let ghost w0 = *self;
        let a = loc.archetype;
        let r = loc.row;
        let tick = self.current_tick;
        proof {
            assert(w0.archetypes@[a as int].wf());
            assert(w0.slot_ok(entity.index as int));
        }
        match find_kind(&self.archetypes[a].signature, kind.0) {
            Ok(j) => {
                self.archetypes[a].columns[j].values.set(r, component);
                self.archetypes[a].columns[j].changed_ticks.set(r, tick);
                proof {
                    assert forall|a2: int|
                        0 <= a2 < self.archetypes@.len() implies (#[trigger] self.archetypes@[a2]).wf() by {
                        assert(w0.archetypes@[a2].wf());
                    }
                    assert forall|a2: int, b2: int|
                        0 <= a2 < self.archetypes@.len() && 0 <= b2 < self.archetypes@.len() && a2 != b2
                            implies #[trigger] self.archetypes@[a2].signature@
                            != #[trigger] self.archetypes@[b2].signature@ by {
                        assert(w0.archetypes@[a2].signature@ != w0.archetypes@[b2].signature@);
                    }
                    assert forall|a2: int, r2: int|
                        0 <= a2 < self.archetypes@.len() && 0 <= r2 < self.archetypes@[a2].entities@.len()
                            implies #[trigger] self.row_ok(a2, r2) by {
                        assert(w0.row_ok(a2, r2));
                    }
                    assert forall|i: int| 0 <= i < self.slots@.len() implies #[trigger] self.slot_ok(i) by {
                        assert(w0.slot_ok(i));
                    }
                    assert(self.slots_view() =~= w0.slots_view());
                    assert forall|e2: Entity, k: ComponentId| #[trigger]
                        self.comp(e2, k) == if e2 == entity && k == kind {
                            Some((component, w0.tick()))
                        } else {
                            w0.comp(e2, k)
                        } by {
                        if w0.is_live(e2) {
                            assert(w0.slot_ok(e2.index as int));
                            let l = w0.location(e2);
                            let x = l.archetype as int;
                            let sig = w0.archetypes@[x].signature@;
                            assert(w0.row_ok(x, l.row as int));
                            if has_kind(sig, k.0) {
                                let jj = pos_in(sig, k.0);
                                assert(w0.archetypes@[x].columns@[jj].values@.len()
                                    == w0.archetypes@[x].entities@.len());
                                if x == a as int && l.row == r {
                                    assert(e2 == entity);
                                }
                            }
                        }
                    }
                }
                Ok(())
            },
            Err(p) => {
                let mut signature = copy_signature(&self.archetypes[a].signature);
                signature.insert(p, kind.0);
                proof {
                    lemma_sig_insert(w0.archetypes@[a as int].signature@, p as int, kind.0);
                }
                let b = self.get_or_create_archetype(signature);
                let ghost w1 = *self;
                proof {
                    Self::lemma_extend_archetypes(w0, w1);
                    assert(b != a);
                    assert(w1.archetypes@[b as int].wf());
                }
                self.move_row(entity, a, r, b, RowEdit::Insert(p, component, tick));
                proof {
                    let bsig = w1.archetypes@[b as int].signature@;
                    let asig = w0.archetypes@[a as int].signature@;
                    assert forall|e2: Entity, k: ComponentId| #[trigger]
                        self.comp(e2, k) == if e2 == entity && k == kind {
                            Some((component, w0.tick()))
                        } else {
                            w0.comp(e2, k)
                        } by {
                        if e2 == entity {
                            let l = w0.location(e2);
                            assert(l == loc);
                            if k != kind {
                                if has_kind(asig, k.0) {
                                    let jj = pos_in(asig, k.0);
                                    assert(w0.archetypes@[a as int].columns@[jj].values@.len()
                                        == w0.archetypes@[a as int].entities@.len());
                                }
                            }
                        }
                    }
                }
                Ok(())
            },
        }
    }
}


impl<V> World<V> {
    /// Removes and returns `entity`'s component of kind `kind`, moving the
    /// entity to the archetype without that kind and carrying every
    /// remaining component along unchanged (values and change ticks).
    ///
    /// A stale or unknown entity and a live entity lacking the component
    /// both yield `None`, identically, and change nothing: liveness is
    /// `is_alive`'s question, not this one's.
    pub fn remove(&mut self, entity: Entity, kind: ComponentId) -> (r: Option<V>)
        requires
            old(self).wf(),
        ensures
            final(self)@ == old(self)@.remove(entity, kind),
            final(self).wf(),
            r == match old(self).comp(entity, kind) {
                Some(pair) => Some(pair.0),
                None => None::<V>,
            },
            old(self).comp(entity, kind) is None ==> *final(self) == *old(self),
            !old(self).is_live(entity) ==> r is None && *final(self) == *old(self),
            final(self).slots_view() == old(self).slots_view(),
            final(self).free_view() == old(self).free_view(),
            final(self).live_count() == old(self).live_count(),
            final(self).tick() == old(self).tick(),
            final(self).resources_view() == old(self).resources_view(),
            final(self).schemas_view() == old(self).schemas_view(),
            forall|e2: Entity, k: ComponentId| #[trigger]
                final(self).comp(e2, k) == if e2 == entity && k == kind {
                    None
                } else {
                    old(self).comp(e2, k)
                },
    {
        let loc = match self.location_of(entity) {
            Some(l) => l,
            None => {
                return None;
            },
        };
        let ghost w0 = *self;
        let a = loc.archetype;
        let r = loc.row;
        proof {
            assert(w0.archetypes@[a as int].wf());
            assert(w0.slot_ok(entity.index as int));
        }
        match find_kind(&self.archetypes[a].signature, kind.0) {
            Err(_) => None,
            Ok(j) => {
                let mut signature = copy_signature(&self.archetypes[a].signature);
                signature.remove(j);
                proof {
                    lemma_sig_remove(w0.archetypes@[a as int].signature@, j as int);
                }
                let b = self.get_or_create_archetype(signature);
                let ghost w1 = *self;
                proof {
                    Self::lemma_extend_archetypes(w0, w1);
                    assert(b != a);
                    assert(w1.archetypes@[b as int].wf());
                }
                let removed = self.move_row(entity, a, r, b, RowEdit::Remove(j));
                proof {
                    let bsig = w1.archetypes@[b as int].signature@;
                    let asig = w0.archetypes@[a as int].signature@;
                    assert(w0.archetypes@[a as int].columns@[j as int].values@.len()
                        == w0.archetypes@[a as int].entities@.len());
                    assert forall|e2: Entity, k: ComponentId| #[trigger]
                        self.comp(e2, k) == if e2 == entity && k == kind {
                            None
                        } else {
                            w0.comp(e2, k)
                        } by {
                        if e2 == entity {
                            let l = w0.location(e2);
                            assert(l == loc);
                            if k != kind {
                                if has_kind(asig, k.0) {
                                    let jj = pos_in(asig, k.0);
                                    assert(w0.archetypes@[a as int].columns@[jj].values@.len()
                                        == w0.archetypes@[a as int].entities@.len());
                                }
                            }
                        }
                    }
                }
                match removed {
                    Some(pair) => Some(pair.0),
                    None => None,
                }
            },
        }
    }
}


/// Whether `tick` is strictly later than `since`, when there is a `since`.
pub open spec fn newer(tick: Tick, since: Option<Tick>) -> bool {
    match since {
        Some(s) => tick.value() > s.value(),
        None => true,
    }
}

/// Every kind in `kinds` is in the signature `sig`.
pub open spec fn has_all(sig: Seq<u64>, kinds: Seq<u64>) -> bool {
    forall|t: int| 0 <= t < kinds.len() ==> has_kind(sig, #[trigger] kinds[t])
}

fn has_all_kinds(sig: &Vec<u64>, kinds: &Vec<u64>) -> (r: bool)
    requires
        sorted_strict(sig@),
    ensures
        r == has_all(sig@, kinds@),
{
    let mut t: usize = 0;
    while t < kinds.len()
        invariant
            t <= kinds@.len(),
            sorted_strict(sig@),
            forall|tt: int| 0 <= tt < t ==> has_kind(sig@, #[trigger] kinds@[tt]),
        decreases kinds@.len() - t,
    {
        match find_kind(sig, kinds[t]) {
            Ok(_) => {},
            Err(_) => {
                return false;
            },
        }
        t = t + 1;
    }
    true
}

spec fn loc_lt(l1: EntityLocation, l2: EntityLocation) -> bool {
    l1.archetype < l2.archetype || (l1.archetype == l2.archetype && l1.row < l2.row)
}

impl<V> World<V> {
    spec fn valid_loc(&self, l: EntityLocation) -> bool {
        &&& (l.archetype as int) < self.archetypes@.len()
        &&& (l.row as int) < self.archetypes@[l.archetype as int].entities@.len()
    }

    spec fn entity_at(&self, l: EntityLocation) -> Entity {
        self.archetypes@[l.archetype as int].entities@[l.row as int]
    }

    /// Distinct rows hold distinct entities.
    proof fn lemma_rows_distinct(&self, l1: EntityLocation, l2: EntityLocation)
        requires
            self.wf(),
            self.valid_loc(l1),
            self.valid_loc(l2),
            l1 != l2,
        ensures
            self.entity_at(l1) != self.entity_at(l2),
    {
        assert(self.row_ok(l1.archetype as int, l1.row as int));
        assert(self.row_ok(l2.archetype as int, l2.row as int));
    }

    /// A live entity sits at its recorded location.
    proof fn lemma_live_location(&self, e: Entity)
        requires
            self.wf(),
            self.is_live(e),
        ensures
            self.valid_loc(self.location(e)),
            self.entity_at(self.location(e)) == e,
    {
        assert(self.slot_ok(e.index as int));
        let l = self.location(e);
        assert(self.row_ok(l.archetype as int, l.row as int));
    }

    /// The entity at a valid row is live and located there.
    proof fn lemma_row_live(&self, l: EntityLocation)
        requires
            self.wf(),
            self.valid_loc(l),
        ensures
            self.is_live(self.entity_at(l)),
            self.location(self.entity_at(l)) == l,
    {
        assert(self.row_ok(l.archetype as int, l.row as int));
    }

    /// Every row of every archetype whose signature holds all of `kinds`,
    /// archetype by archetype, rows in order.
    fn locations_with(&self, kinds: &Vec<u64>) -> (out: Vec<EntityLocation>)
        requires
            self.wf(),
        ensures
            forall|i: int|
                0 <= i < out@.len() ==> self.valid_loc(#[trigger] out@[i]) && has_all(
                    self.archetypes@[out@[i].archetype as int].signature@,
                    kinds@,
                ),
            forall|i: int, j: int| 0 <= i < j < out@.len() ==> loc_lt(out@[i], out@[j]),
            forall|l: EntityLocation|
                self.valid_loc(l) && has_all(self.archetypes@[l.archetype as int].signature@, kinds@)
                    ==> exists|i: int| 0 <= i < out@.len() && #[trigger] out@[i] == l,
    {
        let mut out: Vec<EntityLocation> = Vec::new();
        let mut x: usize = 0;
        while x < self.archetypes.len()
            invariant
                self.wf(),
                x <= self.archetypes@.len(),
                forall|i: int|
                    0 <= i < out@.len() ==> self.valid_loc(#[trigger] out@[i]) && (out@[i].archetype
                        as int) < x && has_all(
                        self.archetypes@[out@[i].archetype as int].signature@,
                        kinds@,
                    ),
                forall|i: int, j: int| 0 <= i < j < out@.len() ==> loc_lt(out@[i], out@[j]),
                forall|l: EntityLocation|
                    self.valid_loc(l) && (l.archetype as int) < x && has_all(
                        self.archetypes@[l.archetype as int].signature@,
                        kinds@,
                    ) ==> exists|i: int| 0 <= i < out@.len() && #[trigger] out@[i] == l,
            decreases self.archetypes@.len() - x,
        {
            proof {
                assert(self.archetypes@[x as int].wf());
            }
            if has_all_kinds(&self.archetypes[x].signature, kinds) {
                let n = self.archetypes[x].entities.len();
                let mut y: usize = 0;
                while y < n
                    invariant
                        self.wf(),
                        x < self.archetypes@.len(),
                        n == self.archetypes@[x as int].entities@.len(),
                        y <= n,
                        has_all(self.archetypes@[x as int].signature@, kinds@),
                        forall|i: int|
                            0 <= i < out@.len() ==> self.valid_loc(#[trigger] out@[i]) && (
                            out@[i].archetype as int) <= x && (out@[i].archetype < x || out@[i].row
                                < y) && has_all(
                                self.archetypes@[out@[i].archetype as int].signature@,
                                kinds@,
                            ),
                        forall|i: int, j: int| 0 <= i < j < out@.len() ==> loc_lt(out@[i], out@[j]),
                        forall|l: EntityLocation|
                            self.valid_loc(l) && ((l.archetype as int) < x || (l.archetype == x
                                && l.row < y)) && has_all(
                                self.archetypes@[l.archetype as int].signature@,
                                kinds@,
                            ) ==> exists|i: int| 0 <= i < out@.len() && #[trigger] out@[i] == l,
                    decreases n - y,
                {
                    let ghost prev = out@;
                    out.push(EntityLocation { archetype: x, row: y });
                    proof {
                        assert forall|l: EntityLocation|
                            self.valid_loc(l) && ((l.archetype as int) < x || (l.archetype == x
                                && l.row < y + 1)) && has_all(
                                self.archetypes@[l.archetype as int].signature@,
                                kinds@,
                            ) implies exists|i: int| 0 <= i < out@.len() && #[trigger] out@[i] == l by {
                            if l.archetype == x && l.row == y {
                                assert(out@[prev.len() as int] == l);
                            } else {
                                let i = choose|i: int| 0 <= i < prev.len() && #[trigger] prev[i] == l;
                                assert(out@[i] == l);
                            }
                        }
                    }
                    y = y + 1;
                }
            }
            x = x + 1;
        }
        out
    }

    /// A reference to `entity`'s component of kind `kind`, if it is alive
    /// and has one.
    pub fn get(&self, entity: Entity, kind: ComponentId) -> (r: Option<&V>)
        requires
            self.wf(),
        ensures
            r is Some == self.comp(entity, kind) is Some,
            r matches Some(v) ==> *v == self.comp(entity, kind).unwrap().0,
    {
        let loc = match self.location_of(entity) {
            Some(l) => l,
            None => {
                return None;
            },
        };
        proof {
            assert(self.archetypes@[loc.archetype as int].wf());
        }
        match find_kind(&self.archetypes[loc.archetype].signature, kind.0) {
            Ok(j) => Some(&self.archetypes[loc.archetype].columns[j].values[loc.row]),
            Err(_) => None,
        }
    }

    /// Type-erased read: the component stored under the runtime kind
    /// `kind` on `entity`, or `None` if `entity` is not alive or has no
    /// such component.
    pub fn get_erased(&self, entity: Entity, kind: ComponentId) -> (r: Option<&V>)
        requires
            self.wf(),
        ensures
            r is Some == self.comp(entity, kind) is Some,
            r matches Some(v) ==> *v == self.comp(entity, kind).unwrap().0,
    {
        self.get(entity, kind)
    }

    /// Whether `entity` is alive and has a component of the runtime kind
    /// `kind`; `false` for a dead or unknown entity.
    pub fn has_component_erased(&self, entity: Entity, kind: ComponentId) -> (r: bool)
        requires
            self.wf(),
        ensures
            r == self.comp(entity, kind) is Some,
    {
        let loc = match self.location_of(entity) {
            Some(l) => l,
            None => {
                return false;
            },
        };
        proof {
            assert(self.archetypes@[loc.archetype as int].wf());
        }
        match find_kind(&self.archetypes[loc.archetype].signature, kind.0) {
            Ok(_) => true,
            Err(_) => false,
        }
    }

    /// Every live entity that has a component of kind `kind`, each once,
    /// with a reference to that component.
    pub fn query(&self, kind: ComponentId) -> (r: Vec<(Entity, &V)>)
        requires
            self.wf(),
        ensures
            forall|i: int|
                0 <= i < r@.len() ==> (#[trigger] self.comp(r@[i].0, kind)) is Some
                    && self.comp(r@[i].0, kind).unwrap().0 == *r@[i].1,
            forall|i: int, j: int| 0 <= i < j < r@.len() ==> r@[i].0 != r@[j].0,
            forall|e: Entity|
                #[trigger] self.comp(e, kind) is Some ==> exists|i: int|
                    0 <= i < r@.len() && r@[i].0 == e,
    {
        self.query_changed_filter(kind, None)
    }

    /// Like `query`, but only the entities whose component of kind `kind`
    /// was written at a tick strictly later than `since`. Moving to a
    /// different archetype because some other component was inserted or
    /// removed does not count as a write.
    pub fn query_changed_since(&self, kind: ComponentId, since: Tick) -> (r: Vec<(Entity, &V)>)
        requires
            self.wf(),
        ensures
            forall|i: int|
                0 <= i < r@.len() ==> (#[trigger] self.comp(r@[i].0, kind)) is Some
                    && self.comp(r@[i].0, kind).unwrap().0 == *r@[i].1
                    && self.comp(r@[i].0, kind).unwrap().1.value() > since.value(),
            forall|i: int, j: int| 0 <= i < j < r@.len() ==> r@[i].0 != r@[j].0,
            forall|e: Entity|
                (#[trigger] self.comp(e, kind)) is Some && self.comp(e, kind).unwrap().1.value()
                    > since.value() ==> exists|i: int| 0 <= i < r@.len() && r@[i].0 == e,
    {
        self.query_changed_filter(kind, Some(since))
    }

    /// Shared core of `query` and `query_changed_since`.
    fn query_changed_filter(&self, kind: ComponentId, since: Option<Tick>) -> (r: Vec<(Entity, &V)>)
        requires
            self.wf(),
        ensures
            forall|i: int|
                0 <= i < r@.len() ==> (#[trigger] self.comp(r@[i].0, kind)) is Some
                    && self.comp(r@[i].0, kind).unwrap().0 == *r@[i].1
                    && newer(self.comp(r@[i].0, kind).unwrap().1, since),
            forall|i: int, j: int| 0 <= i < j < r@.len() ==> r@[i].0 != r@[j].0,
            forall|e: Entity|
                (#[trigger] self.comp(e, kind)) is Some && newer(self.comp(e, kind).unwrap().1, since)
                    ==> exists|i: int| 0 <= i < r@.len() && r@[i].0 == e,
    {
        let mut kinds: Vec<u64> = Vec::new();
        kinds.push(kind.0);
        let locs = self.locations_with(&kinds);
        let mut out: Vec<(Entity, &V)> = Vec::new();
        let ghost mut picked: Seq<int> = Seq::empty();
        let mut i: usize = 0;
        while i < locs.len()
            invariant
                self.wf(),
                i <= locs@.len(),
                kinds@ == seq![kind.0],
                forall|ii: int|
                    0 <= ii < locs@.len() ==> self.valid_loc(#[trigger] locs@[ii]) && has_all(
                        self.archetypes@[locs@[ii].archetype as int].signature@,
                        kinds@,
                    ),
                forall|ii: int, jj: int| 0 <= ii < jj < locs@.len() ==> loc_lt(locs@[ii], locs@[jj]),
                picked.len() == out@.len(),
                forall|t: int|
                    0 <= t < picked.len() ==> 0 <= #[trigger] picked[t] < i && out@[t].0
                        == self.entity_at(locs@[picked[t]]),
                forall|t: int, u: int| 0 <= t < u < picked.len() ==> picked[t] < picked[u],
                forall|t: int|
                    0 <= t < out@.len() ==> (#[trigger] self.comp(out@[t].0, kind)) is Some
                        && self.comp(out@[t].0, kind).unwrap().0 == *out@[t].1
                        && newer(self.comp(out@[t].0, kind).unwrap().1, since),
                forall|ii: int|
                    0 <= ii < i ==> (self.comp(self.entity_at(#[trigger] locs@[ii]), kind) is Some
                        && newer(self.comp(self.entity_at(locs@[ii]), kind).unwrap().1, since))
                        ==> exists|t: int| 0 <= t < picked.len() && picked[t] == ii,
            decreases locs@.len() - i,
        {
            let l = locs[i];
            let x = l.archetype;
            let y = l.row;
            let ghost old_picked = picked;
            proof {
                assert(self.archetypes@[x as int].wf());
                assert(has_kind(self.archetypes@[x as int].signature@, kinds@[0]));
                self.lemma_row_live(l);
            }
            match find_kind(&self.archetypes[x].signature, kind.0) {
                Ok(j) => {
                    let tick = self.archetypes[x].columns[j].changed_ticks[y];
                    let keep = match since {
                        Some(s) => tick.is_after(s),
                        None => true,
                    };
                    if keep {
                        let e = self.archetypes[x].entities[y];
                        let v = &self.archetypes[x].columns[j].values[y];
                        proof {
                            picked = picked.push(i as int);
                        }
                        out.push((e, v));
                    }
                },
                Err(_) => {},
            }
            proof {
                assert forall|ii: int|
                    0 <= ii < i + 1 && (self.comp(self.entity_at(#[trigger] locs@[ii]), kind) is Some
                        && newer(self.comp(self.entity_at(locs@[ii]), kind).unwrap().1, since))
                        implies exists|t: int| 0 <= t < picked.len() && picked[t] == ii by {
                    if ii < i {
                        let t = choose|t: int| 0 <= t < old_picked.len() && old_picked[t] == ii;
                        assert(picked[t] == ii);
                    } else {
                        assert(picked[picked.len() - 1] == ii);
                    }
                }
            }
            i = i + 1;
        }
        proof {
            assert forall|t: int, u: int| 0 <= t < u < out@.len() implies out@[t].0 != out@[u].0 by {
                let lt = locs@[picked[t]];
                let lu = locs@[picked[u]];
                assert(loc_lt(lt, lu));
                self.lemma_rows_distinct(lt, lu);
            }
            assert forall|e: Entity|
                (#[trigger] self.comp(e, kind)) is Some && newer(self.comp(e, kind).unwrap().1, since)
                    implies exists|t: int| 0 <= t < out@.len() && out@[t].0 == e by {
                self.lemma_live_location(e);
                let l = self.location(e);
                assert(has_kind(self.archetypes@[l.archetype as int].signature@, kind.0));
                assert(has_all(self.archetypes@[l.archetype as int].signature@, kinds@));
                let ii = choose|ii: int| 0 <= ii < locs@.len() && #[trigger] locs@[ii] == l;
                let t = choose|t: int| 0 <= t < picked.len() && picked[t] == ii;
                assert(out@[t].0 == e);
            }
        }
        out
    }
}


impl<V> World<V> {
    /// Overwrites the value and tick of one cell: row `l.row` of column
    /// `j` in archetype `l.archetype`.
    fn set_cell(&mut self, l: EntityLocation, j: usize, value: V, tick: Tick)
        requires
            old(self).wf(),
            old(self).valid_loc(l),
            (j as int) < old(self).archetypes@[l.archetype as int].signature@.len(),
        ensures
            final(self).wf(),
            final(self).slots == old(self).slots,
            final(self).free_indices == old(self).free_indices,
            final(self).current_tick == old(self).current_tick,
            final(self).resources == old(self).resources,
            final(self).schema_registry == old(self).schema_registry,
            final(self).alive_count == old(self).alive_count,
            final(self).archetypes@.len() == old(self).archetypes@.len(),
            forall|x: int|
                0 <= x < old(self).archetypes@.len() ==> {
                    &&& (#[trigger] final(self).archetypes@[x]).signature@ == old(
                        self,
                    ).archetypes@[x].signature@
                    &&& final(self).archetypes@[x].entities@ == old(self).archetypes@[x].entities@
                },
            forall|e: Entity, k: ComponentId| #[trigger]
                final(self).comp(e, k) == if e == old(self).entity_at(l) && k.0 == old(
                    self,
                ).archetypes@[l.archetype as int].signature@[j as int] {
                    Some((value, tick))
                } else {
                    old(self).comp(e, k)
                },
    {
        let ghost w0 = *self;
        let x = l.archetype;
        let y = l.row;
        proof {
            assert(w0.archetypes@[x as int].wf());
        }
        self.archetypes[x].columns[j].values.set(y, value);
        self.archetypes[x].columns[j].changed_ticks.set(y, tick);
        proof {
            let sig = w0.archetypes@[x as int].signature@;
            lemma_pos_unique(sig, sig[j as int], j as int);
            w0.lemma_row_live(l);
            assert forall|a2: int|
                0 <= a2 < self.archetypes@.len() implies (#[trigger] self.archetypes@[a2]).wf() by {
                assert(w0.archetypes@[a2].wf());
            }
            assert forall|a2: int, b2: int|
                0 <= a2 < self.archetypes@.len() && 0 <= b2 < self.archetypes@.len() && a2 != b2
                    implies #[trigger] self.archetypes@[a2].signature@
                    != #[trigger] self.archetypes@[b2].signature@ by {
                assert(w0.archetypes@[a2].signature@ != w0.archetypes@[b2].signature@);
            }
            assert forall|a2: int, r2: int|
                0 <= a2 < self.archetypes@.len() && 0 <= r2 < self.archetypes@[a2].entities@.len()
                    implies #[trigger] self.row_ok(a2, r2) by {
                assert(w0.row_ok(a2, r2));
            }
            assert forall|i: int| 0 <= i < self.slots@.len() implies #[trigger] self.slot_ok(i) by {
                assert(w0.slot_ok(i));
            }
            assert(self.slots_view() =~= w0.slots_view());
            assert forall|e: Entity, k: ComponentId| #[trigger]
                self.comp(e, k) == if e == w0.entity_at(l) && k.0 == sig[j as int] {
                    Some((value, tick))
                } else {
                    w0.comp(e, k)
                } by {
                if w0.is_live(e) {
                    w0.lemma_live_location(e);
                    let l2 = w0.location(e);
                    let x2 = l2.archetype as int;
                    let sig2 = w0.archetypes@[x2].signature@;
                    if has_kind(sig2, k.0) {
                        let jj = pos_in(sig2, k.0);
                        assert(w0.archetypes@[x2].columns@[jj].values@.len()
                            == w0.archetypes@[x2].entities@.len());
                        if l2 == l && jj != j as int {
                            assert(k.0 != sig[j as int]);
                        }
                        if l2 != l {
                            w0.lemma_rows_distinct(l, l2);
                        }
                    }
                }
            }
        }
    }

    /// Type-erased write: overwrites `entity`'s existing component of the
    /// runtime kind `kind`, stamping the current tick. Returns `false`
    /// and changes nothing if `entity` is not alive or has no such
    /// component; it never adds a component kind to an entity.
    pub fn set_erased(&mut self, entity: Entity, kind: ComponentId, value: V) -> (r: bool)
        requires
            old(self).wf(),
        ensures
            final(self)@ == old(self)@.set(entity, kind, value),
            final(self).wf(),
            r == old(self).comp(entity, kind) is Some,
            r ==> old(self).is_live(entity),
            !r ==> *final(self) == *old(self),
            final(self).slots_view() == old(self).slots_view(),
            final(self).free_view() == old(self).free_view(),
            final(self).live_count() == old(self).live_count(),
            final(self).tick() == old(self).tick(),
            final(self).resources_view() == old(self).resources_view(),
            final(self).schemas_view() == old(self).schemas_view(),
            forall|e2: Entity, k: ComponentId| #[trigger]
                final(self).comp(e2, k) == if r && e2 == entity && k == kind {
                    Some((value, old(self).tick()))
                } else {
                    old(self).comp(e2, k)
                },
    {
        let loc = match self.location_of(entity) {
            Some(l) => l,
            None => {
                return false;
            },
        };
        proof {
            assert(self.archetypes@[loc.archetype as int].wf());
        }
        match find_kind(&self.archetypes[loc.archetype].signature, kind.0) {
            Ok(j) => {
                let tick = self.current_tick;
                let ghost w0 = *self;
                self.set_cell(loc, j, value, tick);
                proof {
                    assert(self.slots_view() =~= w0.slots_view());
                }
                true
            },
            Err(_) => false,
        }
    }
}


impl<V> World<V> {
    /// The column position of a kind the archetype at `l` is known to have.
    fn column_of(&self, l: EntityLocation, k: u64) -> (j: usize)
        requires
            self.wf(),
            self.valid_loc(l),
            has_kind(self.archetypes@[l.archetype as int].signature@, k),
        ensures
            (j as int) < self.archetypes@[l.archetype as int].signature@.len(),
            j as int == pos_in(self.archetypes@[l.archetype as int].signature@, k),
            self.comp(self.entity_at(l), ComponentId(k)) == Some(
                (
                    self.archetypes@[l.archetype as int].columns@[j as int].values@[l.row as int],
                    self.archetypes@[l.archetype as int].columns@[j as int].changed_ticks@[l.row as int],
                ),
            ),
    {
        proof {
            assert(self.archetypes@[l.archetype as int].wf());
            self.lemma_row_live(l);
        }
        match find_kind(&self.archetypes[l.archetype].signature, k) {
            Ok(j) => j,
            Err(_) => {
                proof {
                    assert(false);
                }
                0
            },
        }
    }

    /// Every live entity that has both a component of kind `a` and one of
    /// kind `b`, each once, with references to both components: an
    /// intersection, never a union.
    pub fn query2(&self, a: ComponentId, b: ComponentId) -> (r: Vec<(Entity, &V, &V)>)
        requires
            self.wf(),
        ensures
            forall|i: int|
                0 <= i < r@.len() ==> {
                    &&& (#[trigger] self.comp(r@[i].0, a)) is Some
                    &&& self.is_live(r@[i].0)
                    &&& self.comp(r@[i].0, a).unwrap().0 == *r@[i].1
                    &&& self.comp(r@[i].0, b) is Some
                    &&& self.comp(r@[i].0, b).unwrap().0 == *r@[i].2
                },
            forall|i: int, j: int| 0 <= i < j < r@.len() ==> r@[i].0 != r@[j].0,
            forall|e: Entity|
                (#[trigger] self.comp(e, a)) is Some && self.comp(e, b) is Some ==> exists|i: int|
                    0 <= i < r@.len() && r@[i].0 == e,
    {
        let mut kinds: Vec<u64> = Vec::new();
        kinds.push(a.0);
        kinds.push(b.0);
        let locs = self.locations_with(&kinds);
        let mut out: Vec<(Entity, &V, &V)> = Vec::new();
        let mut i: usize = 0;
        while i < locs.len()
            invariant
                self.wf(),
                i <= locs@.len(),
                kinds@ == seq![a.0, b.0],
                forall|ii: int|
                    0 <= ii < locs@.len() ==> self.valid_loc(#[trigger] locs@[ii]) && has_all(
                        self.archetypes@[locs@[ii].archetype as int].signature@,
                        kinds@,
                    ),
                out@.len() == i,
                forall|t: int| 0 <= t < i ==> #[trigger] out@[t].0 == self.entity_at(locs@[t]),
                forall|t: int|
                    0 <= t < i ==> {
                        &&& (#[trigger] self.comp(out@[t].0, a)) is Some
                        &&& self.comp(out@[t].0, a).unwrap().0 == *out@[t].1
                        &&& self.comp(out@[t].0, b) is Some
                        &&& self.comp(out@[t].0, b).unwrap().0 == *out@[t].2
                    },
            decreases locs@.len() - i,
        {
            let l = locs[i];
            proof {
                assert(has_kind(self.archetypes@[l.archetype as int].signature@, kinds@[0]));
                assert(has_kind(self.archetypes@[l.archetype as int].signature@, kinds@[1]));
            }
            let ja = self.column_of(l, a.0);
            let jb = self.column_of(l, b.0);
            let e = self.archetypes[l.archetype].entities[l.row];
            out.push(
                (
                    e,
                    &self.archetypes[l.archetype].columns[ja].values[l.row],
                    &self.archetypes[l.archetype].columns[jb].values[l.row],
                ),
            );
            i = i + 1;
        }
        proof {
            assert forall|t: int, u: int| 0 <= t < u < out@.len() implies out@[t].0 != out@[u].0 by {
                assert(loc_lt(locs@[t], locs@[u]));
                self.lemma_rows_distinct(locs@[t], locs@[u]);
            }
            assert forall|e: Entity|
                (#[trigger] self.comp(e, a)) is Some && self.comp(e, b) is Some implies exists|t: int|
                    0 <= t < out@.len() && out@[t].0 == e by {
                self.lemma_live_location(e);
                let l = self.location(e);
                assert(has_all(self.archetypes@[l.archetype as int].signature@, kinds@));
                let t = choose|t: int| 0 <= t < locs@.len() && #[trigger] locs@[t] == l;
                assert(out@[t].0 == e);
            }
        }
        out
    }

    /// Like `query2`, for three kinds at once: the live entities with
    /// components of kinds `a`, `b`, and `c`.
    pub fn query3(&self, a: ComponentId, b: ComponentId, c: ComponentId) -> (r: Vec<(Entity, &V, &V, &V)>)
        requires
            self.wf(),
        ensures
            forall|i: int|
                0 <= i < r@.len() ==> {
                    &&& (#[trigger] self.comp(r@[i].0, a)) is Some
                    &&& self.is_live(r@[i].0)
                    &&& self.comp(r@[i].0, a).unwrap().0 == *r@[i].1
                    &&& self.comp(r@[i].0, b) is Some
                    &&& self.comp(r@[i].0, b).unwrap().0 == *r@[i].2
                    &&& self.comp(r@[i].0, c) is Some
                    &&& self.comp(r@[i].0, c).unwrap().0 == *r@[i].3
                },
            forall|i: int, j: int| 0 <= i < j < r@.len() ==> r@[i].0 != r@[j].0,
            forall|e: Entity|
                (#[trigger] self.comp(e, a)) is Some && self.comp(e, b) is Some && self.comp(e, c) is Some
                    ==> exists|i: int| 0 <= i < r@.len() && r@[i].0 == e,
    {
        let mut kinds: Vec<u64> = Vec::new();
        kinds.push(a.0);
        kinds.push(b.0);
        kinds.push(c.0);
        let locs = self.locations_with(&kinds);
        let mut out: Vec<(Entity, &V, &V, &V)> = Vec::new();
        let mut i: usize = 0;
        while i < locs.len()
            invariant
                self.wf(),
                i <= locs@.len(),
                kinds@ == seq![a.0, b.0, c.0],
                forall|ii: int|
                    0 <= ii < locs@.len() ==> self.valid_loc(#[trigger] locs@[ii]) && has_all(
                        self.archetypes@[locs@[ii].archetype as int].signature@,
                        kinds@,
                    ),
                out@.len() == i,
                forall|t: int| 0 <= t < i ==> #[trigger] out@[t].0 == self.entity_at(locs@[t]),
                forall|t: int|
                    0 <= t < i ==> {
                        &&& (#[trigger] self.comp(out@[t].0, a)) is Some
                        &&& self.comp(out@[t].0, a).unwrap().0 == *out@[t].1
                        &&& self.comp(out@[t].0, b) is Some
                        &&& self.comp(out@[t].0, b).unwrap().0 == *out@[t].2
                        &&& self.comp(out@[t].0, c) is Some
                        &&& self.comp(out@[t].0, c).unwrap().0 == *out@[t].3
                    },
            decreases locs@.len() - i,
        {
            let l = locs[i];
            proof {
                assert(has_kind(self.archetypes@[l.archetype as int].signature@, kinds@[0]));
                assert(has_kind(self.archetypes@[l.archetype as int].signature@, kinds@[1]));
                assert(has_kind(self.archetypes@[l.archetype as int].signature@, kinds@[2]));
            }
            let ja = self.column_of(l, a.0);
            let jb = self.column_of(l, b.0);
            let jc = self.column_of(l, c.0);
            let e = self.archetypes[l.archetype].entities[l.row];
            out.push(
                (
                    e,
                    &self.archetypes[l.archetype].columns[ja].values[l.row],
                    &self.archetypes[l.archetype].columns[jb].values[l.row],
                    &self.archetypes[l.archetype].columns[jc].values[l.row],
                ),
            );
            i = i + 1;
        }
        proof {
            assert forall|t: int, u: int| 0 <= t < u < out@.len() implies out@[t].0 != out@[u].0 by {
                assert(loc_lt(locs@[t], locs@[u]));
                self.lemma_rows_distinct(locs@[t], locs@[u]);
            }
            assert forall|e: Entity|
                (#[trigger] self.comp(e, a)) is Some && self.comp(e, b) is Some && self.comp(e, c) is Some
                    implies exists|t: int| 0 <= t < out@.len() && out@[t].0 == e by {
                self.lemma_live_location(e);
                let l = self.location(e);
                assert(has_all(self.archetypes@[l.archetype as int].signature@, kinds@));
                let t = choose|t: int| 0 <= t < locs@.len() && #[trigger] locs@[t] == l;
                assert(out@[t].0 == e);
            }
        }
        out
    }
}


/// `e` was live in `w0` and its row is among the first `i` of `locs`.
spec fn visited<V>(w0: World<V>, locs: Seq<EntityLocation>, i: int, e: Entity) -> bool {
    w0.is_live(e) && exists|ii: int| 0 <= ii < i && #[trigger] locs[ii] == w0.location(e)
}

impl<V> World<V> {
    /// Rewrites, for every live entity that has components of both kinds
    /// `a` and `b`, its `a` component to `f(entity, &a_value, &b_value)`:
    /// the "update one component from another" shape (a position moved by
    /// a velocity). Every such `a` component is stamped with the current
    /// tick, whether or not `f` changed it; `b` components are untouched.
    /// `a` and `b` must be different kinds.
    pub fn query2_mut<F: Fn(Entity, &V, &V) -> V>(&mut self, a: ComponentId, b: ComponentId, f: F)
        requires
            old(self).wf(),
            a != b,
            forall|e: Entity, x: V, y: V| #[trigger] f.requires((e, &x, &y)),
        ensures
            final(self).wf(),
            final(self).slots_view() == old(self).slots_view(),
            final(self).free_view() == old(self).free_view(),
            final(self).live_count() == old(self).live_count(),
            final(self).tick() == old(self).tick(),
            final(self).resources_view() == old(self).resources_view(),
            final(self).schemas_view() == old(self).schemas_view(),
            forall|e: Entity, k: ComponentId|
                !(k == a && old(self).comp(e, a) is Some && old(self).comp(e, b) is Some)
                    ==> #[trigger] final(self).comp(e, k) == old(self).comp(e, k),
            forall|e: Entity|
                old(self).comp(e, a) is Some && old(self).comp(e, b) is Some ==> {
                    &&& (#[trigger] final(self).comp(e, a)) is Some
                    &&& old(self).is_live(e)
                    &&& final(self).comp(e, a).unwrap().1 == old(self).tick()
                    &&& f.ensures(
                        (e, &old(self).comp(e, a).unwrap().0, &old(self).comp(e, b).unwrap().0),
                        final(self).comp(e, a).unwrap().0,
                    )
                },
    {
        let ghost w0 = *self;
        let tick = self.current_tick;
        let mut kinds: Vec<u64> = Vec::new();
        kinds.push(a.0);
        kinds.push(b.0);
        let locs = self.locations_with(&kinds);
        let mut i: usize = 0;
        while i < locs.len()
            invariant
                w0.wf(),
                self.wf(),
                i <= locs@.len(),
                a != b,
                tick == w0.current_tick,
                forall|e: Entity, x: V, y: V| #[trigger] f.requires((e, &x, &y)),
                kinds@ == seq![a.0, b.0],
                forall|ii: int|
                    0 <= ii < locs@.len() ==> w0.valid_loc(#[trigger] locs@[ii]) && has_all(
                        w0.archetypes@[locs@[ii].archetype as int].signature@,
                        kinds@,
                    ),
                forall|ii: int, jj: int| 0 <= ii < jj < locs@.len() ==> loc_lt(locs@[ii], locs@[jj]),
                forall|l: EntityLocation|
                    w0.valid_loc(l) && has_all(w0.archetypes@[l.archetype as int].signature@, kinds@)
                        ==> exists|ii: int| 0 <= ii < locs@.len() && #[trigger] locs@[ii] == l,
                self.slots == w0.slots,
                self.free_indices == w0.free_indices,
                self.current_tick == w0.current_tick,
                self.resources == w0.resources,
                self.schema_registry == w0.schema_registry,
                self.alive_count == w0.alive_count,
                self.archetypes@.len() == w0.archetypes@.len(),
                forall|x: int|
                    0 <= x < w0.archetypes@.len() ==> {
                        &&& (#[trigger] self.archetypes@[x]).signature@ == w0.archetypes@[x].signature@
                        &&& self.archetypes@[x].entities@ == w0.archetypes@[x].entities@
                    },
                forall|e: Entity, k: ComponentId|
                    !(k == a && visited(w0, locs@, i as int, e)) ==> #[trigger] self.comp(e, k)
                        == w0.comp(e, k),
                forall|e: Entity|
                    visited(w0, locs@, i as int, e) ==> {
                        &&& (#[trigger] self.comp(e, a)) is Some
                        &&& self.comp(e, a).unwrap().1 == tick
                        &&& w0.comp(e, a) is Some
                        &&& w0.comp(e, b) is Some
                        &&& f.ensures(
                            (e, &w0.comp(e, a).unwrap().0, &w0.comp(e, b).unwrap().0),
                            self.comp(e, a).unwrap().0,
                        )
                    },
            decreases locs@.len() - i,
        {
            let l = locs[i];
            let ghost w1 = *self;
            proof {
                assert(has_kind(w0.archetypes@[l.archetype as int].signature@, kinds@[0]));
                assert(has_kind(w0.archetypes@[l.archetype as int].signature@, kinds@[1]));
                assert(self.valid_loc(l));
                w0.lemma_row_live(l);
                assert(self.entity_at(l) == w0.entity_at(l));
                assert(!visited(w0, locs@, i as int, w0.entity_at(l))) by {
                    if visited(w0, locs@, i as int, w0.entity_at(l)) {
                        let ii = choose|ii: int|
                            0 <= ii < i && #[trigger] locs@[ii] == w0.location(w0.entity_at(l));
                        assert(loc_lt(locs@[ii], locs@[i as int]));
                    }
                }
            }
            let ja = self.column_of(l, a.0);
            let jb = self.column_of(l, b.0);
            let e = self.archetypes[l.archetype].entities[l.row];
            let nv = f(e, &self.archetypes[l.archetype].columns[ja].values[l.row], &self.archetypes[l.archetype].columns[jb].values[l.row]);
            self.set_cell(l, ja, nv, tick);
            proof {
                assert(w1.archetypes@[l.archetype as int].signature@[ja as int] == a.0);
                assert forall|e2: Entity, k: ComponentId|
                    !(k == a && visited(w0, locs@, i + 1, e2)) implies #[trigger] self.comp(e2, k)
                        == w0.comp(e2, k) by {
                    if e2 == e && k.0 == a.0 {
                        assert(locs@[i as int] == w0.location(e2));
                        assert(visited(w0, locs@, i + 1, e2));
                    }
                    if !(k == a && visited(w0, locs@, i as int, e2)) {
                    } else {
                        let ii = choose|ii: int| 0 <= ii < i && #[trigger] locs@[ii] == w0.location(e2);
                        assert(locs@[ii] == w0.location(e2));
                    }
                }
                assert forall|e2: Entity|
                    visited(w0, locs@, i + 1, e2) implies {
                        &&& (#[trigger] self.comp(e2, a)) is Some
                        &&& self.comp(e2, a).unwrap().1 == tick
                        &&& w0.comp(e2, a) is Some
                        &&& w0.comp(e2, b) is Some
                        &&& f.ensures(
                            (e2, &w0.comp(e2, a).unwrap().0, &w0.comp(e2, b).unwrap().0),
                            self.comp(e2, a).unwrap().0,
                        )
                    } by {
                    if e2 == e {
                        assert(w1.comp(e2, a) == w0.comp(e2, a));
                        assert(w1.comp(e2, b) == w0.comp(e2, b));
                    } else {
                        let ii = choose|ii: int| 0 <= ii < i + 1 && #[trigger] locs@[ii] == w0.location(e2);
                        if ii == i as int {
                            w0.lemma_live_location(e2);
                            assert(w0.entity_at(locs@[ii]) == e2);
                        }
                        assert(visited(w0, locs@, i as int, e2));
                    }
                }
            }
            i = i + 1;
        }
        proof {
            assert(self.slots_view() =~= w0.slots_view());
            assert forall|e: Entity|
                w0.comp(e, a) is Some && w0.comp(e, b) is Some implies visited(w0, locs@, locs@.len() as int, e) by {
                w0.lemma_live_location(e);
                let l = w0.location(e);
                assert(has_all(w0.archetypes@[l.archetype as int].signature@, kinds@));
                let ii = choose|ii: int| 0 <= ii < locs@.len() && #[trigger] locs@[ii] == l;
            }
            assert forall|e: Entity| visited(w0, locs@, locs@.len() as int, e) implies w0.comp(e, a) is Some && w0.comp(e, b) is Some by {
            }
        }
    }
}


spec fn res_has<V>(s: Seq<ResourceEntry<V>>, k: u64) -> bool {
    exists|i: int| 0 <= i < s.len() && (#[trigger] s[i]).kind == k
}

spec fn res_index<V>(s: Seq<ResourceEntry<V>>, k: u64) -> int {
    choose|i: int| 0 <= i < s.len() && (#[trigger] s[i]).kind == k
}

spec fn res_distinct<V>(s: Seq<ResourceEntry<V>>) -> bool {
    forall|i: int, j: int| 0 <= i < j < s.len() ==> #[trigger] s[i].kind != #[trigger] s[j].kind
}

spec fn res_map<V>(s: Seq<ResourceEntry<V>>) -> Map<ComponentId, (V, Tick)> {
    Map::new(
        |k: ComponentId| res_has(s, k.0),
        |k: ComponentId| (s[res_index(s, k.0)].value, s[res_index(s, k.0)].changed_tick),
    )
}

proof fn lemma_res_index<V>(s: Seq<ResourceEntry<V>>, k: u64, i: int)
    requires
        res_distinct(s),
        0 <= i < s.len(),
        s[i].kind == k,
    ensures
        res_has(s, k),
        res_index(s, k) == i,
{
    assert(res_has(s, k));
    let j = res_index(s, k);
    if j < i {
        assert(s[j].kind != s[i].kind);
    } else if j > i {
        assert(s[i].kind != s[j].kind);
    }
}

/// Whether the bytes of two strings are equal.
fn same_bytes(a: &[u8], b: &[u8]) -> (r: bool)
    ensures
        r == (a@ == b@),
{
    if a.len() != b.len() {
        return false;
    }
    let mut j: usize = 0;
    while j < a.len()
        invariant
            j <= a@.len(),
            a@.len() == b@.len(),
            forall|jj: int| 0 <= jj < j ==> a@[jj] == b@[jj],
        decreases a@.len() - j,
    {
        if a[j] != b[j] {
            return false;
        }
        j = j + 1;
    }
    proof {
        assert(a@ =~= b@);
    }
    true
}

spec fn schema_has(s: Seq<SchemaEntry>, id: Seq<u8>) -> bool {
    exists|i: int| 0 <= i < s.len() && (#[trigger] s[i]).schema_id.spec_bytes() == id
}

spec fn schema_index(s: Seq<SchemaEntry>, id: Seq<u8>) -> int {
    choose|i: int| 0 <= i < s.len() && (#[trigger] s[i]).schema_id.spec_bytes() == id
}

spec fn schema_distinct(s: Seq<SchemaEntry>) -> bool {
    forall|i: int, j: int|
        0 <= i < j < s.len() ==> #[trigger] s[i].schema_id.spec_bytes() != #[trigger] s[j].schema_id.spec_bytes()
}

proof fn lemma_schema_index(s: Seq<SchemaEntry>, id: Seq<u8>, i: int)
    requires
        schema_distinct(s),
        0 <= i < s.len(),
        s[i].schema_id.spec_bytes() == id,
    ensures
        schema_has(s, id),
        schema_index(s, id) == i,
{
    assert(schema_has(s, id));
    let j = schema_index(s, id);
    if j < i {
        assert(s[j].schema_id.spec_bytes() != s[i].schema_id.spec_bytes());
    } else if j > i {
        assert(s[i].schema_id.spec_bytes() != s[j].schema_id.spec_bytes());
    }
}

impl<V> World<V> {
    /// Every inserted resource, by kind, with the tick it was last written
    /// at.
    pub closed spec fn resources_view(&self) -> Map<ComponentId, (V, Tick)> {
        res_map(self.resources@)
    }

    /// Every registered stable schema identity (by its UTF-8 bytes) and
    /// the component kind it names.
    pub closed spec fn schemas_view(&self) -> Map<Seq<u8>, ComponentId> {
        Map::new(
            |id: Seq<u8>| schema_has(self.schema_registry@, id),
            |id: Seq<u8>| ComponentId(self.schema_registry@[schema_index(self.schema_registry@, id)].kind),
        )
    }

    spec fn wf_globals(&self) -> bool {
        &&& res_distinct(self.resources@)
        &&& schema_distinct(self.schema_registry@)
    }

    /// Position of the resource of kind `k`, if one is stored.
    fn find_resource(&self, k: u64) -> (r: Option<usize>)
        requires
            self.wf_globals(),
        ensures
            r is Some == res_has(self.resources@, k),
            r matches Some(i) ==> i < self.resources@.len() && res_index(self.resources@, k) == i
                && self.resources@[i as int].kind == k,
    {
        let mut i: usize = 0;
        while i < self.resources.len()
            invariant
                i <= self.resources@.len(),
                res_distinct(self.resources@),
                forall|j: int| 0 <= j < i ==> (#[trigger] self.resources@[j]).kind != k,
            decreases self.resources@.len() - i,
        {
            if self.resources[i].kind == k {
                proof {
                    lemma_res_index(self.resources@, k, i as int);
                }
                return Some(i);
            }
            i = i + 1;
        }
        None
    }

    /// The tick that the next write will be stamped with. Callers doing
    /// change detection capture this, let some work happen across one or
    /// more `advance_tick` calls, and later pass it to
    /// `query_changed_since` or `resource_changed_since`.
    pub fn change_tick(&self) -> (t: Tick)
        ensures
            t == self.tick(),
    {
        self.current_tick
    }

    /// Advances the world's tick by one. Nothing advances it
    /// automatically: callers pick the granularity (once per frame, once
    /// per system).
    pub fn advance_tick(&mut self)
        requires
            old(self).wf(),
        ensures
            final(self)@ == old(self)@.advance(),
            final(self).wf(),
            final(self).tick() == old(self).tick().spec_next(),
            final(self).slots_view() == old(self).slots_view(),
            final(self).free_view() == old(self).free_view(),
            final(self).live_count() == old(self).live_count(),
            final(self).resources_view() == old(self).resources_view(),
            final(self).schemas_view() == old(self).schemas_view(),
            forall|e: Entity, k: ComponentId| #[trigger] final(self).comp(e, k) == old(self).comp(e, k),
    {
        let ghost w0 = *self;
        self.current_tick.increment();
        proof {
            Self::lemma_same_storage(w0, *self);
        }
    }

    /// Changing only the tick, the resources, or the schema registry
    /// leaves entity storage (and its invariant) alone.
    proof fn lemma_same_storage(w0: Self, w1: Self)
        requires
            w0.wf(),
            w1.slots == w0.slots,
            w1.free_indices == w0.free_indices,
            w1.archetypes == w0.archetypes,
            w1.empty_archetype == w0.empty_archetype,
            w1.alive_count == w0.alive_count,
            w1.wf_globals(),
        ensures
            w1.wf(),
            w1.slots_view() == w0.slots_view(),
            forall|e: Entity, k: ComponentId| #[trigger] w1.comp(e, k) == w0.comp(e, k),
    {
        assert forall|a2: int, r2: int|
            0 <= a2 < w1.archetypes@.len() && 0 <= r2 < w1.archetypes@[a2].entities@.len()
                implies #[trigger] w1.row_ok(a2, r2) by {
            assert(w0.row_ok(a2, r2));
        }
        assert forall|i: int| 0 <= i < w1.slots@.len() implies #[trigger] w1.slot_ok(i) by {
            assert(w0.slot_ok(i));
        }
    }
}


impl<V> World<V> {
    /// Inserts (or replaces) the resource of kind `kind`, stamping the
    /// current tick. A resource is global to the world: at most one value
    /// per kind, attached to no entity.
    pub fn insert_resource(&mut self, kind: ComponentId, resource: V)
        requires
            old(self).wf(),
        ensures
            final(self)@ == old(self)@.insert_resource(kind, resource),
            final(self).wf(),
            final(self).resources_view() == old(self).resources_view().insert(
                kind,
                (resource, old(self).tick()),
            ),
            final(self).schemas_view() == old(self).schemas_view(),
            final(self).tick() == old(self).tick(),
            final(self).slots_view() == old(self).slots_view(),
            final(self).free_view() == old(self).free_view(),
            final(self).live_count() == old(self).live_count(),
            forall|e: Entity, k: ComponentId| #[trigger] final(self).comp(e, k) == old(self).comp(e, k),
    {
        let ghost w0 = *self;
        let tick = self.current_tick;
        match self.find_resource(kind.0) {
            Some(i) => {
                self.resources.set(i, ResourceEntry { kind: kind.0, value: resource, changed_tick: tick });
                proof {
                    let s0 = w0.resources@;
                    let s1 = self.resources@;
                    assert forall|x: int, y: int| 0 <= x < y < s1.len() implies #[trigger] s1[x].kind
                        != #[trigger] s1[y].kind by {
                        assert(s0[x].kind != s0[y].kind);
                    }
                    assert forall|k: ComponentId| #[trigger] res_has(s1, k.0) == res_has(s0, k.0) by {
                        if res_has(s0, k.0) {
                            let j = res_index(s0, k.0);
                            assert(s1[j].kind == k.0);
                        }
                        if res_has(s1, k.0) {
                            let j = res_index(s1, k.0);
                            assert(s0[j].kind == k.0);
                        }
                    }
                    assert forall|k: ComponentId| res_has(s1, k.0) && k != kind implies #[trigger] res_index(
                        s1,
                        k.0,
                    ) == res_index(s0, k.0) by {
                        let j = res_index(s0, k.0);
                        lemma_res_index(s1, k.0, j);
                    }
                    lemma_res_index(s1, kind.0, i as int);
                    assert(res_map(s1) =~= res_map(s0).insert(kind, (resource, tick)));
                }
            },
            None => {
                self.resources.push(ResourceEntry { kind: kind.0, value: resource, changed_tick: tick });
                proof {
                    let s0 = w0.resources@;
                    let s1 = self.resources@;
                    assert forall|x: int, y: int| 0 <= x < y < s1.len() implies #[trigger] s1[x].kind
                        != #[trigger] s1[y].kind by {
                        if y == s0.len() {
                            assert(!res_has(s0, kind.0));
                            assert(s0[x].kind != kind.0);
                        } else {
                            assert(s0[x].kind != s0[y].kind);
                        }
                    }
                    assert forall|k: ComponentId| k != kind implies #[trigger] res_has(s1, k.0) == res_has(
                        s0,
                        k.0,
                    ) by {
                        if res_has(s0, k.0) {
                            let j = res_index(s0, k.0);
                            assert(s1[j].kind == k.0);
                        }
                        if res_has(s1, k.0) {
                            let j = res_index(s1, k.0);
                            assert(s0[j].kind == k.0);
                        }
                    }
                    assert forall|k: ComponentId| res_has(s1, k.0) && k != kind implies #[trigger] res_index(
                        s1,
                        k.0,
                    ) == res_index(s0, k.0) by {
                        let j = res_index(s0, k.0);
                        lemma_res_index(s1, k.0, j);
                    }
                    lemma_res_index(s1, kind.0, s0.len() as int);
                    assert(res_map(s1) =~= res_map(s0).insert(kind, (resource, tick)));
                }
            },
        }
        proof {
            Self::lemma_same_storage(w0, *self);
        }
    }

    /// A reference to the resource of kind `kind`, if one is stored.
    pub fn resource(&self, kind: ComponentId) -> (r: Option<&V>)
        requires
            self.wf(),
        ensures
            r is Some == self.resources_view().contains_key(kind),
            r matches Some(v) ==> *v == self.resources_view()[kind].0,
    {
        match self.find_resource(kind.0) {
            Some(i) => Some(&self.resources[i].value),
            None => None,
        }
    }

    /// Whether a resource of kind `kind` is stored.
    pub fn contains_resource(&self, kind: ComponentId) -> (r: bool)
        requires
            self.wf(),
        ensures
            r == self.resources_view().contains_key(kind),
    {
        self.find_resource(kind.0).is_some()
    }

    /// Whether the resource of kind `kind` was written (by
    /// `insert_resource` or `resource_mut`) at a tick strictly later than
    /// `since`; `false` when no such resource is stored.
    pub fn resource_changed_since(&self, kind: ComponentId, since: Tick) -> (r: bool)
        requires
            self.wf(),
        ensures
            r == (self.resources_view().contains_key(kind) && self.resources_view()[kind].1.value()
                > since.value()),
    {
        match self.find_resource(kind.0) {
            Some(i) => self.resources[i].changed_tick.is_after(since),
            None => false,
        }
    }

    /// Removes and returns the resource of kind `kind`, if one is stored.
    pub fn remove_resource(&mut self, kind: ComponentId) -> (r: Option<V>)
        requires
            old(self).wf(),
        ensures
            final(self)@ == old(self)@.remove_resource(kind),
            final(self).wf(),
            r is Some == old(self).resources_view().contains_key(kind),
            r matches Some(v) ==> v == old(self).resources_view()[kind].0,
            final(self).resources_view() == old(self).resources_view().remove(kind),
            final(self).schemas_view() == old(self).schemas_view(),
            final(self).tick() == old(self).tick(),
            final(self).slots_view() == old(self).slots_view(),
            final(self).free_view() == old(self).free_view(),
            final(self).live_count() == old(self).live_count(),
            forall|e: Entity, k: ComponentId| #[trigger] final(self).comp(e, k) == old(self).comp(e, k),
    {
        let ghost w0 = *self;
        match self.find_resource(kind.0) {
            Some(i) => {
                let entry = self.resources.remove(i);
                proof {
                    let s0 = w0.resources@;
                    let s1 = self.resources@;
                    assert forall|x: int, y: int| 0 <= x < y < s1.len() implies #[trigger] s1[x].kind
                        != #[trigger] s1[y].kind by {
                        let x0 = if x < i { x } else { x + 1 };
                        let y0 = if y < i { y } else { y + 1 };
                        assert(s0[x0].kind != s0[y0].kind);
                    }
                    assert forall|k: ComponentId| k != kind implies #[trigger] res_has(s1, k.0) == res_has(
                        s0,
                        k.0,
                    ) by {
                        if res_has(s0, k.0) {
                            let j = res_index(s0, k.0);
                            if j < i {
                                assert(s1[j].kind == k.0);
                            } else {
                                assert(j != i);
                                assert(s1[j - 1].kind == k.0);
                            }
                        }
                        if res_has(s1, k.0) {
                            let j = res_index(s1, k.0);
                            if j < i {
                                assert(s0[j].kind == k.0);
                            } else {
                                assert(s0[j + 1].kind == k.0);
                            }
                        }
                    }
                    assert(!res_has(s1, kind.0)) by {
                        if res_has(s1, kind.0) {
                            let j = res_index(s1, kind.0);
                            if j < i {
                                assert(s0[j].kind != s0[i as int].kind);
                            } else {
                                assert(s0[i as int].kind != s0[j + 1].kind);
                            }
                        }
                    }
                    assert forall|k: ComponentId| res_has(s1, k.0) && k != kind implies #[trigger] s1[res_index(
                        s1,
                        k.0,
                    )] == s0[res_index(s0, k.0)] by {
                        let j = res_index(s0, k.0);
                        if j < i {
                            lemma_res_index(s1, k.0, j);
                        } else {
                            assert(j != i);
                            lemma_res_index(s1, k.0, j - 1);
                        }
                    }
                    assert(res_map(s1) =~= res_map(s0).remove(kind));
                    Self::lemma_same_storage(w0, *self);
                }
                Some(entry.value)
            },
            None => {
                proof {
                    assert(res_map(w0.resources@) =~= res_map(w0.resources@).remove(kind));
                }
                None
            },
        }
    }

    /// Registers the stable schema identity `schema_id` for the component
    /// kind `kind`, so `type_id_for_schema` can resolve it later.
    /// Idempotent for the same kind; returns
    /// `EcsError::DuplicateSchemaId`, changing nothing, when the schema is
    /// already registered to a different kind.
    pub fn register_component(&mut self, schema_id: &'static str, kind: ComponentId) -> (r: Result<
        (),
        EcsError,
    >)
        requires
            old(self).wf(),
        ensures
            r is Ok == old(self)@.register(schema_id.spec_bytes(), kind) is Some,
            r is Ok ==> final(self)@ == old(self)@.register(schema_id.spec_bytes(), kind).unwrap(),
            final(self).wf(),
            old(self).schemas_view().contains_key(schema_id.spec_bytes()) ==> {
                &&& *final(self) == *old(self)
                &&& r == if old(self).schemas_view()[schema_id.spec_bytes()] == kind {
                    Ok::<(), EcsError>(())
                } else {
                    Err::<(), EcsError>(EcsError::DuplicateSchemaId(schema_id))
                }
            },
            !old(self).schemas_view().contains_key(schema_id.spec_bytes()) ==> {
                &&& r == Ok::<(), EcsError>(())
                &&& final(self).schemas_view() == old(self).schemas_view().insert(
                    schema_id.spec_bytes(),
                    kind,
                )
            },
            final(self).resources_view() == old(self).resources_view(),
            final(self).tick() == old(self).tick(),
            final(self).slots_view() == old(self).slots_view(),
            final(self).free_view() == old(self).free_view(),
            final(self).live_count() == old(self).live_count(),
            forall|e: Entity, k: ComponentId| #[trigger] final(self).comp(e, k) == old(self).comp(e, k),
    {
        let ghost w0 = *self;
        match self.find_schema(schema_id) {
            Some(i) => {
                if self.schema_registry[i].kind == kind.0 {
                    Ok(())
                } else {
                    Err(EcsError::DuplicateSchemaId(schema_id))
                }
            },
            None => {
                self.schema_registry.push(SchemaEntry { schema_id, kind: kind.0 });
                proof {
                    let s0 = w0.schema_registry@;
                    let s1 = self.schema_registry@;
                    let id = schema_id.spec_bytes();
                    assert forall|x: int, y: int| 0 <= x < y < s1.len() implies #[trigger] s1[x].schema_id.spec_bytes()
                        != #[trigger] s1[y].schema_id.spec_bytes() by {
                        if y == s0.len() {
                            assert(s0[x].schema_id.spec_bytes() != id);
                        } else {
                            assert(s0[x].schema_id.spec_bytes() != s0[y].schema_id.spec_bytes());
                        }
                    }
                    assert forall|q: Seq<u8>| q != id implies #[trigger] schema_has(s1, q) == schema_has(s0, q) by {
                        if schema_has(s0, q) {
                            let j = schema_index(s0, q);
                            assert(s1[j].schema_id.spec_bytes() == q);
                        }
                        if schema_has(s1, q) {
                            let j = schema_index(s1, q);
                            assert(s0[j].schema_id.spec_bytes() == q);
                        }
                    }
                    assert forall|q: Seq<u8>| schema_has(s1, q) && q != id implies #[trigger] schema_index(
                        s1,
                        q,
                    ) == schema_index(s0, q) by {
                        let j = schema_index(s0, q);
                        lemma_schema_index(s1, q, j);
                    }
                    lemma_schema_index(s1, id, s0.len() as int);
                    assert(self.schemas_view() =~= w0.schemas_view().insert(id, kind));
                    Self::lemma_same_storage(w0, *self);
                }
                Ok(())
            },
        }
    }

    /// Position of the registered schema whose bytes equal `schema_id`'s.
    fn find_schema(&self, schema_id: &str) -> (r: Option<usize>)
        requires
            self.wf_globals(),
        ensures
            r is Some == schema_has(self.schema_registry@, schema_id.spec_bytes()),
            r matches Some(i) ==> i < self.schema_registry@.len() && schema_index(
                self.schema_registry@,
                schema_id.spec_bytes(),
            ) == i,
    {
        let wanted = schema_id.as_bytes();
        let mut i: usize = 0;
        while i < self.schema_registry.len()
            invariant
                i <= self.schema_registry@.len(),
                schema_distinct(self.schema_registry@),
                wanted@ == schema_id.spec_bytes(),
                forall|j: int|
                    0 <= j < i ==> (#[trigger] self.schema_registry@[j]).schema_id.spec_bytes()
                        != schema_id.spec_bytes(),
            decreases self.schema_registry@.len() - i,
        {
            let candidate = self.schema_registry[i].schema_id.as_bytes();
            if same_bytes(candidate, wanted) {
                proof {
                    lemma_schema_index(self.schema_registry@, schema_id.spec_bytes(), i as int);
                }
                return Some(i);
            }
            i = i + 1;
        }
        None
    }

    /// Resolves a stable schema identity back to the component kind it was
    /// registered for, if any.
    pub fn type_id_for_schema(&self, schema_id: &str) -> (r: Option<ComponentId>)
        requires
            self.wf(),
        ensures
            r == if self.schemas_view().contains_key(schema_id.spec_bytes()) {
                Some(self.schemas_view()[schema_id.spec_bytes()])
            } else {
                None
            },
    {
        match self.find_schema(schema_id) {
            Some(i) => Some(ComponentId(self.schema_registry[i].kind)),
            None => None,
        }
    }
}


impl<V> World<V> {
    /// `w2` is `w0` with at most the value and tick of one cell (row
    /// `l.row` of column `j` in archetype `l.archetype`) changed.
    spec fn cell_changed(w0: Self, w2: Self, l: EntityLocation, j: int) -> bool {
        let a = l.archetype as int;
        let r = l.row as int;
        &&& w2.slots == w0.slots
        &&& w2.free_indices == w0.free_indices
        &&& w2.current_tick == w0.current_tick
        &&& w2.resources == w0.resources
        &&& w2.schema_registry == w0.schema_registry
        &&& w2.alive_count == w0.alive_count
        &&& w2.empty_archetype == w0.empty_archetype
        &&& w2.archetypes@.len() == w0.archetypes@.len()
        &&& forall|x: int|
            0 <= x < w0.archetypes@.len() && x != a ==> #[trigger] w2.archetypes@[x] == w0.archetypes@[x]
        &&& w2.archetypes@[a].signature == w0.archetypes@[a].signature
        &&& w2.archetypes@[a].entities == w0.archetypes@[a].entities
        &&& w2.archetypes@[a].columns@.len() == w0.archetypes@[a].columns@.len()
        &&& forall|jj: int|
            0 <= jj < w0.archetypes@[a].columns@.len() && jj != j ==> #[trigger] w2.archetypes@[a].columns@[jj]
                == w0.archetypes@[a].columns@[jj]
        &&& w2.archetypes@[a].columns@[j].values@ == w0.archetypes@[a].columns@[j].values@.update(
            r,
            w2.archetypes@[a].columns@[j].values@[r],
        )
        &&& w2.archetypes@[a].columns@[j].changed_ticks@ == w0.archetypes@[a].columns@[j].changed_ticks@.update(
            r,
            w2.archetypes@[a].columns@[j].changed_ticks@[r],
        )
    }

    proof fn lemma_cell_changed(w0: Self, w2: Self, l: EntityLocation, j: int)
        requires
            w0.wf(),
            w0.valid_loc(l),
            0 <= j < w0.archetypes@[l.archetype as int].signature@.len(),
            Self::cell_changed(w0, w2, l, j),
        ensures
            w2.wf(),
            w2.slots_view() == w0.slots_view(),
            w2.resources_view() == w0.resources_view(),
            w2.schemas_view() == w0.schemas_view(),
            forall|e: Entity, k: ComponentId| #[trigger]
                w2.comp(e, k) == if e == w0.entity_at(l) && k.0 == w0.archetypes@[l.archetype as int].signature@[j] {
                    Some(
                        (
                            w2.archetypes@[l.archetype as int].columns@[j].values@[l.row as int],
                            w2.archetypes@[l.archetype as int].columns@[j].changed_ticks@[l.row as int],
                        ),
                    )
                } else {
                    w0.comp(e, k)
                },
    {
        let x = l.archetype as int;
        let sig = w0.archetypes@[x].signature@;
        assert(w0.archetypes@[x].wf());
        lemma_pos_unique(sig, sig[j], j);
        w0.lemma_row_live(l);
        assert forall|a2: int|
            0 <= a2 < w2.archetypes@.len() implies (#[trigger] w2.archetypes@[a2]).wf() by {
            assert(w0.archetypes@[a2].wf());
            if a2 == x {
                assert forall|jj: int| 0 <= jj < w2.archetypes@[a2].columns@.len() implies {
                    &&& (#[trigger] w2.archetypes@[a2].columns@[jj]).values@.len() == w2.archetypes@[a2].entities@.len()
                    &&& w2.archetypes@[a2].columns@[jj].changed_ticks@.len() == w2.archetypes@[a2].entities@.len()
                } by {
                    assert(w0.archetypes@[a2].columns@[jj].values@.len() == w0.archetypes@[a2].entities@.len());
                }
            }
        }
        assert forall|a2: int, b2: int|
            0 <= a2 < w2.archetypes@.len() && 0 <= b2 < w2.archetypes@.len() && a2 != b2
                implies #[trigger] w2.archetypes@[a2].signature@
                != #[trigger] w2.archetypes@[b2].signature@ by {
            assert(w0.archetypes@[a2].signature@ != w0.archetypes@[b2].signature@);
        }
        assert forall|a2: int, r2: int|
            0 <= a2 < w2.archetypes@.len() && 0 <= r2 < w2.archetypes@[a2].entities@.len()
                implies #[trigger] w2.row_ok(a2, r2) by {
            assert(w0.row_ok(a2, r2));
        }
        assert forall|i: int| 0 <= i < w2.slots@.len() implies #[trigger] w2.slot_ok(i) by {
            assert(w0.slot_ok(i));
        }
        assert(w2.slots_view() =~= w0.slots_view());
        assert forall|e: Entity, k: ComponentId| #[trigger]
            w2.comp(e, k) == if e == w0.entity_at(l) && k.0 == sig[j] {
                Some(
                    (
                        w2.archetypes@[x].columns@[j].values@[l.row as int],
                        w2.archetypes@[x].columns@[j].changed_ticks@[l.row as int],
                    ),
                )
            } else {
                w0.comp(e, k)
            } by {
            if w0.is_live(e) {
                w0.lemma_live_location(e);
                let l2 = w0.location(e);
                let x2 = l2.archetype as int;
                let sig2 = w0.archetypes@[x2].signature@;
                if has_kind(sig2, k.0) {
                    let jj = pos_in(sig2, k.0);
                    assert(w0.archetypes@[x2].columns@[jj].values@.len() == w0.archetypes@[x2].entities@.len());
                    if l2 == l && jj != j {
                        assert(k.0 != sig[j]);
                    }
                    if l2 != l {
                        w0.lemma_rows_distinct(l, l2);
                    }
                }
            }
        }
    }

    /// A mutable reference to `entity`'s component of kind `kind`, if it is
    /// alive and has one. The component is stamped with the current tick
    /// unconditionally: a caller handed `&mut` is assumed to write
    /// through it.
    pub fn get_mut(&mut self, entity: Entity, kind: ComponentId) -> (r: Option<&mut V>)
        requires
            old(self).wf(),
        ensures
            r is Some == old(self).comp(entity, kind) is Some,
            r is Some ==> old(self).is_live(entity),
            r is None ==> *final(self) == *old(self),
            r is Some ==> {
                &&& *r.unwrap() == old(self).comp(entity, kind).unwrap().0
                &&& final(self).wf()
                &&& final(self).comp(entity, kind) == Some((*final(r.unwrap()), old(self).tick()))
                &&& forall|e2: Entity, k: ComponentId|
                    !(e2 == entity && k == kind) ==> #[trigger] final(self).comp(e2, k) == old(self).comp(
                        e2,
                        k,
                    )
                &&& final(self).slots_view() == old(self).slots_view()
                &&& final(self).free_view() == old(self).free_view()
                &&& final(self).live_count() == old(self).live_count()
                &&& final(self).tick() == old(self).tick()
                &&& final(self).resources_view() == old(self).resources_view()
                &&& final(self).schemas_view() == old(self).schemas_view()
            },
    {
        let loc = match self.location_of(entity) {
            Some(l) => l,
            None => {
                return None;
            },
        };
        proof {
            assert(self.archetypes@[loc.archetype as int].wf());
        }
        let j = match find_kind(&self.archetypes[loc.archetype].signature, kind.0) {
            Ok(j) => j,
            Err(_) => {
                return None;
            },
        };
        let ghost w0 = *self;
        proof {
            w0.lemma_row_live(loc);
            assert forall|w2: Self|
                #![trigger w2.wf()]
                #![trigger w2.slots_view()]
                #![trigger w2.resources_view()]
                #![trigger w2.schemas_view()]
                #![trigger w2.live_count()]
                Self::cell_changed(w0, w2, loc, j as int) implies w2.wf() && w2.slots_view()
                == w0.slots_view() && w2.resources_view() == w0.resources_view() && w2.schemas_view()
                == w0.schemas_view() && w2.live_count() == w0.live_count() && (forall|e: Entity, k: ComponentId| #[trigger]
                w2.comp(e, k) == if e == w0.entity_at(loc) && k.0 == w0.archetypes@[loc.archetype as int].signature@[j as int] {
                Some(
                    (
                        w2.archetypes@[loc.archetype as int].columns@[j as int].values@[loc.row as int],
                        w2.archetypes@[loc.archetype as int].columns@[j as int].changed_ticks@[loc.row as int],
                    ),
                )
            } else {
                w0.comp(e, k)
            }) by {
                Self::lemma_cell_changed(w0, w2, loc, j as int);
            }
        }
        let tick = self.current_tick;
        self.archetypes[loc.archetype].columns[j].changed_ticks.set(loc.row, tick);
        let r = &mut self.archetypes[loc.archetype].columns[j].values[loc.row];
        Some(r)
    }
}


impl<V> World<V> {
    /// `w2` differs from `w0` only in the value and the change tick of
    /// the resource stored at position `i`.
    spec fn resource_entry_changed(w0: Self, w2: Self, i: int) -> bool {
        &&& w2.slots == w0.slots
        &&& w2.free_indices == w0.free_indices
        &&& w2.archetypes == w0.archetypes
        &&& w2.empty_archetype == w0.empty_archetype
        &&& w2.alive_count == w0.alive_count
        &&& w2.current_tick == w0.current_tick
        &&& w2.schema_registry == w0.schema_registry
        &&& w2.resources@.len() == w0.resources@.len()
        &&& w2.resources@[i].kind == w0.resources@[i].kind
        &&& forall|x: int| 0 <= x < w0.resources@.len() && x != i ==> #[trigger] w2.resources@[x] == w0.resources@[x]
    }

    proof fn lemma_resource_entry_changed(w0: Self, w2: Self, i: int)
        requires
            w0.wf(),
            0 <= i < w0.resources@.len(),
            Self::resource_entry_changed(w0, w2, i),
        ensures
            w2.wf(),
            w2.slots_view() == w0.slots_view(),
            w2.free_view() == w0.free_view(),
            w2.live_count() == w0.live_count(),
            w2.tick() == w0.tick(),
            w2.schemas_view() == w0.schemas_view(),
            w2.resources_view() == w0.resources_view().insert(
                ComponentId(w0.resources@[i].kind),
                (w2.resources@[i].value, w2.resources@[i].changed_tick),
            ),
            forall|e: Entity, k: ComponentId| #[trigger] w2.comp(e, k) == w0.comp(e, k),
    {
        let s0 = w0.resources@;
        let s1 = w2.resources@;
        let kind = ComponentId(s0[i].kind);
        assert forall|x: int, y: int| 0 <= x < y < s1.len() implies #[trigger] s1[x].kind
            != #[trigger] s1[y].kind by {
            assert(s0[x].kind != s0[y].kind);
        }
        assert forall|k: ComponentId| #[trigger] res_has(s1, k.0) == res_has(s0, k.0) by {
            if res_has(s0, k.0) {
                let j = res_index(s0, k.0);
                assert(s1[j].kind == k.0);
            }
            if res_has(s1, k.0) {
                let j = res_index(s1, k.0);
                assert(s0[j].kind == k.0);
            }
        }
        assert forall|k: ComponentId| res_has(s1, k.0) && k != kind implies #[trigger] res_index(
            s1,
            k.0,
        ) == res_index(s0, k.0) by {
            let j = res_index(s0, k.0);
            lemma_res_index(s1, k.0, j);
        }
        lemma_res_index(s1, kind.0, i);
        assert(res_map(s1) =~= res_map(s0).insert(kind, (s1[i].value, s1[i].changed_tick)));
        Self::lemma_same_storage(w0, w2);
    }

    /// A mutable reference to the resource of kind `kind`, if one is
    /// stored. Marks the resource as changed at the current tick whether
    /// or not the caller writes through the reference.
    pub fn resource_mut(&mut self, kind: ComponentId) -> (r: Option<&mut V>)
        requires
            old(self).wf(),
        ensures
            r is Some == old(self).resources_view().contains_key(kind),
            r is None ==> *final(self) == *old(self),
            r is Some ==> {
                &&& *r.unwrap() == old(self).resources_view()[kind].0
                &&& final(self).wf()
                &&& final(self).resources_view() == old(self).resources_view().insert(
                    kind,
                    (*final(r.unwrap()), old(self).tick()),
                )
                &&& final(self).schemas_view() == old(self).schemas_view()
                &&& final(self).tick() == old(self).tick()
                &&& final(self).slots_view() == old(self).slots_view()
                &&& final(self).free_view() == old(self).free_view()
                &&& final(self).live_count() == old(self).live_count()
                &&& forall|e: Entity, k: ComponentId| #[trigger] final(self).comp(e, k) == old(self).comp(e, k)
            },
    {
        let i = match self.find_resource(kind.0) {
            Some(i) => i,
            None => {
                return None;
            },
        };
        let ghost w0 = *self;
        proof {
            assert forall|w2: Self|
                #![trigger w2.wf()]
                #![trigger w2.resources_view()]
                #![trigger w2.slots_view()]
                #![trigger w2.schemas_view()]
                #![trigger w2.live_count()]
                Self::resource_entry_changed(w0, w2, i as int) implies {
                &&& w2.wf()
                &&& w2.slots_view() == w0.slots_view()
                &&& w2.free_view() == w0.free_view()
                &&& w2.live_count() == w0.live_count()
                &&& w2.tick() == w0.tick()
                &&& w2.schemas_view() == w0.schemas_view()
                &&& w2.resources_view() == w0.resources_view().insert(
                    kind,
                    (w2.resources@[i as int].value, w2.resources@[i as int].changed_tick),
                )
                &&& forall|e: Entity, k: ComponentId| #[trigger] w2.comp(e, k) == w0.comp(e, k)
            } by {
                Self::lemma_resource_entry_changed(w0, w2, i as int);
            }
        }
        let tick = self.current_tick;
        self.resources[i].changed_tick = tick;
        let r = &mut self.resources[i].value;
        Some(r)
    }
}


impl<V> Default for World<V> {
    /// The same empty world as `World::new`.
    fn default() -> (w: Self)
        ensures
            w.wf(),
            w@.slots == Seq::<(u64, bool)>::empty(),
            w@.free == Seq::<u32>::empty(),
            w@.components == Map::<(Entity, ComponentId), (V, Tick)>::empty(),
            w@.resources == Map::<ComponentId, (V, Tick)>::empty(),
            w@.schemas == Map::<Seq<u8>, ComponentId>::empty(),
            w@.tick.value() == 0,
    {
        let w = Self::new();
        proof {
            assert(w@.components =~= Map::<(Entity, ComponentId), (V, Tick)>::empty());
        }
        w
    }
}

} // verus!
