use vstd::prelude::*;

use crate::assets::handle::AssetHandle;
use crate::ecs::model::bump_generation;

verus! {

/// One store slot: the generation its current (or next) asset is issued
/// under, and the asset itself while the slot is occupied.
struct Slot<T> {
    generation: u64,
    value: Option<T>,
}

/// Generational storage for assets of one type, addressed by
/// `AssetHandle`.
///
/// Removing an asset bumps its slot's generation and puts the slot on a
/// free list, so every outstanding handle to the removed asset goes stale
/// at once; the next insert reuses the most recently freed slot under its
/// new generation.
pub struct AssetStore<T> {
    slots: Vec<Slot<T>>,
    free: Vec<u32>,
}

/// The abstract state of an `AssetStore`: every slot as
/// `(generation, asset)` and the free list, most recently freed last.
#[verifier::ext_equal]
pub struct StoreModel<T> {
    pub slots: Seq<(u64, Option<T>)>,
    pub free: Seq<u32>,
}

/// Number of occupied slots.
pub open spec fn count_live<T>(s: Seq<(u64, Option<T>)>) -> nat
    decreases s.len(),
{
    if s.len() == 0 {
        0
    } else {
        count_live(s.drop_last()) + if s.last().1 is Some {
            1nat
        } else {
            0nat
        }
    }
}

impl<T> StoreModel<T> {
    /// What `h` resolves to: the asset in its slot when the slot still
    /// carries `h`'s generation, otherwise nothing.
    pub open spec fn lookup(self, h: AssetHandle<T>) -> Option<T> {
        if (h.index() as int) < self.slots.len() && self.slots[h.index() as int].0 == h.generation() {
            self.slots[h.index() as int].1
        } else {
            None
        }
    }

    /// The invariants every reachable store satisfies: the free list
    /// names distinct, empty slots, and the index space is not
    /// exceeded.
    pub open spec fn valid(self) -> bool {
        &&& forall|f: int|
            0 <= f < self.free.len() ==> {
                &&& (#[trigger] self.free[f] as int) < self.slots.len()
                &&& self.slots[self.free[f] as int].1 is None
            }
        &&& forall|f: int, g: int| 0 <= f < g < self.free.len() ==> #[trigger] self.free[f] != #[trigger] self.free[g]
        &&& self.slots.len() <= u32::MAX as int + 1
    }

    /// Inserting: the most recently freed slot is reused under its
    /// current generation; with none free, a new slot starts at
    /// generation 0.
    pub open spec fn insert(self, asset: T) -> (Self, AssetHandle<T>) {
        if self.free.len() > 0 {
            let i = self.free.last();
            let g = self.slots[i as int].0;
            (
                StoreModel {
                    slots: self.slots.update(i as int, (g, Some(asset))),
                    free: self.free.drop_last(),
                },
                AssetHandle::spec_from_parts(i, g),
            )
        } else {
            (
                StoreModel { slots: self.slots.push((0, Some(asset))), free: self.free },
                AssetHandle::spec_from_parts(self.slots.len() as u32, 0),
            )
        }
    }

    /// Removing: a live handle's slot is emptied under the next
    /// generation and freed; a stale handle changes nothing.
    pub open spec fn remove(self, h: AssetHandle<T>) -> Self {
        if self.lookup(h) is Some {
            StoreModel {
                slots: self.slots.update(h.index() as int, (bump_generation(h.generation()), None)),
                free: self.free.push(h.index()),
            }
        } else {
            self
        }
    }
}

impl<T> View for AssetStore<T> {
    type V = StoreModel<T>;

    closed spec fn view(&self) -> StoreModel<T> {
        StoreModel {
            slots: Seq::new(self.slots@.len(), |i: int| (self.slots@[i].generation, self.slots@[i].value)),
            free: self.free@,
        }
    }
}

impl<T> AssetStore<T> {
    /// The store's internal invariant, established by `new` and kept by
    /// every operation.
    pub closed spec fn wf(&self) -> bool {
        self@.valid()
    }

    /// Number of live assets.
    pub closed spec fn live_count(&self) -> nat {
        count_live(self@.slots)
    }

    proof fn lemma_count_update(s: Seq<(u64, Option<T>)>, i: int, x: (u64, Option<T>))
        requires
            0 <= i < s.len(),
        ensures
            count_live(s.update(i, x)) + (if s[i].1 is Some { 1int } else { 0int }) == count_live(s) + (
            if x.1 is Some {
                1int
            } else {
                0int
            }),
        decreases s.len(),
    {
        if i < s.len() - 1 {
            assert(s.update(i, x).drop_last() =~= s.drop_last().update(i, x));
            Self::lemma_count_update(s.drop_last(), i, x);
        } else {
            assert(s.update(i, x).drop_last() =~= s.drop_last());
        }
    }

    proof fn lemma_count_push(s: Seq<(u64, Option<T>)>, x: (u64, Option<T>))
        ensures
            count_live(s.push(x)) == count_live(s) + (if x.1 is Some { 1nat } else { 0nat }),
    {
        assert(s.push(x).drop_last() =~= s);
    }

    proof fn lemma_count_le(s: Seq<(u64, Option<T>)>)
        ensures
            count_live(s) <= s.len(),
        decreases s.len(),
    {
        if s.len() > 0 {
            Self::lemma_count_le(s.drop_last());
        }
    }

    /// Creates an empty store holding no assets.
    pub fn new() -> (s: Self)
        ensures
            s.wf(),
            s@.slots == Seq::<(u64, Option<T>)>::empty(),
            s@.free == Seq::<u32>::empty(),
            s.live_count() == 0,
    {
        let s = AssetStore { slots: Vec::new(), free: Vec::new() };
        assert(s@.slots =~= Seq::<(u64, Option<T>)>::empty());
        s
    }

    /// Inserts `asset` and returns the live handle for it.
    ///
    /// The most recently freed slot is reused in preference to growing;
    /// it keeps the generation its removal bumped it to, so the new handle
    /// differs from every handle the slot issued before. Creating a slot
    /// past the `u32` index space is not possible, so that case is
    /// excluded.
    pub fn insert(&mut self, asset: T) -> (h: AssetHandle<T>)
        requires
            old(self).wf(),
            old(self)@.free.len() > 0 || old(self)@.slots.len() <= u32::MAX,
        ensures
            final(self).wf(),
            (final(self)@, h) == old(self)@.insert(asset),
            final(self)@.lookup(h) == Some(asset),
            old(self)@.lookup(h) is None,
            final(self).live_count() == old(self).live_count() + 1,
    {
        let ghost s0 = self@;
        if self.free.len() > 0 {
            let index = self.free.pop().unwrap();
            proof {
                assert(s0.free[s0.free.len() - 1] == index);
            }
            let g = self.slots[index as usize].generation;
            self.slots.set(index as usize, Slot { generation: g, value: Some(asset) });
            let h = AssetHandle::from_raw_parts(index, g);
            proof {
                assert(self@.slots =~= s0.slots.update(index as int, (g, Some(asset))));
                assert(self@.free =~= s0.free.drop_last());
                Self::lemma_count_update(s0.slots, index as int, (g, Some(asset)));
                assert forall|f: int, g2: int| 0 <= f < g2 < self@.free.len() implies #[trigger] self@.free[f]
                    != #[trigger] self@.free[g2] by {
                    assert(s0.free[f] != s0.free[g2]);
                }
                assert forall|f: int| 0 <= f < self@.free.len() implies {
                    &&& (#[trigger] self@.free[f] as int) < self@.slots.len()
                    &&& self@.slots[self@.free[f] as int].1 is None
                } by {
                    assert(s0.free[f] != s0.free[s0.free.len() - 1]);
                }
            }
            h
        } else {
            let index = self.slots.len() as u32;
            self.slots.push(Slot { generation: 0, value: Some(asset) });
            let h = AssetHandle::from_raw_parts(index, 0);
            proof {
                assert(self@.slots =~= s0.slots.push((0, Some(asset))));
                Self::lemma_count_push(s0.slots, (0u64, Some(asset)));
            }
            h
        }
    }

    /// The asset `handle` refers to, or `None` when the handle is stale:
    /// removed, recycled, out of range, or never issued by this store.
    pub fn get(&self, handle: AssetHandle<T>) -> (r: Option<&T>)
        ensures
            r is Some == self@.lookup(handle) is Some,
            r matches Some(v) ==> *v == self@.lookup(handle).unwrap(),
    {
        let i = handle.index() as usize;
        if i < self.slots.len() {
            let slot = &self.slots[i];
            if slot.generation != handle.generation() {
                return None;
            }
            match &slot.value {
                Some(v) => Some(v),
                None => None,
            }
        } else {
            None
        }
    }

    /// Whether `handle` is currently live: exactly when `get` would
    /// return an asset.
    pub fn contains(&self, handle: AssetHandle<T>) -> (r: bool)
        ensures
            r == self@.lookup(handle) is Some,
    {
        self.get(handle).is_some()
    }

    /// Removes and returns the asset `handle` refers to, or returns
    /// `None`, changing nothing, when the handle is already stale.
    ///
    /// Removal bumps the slot's generation and frees the slot, which makes
    /// every outstanding handle to the removed asset stale at once.
    pub fn remove(&mut self, handle: AssetHandle<T>) -> (r: Option<T>)
        requires
            old(self).wf(),
        ensures
            final(self).wf(),
            r == old(self)@.lookup(handle),
            final(self)@ == old(self)@.remove(handle),
            final(self).live_count() == old(self).live_count() - (if r is Some { 1int } else { 0int }),
    {
        let ghost s0 = self@;
        let i = handle.index() as usize;
        if i >= self.slots.len() {
            return None;
        }
        if self.slots[i].generation != handle.generation() {
            return None;
        }
        if self.slots[i].value.is_none() {
            return None;
        }
        let g = self.slots[i].generation;
        let mut old_slot = Slot { generation: g.wrapping_add(1), value: None };
        std::mem::swap(&mut self.slots[i], &mut old_slot);
        self.free.push(handle.index());
        proof {
            assert(self@.slots =~= s0.slots.update(i as int, (bump_generation(g), None)));
            assert(self@.free =~= s0.free.push(handle.index()));
            Self::lemma_count_update(s0.slots, i as int, (bump_generation(g), None::<T>));
            assert forall|f: int, g2: int| 0 <= f < g2 < self@.free.len() implies #[trigger] self@.free[f]
                != #[trigger] self@.free[g2] by {
                if g2 == s0.free.len() {
                    assert(s0.slots[s0.free[f] as int].1 is None);
                } else {
                    assert(s0.free[f] != s0.free[g2]);
                }
            }
            assert forall|f: int| 0 <= f < self@.free.len() implies {
                &&& (#[trigger] self@.free[f] as int) < self@.slots.len()
                &&& self@.slots[self@.free[f] as int].1 is None
            } by {
                if f < s0.free.len() {
                    assert(s0.slots[s0.free[f] as int].1 is None);
                }
            }
        }
        old_slot.value
    }

    /// The number of live assets: occupied slots, not allocated ones.
    pub fn len(&self) -> (n: usize)
        ensures
            n == self.live_count(),
    {
        let mut n: usize = 0;
        let mut i: usize = 0;
        while i < self.slots.len()
            invariant
                i <= self.slots@.len(),
                n == count_live(self@.slots.take(i as int)),
            decreases self.slots@.len() - i,
        {
            proof {
                assert(self@.slots.take(i as int + 1).drop_last() =~= self@.slots.take(i as int));
                Self::lemma_count_le(self@.slots.take(i as int));
            }
            if self.slots[i].value.is_some() {
                n = n + 1;
            }
            i = i + 1;
        }
        proof {
            assert(self@.slots.take(i as int) =~= self@.slots);
        }
        n
    }

    /// Whether the store holds no live assets.
    pub fn is_empty(&self) -> (r: bool)
        ensures
            r == (self.live_count() == 0),
    {
        self.len() == 0
    }
}

impl<T> Default for AssetStore<T> {
    /// The same empty store as `AssetStore::new`.
    fn default() -> (s: Self)
        ensures
            s.wf(),
            s@.slots == Seq::<(u64, Option<T>)>::empty(),
            s@.free == Seq::<u32>::empty(),
    {
        Self::new()
    }
}

/// An asset read back through the handle its insert returned is the
/// asset inserted, and nothing else that was live changes.
pub proof fn law_insert_then_get<T>(m: StoreModel<T>, asset: T, other: AssetHandle<T>)
    requires
        m.valid(),
        m.free.len() > 0 || m.slots.len() <= u32::MAX,
    ensures
        m.insert(asset).0.lookup(m.insert(asset).1) == Some(asset),
        m.lookup(other) is Some ==> m.insert(asset).0.lookup(other) == m.lookup(other),
{
    if m.free.len() > 0 {
        assert(m.slots[m.free.last() as int].1 is None);
        AssetHandle::<T>::lemma_parts(m.free.last(), m.slots[m.free.last() as int].0);
    } else {
        AssetHandle::<T>::lemma_parts(m.slots.len() as u32, 0);
    }
}

/// Removing through a live handle gives the asset back once; the handle
/// is stale afterwards, so a second removal gives nothing.
pub proof fn law_remove_is_once<T>(m: StoreModel<T>, h: AssetHandle<T>)
    requires
        m.lookup(h) is Some,
    ensures
        m.remove(h).lookup(h) is None,
        m.remove(h).remove(h) == m.remove(h),
{
    assert(bump_generation(h.generation()) != h.generation());
}

/// After a removal, the next insert reuses the freed slot under a new
/// generation: the new handle shares the old handle's index but not its
/// identity, and the old handle never resolves to the new asset.
pub proof fn law_recycled_slot_does_not_alias<T>(m: StoreModel<T>, h: AssetHandle<T>, asset: T)
    requires
        m.valid(),
        m.lookup(h) is Some,
    ensures
        m.remove(h).insert(asset).1.index() == h.index(),
        m.remove(h).insert(asset).1.generation() == bump_generation(h.generation()),
        m.remove(h).insert(asset).1 != h,
        m.remove(h).insert(asset).0.lookup(h) is None,
        m.remove(h).insert(asset).0.lookup(m.remove(h).insert(asset).1) == Some(asset),
{
    let m1 = m.remove(h);
    assert(m1.free.last() == h.index());
    assert(bump_generation(h.generation()) != h.generation());
    let h2 = m1.insert(asset).1;
    AssetHandle::<T>::lemma_parts(h.index(), bump_generation(h.generation()));
    AssetHandle::<T>::lemma_eq(h, h2);
}

/// One operation on a store: inserting an asset, or removing through a
/// handle.
pub enum StoreOp<T> {
    Insert(T),
    Remove(AssetHandle<T>),
}

/// Whether the store in state `m` has handed out `h`: `h`'s slot exists
/// and has either moved past `h`'s generation or holds an asset under it.
pub open spec fn issued<T>(m: StoreModel<T>, h: AssetHandle<T>) -> bool {
    &&& (h.index() as int) < m.slots.len()
    &&& (h.generation() < m.slots[h.index() as int].0 || (h.generation() == m.slots[h.index() as int].0
        && m.slots[h.index() as int].1 is Some))
}

/// Running `ops` from `m`: the final state, and the handles the inserts
/// returned, in order.
pub open spec fn run_ops<T>(m: StoreModel<T>, ops: Seq<StoreOp<T>>) -> (StoreModel<T>, Seq<AssetHandle<T>>)
    decreases ops.len(),
{
    if ops.len() == 0 {
        (m, seq![])
    } else {
        let prev = run_ops(m, ops.drop_last());
        match ops.last() {
            StoreOp::Insert(a) => (prev.0.insert(a).0, prev.1.push(prev.0.insert(a).1)),
            StoreOp::Remove(h) => (prev.0.remove(h), prev.1),
        }
    }
}

/// The generation a slot of `m` starts a run from (a slot the run
/// creates starts at 0).
pub open spec fn start_generation<T>(m: StoreModel<T>, i: int) -> int {
    if i < m.slots.len() {
        m.slots[i].0 as int
    } else {
        0
    }
}

proof fn lemma_run_ops<T>(m: StoreModel<T>, ops: Seq<StoreOp<T>>)
    requires
        m.valid(),
        m.slots.len() + ops.len() <= u32::MAX as int + 1,
        forall|i: int| 0 <= i < m.slots.len() ==> m.slots[i].0 + ops.len() <= u64::MAX,
    ensures
        ({
            let (m2, hs) = run_ops(m, ops);
            &&& m2.valid()
            &&& m.slots.len() <= m2.slots.len() <= m.slots.len() + ops.len()
            &&& forall|i: int| 0 <= i < m2.slots.len() ==> m2.slots[i].0 <= start_generation(m, i) + ops.len()
            &&& forall|h: AssetHandle<T>| issued(m, h) ==> #[trigger] issued(m2, h)
            &&& forall|j: int| 0 <= j < hs.len() ==> issued(m2, #[trigger] hs[j]) && !issued(m, hs[j])
            &&& forall|j: int, k: int| 0 <= j < k < hs.len() ==> hs[j] != hs[k]
        }),
    decreases ops.len(),
{
    if ops.len() > 0 {
        let pre = ops.drop_last();
        lemma_run_ops(m, pre);
        let (m1, hs1) = run_ops(m, pre);
        let (m2, hs) = run_ops(m, ops);
        match ops.last() {
            StoreOp::Insert(a) => {
                let h = m1.insert(a).1;
                if m1.free.len() > 0 {
                    let i = m1.free.last();
                    assert(m1.slots[i as int].1 is None);
                    AssetHandle::<T>::lemma_parts(i, m1.slots[i as int].0);
                    assert forall|f: int| 0 <= f < m2.free.len() implies {
                        &&& (#[trigger] m2.free[f] as int) < m2.slots.len()
                        &&& m2.slots[m2.free[f] as int].1 is None
                    } by {
                        assert(m1.free[f] != m1.free[m1.free.len() - 1]);
                    }
                    assert forall|g: AssetHandle<T>| issued(m1, g) implies #[trigger] issued(m2, g) by {
                        if g.index() as int == i as int {
                        }
                    }
                } else {
                    AssetHandle::<T>::lemma_parts(m1.slots.len() as u32, 0);
                    assert forall|g: AssetHandle<T>| issued(m1, g) implies #[trigger] issued(m2, g) by {
                        assert(m2.slots[g.index() as int] == m1.slots[g.index() as int]);
                    }
                }
                assert(!issued(m1, h));
                assert forall|j: int| 0 <= j < hs.len() implies issued(m2, #[trigger] hs[j]) && !issued(m, hs[j]) by {
                    if j < hs1.len() {
                        assert(hs[j] == hs1[j]);
                        assert(issued(m1, hs1[j]));
                    } else {
                        assert(hs[j] == h);
                        if issued(m, h) {
                            assert(issued(m1, h));
                        }
                    }
                }
                assert forall|j: int, k: int| 0 <= j < k < hs.len() implies hs[j] != hs[k] by {
                    if k < hs1.len() {
                        assert(hs[j] == hs1[j] && hs[k] == hs1[k]);
                    } else {
                        assert(hs[j] == hs1[j]);
                        assert(issued(m1, hs1[j]));
                        assert(hs[k] == h);
                    }
                }
                assert forall|i: int| 0 <= i < m2.slots.len() implies m2.slots[i].0 <= start_generation(m, i) + ops.len() by {
                    if i < m1.slots.len() {
                        assert(m2.slots[i].0 == m1.slots[i].0);
                    }
                }
            },
            StoreOp::Remove(h) => {
                if m1.lookup(h) is Some {
                    let i = h.index() as int;
                    assert(m1.slots[i].0 <= start_generation(m, i) + pre.len());
                    assert(m1.slots[i].0 < u64::MAX);
                    assert(bump_generation(h.generation()) == h.generation() + 1);
                    assert forall|f: int| 0 <= f < m2.free.len() implies {
                        &&& (#[trigger] m2.free[f] as int) < m2.slots.len()
                        &&& m2.slots[m2.free[f] as int].1 is None
                    } by {
                        if f < m1.free.len() {
                            assert(m2.free[f] == m1.free[f]);
                        }
                    }
                    assert forall|f: int, g: int| 0 <= f < g < m2.free.len() implies #[trigger] m2.free[f]
                        != #[trigger] m2.free[g] by {
                        if g == m1.free.len() {
                            assert(m1.slots[m1.free[f] as int].1 is None);
                        } else {
                            assert(m2.free[f] == m1.free[f] && m2.free[g] == m1.free[g]);
                        }
                    }
                    assert forall|g: AssetHandle<T>| issued(m1, g) implies #[trigger] issued(m2, g) by {
                    }
                    assert forall|j: int| 0 <= j < hs.len() implies issued(m2, #[trigger] hs[j]) && !issued(m, hs[j]) by {
                        assert(issued(m1, hs1[j]));
                    }
                    assert forall|k: int| 0 <= k < m2.slots.len() implies m2.slots[k].0 <= start_generation(m, k) + ops.len() by {
                        assert(m1.slots[k].0 <= start_generation(m, k) + pre.len());
                    }
                } else {
                    assert forall|j: int| 0 <= j < hs.len() implies issued(m2, #[trigger] hs[j]) && !issued(m, hs[j]) by {
                        assert(issued(m1, hs1[j]));
                    }
                    assert forall|k: int| 0 <= k < m2.slots.len() implies m2.slots[k].0 <= start_generation(m, k) + ops.len() by {
                        assert(m1.slots[k].0 <= start_generation(m, k) + pre.len());
                    }
                }
            },
        }
    }
}

/// No handle is handed out twice: over any run of inserts and removes on
/// a valid store, the inserts return pairwise distinct handles, none of
/// which the store had handed out before the run, and every handle handed
/// out stays handed out (so it can never be returned again). The run is
/// one within the index space, and no slot's generation runs past
/// `u64::MAX`, which would wrap it back to 0.
pub proof fn law_handles_are_never_reissued<T>(m: StoreModel<T>, ops: Seq<StoreOp<T>>)
    requires
        m.valid(),
        m.slots.len() + ops.len() <= u32::MAX as int + 1,
        forall|i: int| 0 <= i < m.slots.len() ==> m.slots[i].0 + ops.len() <= u64::MAX,
    ensures
        forall|j: int, k: int| 0 <= j < k < run_ops(m, ops).1.len() ==> run_ops(m, ops).1[j] != run_ops(m, ops).1[k],
        forall|j: int| 0 <= j < run_ops(m, ops).1.len() ==> !issued(m, #[trigger] run_ops(m, ops).1[j]),
        forall|h: AssetHandle<T>| issued(m, h) ==> #[trigger] issued(run_ops(m, ops).0, h),
{
    lemma_run_ops(m, ops);
}

} // verus!

