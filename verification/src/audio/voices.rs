use vstd::prelude::*;

use crate::audio::backend::SourceHandle;
use crate::ecs::model::bump_generation;

verus! {

/// One voice slot of a backend: the generation its current (or last)
/// voice was issued under, whether that voice is still playing or
/// paused (alive), whether it is paused, and what the backend keeps for
/// it.
struct VoiceSlot<P> {
    generation: u64,
    alive: bool,
    paused: bool,
    payload: P,
}

/// The voice bookkeeping of an audio backend: every voice ever started
/// gets the next slot index, and stopping a voice bumps its slot's
/// generation, so a handle to a stopped voice is stale for every later
/// call rather than reaching another voice. Each voice carries a payload
/// of the backend's choosing (its gain, or its device player).
pub struct VoiceSlots<P> {
    slots: Vec<VoiceSlot<P>>,
    live: usize,
}

/// The abstract state of one slot: `(generation, alive, paused,
/// payload)`.
pub type SlotModel<P> = (u64, bool, bool, P);

/// Number of slots whose voice is alive.
pub open spec fn count_alive<P>(s: Seq<SlotModel<P>>) -> nat
    decreases s.len(),
{
    if s.len() == 0 {
        0
    } else {
        count_alive(s.drop_last()) + if s.last().1 {
            1nat
        } else {
            0nat
        }
    }
}

/// Whether `h` names the live voice in its slot.
pub open spec fn live_in<P>(s: Seq<SlotModel<P>>, h: SourceHandle) -> bool {
    &&& (h.index() as int) < s.len()
    &&& s[h.index() as int].1
    &&& s[h.index() as int].0 == h.generation()
}

impl<P> View for VoiceSlots<P> {
    type V = Seq<SlotModel<P>>;

    closed spec fn view(&self) -> Seq<SlotModel<P>> {
        Seq::new(
            self.slots@.len(),
            |i: int|
                (self.slots@[i].generation, self.slots@[i].alive, self.slots@[i].paused, self.slots@[i].payload),
        )
    }
}

impl<P> VoiceSlots<P> {
    /// The table's internal invariant: the live count is the number of
    /// live slots, and indices fit a `u32`.
    pub closed spec fn wf(&self) -> bool {
        &&& self.live as nat == count_alive(self@)
        &&& self@.len() <= u32::MAX
    }

    proof fn lemma_count_update(s: Seq<SlotModel<P>>, i: int, x: SlotModel<P>)
        requires
            0 <= i < s.len(),
        ensures
            count_alive(s.update(i, x)) + (if s[i].1 { 1int } else { 0int }) == count_alive(s) + (if x.1 {
                1int
            } else {
                0int
            }),
        decreases s.len(),
    {
        if i < s.len() - 1 {
            assert(s.update(i, x).drop_last() =~= s.drop_last().update(i, x));
            Self::lemma_count_update(s.drop_last(), i, x);
        } else {
            assert(s.update(i, x).drop_last() =~= s.drop_last());
        }
    }

    proof fn lemma_count_le(s: Seq<SlotModel<P>>)
        ensures
            count_alive(s) <= s.len(),
        decreases s.len(),
    {
        if s.len() > 0 {
            Self::lemma_count_le(s.drop_last());
        }
    }

    /// A table with no voices.
    pub fn new() -> (t: Self)
        ensures
            t.wf(),
            t@ == Seq::<SlotModel<P>>::empty(),
    {
        let t = VoiceSlots { slots: Vec::new(), live: 0 };
        assert(t@ =~= Seq::<SlotModel<P>>::empty());
        t
    }

    /// Starts a voice carrying `payload` in the next slot and returns its
    /// handle, at generation 0; `None`, changing nothing, once the `u32`
    /// index space is used up.
    pub fn start(&mut self, payload: P) -> (r: Option<SourceHandle>)
        requires
            old(self).wf(),
        ensures
            final(self).wf(),
            old(self)@.len() < u32::MAX ==> {
                &&& r matches Some(h) && h.index() == old(self)@.len() && h.generation() == 0
                &&& final(self)@ == old(self)@.push((0u64, true, false, payload))
            },
            old(self)@.len() >= u32::MAX ==> r is None && final(self)@ == old(self)@,
    {
        if self.slots.len() >= 4294967295usize {
            return None;
        }
        let index = self.slots.len() as u32;
        let ghost s0 = self@;
        proof {
            Self::lemma_count_le(s0);
        }
        self.slots.push(VoiceSlot { generation: 0, alive: true, paused: false, payload });
        self.live = self.live + 1;
        proof {
            assert(self@ =~= s0.push((0u64, true, false, payload)));
            assert(self@.drop_last() =~= s0);
        }
        Some(SourceHandle::from_raw_parts(index, 0))
    }

    /// Whether `h` names a live voice.
    pub fn is_live(&self, h: SourceHandle) -> (r: bool)
        ensures
            r == live_in(self@, h),
    {
        let i = h.index() as usize;
        i < self.slots.len() && self.slots[i].alive && self.slots[i].generation == h.generation()
    }

    /// Stops the voice `h` names: its slot goes dead under the next
    /// generation. `false`, changing nothing, for a stale or forged
    /// handle.
    pub fn stop(&mut self, h: SourceHandle) -> (r: bool)
        requires
            old(self).wf(),
        ensures
            final(self).wf(),
            r == live_in(old(self)@, h),
            r ==> final(self)@ == old(self)@.update(
                h.index() as int,
                (
                    bump_generation(h.generation()),
                    false,
                    old(self)@[h.index() as int].2,
                    old(self)@[h.index() as int].3,
                ),
            ),
            !r ==> final(self)@ == old(self)@,
    {
        if !self.is_live(h) {
            return false;
        }
        let i = h.index() as usize;
        let ghost s0 = self@;
        let g = self.slots[i].generation;
        self.slots[i].alive = false;
        self.slots[i].generation = g.wrapping_add(1);
        proof {
            let x = (bump_generation(g), false, s0[i as int].2, s0[i as int].3);
            assert(self@ =~= s0.update(i as int, x));
            Self::lemma_count_update(s0, i as int, x);
        }
        self.live = self.live - 1;
        true
    }

    /// Marks the voice `h` names as paused (`paused == true`) or playing.
    /// `false`, changing nothing, for a stale or forged handle.
    fn set_paused(&mut self, h: SourceHandle, paused: bool) -> (r: bool)
        requires
            old(self).wf(),
        ensures
            final(self).wf(),
            r == live_in(old(self)@, h),
            r ==> final(self)@ == old(self)@.update(
                h.index() as int,
                (h.generation(), true, paused, old(self)@[h.index() as int].3),
            ),
            !r ==> final(self)@ == old(self)@,
    {
        if !self.is_live(h) {
            return false;
        }
        let i = h.index() as usize;
        let ghost s0 = self@;
        self.slots[i].paused = paused;
        proof {
            let x = (h.generation(), true, paused, s0[i as int].3);
            assert(self@ =~= s0.update(i as int, x));
            Self::lemma_count_update(s0, i as int, x);
        }
        true
    }

    /// Pauses the voice `h` names; `false`, changing nothing, for a stale
    /// or forged handle.
    pub fn pause(&mut self, h: SourceHandle) -> (r: bool)
        requires
            old(self).wf(),
        ensures
            final(self).wf(),
            r == live_in(old(self)@, h),
            r ==> final(self)@ == old(self)@.update(
                h.index() as int,
                (h.generation(), true, true, old(self)@[h.index() as int].3),
            ),
            !r ==> final(self)@ == old(self)@,
    {
        self.set_paused(h, true)
    }

    /// Resumes the voice `h` names; `false`, changing nothing, for a stale
    /// or forged handle.
    pub fn resume(&mut self, h: SourceHandle) -> (r: bool)
        requires
            old(self).wf(),
        ensures
            final(self).wf(),
            r == live_in(old(self)@, h),
            r ==> final(self)@ == old(self)@.update(
                h.index() as int,
                (h.generation(), true, false, old(self)@[h.index() as int].3),
            ),
            !r ==> final(self)@ == old(self)@,
    {
        self.set_paused(h, false)
    }

    /// What the backend keeps for the voice `h` names, or `None` for a
    /// stale or forged handle.
    pub fn payload(&self, h: SourceHandle) -> (r: Option<&P>)
        ensures
            r is Some == live_in(self@, h),
            r matches Some(p) ==> *p == self@[h.index() as int].3,
    {
        if self.is_live(h) {
            Some(&self.slots[h.index() as usize].payload)
        } else {
            None
        }
    }

    /// Replaces what the backend keeps for the voice `h` names. `false`,
    /// changing nothing, for a stale or forged handle.
    pub fn set_payload(&mut self, h: SourceHandle, payload: P) -> (r: bool)
        requires
            old(self).wf(),
        ensures
            final(self).wf(),
            r == live_in(old(self)@, h),
            r ==> final(self)@ == old(self)@.update(
                h.index() as int,
                (h.generation(), true, old(self)@[h.index() as int].2, payload),
            ),
            !r ==> final(self)@ == old(self)@,
    {
        if !self.is_live(h) {
            return false;
        }
        let i = h.index() as usize;
        let ghost s0 = self@;
        let g = self.slots[i].generation;
        let paused = self.slots[i].paused;
        self.slots.set(i, VoiceSlot { generation: g, alive: true, paused, payload });
        proof {
            let x = (h.generation(), true, s0[i as int].2, payload);
            assert(self@ =~= s0.update(i as int, x));
            Self::lemma_count_update(s0, i as int, x);
        }
        true
    }

    /// The number of live voices.
    pub fn live_count(&self) -> (n: usize)
        requires
            self.wf(),
        ensures
            n == count_alive(self@),
    {
        self.live
    }
}

/// A stopped voice's handle is stale from then on: stopping, pausing or
/// resuming it again fails and changes nothing, and it reaches no
/// payload, whatever the table holds.
pub proof fn law_stopped_handles_stay_stale<P>(s: Seq<SlotModel<P>>, h: SourceHandle)
    requires
        live_in(s, h),
    ensures
        !live_in(
            s.update(h.index() as int, (bump_generation(h.generation()), false, s[h.index() as int].2, s[h.index() as int].3)),
            h,
        ),
{
}

/// A voice that is later stopped or restarted in another slot never
/// revives an old handle: starting a voice only makes its own, fresh
/// handle live.
pub proof fn law_start_revives_no_handle<P>(s: Seq<SlotModel<P>>, payload: P, h: SourceHandle)
    requires
        (h.index() as int) < s.len(),
    ensures
        live_in(s.push((0u64, true, false, payload)), h) == live_in(s, h),
{
}

/// Pausing and resuming are idempotent on a live voice: doing either
/// twice leaves the same state as doing it once.
pub proof fn law_pause_resume_idempotent<P>(s: Seq<SlotModel<P>>, h: SourceHandle, paused: bool)
    requires
        live_in(s, h),
    ensures
        ({
            let once = s.update(h.index() as int, (h.generation(), true, paused, s[h.index() as int].3));
            &&& live_in(once, h)
            &&& once.update(h.index() as int, (h.generation(), true, paused, once[h.index() as int].3)) == once
        }),
{
    let once = s.update(h.index() as int, (h.generation(), true, paused, s[h.index() as int].3));
    assert(once.update(h.index() as int, (h.generation(), true, paused, once[h.index() as int].3)) =~= once);
}

} // verus!
