use vstd::prelude::*;

use crate::audio::backend::SourceHandle;
use crate::audio::components::SourceState;
use crate::ecs::entity::Entity;

verus! {

/// The voice the audio trigger system tracks for one entity: its backend
/// handle and whether the system last paused it.
#[derive(Debug, Clone, Copy, PartialEq, Eq, Structural)]
pub struct VoiceEntry {
    pub handle: SourceHandle,
    pub paused: bool,
}

/// The voice table: which backend voice, if any, each entity's audio
/// source currently drives. At most one voice per entity.
pub struct AudioVoices {
    voices: Vec<(Entity, VoiceEntry)>,
}

spec fn has_key(s: Seq<(Entity, VoiceEntry)>, e: Entity) -> bool {
    exists|i: int| 0 <= i < s.len() && (#[trigger] s[i]).0 == e
}

spec fn key_index(s: Seq<(Entity, VoiceEntry)>, e: Entity) -> int {
    choose|i: int| 0 <= i < s.len() && (#[trigger] s[i]).0 == e
}

spec fn keys_distinct(s: Seq<(Entity, VoiceEntry)>) -> bool {
    forall|i: int, j: int| 0 <= i < j < s.len() ==> #[trigger] s[i].0 != #[trigger] s[j].0
}

/// The entities of a list of voice entries, in order.
pub open spec fn keys(s: Seq<(Entity, VoiceEntry)>) -> Seq<Entity> {
    s.map_values(|p: (Entity, VoiceEntry)| p.0)
}

spec fn table(s: Seq<(Entity, VoiceEntry)>) -> Map<Entity, VoiceEntry> {
    Map::new(|e: Entity| has_key(s, e), |e: Entity| s[key_index(s, e)].1)
}

proof fn lemma_key_index(s: Seq<(Entity, VoiceEntry)>, e: Entity, i: int)
    requires
        keys_distinct(s),
        0 <= i < s.len(),
        s[i].0 == e,
    ensures
        has_key(s, e),
        key_index(s, e) == i,
{
    assert(has_key(s, e));
    let j = key_index(s, e);
    if j < i {
        assert(s[j].0 != s[i].0);
    } else if j > i {
        assert(s[i].0 != s[j].0);
    }
}

/// Every entity in `remove` forgotten, then every pair of `upsert`
/// recorded in order (a later pair for the same entity wins).
pub open spec fn apply_changes(
    m: Map<Entity, VoiceEntry>,
    remove: Seq<Entity>,
    upsert: Seq<(Entity, VoiceEntry)>,
) -> Map<Entity, VoiceEntry>
    decreases upsert.len(),
{
    if upsert.len() == 0 {
        m.remove_keys(remove.to_set())
    } else {
        apply_changes(m, remove, upsert.drop_last()).insert(upsert.last().0, upsert.last().1)
    }
}

/// Whether `e` occurs in `s`.
fn contains_entity(s: &[Entity], e: Entity) -> (r: bool)
    ensures
        r == s@.contains(e),
{
    let mut k: usize = 0;
    while k < s.len()
        invariant
            k <= s@.len(),
            forall|x: int| 0 <= x < k ==> s@[x] != e,
        decreases s@.len() - k,
    {
        if s[k] == e {
            return true;
        }
        k = k + 1;
    }
    false
}

impl View for AudioVoices {
    type V = Map<Entity, VoiceEntry>;

    closed spec fn view(&self) -> Map<Entity, VoiceEntry> {
        table(self.voices@)
    }
}

impl AudioVoices {
    /// The table's internal invariant: no entity listed twice.
    pub closed spec fn wf(&self) -> bool {
        keys_distinct(self.voices@)
    }

    /// A well-formed table holds finitely many voices.
    pub proof fn lemma_finite(&self)
        requires
            self.wf(),
        ensures
            self@.dom().finite(),
    {
        self.lemma_dom();
    }

    proof fn lemma_dom(&self)
        requires
            self.wf(),
        ensures
            self@.dom() == keys(self.voices@).to_set(),
            keys(self.voices@).no_duplicates(),
            self@.dom().len() == self.voices@.len(),
            self@.dom().finite(),
    {
        let k = keys(self.voices@);
        assert forall|e: Entity| #[trigger] self@.dom().contains(e) == k.to_set().contains(e) by {
            if has_key(self.voices@, e) {
                let i = key_index(self.voices@, e);
                assert(k[i] == e);
            }
            if k.to_set().contains(e) {
                let i = choose|i: int| 0 <= i < k.len() && k[i] == e;
                assert(self.voices@[i].0 == e);
            }
        }
        assert(self@.dom() =~= k.to_set());
        assert forall|i: int, j: int| 0 <= i < k.len() && 0 <= j < k.len() && i != j implies k[i] != k[j] by {
            if i < j {
                assert(self.voices@[i].0 != self.voices@[j].0);
            } else {
                assert(self.voices@[j].0 != self.voices@[i].0);
            }
        }
        k.unique_seq_to_set();
        vstd::seq_lib::seq_to_set_is_finite(k);
    }

    /// An empty voice table.
    pub fn new() -> (v: Self)
        ensures
            v.wf(),
            v@ == Map::<Entity, VoiceEntry>::empty(),
            v@.dom().finite(),
    {
        let v = AudioVoices { voices: Vec::new() };
        assert(v@ =~= Map::<Entity, VoiceEntry>::empty());
        v
    }

    fn find(&self, entity: Entity) -> (r: Option<usize>)
        requires
            self.wf(),
        ensures
            r is Some == self@.dom().contains(entity),
            r matches Some(i) ==> i < self.voices@.len() && self.voices@[i as int].0 == entity
                && key_index(self.voices@, entity) == i,
    {
        let mut i: usize = 0;
        while i < self.voices.len()
            invariant
                i <= self.voices@.len(),
                keys_distinct(self.voices@),
                forall|j: int| 0 <= j < i ==> (#[trigger] self.voices@[j]).0 != entity,
            decreases self.voices@.len() - i,
        {
            if self.voices[i].0 == entity {
                proof {
                    lemma_key_index(self.voices@, entity, i as int);
                }
                return Some(i);
            }
            i = i + 1;
        }
        None
    }

    /// The voice tracked for `entity`, if any.
    pub fn get(&self, entity: Entity) -> (r: Option<VoiceEntry>)
        requires
            self.wf(),
        ensures
            r == (if self@.dom().contains(entity) { Some(self@[entity]) } else { None }),
    {
        match self.find(entity) {
            Some(i) => Some(self.voices[i].1),
            None => None,
        }
    }

    /// Records `entry` as the voice for `entity`, replacing any previous
    /// one.
    pub fn insert(&mut self, entity: Entity, entry: VoiceEntry)
        requires
            old(self).wf(),
        ensures
            final(self).wf(),
            final(self)@ == old(self)@.insert(entity, entry),
            final(self)@.dom().finite(),
    {
        let ghost s0 = self.voices@;
        match self.find(entity) {
            Some(i) => {
                self.voices.set(i, (entity, entry));
                proof {
                    let s1 = self.voices@;
                    assert forall|x: int, y: int| 0 <= x < y < s1.len() implies #[trigger] s1[x].0
                        != #[trigger] s1[y].0 by {
                        assert(s0[x].0 != s0[y].0);
                    }
                    assert forall|e: Entity| #[trigger] has_key(s1, e) == (has_key(s0, e) || e == entity) by {
                        if has_key(s0, e) {
                            let j = key_index(s0, e);
                            assert(s1[j].0 == e);
                        }
                        if has_key(s1, e) {
                            let j = key_index(s1, e);
                            assert(s0[j].0 == e);
                        }
                    }
                    assert forall|e: Entity| has_key(s1, e) && e != entity implies #[trigger] key_index(s1, e)
                        == key_index(s0, e) by {
                        lemma_key_index(s1, e, key_index(s0, e));
                    }
                    lemma_key_index(s1, entity, i as int);
                    assert(table(s1) =~= table(s0).insert(entity, entry));
                }
            },
            None => {
                self.voices.push((entity, entry));
                proof {
                    let s1 = self.voices@;
                    assert forall|x: int, y: int| 0 <= x < y < s1.len() implies #[trigger] s1[x].0
                        != #[trigger] s1[y].0 by {
                        if y == s0.len() {
                            assert(s0[x].0 != entity);
                        } else {
                            assert(s0[x].0 != s0[y].0);
                        }
                    }
                    assert forall|e: Entity| #[trigger] has_key(s1, e) == (has_key(s0, e) || e == entity) by {
                        if has_key(s0, e) {
                            let j = key_index(s0, e);
                            assert(s1[j].0 == e);
                        }
                        if has_key(s1, e) && e != entity {
                            let j = key_index(s1, e);
                            assert(s0[j].0 == e);
                        }
                        if e == entity {
                            assert(s1[s0.len() as int].0 == e);
                        }
                    }
                    assert forall|e: Entity| has_key(s1, e) && e != entity implies #[trigger] key_index(s1, e)
                        == key_index(s0, e) by {
                        lemma_key_index(s1, e, key_index(s0, e));
                    }
                    lemma_key_index(s1, entity, s0.len() as int);
                    assert(table(s1) =~= table(s0).insert(entity, entry));
                }
            },
        }
        proof {
            self.lemma_dom();
        }
    }

    /// Forgets the voice for `entity`, returning it if there was one.
    pub fn remove(&mut self, entity: Entity) -> (r: Option<VoiceEntry>)
        requires
            old(self).wf(),
        ensures
            final(self).wf(),
            r == (if old(self)@.dom().contains(entity) { Some(old(self)@[entity]) } else { None }),
            final(self)@ == old(self)@.remove(entity),
            final(self)@.dom().finite(),
    {
        let ghost s0 = self.voices@;
        let r = match self.find(entity) {
            Some(i) => {
                let (_, entry) = self.voices.remove(i);
                proof {
                    let s1 = self.voices@;
                    assert forall|x: int, y: int| 0 <= x < y < s1.len() implies #[trigger] s1[x].0
                        != #[trigger] s1[y].0 by {
                        let x0 = if x < i { x } else { x + 1 };
                        let y0 = if y < i { y } else { y + 1 };
                        assert(s0[x0].0 != s0[y0].0);
                    }
                    assert forall|e: Entity| #[trigger] has_key(s1, e) == (has_key(s0, e) && e != entity) by {
                        if has_key(s0, e) && e != entity {
                            let j = key_index(s0, e);
                            if j < i {
                                assert(s1[j].0 == e);
                            } else {
                                assert(s1[j - 1].0 == e);
                            }
                        }
                        if has_key(s1, e) {
                            let j = key_index(s1, e);
                            if j < i {
                                assert(s0[j].0 == e);
                                assert(s0[j].0 != s0[i as int].0);
                            } else {
                                assert(s0[j + 1].0 == e);
                                assert(s0[i as int].0 != s0[j + 1].0);
                            }
                        }
                    }
                    assert forall|e: Entity| has_key(s1, e) implies #[trigger] s1[key_index(s1, e)] == s0[key_index(
                        s0,
                        e,
                    )] by {
                        let j = key_index(s0, e);
                        if j < i {
                            lemma_key_index(s1, e, j);
                        } else {
                            lemma_key_index(s1, e, j - 1);
                        }
                    }
                    assert(table(s1) =~= table(s0).remove(entity));
                }
                Some(entry)
            },
            None => {
                proof {
                    assert(table(s0) =~= table(s0).remove(entity));
                }
                None
            },
        };
        proof {
            self.lemma_dom();
        }
        r
    }

    /// Every entity with a tracked voice, each once.
    pub fn entities(&self) -> (r: Vec<Entity>)
        requires
            self.wf(),
        ensures
            r@.no_duplicates(),
            r@.to_set() == self@.dom(),
            r@.len() == self@.dom().len(),
    {
        let mut out: Vec<Entity> = Vec::new();
        let mut i: usize = 0;
        while i < self.voices.len()
            invariant
                i <= self.voices@.len(),
                out@ == keys(self.voices@).take(i as int),
            decreases self.voices@.len() - i,
        {
            out.push(self.voices[i].0);
            i = i + 1;
            proof {
                assert(out@ =~= keys(self.voices@).take(i as int));
            }
        }
        proof {
            assert(out@ =~= keys(self.voices@));
            self.lemma_dom();
        }
        out
    }

    /// The number of tracked voices.
    pub fn voice_count(&self) -> (n: usize)
        requires
            self.wf(),
        ensures
            n == self@.dom().len(),
    {
        proof {
            self.lemma_dom();
        }
        self.voices.len()
    }

    /// Whether no voice is tracked.
    pub fn is_empty(&self) -> (r: bool)
        requires
            self.wf(),
        ensures
            r == (self@.dom().len() == 0),
    {
        self.voice_count() == 0
    }

    /// The tracked voices whose entity is not among `sources` (the live
    /// entities that still have an audio source): the voices to stop and
    /// forget, each once.
    pub fn stale_voices(&self, sources: &[Entity]) -> (r: Vec<(Entity, VoiceEntry)>)
        requires
            self.wf(),
        ensures
            forall|x: int|
                0 <= x < r@.len() ==> {
                    &&& self@.dom().contains((#[trigger] r@[x]).0)
                    &&& self@[r@[x].0] == r@[x].1
                    &&& !sources@.contains(r@[x].0)
                },
            forall|e: Entity|
                #[trigger] self@.dom().contains(e) && !sources@.contains(e) ==> keys(r@).contains(e),
            keys(r@).no_duplicates(),
    {
        let ghost s = self.voices@;
        let mut out: Vec<(Entity, VoiceEntry)> = Vec::new();
        let mut i: usize = 0;
        while i < self.voices.len()
            invariant
                i <= s.len(),
                s == self.voices@,
                keys_distinct(s),
                forall|x: int|
                    0 <= x < out@.len() ==> {
                        &&& has_key(s, (#[trigger] out@[x]).0)
                        &&& key_index(s, out@[x].0) < i
                        &&& s[key_index(s, out@[x].0)] == out@[x]
                        &&& !sources@.contains(out@[x].0)
                    },
                forall|j: int| 0 <= j < i && !sources@.contains(#[trigger] s[j].0) ==> keys(out@).contains(s[j].0),
                keys(out@).no_duplicates(),
            decreases s.len() - i,
        {
            let (e, v) = self.voices[i];
            let found = contains_entity(sources, e);
            if !found {
                let ghost o0 = out@;
                proof {
                    lemma_key_index(s, e, i as int);
                    assert forall|x: int| 0 <= x < o0.len() implies o0[x].0 != e by {
                        assert(key_index(s, o0[x].0) < i);
                    }
                }
                out.push((e, v));
                proof {
                    assert(keys(out@) =~= keys(o0).push(e));
                    assert forall|j: int| 0 <= j <= i && !sources@.contains(#[trigger] s[j].0) implies keys(
                        out@,
                    ).contains(s[j].0) by {
                        if j < i {
                            let w = choose|w: int| 0 <= w < keys(o0).len() && keys(o0)[w] == s[j].0;
                            assert(keys(out@)[w] == s[j].0);
                        } else {
                            assert(keys(out@)[o0.len() as int] == s[j].0);
                        }
                    }
                    assert forall|a: int, b: int| 0 <= a < keys(out@).len() && 0 <= b < keys(out@).len() && a != b
                        implies keys(out@)[a] != keys(out@)[b] by {
                        if a < o0.len() && b < o0.len() {
                            assert(keys(o0)[a] != keys(o0)[b]);
                        }
                    }
                }
            }
            i = i + 1;
        }
        proof {
            assert forall|x: int| 0 <= x < out@.len() implies {
                &&& self@.dom().contains((#[trigger] out@[x]).0)
                &&& self@[out@[x].0] == out@[x].1
                &&& !sources@.contains(out@[x].0)
            } by {
                assert(has_key(s, out@[x].0));
            }
            assert forall|e: Entity| #[trigger] self@.dom().contains(e) && !sources@.contains(e) implies keys(
                out@,
            ).contains(e) by {
                let j = key_index(s, e);
                assert(s[j].0 == e);
            }
        }
        out
    }

    /// Forgets every entity in `remove`, then records every pair of
    /// `upsert` in order.
    pub fn apply(&mut self, remove: &[Entity], upsert: &[(Entity, VoiceEntry)])
        requires
            old(self).wf(),
        ensures
            final(self).wf(),
            final(self)@ == apply_changes(old(self)@, remove@, upsert@),
            final(self)@.dom().finite(),
    {
        let ghost m0 = self@;
        let mut i: usize = 0;
        while i < remove.len()
            invariant
                i <= remove@.len(),
                self.wf(),
                self@ == m0.remove_keys(remove@.take(i as int).to_set()),
            decreases remove@.len() - i,
        {
            self.remove(remove[i]);
            i = i + 1;
            proof {
                assert(remove@.take(i as int).to_set() =~= remove@.take(i - 1).to_set().insert(remove@[i - 1]))
                    by {
                    assert(remove@.take(i as int) =~= remove@.take(i - 1).push(remove@[i - 1]));
                    remove@.take(i - 1).lemma_push_to_set_commute(remove@[i - 1]);
                }
            }
        }
        proof {
            assert(remove@.take(i as int) =~= remove@);
            assert(self@ =~= apply_changes(m0, remove@, upsert@.take(0)));
        }
        let mut j: usize = 0;
        while j < upsert.len()
            invariant
                j <= upsert@.len(),
                self.wf(),
                self@ == apply_changes(m0, remove@, upsert@.take(j as int)),
            decreases upsert@.len() - j,
        {
            let (e, v) = upsert[j];
            self.insert(e, v);
            j = j + 1;
            proof {
                assert(upsert@.take(j as int).drop_last() =~= upsert@.take(j - 1));
            }
        }
        proof {
            assert(upsert@.take(j as int) =~= upsert@);
            self.lemma_dom();
        }
    }
}

impl Default for AudioVoices {
    /// The same empty table as `AudioVoices::new`.
    fn default() -> (v: Self)
        ensures
            v.wf(),
            v@ == Map::<Entity, VoiceEntry>::empty(),
            v@.dom().finite(),
    {
        Self::new()
    }
}

/// What the trigger system does for one audio source this tick.
#[derive(Debug, Clone, Copy, PartialEq, Eq, Structural)]
pub enum VoiceStep {
    /// Nothing.
    Idle,
    /// Start a new voice for the source's (loaded) sound, then set its
    /// gain.
    Start,
    /// Keep the voice's gain current, resuming it first when `resume`.
    Refresh { handle: SourceHandle, resume: bool },
    /// Pause the voice.
    Pause { handle: SourceHandle },
    /// Stop the voice and forget it.
    Stop { handle: SourceHandle },
}

/// How a source's entry in the voice table changes after its step ran.
#[derive(Debug, Clone, Copy, PartialEq, Eq, Structural)]
pub enum VoiceChange {
    /// The entry stays as it was.
    Keep,
    /// The entry becomes this voice.
    Track(VoiceEntry),
    /// The entry is removed.
    Forget,
}

/// The step for a source whose playback intent is `state`, whose tracked
/// voice is `voice`, and whose sound is (or is not) loaded.
pub open spec fn voice_step(state: SourceState, voice: Option<VoiceEntry>, sound_loaded: bool) -> VoiceStep {
    match (state, voice) {
        (SourceState::Playing, None) => if sound_loaded {
            VoiceStep::Start
        } else {
            VoiceStep::Idle
        },
        (SourceState::Playing, Some(v)) => VoiceStep::Refresh { handle: v.handle, resume: v.paused },
        (SourceState::Paused, Some(v)) => if v.paused {
            VoiceStep::Idle
        } else {
            VoiceStep::Pause { handle: v.handle }
        },
        (SourceState::Stopped, Some(v)) => VoiceStep::Stop { handle: v.handle },
        (_, None) => VoiceStep::Idle,
    }
}

/// The table change once `step` ran: `started` is the voice a `Start`
/// obtained (if the backend started one), `acknowledged` whether the
/// backend accepted a resume or a pause.
pub open spec fn voice_change_after(step: VoiceStep, started: Option<SourceHandle>, acknowledged: bool) -> VoiceChange {
    match step {
        VoiceStep::Start => match started {
            Some(h) => VoiceChange::Track(VoiceEntry { handle: h, paused: false }),
            None => VoiceChange::Keep,
        },
        VoiceStep::Refresh { handle, resume } => if resume && acknowledged {
            VoiceChange::Track(VoiceEntry { handle, paused: false })
        } else {
            VoiceChange::Keep
        },
        VoiceStep::Pause { handle } => if acknowledged {
            VoiceChange::Track(VoiceEntry { handle, paused: true })
        } else {
            VoiceChange::Keep
        },
        VoiceStep::Stop { .. } => VoiceChange::Forget,
        VoiceStep::Idle => VoiceChange::Keep,
    }
}

/// Decides what the trigger system does for one audio source: a playing
/// source without a voice starts one once its sound is loaded; a playing
/// source with a voice keeps its gain current (resuming it if it was
/// paused); a paused source pauses its voice once; a stopped source stops
/// and forgets its voice.
pub fn plan_voice(state: SourceState, voice: Option<VoiceEntry>, sound_loaded: bool) -> (s: VoiceStep)
    ensures
        s == voice_step(state, voice, sound_loaded),
{
    match (state, voice) {
        (SourceState::Playing, None) => if sound_loaded {
            VoiceStep::Start
        } else {
            VoiceStep::Idle
        },
        (SourceState::Playing, Some(v)) => VoiceStep::Refresh { handle: v.handle, resume: v.paused },
        (SourceState::Paused, Some(v)) => if v.paused {
            VoiceStep::Idle
        } else {
            VoiceStep::Pause { handle: v.handle }
        },
        (SourceState::Stopped, Some(v)) => VoiceStep::Stop { handle: v.handle },
        (_, None) => VoiceStep::Idle,
    }
}

/// The voice-table change after `step` ran with the backend's answers.
pub fn change_after(step: VoiceStep, started: Option<SourceHandle>, acknowledged: bool) -> (c: VoiceChange)
    ensures
        c == voice_change_after(step, started, acknowledged),
{
    match step {
        VoiceStep::Start => match started {
            Some(h) => VoiceChange::Track(VoiceEntry { handle: h, paused: false }),
            None => VoiceChange::Keep,
        },
        VoiceStep::Refresh { handle, resume } => if resume && acknowledged {
            VoiceChange::Track(VoiceEntry { handle, paused: false })
        } else {
            VoiceChange::Keep
        },
        VoiceStep::Pause { handle } => if acknowledged {
            VoiceChange::Track(VoiceEntry { handle, paused: true })
        } else {
            VoiceChange::Keep
        },
        VoiceStep::Stop { .. } => VoiceChange::Forget,
        VoiceStep::Idle => VoiceChange::Keep,
    }
}

/// A source never gets a second voice: only a source with no tracked
/// voice starts one, and only when its sound is loaded.
pub proof fn law_at_most_one_voice_per_source(state: SourceState, voice: Option<VoiceEntry>, loaded: bool)
    ensures
        voice_step(state, voice, loaded) == VoiceStep::Start <==> (state == SourceState::Playing
            && voice is None && loaded),
{
}

/// A stopped source's voice is always stopped and forgotten, whether or
/// not its sound is loaded and whatever the backend answers.
pub proof fn law_stopped_source_forgets_its_voice(
    v: VoiceEntry,
    loaded: bool,
    started: Option<SourceHandle>,
    ack: bool,
)
    ensures
        voice_step(SourceState::Stopped, Some(v), loaded) == (VoiceStep::Stop { handle: v.handle }),
        voice_change_after(voice_step(SourceState::Stopped, Some(v), loaded), started, ack)
            == VoiceChange::Forget,
{
}

/// Whether a sound is loaded matters only for starting a voice: for a
/// source that already has a voice, the step is the same either way.
pub proof fn law_loading_matters_only_for_starting(state: SourceState, v: VoiceEntry, l1: bool, l2: bool)
    ensures
        voice_step(state, Some(v), l1) == voice_step(state, Some(v), l2),
{
}

/// A playing source with a voice refreshes that voice's gain every tick,
/// resuming it exactly when it is recorded as paused; once the backend
/// accepts, the voice is tracked as playing, and if it refuses a resume
/// the record stays as it was.
pub proof fn law_playing_voice_is_refreshed_every_tick(v: VoiceEntry, loaded: bool, ack: bool)
    ensures
        voice_step(SourceState::Playing, Some(v), loaded) matches VoiceStep::Refresh { handle, resume }
            && handle == v.handle && resume == v.paused,
        ack ==> voice_change_after(voice_step(SourceState::Playing, Some(v), loaded), None, ack)
            == (if v.paused { VoiceChange::Track(VoiceEntry { handle: v.handle, paused: false }) } else {
            VoiceChange::Keep
        }),
        !ack ==> voice_change_after(voice_step(SourceState::Playing, Some(v), loaded), None, ack)
            == VoiceChange::Keep,
{
}

/// Every step taken for a source with a voice acts on that voice: a
/// source with a voice never starts another one, and any step that names
/// a voice names the tracked one.
pub proof fn law_steps_act_on_the_tracked_voice(state: SourceState, v: VoiceEntry, loaded: bool)
    ensures
        voice_step(state, Some(v), loaded) != VoiceStep::Start,
        voice_step(state, Some(v), loaded) matches VoiceStep::Refresh { handle, .. } ==> handle == v.handle,
        voice_step(state, Some(v), loaded) matches VoiceStep::Pause { handle } ==> handle == v.handle,
        voice_step(state, Some(v), loaded) matches VoiceStep::Stop { handle } ==> handle == v.handle,
        voice_step(state, Some(v), loaded) is Idle <==> (state == SourceState::Paused && v.paused),
{
}

/// Pausing is idempotent: once a voice is recorded as paused, a paused
/// source issues nothing more, and the table keeps the voice.
pub proof fn law_pause_is_idempotent(handle: SourceHandle, loaded: bool, started: Option<SourceHandle>, ack: bool)
    ensures
        voice_change_after(
            voice_step(SourceState::Paused, Some(VoiceEntry { handle, paused: false }), loaded),
            started,
            true,
        ) == VoiceChange::Track(VoiceEntry { handle, paused: true }),
        voice_step(SourceState::Paused, Some(VoiceEntry { handle, paused: true }), loaded) == VoiceStep::Idle,
{
}

/// Forgetting the stale voices leaves no voice behind for an entity that
/// no longer has a live audio source.
pub proof fn law_reaping_leaves_no_orphans(m: Map<Entity, VoiceEntry>, stale: Seq<Entity>, sources: Seq<Entity>)
    requires
        forall|e: Entity| #[trigger] m.dom().contains(e) && !sources.contains(e) ==> stale.contains(e),
    ensures
        forall|e: Entity| #[trigger] apply_changes(m, stale, seq![]).dom().contains(e) ==> sources.contains(e),
{
    assert forall|e: Entity| #[trigger] apply_changes(m, stale, seq![]).dom().contains(e) implies sources.contains(e) by {
        if !sources.contains(e) {
            assert(stale.contains(e));
            assert(stale.to_set().contains(e));
        }
    }
}

} // verus!
