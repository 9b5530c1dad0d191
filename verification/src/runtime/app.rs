use vstd::prelude::*;

use crate::runtime::error::CoreError;
use crate::runtime::subsystem::{Phase, Registered, Subsystem};

verus! {

/// One call an `App` made into one of its subsystems, identified by the
/// subsystem's registration position.
pub enum SubsystemCall {
    /// `init`, and whether it succeeded.
    Init { index: nat, succeeded: bool },
    /// `tick`.
    Tick { index: nat },
    /// `shutdown`.
    Shutdown { index: nat },
}

/// The `init` calls of a start-up over `n` subsystems in which the first
/// `k` succeed: each of those in order, then, when `k < n`, the one
/// failing call on subsystem `k`; nothing after it is initialized.
pub open spec fn init_calls(k: nat, n: nat) -> Seq<SubsystemCall> {
    Seq::new(k, |i: int| SubsystemCall::Init { index: i as nat, succeeded: true }) + if k < n {
        seq![SubsystemCall::Init { index: k, succeeded: false }]
    } else {
        seq![]
    }
}

/// One frame over `n` subsystems: each ticked once, in registration
/// order.
pub open spec fn tick_round(n: nat) -> Seq<SubsystemCall> {
    Seq::new(n, |i: int| SubsystemCall::Tick { index: i as nat })
}

/// `rounds` frames over `n` subsystems.
pub open spec fn tick_rounds(rounds: nat, n: nat) -> Seq<SubsystemCall>
    decreases rounds,
{
    if rounds == 0 {
        seq![]
    } else {
        tick_rounds((rounds - 1) as nat, n) + tick_round(n)
    }
}

/// Shutting down the first `k` subsystems: in reverse registration
/// order, the last one initialized first.
pub open spec fn shutdown_calls(k: nat) -> Seq<SubsystemCall> {
    Seq::new(k, |i: int| SubsystemCall::Shutdown { index: (k - 1 - i) as nat })
}

/// The calls a start-up over `n` subsystems, in which the first `k`
/// succeed, makes on subsystem `j`: a successful `init` on each of the
/// first `k`, the one failed `init` on subsystem `k` when `k < n`, and
/// nothing on any subsystem after it.
pub open spec fn init_phases(j: int, k: nat, n: nat) -> Seq<Phase> {
    if j < k {
        seq![Phase::Init { succeeded: true }]
    } else if j == k && k < n {
        seq![Phase::Init { succeeded: false }]
    } else {
        seq![]
    }
}

/// `rounds` ticks.
pub open spec fn tick_phases(rounds: nat) -> Seq<Phase> {
    Seq::new(rounds, |i: int| Phase::Tick)
}

/// The calls shutting down the first `k` subsystems makes on subsystem
/// `j`: one `shutdown` if it is among them, nothing otherwise.
pub open spec fn shutdown_phases(j: int, k: nat) -> Seq<Phase> {
    if j < k {
        seq![Phase::Shutdown]
    } else {
        seq![]
    }
}

/// The calls a run of `rounds` frames over `n` subsystems, in which the
/// first `k` initialize, makes on subsystem `j`: its start-up calls, then
/// (when all initialized) one tick per frame, then its shutdown.
pub open spec fn run_phases(j: int, k: nat, n: nat, rounds: nat) -> Seq<Phase> {
    init_phases(j, k, n) + (if k == n {
        tick_phases(rounds)
    } else {
        seq![]
    }) + shutdown_phases(j, k)
}

/// The application: an ordered list of subsystems driven through
/// initialize, tick and shut down, plus the plugin directories it was
/// configured with.
pub struct App {
    subsystems: Vec<Registered>,
    plugin_dirs: Vec<String>,
    calls: Ghost<Seq<SubsystemCall>>,
}

impl App {
    /// Every call this app has made into its subsystems, in order.
    pub closed spec fn calls(&self) -> Seq<SubsystemCall> {
        self.calls@
    }

    /// How many subsystems are registered.
    pub closed spec fn count(&self) -> nat {
        self.subsystems@.len()
    }

    /// The registered subsystems, in registration order.
    pub closed spec fn registered(&self) -> Seq<Registered> {
        self.subsystems@
    }

    /// The calls made on subsystem `j`, in order.
    pub closed spec fn phases_of(&self, j: int) -> Seq<Phase> {
        self.subsystems@[j].phases()
    }

    /// The plugin directories, in the order they were added.
    pub closed spec fn dirs(&self) -> Seq<Seq<char>> {
        self.plugin_dirs@.map_values(|d: String| d@)
    }

    /// An app with no subsystems and no plugin directories.
    pub fn new() -> (a: Self)
        ensures
            a.count() == 0,
            a.dirs() == Seq::<Seq<char>>::empty(),
            a.calls() == Seq::<SubsystemCall>::empty(),
    {
        let a = App { subsystems: Vec::new(), plugin_dirs: Vec::new(), calls: Ghost(Seq::empty()) };
        assert(a.dirs() =~= Seq::<Seq<char>>::empty());
        a
    }

    /// Registers `subsystem` after every subsystem registered so far.
    pub fn add_subsystem<S: Subsystem>(&mut self, subsystem: S) -> (r: &mut Self)
        ensures
            r.count() == old(self).count() + 1,
            r.registered().take(old(self).count() as int) == old(self).registered(),
            r.phases_of(old(self).count() as int) == Seq::<Phase>::empty(),
            r.dirs() == old(self).dirs(),
            r.calls() == old(self).calls(),
            *final(self) == *final(r),
    {
        let boxed: Box<dyn Subsystem> = Box::new(subsystem);
        let boxed = Registered::new(boxed);
        let ghost before = self.subsystems@;
        self.subsystems.push(boxed);
        proof {
            assert(self.subsystems@ == before.push(boxed));
            vstd::seq::axiom_seq_push_len(before, boxed);
            assert forall|j: int| 0 <= j < before.len() implies self.subsystems@[j] == before[j] by {
                vstd::seq::axiom_seq_push_index_different(before, boxed, j);
            }
            assert(self.registered().take(old(self).count() as int) =~= old(self).registered());
        }
        self
    }

    /// Records a directory to load plugins from, verbatim.
    pub fn add_plugin_dir(&mut self, dir: &str) -> (r: &mut Self)
        ensures
            r.dirs() == old(self).dirs().push(dir@),
            r.count() == old(self).count(),
            r.calls() == old(self).calls(),
            *final(self) == *final(r),
    {
        self.plugin_dirs.push(dir.to_owned());
        proof {
            assert(self.plugin_dirs@.map_values(|d: String| d@) =~= old(self).plugin_dirs@.map_values(
                |d: String| d@,
            ).push(dir@));
        }
        self
    }

    /// The plugin directories, in the order they were added.
    pub fn plugin_dirs(&self) -> (r: &[String])
        ensures
            r@.map_values(|d: String| d@) == self.dirs(),
    {
        self.plugin_dirs.as_slice()
    }

    /// How many subsystems are registered.
    pub fn subsystem_count(&self) -> (n: usize)
        ensures
            n == self.count(),
    {
        self.subsystems.len()
    }

    /// Calls `init` on subsystem `i` and records the call with its outcome.
    fn init_one(&mut self, i: usize) -> (r: Result<(), CoreError>)
        requires
            i < old(self).count(),
        ensures
            final(self).calls() == old(self).calls().push(SubsystemCall::Init { index: i as nat, succeeded: r is Ok }),
            r matches Err(e) ==> e matches CoreError::SubsystemInit { .. },
            final(self).count() == old(self).count(),
            final(self).dirs() == old(self).dirs(),
            forall|j: int|
                0 <= j < old(self).count() ==> #[trigger] final(self).phases_of(j) == if j == i {
                    old(self).phases_of(j).push(Phase::Init { succeeded: r is Ok })
                } else {
                    old(self).phases_of(j)
                },
    {
        let name = self.subsystems[i].name().to_owned();
        let result = self.subsystems[i].init();
        let ok = result.is_ok();
        self.calls = Ghost(self.calls@.push(SubsystemCall::Init { index: i as nat, succeeded: ok }));
        match result {
            Ok(()) => Ok(()),
            Err(source) => Err(CoreError::SubsystemInit { name, source }),
        }
    }

    /// Calls `tick` on subsystem `i` and records the call.
    fn tick_one(&mut self, i: usize, dt: std::time::Duration)
        requires
            i < old(self).count(),
        ensures
            final(self).calls() == old(self).calls().push(SubsystemCall::Tick { index: i as nat }),
            final(self).count() == old(self).count(),
            final(self).dirs() == old(self).dirs(),
            forall|j: int|
                0 <= j < old(self).count() ==> #[trigger] final(self).phases_of(j) == if j == i {
                    old(self).phases_of(j).push(Phase::Tick)
                } else {
                    old(self).phases_of(j)
                },
    {
        self.subsystems[i].tick(dt);
        self.calls = Ghost(self.calls@.push(SubsystemCall::Tick { index: i as nat }));
    }

    /// Calls `shutdown` on subsystem `i` and records the call.
    fn shutdown_one(&mut self, i: usize)
        requires
            i < old(self).count(),
        ensures
            final(self).calls() == old(self).calls().push(SubsystemCall::Shutdown { index: i as nat }),
            final(self).count() == old(self).count(),
            final(self).dirs() == old(self).dirs(),
            forall|j: int|
                0 <= j < old(self).count() ==> #[trigger] final(self).phases_of(j) == if j == i {
                    old(self).phases_of(j).push(Phase::Shutdown)
                } else {
                    old(self).phases_of(j)
                },
    {
        self.subsystems[i].shutdown();
        self.calls = Ghost(self.calls@.push(SubsystemCall::Shutdown { index: i as nat }));
    }

    /// Initializes every subsystem in registration order, stopping at the
    /// first failure. Returns how many initialized successfully (exactly
    /// those must later be shut down) and the first failure, naming the
    /// subsystem that failed.
    pub fn init_all(&mut self) -> (r: (usize, Result<(), CoreError>))
        ensures
            r.0 <= old(self).count(),
            r.1 is Ok <==> r.0 == old(self).count(),
            r.1 matches Err(e) ==> e matches CoreError::SubsystemInit { .. },
            final(self).calls() == old(self).calls() + init_calls(r.0 as nat, old(self).count()),
            final(self).count() == old(self).count(),
            final(self).dirs() == old(self).dirs(),
            forall|j: int|
                0 <= j < old(self).count() ==> #[trigger] final(self).phases_of(j) == old(self).phases_of(j)
                    + init_phases(j, r.0 as nat, old(self).count()),
    {
        let ghost c0 = self.calls@;
        let n = self.subsystems.len();
        let mut i: usize = 0;
        while i < n
            invariant
                i <= n,
                n == self.subsystems@.len(),
                n == old(self).count(),
                self.dirs() == old(self).dirs(),
                self.calls@ == c0 + Seq::new(
                    i as nat,
                    |j: int| SubsystemCall::Init { index: j as nat, succeeded: true },
                ),
                c0 == old(self).calls(),
                forall|j: int|
                    0 <= j < n ==> #[trigger] self.phases_of(j) == old(self).phases_of(j) + init_phases(
                        j,
                        i as nat,
                        i as nat,
                    ),
            decreases n - i,
        {
            let result = self.init_one(i);
            match result {
                Ok(()) => {
                    proof {
                        assert(self.calls@ =~= c0 + Seq::new(
                            (i + 1) as nat,
                            |j: int| SubsystemCall::Init { index: j as nat, succeeded: true },
                        ));
                        assert forall|j: int| 0 <= j < n implies #[trigger] self.phases_of(j) == old(self).phases_of(j)
                            + init_phases(j, (i + 1) as nat, (i + 1) as nat) by {
                            if j == i {
                                assert(old(self).phases_of(j) + init_phases(j, i as nat, i as nat) =~= old(self).phases_of(j));
                                assert(old(self).phases_of(j).push(Phase::Init { succeeded: true }) =~= old(self).phases_of(j)
                                    + init_phases(j, (i + 1) as nat, (i + 1) as nat));
                            }
                        }
                    }
                    i = i + 1;
                },
                Err(e) => {
                    proof {
                        assert(self.calls@ =~= c0 + init_calls(i as nat, n as nat));
                        assert forall|j: int| 0 <= j < n implies #[trigger] self.phases_of(j) == old(self).phases_of(j)
                            + init_phases(j, i as nat, n as nat) by {
                            if j == i {
                                assert(old(self).phases_of(j) + init_phases(j, i as nat, i as nat) =~= old(self).phases_of(j));
                                assert(old(self).phases_of(j).push(Phase::Init { succeeded: false }) =~= old(self).phases_of(j)
                                    + init_phases(j, i as nat, n as nat));
                            } else {
                                assert(init_phases(j, i as nat, i as nat) =~= init_phases(j, i as nat, n as nat));
                            }
                        }
                    }
                    return (i, Err(e));
                },
            }
        }
        proof {
            assert(self.calls@ =~= c0 + init_calls(n as nat, n as nat));
        }
        (n, Ok(()))
    }

    /// Ticks every subsystem once, in registration order.
    pub fn tick_all(&mut self, dt: std::time::Duration)
        ensures
            final(self).calls() == old(self).calls() + tick_round(old(self).count()),
            final(self).count() == old(self).count(),
            final(self).dirs() == old(self).dirs(),
            forall|j: int|
                0 <= j < old(self).count() ==> #[trigger] final(self).phases_of(j) == old(self).phases_of(j).push(
                    Phase::Tick,
                ),
    {
        let ghost c0 = self.calls@;
        let n = self.subsystems.len();
        let mut i: usize = 0;
        while i < n
            invariant
                i <= n,
                n == self.subsystems@.len(),
                n == old(self).count(),
                self.dirs() == old(self).dirs(),
                self.calls@ == c0 + tick_round(i as nat),
                c0 == old(self).calls(),
                forall|j: int|
                    0 <= j < n ==> #[trigger] self.phases_of(j) == if j < i {
                        old(self).phases_of(j).push(Phase::Tick)
                    } else {
                        old(self).phases_of(j)
                    },
            decreases n - i,
        {
            self.tick_one(i, dt);
            proof {
                assert(self.calls@ =~= c0 + tick_round((i + 1) as nat));
            }
            i = i + 1;
        }
    }

    /// Shuts down the first `initialized` subsystems, in reverse
    /// registration order.
    pub fn shutdown_all(&mut self, initialized: usize)
        requires
            initialized <= old(self).count(),
        ensures
            final(self).calls() == old(self).calls() + shutdown_calls(initialized as nat),
            final(self).count() == old(self).count(),
            final(self).dirs() == old(self).dirs(),
            forall|j: int|
                0 <= j < old(self).count() ==> #[trigger] final(self).phases_of(j) == old(self).phases_of(j)
                    + shutdown_phases(j, initialized as nat),
    {
        let ghost c0 = self.calls@;
        let mut k: usize = initialized;
        while k > 0
            invariant
                k <= initialized,
                initialized <= self.subsystems@.len(),
                self.subsystems@.len() == old(self).count(),
                self.dirs() == old(self).dirs(),
                self.calls@ == c0 + Seq::new(
                    (initialized - k) as nat,
                    |i: int| SubsystemCall::Shutdown { index: (initialized - 1 - i) as nat },
                ),
                c0 == old(self).calls(),
                forall|j: int|
                    0 <= j < self.subsystems@.len() ==> #[trigger] self.phases_of(j) == if k <= j < initialized {
                        old(self).phases_of(j).push(Phase::Shutdown)
                    } else {
                        old(self).phases_of(j)
                    },
            decreases k,
        {
            k = k - 1;
            self.shutdown_one(k);
            proof {
                assert(self.calls@ =~= c0 + Seq::new(
                    (initialized - k) as nat,
                    |i: int| SubsystemCall::Shutdown { index: (initialized - 1 - i) as nat },
                ));
            }
        }
        proof {
            assert(self.calls@ =~= c0 + shutdown_calls(initialized as nat));
            assert forall|j: int| 0 <= j < old(self).count() implies #[trigger] self.phases_of(j) == old(self).phases_of(j)
                + shutdown_phases(j, initialized as nat) by {
                if j < initialized {
                    assert(old(self).phases_of(j).push(Phase::Shutdown) =~= old(self).phases_of(j) + shutdown_phases(
                        j,
                        initialized as nat,
                    ));
                } else {
                    assert(old(self).phases_of(j) =~= old(self).phases_of(j) + shutdown_phases(j, initialized as nat));
                }
            }
        }
    }

    /// Runs the app for exactly `ticks` frames, passing the same fixed
    /// `dt` to every tick.
    ///
    /// Subsystems initialize in registration order; if one fails, no
    /// frame runs, the ones that already initialized are shut down in
    /// reverse order, and the failure is returned. Otherwise every frame
    /// ticks each subsystem in order, and then all are shut down in
    /// reverse order.
    pub fn run_for(&mut self, ticks: u32, dt: std::time::Duration) -> (r: Result<(), CoreError>)
        ensures
            final(self).count() == old(self).count(),
            final(self).dirs() == old(self).dirs(),
            exists|k: nat|
                #![trigger init_calls(k, old(self).count())]
                k <= old(self).count() && (r is Ok <==> k == old(self).count()) && (r matches Err(e)
                    ==> e matches CoreError::SubsystemInit { .. }) && final(self).calls()
                    == old(self).calls() + init_calls(k, old(self).count()) + (if k == old(self).count() {
                    tick_rounds(ticks as nat, old(self).count())
                } else {
                    Seq::<SubsystemCall>::empty()
                }) + shutdown_calls(k) && (forall|j: int|
                    0 <= j < old(self).count() ==> #[trigger] final(self).phases_of(j) == old(self).phases_of(j)
                        + run_phases(j, k, old(self).count(), ticks as nat)),
    {
        let ghost c0 = self.calls@;
        let ghost n = self.count();
        let (initialized, init_result) = self.init_all();
        let ghost c1 = self.calls@;
        if init_result.is_ok() {
            proof {
                assert forall|j: int| 0 <= j < n implies #[trigger] self.phases_of(j) == old(self).phases_of(j)
                    + init_phases(j, n, n) + tick_phases(0) by {
                    assert(old(self).phases_of(j) + init_phases(j, n, n) =~= old(self).phases_of(j) + init_phases(
                        j,
                        n,
                        n,
                    ) + tick_phases(0));
                }
            }
            let mut t: u32 = 0;
            while t < ticks
                invariant
                    t <= ticks,
                    self.count() == n,
                    self.dirs() == old(self).dirs(),
                    self.calls@ == c1 + tick_rounds(t as nat, n),
                    forall|j: int|
                        0 <= j < n ==> #[trigger] self.phases_of(j) == old(self).phases_of(j) + init_phases(j, n, n)
                            + tick_phases(t as nat),
                decreases ticks - t,
            {
                self.tick_all(dt);
                proof {
                    assert(self.calls@ =~= c1 + tick_rounds((t + 1) as nat, n));
                    assert forall|j: int| 0 <= j < n implies #[trigger] self.phases_of(j) == old(self).phases_of(j)
                        + init_phases(j, n, n) + tick_phases((t + 1) as nat) by {
                        assert((old(self).phases_of(j) + init_phases(j, n, n) + tick_phases(t as nat)).push(Phase::Tick)
                            =~= old(self).phases_of(j) + init_phases(j, n, n) + tick_phases((t + 1) as nat));
                    }
                }
                t = t + 1;
            }
        }
        let ghost c2 = self.calls@;
        self.shutdown_all(initialized);
        proof {
            let k = initialized as nat;
            if k == n {
                assert(self.calls@ =~= c0 + init_calls(k, n) + tick_rounds(ticks as nat, n) + shutdown_calls(k));
            } else {
                assert(self.calls@ =~= c0 + init_calls(k, n) + Seq::<SubsystemCall>::empty() + shutdown_calls(k));
            }
            assert forall|j: int| 0 <= j < n implies #[trigger] self.phases_of(j) == old(self).phases_of(j)
                + run_phases(j, k, n, ticks as nat) by {
                if k == n {
                    assert(old(self).phases_of(j) + init_phases(j, n, n) + tick_phases(ticks as nat) + shutdown_phases(j, k)
                        =~= old(self).phases_of(j) + run_phases(j, k, n, ticks as nat));
                } else {
                    assert(old(self).phases_of(j) + init_phases(j, k, n) + shutdown_phases(j, k) =~= old(self).phases_of(j)
                        + run_phases(j, k, n, ticks as nat));
                }
            }
        }
        init_result
    }
}

/// What a run does to each subsystem: a subsystem registered after the
/// one whose start-up failed is never called at all; the failing one gets
/// exactly its failed `init`; every subsystem that initialized is first
/// initialized, last shut down, ticked once per frame in between when
/// every start-up succeeded, and not ticked at all otherwise.
pub proof fn law_each_subsystem_sees_a_proper_lifecycle(j: int, k: nat, n: nat, rounds: nat)
    requires
        0 <= j < n,
        k <= n,
    ensures
        k < j ==> run_phases(j, k, n, rounds).len() == 0,
        j == k && k < n ==> run_phases(j, k, n, rounds) == seq![Phase::Init { succeeded: false }],
        j < k ==> {
            let p = run_phases(j, k, n, rounds);
            &&& p.len() == (if k == n { rounds + 2 } else { 2 })
            &&& p[0] == Phase::Init { succeeded: true }
            &&& p[p.len() - 1] == Phase::Shutdown
            &&& forall|i: int| 0 < i < p.len() - 1 ==> #[trigger] p[i] == Phase::Tick
        },
{
    if j < k {
        let p = run_phases(j, k, n, rounds);
        if k == n {
            assert forall|i: int| 0 < i < p.len() - 1 implies #[trigger] p[i] == Phase::Tick by {
                assert(p[i] == tick_phases(rounds)[i - 1]);
            }
        }
    }
}

impl Default for App {
    /// The same empty app as `App::new`.
    fn default() -> (a: Self)
        ensures
            a.count() == 0,
            a.dirs() == Seq::<Seq<char>>::empty(),
            a.calls() == Seq::<SubsystemCall>::empty(),
    {
        Self::new()
    }
}

/// Shutting down mirrors start-up: the subsystems that initialized are
/// each shut down exactly once, the last one initialized first, and no
/// other subsystem is shut down.
pub proof fn law_shutdown_mirrors_startup(k: nat)
    ensures
        shutdown_calls(k).len() == k,
        forall|i: int|
            0 <= i < k ==> #[trigger] shutdown_calls(k)[k - 1 - i] == (SubsystemCall::Shutdown { index: i as nat }),
        forall|j: int|
            0 <= j < k ==> ((#[trigger] shutdown_calls(k)[j]) matches SubsystemCall::Shutdown { index } && index
                < k),
{
}

/// A start-up that fails at subsystem `k` calls `init` on exactly the
/// subsystems before it and on `k` itself, in order, and on none after.
pub proof fn law_failed_startup_stops_at_the_failure(k: nat, n: nat)
    requires
        k < n,
    ensures
        init_calls(k, n).len() == k + 1,
        init_calls(k, n)[k as int] == (SubsystemCall::Init { index: k, succeeded: false }),
        forall|i: int|
            0 <= i < k ==> #[trigger] init_calls(k, n)[i] == (SubsystemCall::Init { index: i as nat, succeeded: true }),
{
}

} // verus!
