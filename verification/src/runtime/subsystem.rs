use vstd::prelude::*;

use crate::runtime::error::SubsystemError;

verus! {

/// One engine subsystem driven by an `App`: initialized once in
/// registration order, ticked once per frame, shut down once in reverse
/// order.
///
/// Every method but `name` has a do-nothing default, so a subsystem
/// overrides only the phases it cares about.
pub trait Subsystem: 'static {
    /// A short name for diagnostics; it names the subsystem in a
    /// `CoreError` when `init` fails.
    fn name(&self) -> &str;

    /// Acquires whatever the subsystem needs. An error stops the app
    /// from starting.
    fn init(&mut self) -> (r: Result<(), SubsystemError>)
        default_ensures
            r is Ok,
    {
        Ok(())
    }

    /// Advances the subsystem by `dt`.
    fn tick(&mut self, dt: std::time::Duration) {
    }

    /// Releases what `init` acquired.
    fn shutdown(&mut self) {
    }
}

/// One call made on a subsystem: `init` with whether it succeeded,
/// `tick`, or `shutdown`.
pub enum Phase {
    Init { succeeded: bool },
    Tick,
    Shutdown,
}

/// A subsystem registered with an app, together with the record of every
/// call made on it. The subsystem is reached only through the methods
/// below, so each call on it is recorded exactly once.
pub struct Registered {
    subsystem: Box<dyn Subsystem>,
    phases: Ghost<Seq<Phase>>,
}

impl Registered {
    /// The calls made on this subsystem, in order.
    pub closed spec fn phases(&self) -> Seq<Phase> {
        self.phases@
    }

    /// Registers `subsystem`, with no calls made on it yet.
    pub fn new(subsystem: Box<dyn Subsystem>) -> (r: Self)
        ensures
            r.phases() == Seq::<Phase>::empty(),
    {
        Registered { subsystem, phases: Ghost(Seq::empty()) }
    }

    /// The subsystem's name.
    pub fn name(&self) -> &str {
        self.subsystem.name()
    }

    /// Calls `init` on the subsystem, recording the call and its outcome.
    pub fn init(&mut self) -> (r: Result<(), SubsystemError>)
        ensures
            final(self).phases() == old(self).phases().push(Phase::Init { succeeded: r is Ok }),
    {
        let r = self.subsystem.init();
        self.phases = Ghost(self.phases@.push(Phase::Init { succeeded: r is Ok }));
        r
    }

    /// Calls `tick` on the subsystem, recording the call.
    pub fn tick(&mut self, dt: std::time::Duration)
        ensures
            final(self).phases() == old(self).phases().push(Phase::Tick),
    {
        self.subsystem.tick(dt);
        self.phases = Ghost(self.phases@.push(Phase::Tick));
    }

    /// Calls `shutdown` on the subsystem, recording the call.
    pub fn shutdown(&mut self)
        ensures
            final(self).phases() == old(self).phases().push(Phase::Shutdown),
    {
        self.subsystem.shutdown();
        self.phases = Ghost(self.phases@.push(Phase::Shutdown));
    }
}

} // verus!

