use vstd::prelude::*;

verus! {

/// A component type with a stable, language-independent schema identity
/// (such as `"canary:transform/position@1"`), for components that cross
/// a plugin, replication or marketplace boundary. The identity is
/// registered against the host's component kind with
/// `World::register_component`.
pub trait CanaryComponent {
    /// The stable, namespaced schema identity.
    const SCHEMA_ID: &'static str;
}

} // verus!
