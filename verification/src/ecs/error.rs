use vstd::prelude::*;
use vstd::string::StringExecFns;

verus! {

/// Errors returned by `World` operations.
#[derive(Debug, Clone, Copy, PartialEq, Eq)]
pub enum EcsError {
    /// The given entity was never spawned in this `World`, or was
    /// despawned since the handle was obtained (its slot may since have
    /// been recycled for a different entity).
    StaleOrUnknownEntity,
    /// `World::register_component` was called with a schema id that is
    /// already registered to a different component kind.
    DuplicateSchemaId(&'static str),
    /// A parent assignment would create a hierarchy cycle.
    HierarchyCycle,
}

impl EcsError {
    /// The human-readable message for this error; a schema id is shown
    /// in double quotes.
    pub fn message(&self) -> (r: String)
        ensures
            match self {
                EcsError::StaleOrUnknownEntity => r@
                    == "entity is stale (despawned) or was never spawned in this World"@,
                EcsError::DuplicateSchemaId(id) => r@ == "schema id \""@ + id@
                    + "\" is already registered to a different component type"@,
                EcsError::HierarchyCycle => r@ == "parent assignment would create a hierarchy cycle"@,
            },
    {
        match self {
            EcsError::StaleOrUnknownEntity => String::from_str(
                "entity is stale (despawned) or was never spawned in this World",
            ),
            EcsError::DuplicateSchemaId(id) => {
                let mut s = String::from_str("schema id \"");
                s.append(id);
                s.append("\" is already registered to a different component type");
                s
            },
            EcsError::HierarchyCycle => String::from_str("parent assignment would create a hierarchy cycle"),
        }
    }
}

} // verus!
