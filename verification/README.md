# canary

The core libraries of the Canary game engine, written in Verus: each
operation carries a contract, and Verus proves that the code meets it.

## Layout

- `src/ecs` — the entity-component-system `World`: generational entity
  handles, archetype storage, queries with change detection, resources
  and stable schema identities. `model.rs` gives the world's abstract
  state and the laws proved over it (what a read gives back after a
  write, that a recycled slot never revives a stale handle, ...).
- `src/assets` — asset handles and the generational `AssetStore`,
  content-addressed `AssetId`s (SHA-256) with their hexadecimal form,
  PNG decoding into RGBA8 `Texture`s, the accept/reject rules of the GLB
  mesh loader, file budgets and root confinement, and `AssetError`.
- `src/audio` — voice handles, the voice bookkeeping of a backend, the
  voice table of the audio trigger system and the planner that decides,
  per source and tick, which backend call to make.
- `src/loc` — localization keys (Fluent identifiers), the rules for which
  locale files are read, Fluent parsing, and where a key resolves in a
  locale fallback chain.
- `src/runtime` — the `App` that initializes, ticks and shuts down its
  subsystems in a proved order.
- `src/text.rs` — decimal and hexadecimal text used by the error
  messages and ids.
- `app/` — what cannot be verified: file system access, wall-clock frame
  timing, logging setup, the floating-point mesh and audio-gain code, the
  Fluent bundles, and the audio trigger system's loop around the backend.
- `tests/` — executable tests of the library.
