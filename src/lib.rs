//! The core of a retained-mode UI toolkit: generational entity identifiers, the
//! tree of entities with its traversals, the per-entity property store, and the
//! invalidation flags and dispatcher that decide which passes must run.

pub mod entity;
pub mod hierarchy;
pub mod prop;
pub mod state;
pub mod style;
