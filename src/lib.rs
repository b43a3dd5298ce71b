//! Records that track which of their fields are loaded, set or persisted and derive
//! their insert, update and delete statements from that state; and a schema-migration
//! engine that discovers versioned migrations, plans what to apply or revert against
//! the stored versions, and steps a caller through the run.
pub mod adapter;
pub mod discovery;
pub mod field_state;
pub mod hydrate;
pub mod migration;
pub mod model;
pub mod registry;
pub mod runner;
pub mod store;
pub mod timecode;
pub mod value;
