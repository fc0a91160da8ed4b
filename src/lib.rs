//! Coordination logic for live-preview servers: the registry of running
//! instances, its heartbeat reconciliation and change events, port search,
//! and the editor-side workspace synchronization engine.

pub mod fanout;
pub mod config;
pub mod documents;
pub mod heartbeat;
pub mod protocol;
pub mod registry;
pub mod text;
pub mod workspace;
