//! A cleanroom image builder core: a typed, scoped variable store, a command
//! registry compiled into an agent shell script, a mount planner for phased
//! container runs, and the line-tagged protocol between the in-container
//! agent and the orchestrator.
//!
//! Everything here is pure logic over plain values; the thin shell that does
//! process, filesystem and terminal work lives outside the library and talks
//! to it through these types.

pub mod bindings;
pub mod context;
pub mod errors;
pub mod names;
pub mod paths;
pub mod phases;
pub mod plan;
pub mod printer;
pub mod protocol;
pub mod registry;
pub mod script;
pub mod strutil;
