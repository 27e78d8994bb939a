//! A small in-memory keyed store with a line-protocol command engine.
//!
//! Keys are strings; each key holds either a scalar (`Primitive`) or a
//! collection (`Container`): an ordered double-ended list or a set of
//! unique scalars.  The engine executes one parsed command at a time
//! against the store and yields an optional result value; the renderer
//! turns a result value into its display text.

pub mod engine;
pub mod laws;
pub mod models;
pub mod render;
pub mod store;

pub use engine::{execute, Command, TypeMismatch};
pub use models::{Container, Kind, Primitive, Value};
pub use render::display;
pub use store::Store;
