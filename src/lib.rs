//! Block-graph and layout engine for a canvas of snapping, notched blocks.

mod arena;
mod description;
mod editor;
mod geometry;
mod instance;
pub mod laws;
mod order;
mod part;
mod shape;
mod store;

pub use arena::BlockId;
pub use description::{Block, BlockDescription, BlockWidget};
pub use editor::{BlockEditor, PendingLink};
pub use geometry::{Offset, Pos2, Vec2};
pub use instance::BlockInstance;
pub use part::{BlockPart, Next};
pub use shape::BlockShape;
pub use store::FieldStore;
