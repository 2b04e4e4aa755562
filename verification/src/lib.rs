//! Core of a layered pixel-art editor: a pixel grid organized into layers,
//! integer camera transforms between screen space and pixel space, editing
//! operations (single pixel, brushes, flood fill, layer management), a
//! renderable-square cache, and a bounded undo/redo history over immutable
//! canvas snapshots.

pub mod camera;
pub mod canvas;
pub mod change_manager;
pub mod color;
pub mod file_interactions;
pub mod fill;
pub mod new_file_modal;
