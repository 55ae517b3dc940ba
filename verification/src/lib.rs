//! Widgets that stack in the Z-direction, overlays that are shown relative to
//! widgets in other layers, and progress indicators.
//!
//! The widget tree, the measuring of widgets and the drawing belong to a host.
//! What is decided about them is here: operations say what has to be done, and
//! take in what came of it.
pub mod arrange;
pub mod geometry;
pub mod laws;
pub mod layers;
pub mod operations;
pub mod overlay;
pub mod placement;
pub mod progress;
pub mod stack;
pub mod state;
pub mod value;
pub mod widget;
