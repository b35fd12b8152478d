//! Verified core of the writeST pixel-art terminal editor: colour entry,
//! the pixel canvas, the recent-files history and the two key-driven
//! screens (file gallery and drawing editor) as state machines.

pub mod colour;
pub mod canvas;
pub mod history;
pub mod input;
pub mod gallery;
pub mod editor;
pub mod picture;
