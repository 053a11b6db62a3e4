//! What the pages of the window show and how they react.

pub mod effects;
pub mod lcd;
pub mod settings;
pub mod sound_editor;
pub mod soundboard;
