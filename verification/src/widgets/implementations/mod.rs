//! The built-in widget kinds.

pub mod select;
pub mod color_picker;
pub mod theme_selector;
pub mod numerical;
