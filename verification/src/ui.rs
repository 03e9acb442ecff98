//! Presentation-side types: the status bar model and the editor widget
//! state.

pub mod editor_widget;
pub mod status_bar;
