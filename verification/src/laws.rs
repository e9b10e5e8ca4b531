//! What holds of the looper as a whole.
pub mod bindings;
pub mod control;
pub mod exporting;
pub mod layout;
pub mod messages;
pub mod playing;
pub mod scenes;
pub mod screen;
pub mod steady;
pub mod texts;
pub mod ticks;
pub mod views;
pub mod words;
