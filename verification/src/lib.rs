//! AutoZikr's logic: periodic remembrance reminders aligned with the clock,
//! quiet hours, the settings file, and the control panel's behaviour, each
//! stated in contracts and proved with Verus.
pub mod calendar;
pub mod text;
pub mod config;
pub mod schedule;
pub mod audio;
pub mod panel;
pub mod display;
pub mod system;
