//! Control of an Android device through an ADB server: taps, swipes, text
//! entry, key events and the screen size, each sent as a shell command whose
//! printed output is read back.
pub mod command;
pub mod control;
pub mod output;

pub use control::ADBControl;
pub use output::{ControlError, Dimensions};
