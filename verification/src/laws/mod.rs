//! What holds of the handler across functions and events.

pub mod actions;
pub mod answers;
pub mod applications;
pub mod events;
pub mod frame;
pub mod key_press;
pub mod keymaps;
pub mod modifiers;
pub mod multi_purpose_keys;
pub mod pressed_keys;
pub mod progress;
pub mod states;
