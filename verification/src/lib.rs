//! Decision logic of a tray-resident tool that switches the input method
//! editor (IME) off with a lone tap of the left Alt key and on with a lone
//! tap of the right Alt key.

pub mod hook;
pub mod ime;
pub mod startup;
pub mod text;
pub mod tray;
pub mod update;

pub use text::wide;
