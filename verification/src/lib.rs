//! Verified core of an auto-clicker: hotkey parsing and formatting, the hotkey
//! listener's decisions, mouse button flags and the click schedule.
use vstd::prelude::*;

pub mod hotkey_laws;
pub mod hotkeys;
pub mod keys;
pub mod listener;
pub mod mouse;
pub mod text;
pub mod wayland;

verus! {

} // verus!
