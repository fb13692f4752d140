//! The engine of a minimal window manager: the registry of managed windows,
//! the key-binding table, pointer-driven moves and resizes, and the handlers
//! that turn each event of the display server into changes of state and
//! commands to carry out.

use vstd::prelude::*;

pub mod client;
pub mod config;
pub mod drag;
pub mod event;
pub mod keys;
pub mod launcher;
pub mod layout;
pub mod windex;
mod xproto;

pub use crate::client::{Client, ClientRef, ClientRegistry, Geometry};
pub use crate::config::{Config, Functions, Key, MOD};
pub use crate::drag::DragState;
pub use crate::event::{Command, ConfigureRequest, Event, Grab};
pub use crate::windex::Windex;

verus! {

} // verus!
