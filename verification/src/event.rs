use crate::client::Geometry;
use vstd::prelude::*;

verus! {

/// A request of an application to change the geometry or the stacking of one
/// of its windows, with the fields as the display server delivers them.
#[derive(Copy, Clone, Debug, PartialEq, Eq, Structural)]
pub struct ConfigureRequest {
    pub window: u64,
    pub x: i32,
    pub y: i32,
    pub width: i32,
    pub height: i32,
    pub border_width: i32,
    pub above: u64,
    pub detail: i32,
    pub value_mask: u64,
}

/// One event of the display server, reduced to what the window manager
/// reads of it. Where a handler needs the geometry of the window concerned,
/// the event carries it.
#[derive(Copy, Clone, Debug, PartialEq, Eq, Structural)]
pub enum Event {
    /// A grabbed pointer button went down. `subwindow` is 0 when the pointer
    /// is over no window; `geometry` is that of `subwindow`.
    ButtonPress { subwindow: u64, button: u32, x_root: i32, y_root: i32, geometry: Geometry },
    /// A grabbed pointer button went up.
    ButtonRelease,
    /// The pointer moved while a grabbed button was held. Of a burst of such
    /// events only the latest is handed over.
    MotionNotify { x_root: i32, y_root: i32 },
    /// A grabbed key went down; `keysym` is the symbol of its keycode.
    KeyPress { keysym: u64, state: u32 },
    /// A new top-level window asks to be shown.
    MapRequest { window: u64, geometry: Geometry },
    /// A window was destroyed.
    DestroyNotify { window: u64 },
    /// A window was withdrawn from the screen.
    UnmapNotify { window: u64 },
    /// The pointer entered a window. Of a burst only the latest is handed
    /// over.
    EnterNotify { window: u64 },
    /// The keyboard, modifier or pointer mapping changed.
    MappingNotify { request: i32 },
    /// An application asks for a change of geometry or stacking.
    ConfigureRequest(ConfigureRequest),
    /// Any other event.
    Other,
}

/// One request to the display server, or to the process launcher, that a
/// handler has decided on. The caller carries them out in order.
#[derive(Copy, Clone, Debug, PartialEq, Eq)]
pub enum Command<'a> {
    /// Raise the window to the top of the stack.
    Raise { window: u64 },
    /// Move and resize the window.
    MoveResize { window: u64, geometry: Geometry },
    /// Move the window.
    Move { window: u64, x: i32, y: i32 },
    /// Ask for the window's structure and pointer-entry events.
    SelectInput { window: u64 },
    /// Make the window visible.
    Show { window: u64 },
    /// Give the window the input focus.
    Focus { window: u64 },
    /// Apply the requested change as it stands.
    Configure(ConfigureRequest),
    /// Take over the changed keyboard mapping.
    RefreshMapping,
    /// Query the modifier map and the keycodes anew and grab keys and
    /// buttons again.
    Regrab,
    /// Close the window.
    Kill { window: u64 },
    /// Launch a program, detached, with an argument list.
    Spawn { command: &'a str, args: &'a [&'a str] },
}

/// One step of the procedure that routes keys and buttons to the window
/// manager.
#[derive(Copy, Clone, Debug, PartialEq, Eq, Structural)]
pub enum Grab {
    /// Release every key grabbed on the root window.
    UngrabKeys,
    /// Grab a key with a modifier mask on the root window.
    KeyChord { keycode: u8, modifiers: u32 },
    /// Grab a pointer button with a modifier mask on the root window.
    ButtonChord { button: u32, modifiers: u32 },
}

} // verus!
