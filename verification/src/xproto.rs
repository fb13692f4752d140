use vstd::prelude::*;

verus! {

/// The Shift modifier bit. Trusted: returns `x11::xlib::ShiftMask`, which the
/// bindings define as `0x01`.
#[verifier::external_body]
pub(crate) fn shift_mask() -> (m: u32)
    ensures
        m == 0x01,
{
    x11::xlib::ShiftMask
}

/// The Caps Lock modifier bit. Trusted: returns `x11::xlib::LockMask`, which
/// the bindings define as `0x02`.
#[verifier::external_body]
pub(crate) fn lock_mask() -> (m: u32)
    ensures
        m == 0x02,
{
    x11::xlib::LockMask
}

/// The Control modifier bit. Trusted: returns `x11::xlib::ControlMask`, which
/// the bindings define as `0x04`.
#[verifier::external_body]
pub(crate) fn control_mask() -> (m: u32)
    ensures
        m == 0x04,
{
    x11::xlib::ControlMask
}

/// The first of the five extra modifier bits. Trusted: returns
/// `x11::xlib::Mod1Mask`, which the bindings define as `0x08`.
#[verifier::external_body]
pub(crate) fn mod1_mask() -> (m: u32)
    ensures
        m == 0x08,
{
    x11::xlib::Mod1Mask
}

/// The second extra modifier bit. Trusted: returns `x11::xlib::Mod2Mask`,
/// which the bindings define as `0x10`.
#[verifier::external_body]
pub(crate) fn mod2_mask() -> (m: u32)
    ensures
        m == 0x10,
{
    x11::xlib::Mod2Mask
}

/// The third extra modifier bit. Trusted: returns `x11::xlib::Mod3Mask`,
/// which the bindings define as `0x20`.
#[verifier::external_body]
pub(crate) fn mod3_mask() -> (m: u32)
    ensures
        m == 0x20,
{
    x11::xlib::Mod3Mask
}

/// The fourth extra modifier bit. Trusted: returns `x11::xlib::Mod4Mask`,
/// which the bindings define as `0x40`.
#[verifier::external_body]
pub(crate) fn mod4_mask() -> (m: u32)
    ensures
        m == 0x40,
{
    x11::xlib::Mod4Mask
}

/// The fifth extra modifier bit. Trusted: returns `x11::xlib::Mod5Mask`,
/// which the bindings define as `0x80`.
#[verifier::external_body]
pub(crate) fn mod5_mask() -> (m: u32)
    ensures
        m == 0x80,
{
    x11::xlib::Mod5Mask
}

/// The key symbol of the Return key. Trusted: returns `x11::keysym::XK_Return`,
/// which the bindings define as `0xFF0D`, widened to a key symbol.
#[verifier::external_body]
pub(crate) fn keysym_return() -> (k: u64)
    ensures
        k == 0xFF0D,
{
    u64::from(x11::keysym::XK_Return)
}

/// The key symbol of the letter q. Trusted: returns `x11::keysym::XK_q`, which
/// the bindings define as `0x071`, widened to a key symbol.
#[verifier::external_body]
pub(crate) fn keysym_q() -> (k: u64)
    ensures
        k == 0x071,
{
    u64::from(x11::keysym::XK_q)
}

/// The request code of a mapping change that concerns the modifiers. Trusted:
/// returns `x11::xlib::MappingModifier`, which the bindings define as `0`.
#[verifier::external_body]
pub(crate) fn mapping_modifier() -> (code: i32)
    ensures
        code == 0,
{
    x11::xlib::MappingModifier
}

/// The request code of a mapping change that concerns the keyboard. Trusted:
/// returns `x11::xlib::MappingKeyboard`, which the bindings define as `1`.
#[verifier::external_body]
pub(crate) fn mapping_keyboard() -> (code: i32)
    ensures
        code == 1,
{
    x11::xlib::MappingKeyboard
}

} // verus!
