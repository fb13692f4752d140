use crate::xproto::{keysym_q, keysym_return, mod1_mask};
use vstd::prelude::*;

verus! {

/// The modifier that every default binding and every pointer grab is chorded with.
pub const MOD: u32 = 8;

/// What a key binding does when its chord is pressed.
#[derive(Copy, Clone, Debug)]
pub enum Functions<'a> {
    /// Close the focused window.
    WindowKill,
    /// Launch a program with an argument list.
    Run(&'a str, &'a [&'a str]),
}

/// One key binding: a modifier mask, a key symbol and the action to take.
#[derive(Copy, Clone, Debug)]
pub struct Key<'a> {
    pub modifier: u32,
    pub keysym: u64,
    pub function: Functions<'a>,
}

impl<'a> Key<'a> {
    pub fn new(modifier: u32, keysym: u64, function: Functions<'a>) -> (key: Self)
        ensures
            key.modifier == modifier,
            key.keysym == keysym,
            key.function == function,
    {
        Self { modifier, keysym, function }
    }
}

/// The key-binding table: bindings in the order in which they are tried.
pub struct Config<'a> {
    pub keys: Vec<Key<'a>>,
}

impl<'a> Config<'a> {
    /// The default table: `MOD` with Return launches the terminal `st`
    /// without arguments, and `MOD` with q closes the focused window.
    pub fn new() -> (config: Self)
        ensures
            config.keys@.len() == 2,
            config.keys@[0].modifier == MOD,
            config.keys@[0].keysym == 0xFF0D,
            config.keys@[0].function matches Functions::Run(command, args) && command@ == "st"@
                && args@.len() == 0,
            config.keys@[1].modifier == MOD,
            config.keys@[1].keysym == 0x071,
            config.keys@[1].function == Functions::WindowKill,
    {
        let none: &'a [&'a str] = &[];
        let mut keys: Vec<Key<'a>> = Vec::new();
        keys.push(Key::new(mod1_mask(), keysym_return(), Functions::Run("st", none)));
        keys.push(Key::new(mod1_mask(), keysym_q(), Functions::WindowKill));
        Config { keys }
    }

    /// A table that holds `keys`, in that order.
    pub fn with_keys(keys: Vec<Key<'a>>) -> (config: Self)
        ensures
            config.keys == keys,
    {
        Config { keys }
    }
}

} // verus!
