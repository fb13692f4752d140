use windex::keys::{detect_numlock, normalize_modifiers, resolve};
use windex::{Config, Functions, Key, MOD};

const NUMLOCK: u32 = 0x10;
const LOCK: u32 = 0x02;

#[test]
fn normalize_clears_lock_bits_and_unknown_bits() {
    assert_eq!(normalize_modifiers(0x08, NUMLOCK), 0x08);
    assert_eq!(normalize_modifiers(0x08 | LOCK, NUMLOCK), 0x08);
    assert_eq!(normalize_modifiers(0x08 | NUMLOCK, NUMLOCK), 0x08);
    assert_eq!(normalize_modifiers(0x08 | NUMLOCK | LOCK, NUMLOCK), 0x08);
    assert_eq!(normalize_modifiers(0xFFFF_FFFF, 0), 0xFD);
    assert_eq!(normalize_modifiers(0xFFFF_FFFF, NUMLOCK), 0xED);
    assert_eq!(normalize_modifiers(0x100 | 0x04 | 0x01, 0), 0x05);
    assert_eq!(normalize_modifiers(0, 0), 0);
}

#[test]
fn normalize_is_idempotent() {
    for numlock in [0u32, 0x10, 0x20, 0x80] {
        for m in 0..0x400u32 {
            let once = normalize_modifiers(m, numlock);
            assert_eq!(normalize_modifiers(once, numlock), once);
        }
    }
}

#[test]
fn normalize_ignores_lock_toggles() {
    for numlock in [0u32, 0x10, 0x20, 0x80] {
        for m in 0..0x400u32 {
            let base = normalize_modifiers(m, numlock);
            assert_eq!(normalize_modifiers(m ^ LOCK, numlock), base);
            assert_eq!(normalize_modifiers(m ^ numlock, numlock), base);
            assert_eq!(normalize_modifiers(m ^ numlock ^ LOCK, numlock), base);
        }
    }
}

#[test]
fn resolve_returns_every_match_in_table_order() {
    let args: [&str; 1] = ["-e"];
    let keys = vec![
        Key::new(MOD, 0x71, Functions::Run("first", &args)),
        Key::new(MOD | 0x01, 0x71, Functions::Run("shifted", &[])),
        Key::new(MOD, 0x71, Functions::WindowKill),
        Key::new(MOD, 0x72, Functions::Run("other", &[])),
    ];
    let hits = resolve(&keys, 0x71, MOD | LOCK | NUMLOCK, NUMLOCK);
    assert_eq!(hits.len(), 2);
    assert!(matches!(hits[0], Functions::Run("first", a) if a.len() == 1 && a[0] == "-e"));
    assert!(matches!(hits[1], Functions::WindowKill));
}

#[test]
fn resolve_without_match_is_empty() {
    let keys = vec![Key::new(MOD, 0x71, Functions::WindowKill)];
    assert_eq!(resolve(&keys, 0x72, MOD, 0).len(), 0);
    assert_eq!(resolve(&keys, 0x71, 0, 0).len(), 0);
    assert_eq!(resolve(&keys, 0x71, MOD | 0x04, 0).len(), 0);
    assert_eq!(resolve(&Vec::new(), 0x71, MOD, 0).len(), 0);
}

#[test]
fn resolve_normalizes_the_binding_too() {
    let keys = vec![Key::new(MOD | LOCK, 0x71, Functions::WindowKill)];
    assert_eq!(resolve(&keys, 0x71, MOD, 0).len(), 1);
}

#[test]
fn default_table_binds_terminal_and_kill() {
    let config = Config::new();
    assert_eq!(MOD, 8);
    assert_eq!(config.keys.len(), 2);
    assert_eq!(config.keys[0].modifier, MOD);
    assert_eq!(config.keys[0].keysym, 0xFF0D);
    assert!(matches!(config.keys[0].function, Functions::Run("st", a) if a.is_empty()));
    assert_eq!(config.keys[1].modifier, MOD);
    assert_eq!(config.keys[1].keysym, 0x71);
    assert!(matches!(config.keys[1].function, Functions::WindowKill));
}

#[test]
fn with_keys_keeps_the_table() {
    let config = Config::with_keys(vec![Key::new(1, 2, Functions::WindowKill)]);
    assert_eq!(config.keys.len(), 1);
    assert_eq!(config.keys[0].modifier, 1);
    assert_eq!(config.keys[0].keysym, 2);
}

#[test]
fn numlock_bit_is_the_row_of_its_keycode() {
    let per_row = 2;
    let mut map = vec![0u8; 16];
    map[0] = 50;
    map[2] = 66;
    map[8] = 77;
    map[9] = 78;
    assert_eq!(detect_numlock(&map, per_row, 77, 0), 1 << 4);
    assert_eq!(detect_numlock(&map, per_row, 78, 0), 1 << 4);
    assert_eq!(detect_numlock(&map, per_row, 50, 0), 1);
    assert_eq!(detect_numlock(&map, per_row, 66, 0), 1 << 1);
}

#[test]
fn numlock_stays_when_keycode_is_absent() {
    let map = vec![1u8, 2, 3, 4, 5, 6, 7, 8];
    assert_eq!(detect_numlock(&map, 1, 99, 0x10), 0x10);
    assert_eq!(detect_numlock(&Vec::new(), 4, 99, 0x20), 0x20);
    assert_eq!(detect_numlock(&map, 0, 1, 0x40), 0x40);
}

#[test]
fn numlock_last_entry_decides_and_extra_rows_are_ignored() {
    let map = vec![9u8, 0, 9, 0, 0, 0, 0, 0, 9, 9];
    assert_eq!(detect_numlock(&map, 1, 9, 0), 1 << 2);
    let map = vec![0u8, 9, 0, 0, 0, 0, 0, 9];
    assert_eq!(detect_numlock(&map, 1, 9, 0), 1 << 7);
}
