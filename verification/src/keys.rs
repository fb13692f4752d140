use crate::config::{Functions, Key};
use crate::xproto::{
    control_mask, lock_mask, mod1_mask, mod2_mask, mod3_mask, mod4_mask, mod5_mask, shift_mask,
};
use vstd::prelude::*;

verus! {

/// The Caps Lock bit of a modifier mask.
pub const LOCK: u32 = 0x02;

/// The bits of a modifier mask that count when a chord is compared: Shift,
/// Control and the five extra modifiers.
pub const RECOGNIZED: u32 = 0xFD;

/// The number of modifiers, and so of rows in a modifier map.
pub const MODIFIER_ROWS: usize = 8;

/// `mask` without the Caps Lock bit and without the bits of `numlock`,
/// restricted to the recognised modifiers.
pub open spec fn normalized(mask: u32, numlock: u32) -> u32 {
    mask & !(numlock | LOCK) & RECOGNIZED
}

/// Clears the lock modifiers from `mask` and keeps only recognised bits.
pub fn normalize_modifiers(mask: u32, numlock: u32) -> (clean: u32)
    ensures
        clean == normalized(mask, numlock),
{
    let recognized = shift_mask() | control_mask() | mod1_mask() | mod2_mask() | mod3_mask()
        | mod4_mask() | mod5_mask();
    assert(recognized == 0xFDu32) by (bit_vector)
        requires
            recognized == 0x01u32 | 0x04u32 | 0x08u32 | 0x10u32 | 0x20u32 | 0x40u32 | 0x80u32,
    ;
    mask & !(numlock | lock_mask()) & recognized
}

/// Normalising twice is normalising once.
pub proof fn lemma_normalize_idempotent(mask: u32, numlock: u32)
    ensures
        normalized(normalized(mask, numlock), numlock) == normalized(mask, numlock),
{
    assert((mask & !(numlock | 0x02u32) & 0xFDu32) & !(numlock | 0x02u32) & 0xFDu32 == mask & !(
        numlock | 0x02u32) & 0xFDu32) by (bit_vector);
}

/// Whether Caps Lock or the bits of `numlock` are set in a mask makes no
/// difference to what it normalises to: setting, clearing or toggling them
/// leaves the result as it was.
pub proof fn lemma_normalize_ignores_locks(mask: u32, numlock: u32)
    ensures
        normalized(mask ^ LOCK, numlock) == normalized(mask, numlock),
        normalized(mask ^ numlock, numlock) == normalized(mask, numlock),
        normalized(mask | LOCK, numlock) == normalized(mask, numlock),
        normalized(mask | numlock, numlock) == normalized(mask, numlock),
        normalized(mask & !LOCK, numlock) == normalized(mask, numlock),
        normalized(mask & !numlock, numlock) == normalized(mask, numlock),
{
    assert((mask ^ 0x02u32) & !(numlock | 0x02u32) & 0xFDu32 == mask & !(numlock | 0x02u32)
        & 0xFDu32) by (bit_vector);
    assert((mask ^ numlock) & !(numlock | 0x02u32) & 0xFDu32 == mask & !(numlock | 0x02u32)
        & 0xFDu32) by (bit_vector);
    assert((mask | 0x02u32) & !(numlock | 0x02u32) & 0xFDu32 == mask & !(numlock | 0x02u32)
        & 0xFDu32) by (bit_vector);
    assert((mask | numlock) & !(numlock | 0x02u32) & 0xFDu32 == mask & !(numlock | 0x02u32)
        & 0xFDu32) by (bit_vector);
    assert((mask & !0x02u32) & !(numlock | 0x02u32) & 0xFDu32 == mask & !(numlock | 0x02u32)
        & 0xFDu32) by (bit_vector);
    assert((mask & !numlock) & !(numlock | 0x02u32) & 0xFDu32 == mask & !(numlock | 0x02u32)
        & 0xFDu32) by (bit_vector);
}

/// Whether `key` is bound to the chord of key symbol `keysym` and modifier
/// state `state`, lock modifiers aside.
pub open spec fn chord_matches(key: Key<'_>, keysym: u64, state: u32, numlock: u32) -> bool {
    key.keysym == keysym && normalized(state, numlock) == normalized(key.modifier, numlock)
}

/// The actions of all the bindings in `keys` that match the chord, in the
/// order of the table.
pub open spec fn bound_actions<'a>(
    keys: Seq<Key<'a>>,
    keysym: u64,
    state: u32,
    numlock: u32,
) -> Seq<Functions<'a>> {
    keys.filter(|key: Key<'a>| chord_matches(key, keysym, state, numlock)).map_values(
        |key: Key<'a>| key.function,
    )
}

/// Scans `keys` in order and collects the action of every binding whose key
/// symbol is `keysym` and whose modifiers equal `state` once both are
/// normalised: all of them, not only the first.
pub fn resolve<'a>(keys: &Vec<Key<'a>>, keysym: u64, state: u32, numlock: u32) -> (actions: Vec<
    Functions<'a>,
>)
    ensures
        actions@ == bound_actions(keys@, keysym, state, numlock),
{
    let ghost pred = |key: Key<'a>| chord_matches(key, keysym, state, numlock);
    let ghost pick = |key: Key<'a>| key.function;
    let wanted = normalize_modifiers(state, numlock);
    let mut actions: Vec<Functions<'a>> = Vec::new();
    let mut i: usize = 0;
    proof {
        reveal(Seq::filter);
        assert(keys@.take(0).filter(pred).map_values(pick) =~= Seq::<Functions<'a>>::empty());
    }
    while i < keys.len()
        invariant
            i <= keys@.len(),
            wanted == normalized(state, numlock),
            pred == (|key: Key<'a>| chord_matches(key, keysym, state, numlock)),
            pick == (|key: Key<'a>| key.function),
            actions@ == keys@.take(i as int).filter(pred).map_values(pick),
        decreases keys@.len() - i,
    {
        let key = keys[i];
        proof {
            reveal(Seq::filter);
            let upto = keys@.take(i + 1);
            assert(upto.drop_last() =~= keys@.take(i as int));
            assert(upto.last() == key);
            if pred(key) {
                assert(upto.filter(pred) == keys@.take(i as int).filter(pred).push(key));
                assert(upto.filter(pred).map_values(pick) =~= keys@.take(i as int).filter(
                    pred,
                ).map_values(pick).push(key.function));
            } else {
                assert(upto.filter(pred) == keys@.take(i as int).filter(pred));
            }
        }
        if key.keysym == keysym && wanted == normalize_modifiers(key.modifier, numlock) {
            actions.push(key.function);
        }
        i += 1;
    }
    proof {
        assert(keys@.take(keys@.len() as int) =~= keys@);
    }
    actions
}

/// Every binding that matches the chord has its action among the results,
/// wherever in the table it stands.
pub proof fn lemma_resolve_complete<'a>(
    keys: Seq<Key<'a>>,
    keysym: u64,
    state: u32,
    numlock: u32,
    i: int,
)
    requires
        0 <= i < keys.len(),
        chord_matches(keys[i], keysym, state, numlock),
    ensures
        bound_actions(keys, keysym, state, numlock).contains(keys[i].function),
{
    let pred = |key: Key<'a>| chord_matches(key, keysym, state, numlock);
    let kept = keys.filter(pred);
    keys.lemma_filter_contains(pred, i);
    let j = kept.index_of(keys[i]);
    assert(bound_actions(keys, keysym, state, numlock)[j] == keys[i].function);
}

/// When every binding of the table matches the chord, the results are the
/// actions of all of them, each once, in the order of the table.
pub proof fn lemma_resolve_all<'a>(keys: Seq<Key<'a>>, keysym: u64, state: u32, numlock: u32)
    requires
        forall|i: int| 0 <= i < keys.len() ==> chord_matches(#[trigger] keys[i], keysym, state, numlock),
    ensures
        bound_actions(keys, keysym, state, numlock) == keys.map_values(
            |key: Key<'a>| key.function,
        ),
{
    lemma_filter_all(keys, |key: Key<'a>| chord_matches(key, keysym, state, numlock));
}

/// A filter that every element passes keeps the sequence as it is.
proof fn lemma_filter_all<'a>(keys: Seq<Key<'a>>, pred: spec_fn(Key<'a>) -> bool)
    requires
        forall|i: int| 0 <= i < keys.len() ==> pred(#[trigger] keys[i]),
    ensures
        keys.filter(pred) == keys,
    decreases keys.len(),
{
    reveal(Seq::filter);
    if keys.len() > 0 {
        let front = keys.drop_last();
        assert forall|i: int| 0 <= i < front.len() implies pred(#[trigger] front[i]) by {
            assert(front[i] == keys[i]);
        }
        lemma_filter_all(front, pred);
        assert(keys.filter(pred) =~= keys);
    }
}

/// The numlock mask that a scan of the first `n` entries of a modifier map
/// yields: the bit of the row that holds the last entry equal to `keycode`,
/// or `previous` if no entry is. The map has `MODIFIER_ROWS` rows of `per_row`
/// entries each; entries beyond the last row are not looked at.
pub open spec fn numlock_scan(
    map: Seq<u8>,
    per_row: int,
    keycode: u8,
    previous: u32,
    n: int,
) -> u32
    decreases n,
{
    if n <= 0 {
        previous
    } else if per_row > 0 && (n - 1) / per_row < MODIFIER_ROWS && map[n - 1] == keycode {
        1u32 << (((n - 1) / per_row) as u32)
    } else {
        numlock_scan(map, per_row, keycode, previous, n - 1)
    }
}

/// Whether entry `i` of the modifier map lies in one of its rows and holds
/// `keycode`.
pub open spec fn holds_keycode(map: Seq<u8>, per_row: int, keycode: u8, i: int) -> bool {
    0 <= i < map.len() && per_row > 0 && i / per_row < MODIFIER_ROWS && map[i] == keycode
}

/// What a scan of the whole map yields: where no entry holds the keycode, the
/// previous mask; otherwise the bit of the row of the last entry that holds
/// it.
pub proof fn lemma_numlock_scan(map: Seq<u8>, per_row: int, keycode: u8, previous: u32, n: int)
    requires
        0 <= n <= map.len(),
    ensures
        (forall|i: int| 0 <= i < n ==> !holds_keycode(map, per_row, keycode, i)) ==> numlock_scan(
            map,
            per_row,
            keycode,
            previous,
            n,
        ) == previous,
        forall|k: int|
            0 <= k < n && holds_keycode(map, per_row, keycode, k) && (forall|j: int|
                k < j < n ==> !holds_keycode(map, per_row, keycode, j)) ==> numlock_scan(
                map,
                per_row,
                keycode,
                previous,
                n,
            ) == 1u32 << ((k / per_row) as u32),
    decreases n,
{
    if n > 0 {
        lemma_numlock_scan(map, per_row, keycode, previous, n - 1);
        if holds_keycode(map, per_row, keycode, n - 1) {
            assert forall|k: int|
                0 <= k < n && holds_keycode(map, per_row, keycode, k) && (forall|j: int|
                    k < j < n ==> !holds_keycode(map, per_row, keycode, j)) implies k == n - 1 by {
                if k < n - 1 {
                    assert(!holds_keycode(map, per_row, keycode, n - 1));
                }
            }
        } else {
            assert forall|k: int|
                0 <= k < n && holds_keycode(map, per_row, keycode, k) && (forall|j: int|
                    k < j < n ==> !holds_keycode(map, per_row, keycode, j)) implies numlock_scan(
                map,
                per_row,
                keycode,
                previous,
                n,
            ) == 1u32 << ((k / per_row) as u32) by {
                assert(k < n - 1);
                assert(forall|j: int| k < j < n - 1 ==> !holds_keycode(map, per_row, keycode, j));
            }
        }
    }
}

/// Finds the modifier bit that the Num Lock key is mapped to: the bit whose
/// row in the modifier map holds `keycode`, the last such entry deciding.
/// Where the map does not hold `keycode`, the mask stays `previous`.
pub fn detect_numlock(map: &Vec<u8>, per_row: usize, keycode: u8, previous: u32) -> (mask: u32)
    ensures
        mask == numlock_scan(map@, per_row as int, keycode, previous, map@.len() as int),
{
    let mut mask = previous;
    let mut i: usize = 0;
    while i < map.len()
        invariant
            i <= map@.len(),
            mask == numlock_scan(map@, per_row as int, keycode, previous, i as int),
        decreases map@.len() - i,
    {
        if per_row > 0 && i / per_row < MODIFIER_ROWS && map[i] == keycode {
            let row: u32 = (i / per_row) as u32;
            mask = 1u32 << row;
        }
        i += 1;
    }
    mask
}

} // verus!
