//! Decisions of the global keyboard hook. The shell installs the hook and
//! forwards each key transition through [`HookState::on_key`]; if the active
//! combo has a regular key (Space in Ctrl+Space), that key is swallowed while
//! all the combo's modifiers are held, so holding the combo does not type
//! into the focused app. Modifier keys are never swallowed.

use vstd::prelude::*;
use crate::hotkey_logic::{Key, KeyEvent, first_other, key_from_vk, spec_key_from_name, spec_key_from_vk, spec_parse_combo};

verus! {

pub const CTRL_BIT: u32 = 1;
pub const WIN_BIT: u32 = 2;
pub const ALT_BIT: u32 = 4;
pub const SHIFT_BIT: u32 = 8;

/// The bit of a modifier in a modifier mask; 0 for a regular key.
pub open spec fn spec_modifier_bit(key: Key) -> u32 {
    match key {
        Key::Ctrl => CTRL_BIT,
        Key::Win => WIN_BIT,
        Key::Alt => ALT_BIT,
        Key::Shift => SHIFT_BIT,
        Key::Other(_) => 0,
    }
}

/// Executable form of [`spec_modifier_bit`].
pub fn modifier_bit(key: Key) -> (b: u32)
    ensures
        b == spec_modifier_bit(key),
{
    match key {
        Key::Ctrl => CTRL_BIT,
        Key::Win => WIN_BIT,
        Key::Alt => ALT_BIT,
        Key::Shift => SHIFT_BIT,
        Key::Other(_) => 0,
    }
}

/// The mask of the modifiers among `keys`.
pub open spec fn mask_of(keys: Seq<Key>) -> u32
    decreases keys.len(),
{
    if keys.len() == 0 {
        0
    } else {
        mask_of(keys.drop_last()) | spec_modifier_bit(keys.last())
    }
}

/// The hook's state: the regular key to swallow (0 for none), the modifiers
/// that must be held for it, and the modifiers held now.
pub struct HookState {
    pub suppress_vk: u32,
    pub required_mods: u32,
    pub mods_down: u32,
}

/// The modifiers held after `key` went down or up.
pub open spec fn mods_after(mods: u32, key: Key, down: bool) -> u32 {
    let bit = spec_modifier_bit(key);
    if bit == 0 {
        mods
    } else if down {
        mods | bit
    } else {
        mods & !bit
    }
}

/// Whether the hook swallows the key `vk` when the modifiers `mods` are held.
pub open spec fn swallows(s: HookState, mods: u32, vk: u32) -> bool {
    s.suppress_vk != 0 && vk == s.suppress_vk && (mods & s.required_mods) == s.required_mods
}

impl HookState {
    /// Nothing to swallow and no modifier held.
    pub fn new() -> (s: Self)
        ensures
            s.suppress_vk == 0,
            s.required_mods == 0,
            s.mods_down == 0,
    {
        HookState { suppress_vk: 0, required_mods: 0, mods_down: 0 }
    }

    /// A key transition of the virtual key `vk` at `time`: the event to
    /// forward, and whether the key is swallowed.
    pub fn on_key(&mut self, vk: u32, down: bool, time: u64) -> (r: (KeyEvent, bool))
        ensures
            r.0 == (if down {
                KeyEvent::Down(spec_key_from_vk(vk), time)
            } else {
                KeyEvent::Up(spec_key_from_vk(vk), time)
            }),
            final(self).mods_down == mods_after(old(self).mods_down, spec_key_from_vk(vk), down),
            final(self).suppress_vk == old(self).suppress_vk,
            final(self).required_mods == old(self).required_mods,
            r.1 == swallows(*old(self), final(self).mods_down, vk),
    {
        let key = key_from_vk(vk);
        let bit = modifier_bit(key);
        if bit != 0 {
            if down {
                self.mods_down = self.mods_down | bit;
            } else {
                self.mods_down = self.mods_down & !bit;
            }
        }
        let ev = if down {
            KeyEvent::Down(key, time)
        } else {
            KeyEvent::Up(key, time)
        };
        let swallow = self.suppress_vk != 0 && vk == self.suppress_vk && (self.mods_down & self.required_mods)
            == self.required_mods;
        (ev, swallow)
    }
}

/// Makes the hook swallow `other_vk` (nothing for `None`) while all of
/// `required_modifiers` are held.
pub fn set_suppression(state: &mut HookState, other_vk: Option<u32>, required_modifiers: &[Key])
    ensures
        final(state).required_mods == mask_of(required_modifiers@),
        final(state).suppress_vk == match other_vk {
            Some(vk) => vk,
            None => 0,
        },
        final(state).mods_down == old(state).mods_down,
{
    let mut mask: u32 = 0;
    let mut i: usize = 0;
    while i < required_modifiers.len()
        invariant
            i <= required_modifiers@.len(),
            mask == mask_of(required_modifiers@.take(i as int)),
        decreases required_modifiers.len() - i,
    {
        assert(required_modifiers@.take(i + 1).drop_last() =~= required_modifiers@.take(i as int));
        mask = mask | modifier_bit(required_modifiers[i]);
        i += 1;
    }
    assert(required_modifiers@.take(required_modifiers@.len() as int) =~= required_modifiers@);
    state.required_mods = mask;
    state.suppress_vk = match other_vk {
        Some(vk) => vk,
        None => 0,
    };
}

/// The regular key of a combo is never a modifier's virtual key.
pub proof fn lemma_combo_key_is_regular(names: Seq<Seq<char>>, vk: u32)
    requires
        spec_parse_combo(names) matches Some(c) && first_other(c) == Some(vk),
    ensures
        spec_key_from_vk(vk) == Key::Other(vk),
{
    let c = spec_parse_combo(names)->0;
    lemma_first_other_member(c);
    let i = choose|i: int| 0 <= i < c.len() && c[i] == Key::Other(vk);
    assert(spec_key_from_name(names[i]) is Some);
}

proof fn lemma_first_other_member(c: Seq<Key>)
    requires
        first_other(c) is Some,
    ensures
        exists|i: int| 0 <= i < c.len() && c[i] == Key::Other(first_other(c)->0),
    decreases c.len(),
{
    if !(c[0] is Other) {
        lemma_first_other_member(c.drop_first());
        let i = choose|i: int| 0 <= i < c.drop_first().len() && c.drop_first()[i] == Key::Other(first_other(c)->0);
        assert(c[i + 1] == Key::Other(first_other(c)->0));
    } else {
        assert(c[0] == Key::Other(first_other(c)->0));
    }
}

/// Modifier keys are never swallowed: when the key to swallow is a regular
/// key, a modifier's transition always reaches the focused app.
pub proof fn lemma_modifiers_never_swallowed(s: HookState, mods: u32, vk: u32)
    requires
        s.suppress_vk == 0 || spec_key_from_vk(s.suppress_vk) == Key::Other(s.suppress_vk),
        spec_key_from_vk(vk).spec_is_modifier(),
    ensures
        !swallows(s, mods, vk),
{
}

/// The regular key is swallowed exactly while every required modifier is
/// held; releasing one of them lets it through again.
pub proof fn lemma_release_lets_key_through(s: HookState, mods: u32, key: Key)
    requires
        s.suppress_vk != 0,
        spec_modifier_bit(key) != 0,
        s.required_mods & spec_modifier_bit(key) != 0,
    ensures
        !swallows(s, mods_after(mods, key, false), s.suppress_vk),
{
    let bit = spec_modifier_bit(key);
    let r = s.required_mods;
    assert((mods & !bit) & r != r) by (bit_vector)
        requires
            r & bit != 0,
    ;
}

/// With the hook pointed at a combo read from the configuration, a
/// modifier's transition is never swallowed, whatever is held.
pub proof fn lemma_configured_hook_passes_modifiers(names: Seq<Seq<char>>, s: HookState, mods: u32, vk: u32)
    requires
        spec_parse_combo(names) matches Some(c) && s.suppress_vk == match first_other(c) {
            Some(v) => v,
            None => 0,
        },
        spec_key_from_vk(vk).spec_is_modifier(),
    ensures
        !swallows(s, mods, vk),
{
    let c = spec_parse_combo(names)->0;
    if let Some(v) = first_other(c) {
        lemma_combo_key_is_regular(names, v);
    }
    lemma_modifiers_never_swallowed(s, mods, vk);
}

} // verus!
