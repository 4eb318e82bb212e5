//! Combo-aware hold-to-dictate logic. A combo has at least two keys, at least
//! one modifier and at most one regular key; `parse_combo` enforces this so a
//! bad configuration can never produce a broken tracker. Recording starts when
//! every combo key is down; the first release of any combo key finishes the
//! take, or cancels it when it was held for less than `MIN_HOLD_MS`.

use vstd::prelude::*;
use crate::text::chars_of;

verus! {

/// Holds shorter than this are accidental taps and cancel the take.
pub const MIN_HOLD_MS: u64 = 150;

#[derive(Debug, Clone, Copy, PartialEq, Eq, Structural)]
pub enum Key {
    Ctrl,
    Win,
    Alt,
    Shift,
    Other(u32),
}

impl Key {
    pub open spec fn spec_is_modifier(self) -> bool {
        !(self is Other)
    }

    pub fn is_modifier(&self) -> (b: bool)
        ensures
            b == self.spec_is_modifier(),
    {
        match self {
            Key::Other(_) => false,
            _ => true,
        }
    }
}

#[derive(Debug, Clone, Copy, PartialEq, Eq, Structural)]
pub enum KeyEvent {
    Down(Key, u64),
    Up(Key, u64),
}

#[derive(Debug, Clone, Copy, PartialEq, Eq, Structural)]
pub enum Action {
    /// Nothing to do.
    Idle,
    Start,
    Finish { held_ms: u64 },
    Cancel,
}

/// The logical key of a Windows virtual-key code: left, right and generic
/// variants of a modifier are the same key.
pub open spec fn spec_key_from_vk(vk: u32) -> Key {
    if vk == 0x11 || vk == 0xA2 || vk == 0xA3 {
        Key::Ctrl
    } else if vk == 0x5B || vk == 0x5C {
        Key::Win
    } else if vk == 0x12 || vk == 0xA4 || vk == 0xA5 {
        Key::Alt
    } else if vk == 0x10 || vk == 0xA0 || vk == 0xA1 {
        Key::Shift
    } else {
        Key::Other(vk)
    }
}

/// Collapse left/right/generic virtual-key variants into one logical key.
pub fn key_from_vk(vk: u32) -> (k: Key)
    ensures
        k == spec_key_from_vk(vk),
{
    match vk {
        0x11 | 0xA2 | 0xA3 => Key::Ctrl,
        0x5B | 0x5C => Key::Win,
        0x12 | 0xA4 | 0xA5 => Key::Alt,
        0x10 | 0xA0 | 0xA1 => Key::Shift,
        other => Key::Other(other),
    }
}

/// ASCII upper-casing of one character.
pub open spec fn ascii_upper(c: char) -> char {
    if 'a' <= c && c <= 'z' {
        ((c as u32) - 32) as char
    } else {
        c
    }
}

/// The key a configuration name stands for: the modifier names, three named
/// regular keys, and a single ASCII letter or digit (either case).
pub open spec fn spec_key_from_name(n: Seq<char>) -> Option<Key> {
    if n == seq!['c', 't', 'r', 'l'] {
        Some(Key::Ctrl)
    } else if n == seq!['w', 'i', 'n'] {
        Some(Key::Win)
    } else if n == seq!['a', 'l', 't'] {
        Some(Key::Alt)
    } else if n == seq!['s', 'h', 'i', 'f', 't'] {
        Some(Key::Shift)
    } else if n == seq!['s', 'p', 'a', 'c', 'e'] {
        Some(Key::Other(0x20))
    } else if n == seq!['t', 'a', 'b'] {
        Some(Key::Other(0x09))
    } else if n == seq!['c', 'a', 'p', 's', 'l', 'o', 'c', 'k'] {
        Some(Key::Other(0x14))
    } else if n.len() == 1 && (n[0] as u32) < 0x80 {
        let c = ascii_upper(n[0]);
        if ('A' <= c && c <= 'Z') || ('0' <= c && c <= '9') {
            Some(Key::Other(c as u32))
        } else {
            None
        }
    } else {
        None
    }
}

fn chars_equal(a: &Vec<char>, b: &[char]) -> (r: bool)
    ensures
        r == (a@ == b@),
{
    if a.len() != b.len() {
        return false;
    }
    let mut i: usize = 0;
    while i < a.len()
        invariant
            a.len() == b.len(),
            i <= a.len(),
            forall|j: int| 0 <= j < i ==> a@[j] == b@[j],
        decreases a.len() - i,
    {
        if a[i] != b[i] {
            return false;
        }
        i += 1;
    }
    assert(a@ =~= b@);
    true
}

fn key_from_name(name: &str) -> (k: Option<Key>)
    ensures
        k == spec_key_from_name(name@),
{
    let n = chars_of(name);
    let ctrl = ['c', 't', 'r', 'l'];
    let win = ['w', 'i', 'n'];
    let alt = ['a', 'l', 't'];
    let shift = ['s', 'h', 'i', 'f', 't'];
    let space = ['s', 'p', 'a', 'c', 'e'];
    let tab = ['t', 'a', 'b'];
    let capslock = ['c', 'a', 'p', 's', 'l', 'o', 'c', 'k'];
    assert(ctrl@ == seq!['c', 't', 'r', 'l']);
    assert(win@ == seq!['w', 'i', 'n']);
    assert(alt@ == seq!['a', 'l', 't']);
    assert(shift@ == seq!['s', 'h', 'i', 'f', 't']);
    assert(space@ == seq!['s', 'p', 'a', 'c', 'e']);
    assert(tab@ == seq!['t', 'a', 'b']);
    assert(capslock@ == seq!['c', 'a', 'p', 's', 'l', 'o', 'c', 'k']);
    if chars_equal(&n, &ctrl) {
        Some(Key::Ctrl)
    } else if chars_equal(&n, &win) {
        Some(Key::Win)
    } else if chars_equal(&n, &alt) {
        Some(Key::Alt)
    } else if chars_equal(&n, &shift) {
        Some(Key::Shift)
    } else if chars_equal(&n, &space) {
        Some(Key::Other(0x20))
    } else if chars_equal(&n, &tab) {
        Some(Key::Other(0x09))
    } else if chars_equal(&n, &capslock) {
        Some(Key::Other(0x14))
    } else if n.len() == 1 && (n[0] as u32) < 0x80 {
        let c0 = n[0];
        let c = if 'a' <= c0 && c0 <= 'z' {
            ((c0 as u32) - 32) as u8 as char
        } else {
            c0
        };
        assert(c == ascii_upper(n@[0]));
        if ('A' <= c && c <= 'Z') || ('0' <= c && c <= '9') {
            Some(Key::Other(c as u32))
        } else {
            None
        }
    } else {
        None
    }
}

/// Number of modifier keys in `keys`.
pub open spec fn count_modifiers(keys: Seq<Key>) -> nat
    decreases keys.len(),
{
    if keys.len() == 0 {
        0
    } else {
        count_modifiers(keys.drop_last()) + if keys.last().spec_is_modifier() {
            1nat
        } else {
            0nat
        }
    }
}

/// The combo rules: at least two keys, at least one modifier, at most one
/// regular key.
pub open spec fn combo_is_valid(keys: Seq<Key>) -> bool {
    &&& keys.len() >= 2
    &&& count_modifiers(keys) >= 1
    &&& keys.len() - count_modifiers(keys) <= 1
}

/// What `parse_combo` returns for configuration names `names`.
pub open spec fn spec_parse_combo(names: Seq<Seq<char>>) -> Option<Seq<Key>> {
    if forall|i: int| 0 <= i < names.len() ==> (#[trigger] spec_key_from_name(names[i])) is Some {
        let keys = Seq::new(names.len(), |i: int| spec_key_from_name(names[i])->0);
        if combo_is_valid(keys) {
            Some(keys)
        } else {
            None
        }
    } else {
        None
    }
}

/// Validate and parse a combo from configuration names. `None` means the
/// combo is invalid.
pub fn parse_combo(names: &[String]) -> (r: Option<Vec<Key>>)
    ensures
        match r {
            Some(v) => spec_parse_combo(names@.map_values(|s: String| s@)) == Some(v@),
            None => spec_parse_combo(names@.map_values(|s: String| s@)) is None,
        },
{
    let ghost views = names@.map_values(|s: String| s@);
    let mut keys: Vec<Key> = Vec::new();
    let mut modifiers: usize = 0;
    let mut i: usize = 0;
    while i < names.len()
        invariant
            i <= names.len(),
            views == names@.map_values(|s: String| s@),
            keys.len() == i,
            forall|j: int| 0 <= j < i ==> spec_key_from_name(#[trigger] views[j]) == Some(keys@[j]),
            modifiers == count_modifiers(keys@),
            modifiers <= i,
        decreases names.len() - i,
    {
        match key_from_name(names[i].as_str()) {
            Some(k) => {
                let ghost before = keys@;
                keys.push(k);
                assert(keys@.drop_last() == before);
                if k.is_modifier() {
                    modifiers += 1;
                }
            },
            None => {
                assert(spec_key_from_name(views[i as int]) is None);
                return None;
            },
        }
        i += 1;
    }
    assert(keys@ =~= Seq::new(views.len(), |j: int| spec_key_from_name(views[j])->0));
    let others = keys.len() - modifiers;
    if keys.len() >= 2 && modifiers >= 1 && others <= 1 {
        Some(keys)
    } else {
        None
    }
}

/// The first regular key of `combo`, by its virtual-key code.
pub open spec fn first_other(combo: Seq<Key>) -> Option<u32>
    decreases combo.len(),
{
    if combo.len() == 0 {
        None
    } else if combo[0] is Other {
        Some(combo[0]->0)
    } else {
        first_other(combo.drop_first())
    }
}

/// The regular key the OS hook must swallow while the combo is held, if any.
pub fn combo_other_vk(combo: &[Key]) -> (r: Option<u32>)
    ensures
        r == first_other(combo@),
{
    let mut i: usize = 0;
    assert(combo@.skip(0) =~= combo@);
    while i < combo.len()
        invariant
            i <= combo.len(),
            first_other(combo@) == first_other(combo@.skip(i as int)),
        decreases combo.len() - i,
    {
        assert(combo@.skip(i as int).drop_first() =~= combo@.skip(i + 1));
        if let Key::Other(vk) = combo[i] {
            return Some(vk);
        }
        i += 1;
    }
    None
}


/// Index of the first occurrence of `key` in `combo`.
pub open spec fn index_of(combo: Seq<Key>, key: Key) -> Option<int>
    decreases combo.len(),
{
    if combo.len() == 0 {
        None
    } else if combo[0] == key {
        Some(0)
    } else {
        match index_of(combo.drop_first(), key) {
            Some(i) => Some(i + 1),
            None => None,
        }
    }
}

pub proof fn lemma_index_of(combo: Seq<Key>, key: Key)
    ensures
        index_of(combo, key) is None <==> !combo.contains(key),
        index_of(combo, key) matches Some(i) ==> 0 <= i < combo.len() && combo[i] == key
            && forall|j: int| 0 <= j < i ==> combo[j] != key,
    decreases combo.len(),
{
    if combo.len() > 0 {
        lemma_index_of(combo.drop_first(), key);
        if combo[0] != key {
            assert forall|j: int| 0 <= j < combo.len() - 1 implies combo.drop_first()[j] == combo[j + 1] by {}
            if combo.contains(key) {
                let j = choose|j: int| 0 <= j < combo.len() && combo[j] == key;
                assert(combo.drop_first()[j - 1] == key);
            }
            if let Some(i) = index_of(combo, key) {
                assert forall|j: int| 0 <= j < i implies combo[j] != key by {
                    if j > 0 {
                        assert(combo.drop_first()[j - 1] == combo[j]);
                    }
                }
            }
        }
    }
}

/// True when every entry of `down` is set.
pub open spec fn all_down(down: Seq<bool>) -> bool {
    forall|i: int| 0 <= i < down.len() ==> down[i]
}

/// Milliseconds between `start` and `t`, never negative.
pub open spec fn held_between(start: u64, t: u64) -> u64 {
    if t >= start {
        (t - start) as u64
    } else {
        0
    }
}

/// One step of the tracker: from the keys held (`down`) and the start time of
/// the current take (`started`), an event gives the new held keys, the new
/// start time and the action for the pipeline.
pub open spec fn tracker_step(combo: Seq<Key>, down: Seq<bool>, started: Option<u64>, ev: KeyEvent)
    -> (Seq<bool>, Option<u64>, Action)
{
    match ev {
        KeyEvent::Down(key, t) => match index_of(combo, key) {
            None => (down, started, Action::Idle),
            Some(i) => {
                let d = down.update(i, true);
                if all_down(d) && started is None {
                    (d, Some(t), Action::Start)
                } else {
                    (d, started, Action::Idle)
                }
            },
        },
        KeyEvent::Up(key, t) => match index_of(combo, key) {
            None => (down, started, Action::Idle),
            Some(i) => {
                let d = down.update(i, false);
                match started {
                    None => (d, None, Action::Idle),
                    Some(s) => {
                        let held = held_between(s, t);
                        (d, None, if held >= MIN_HOLD_MS { Action::Finish { held_ms: held } } else { Action::Cancel })
                    },
                }
            },
        },
    }
}

/// A take starts only when every combo key is held and no take is running;
/// it starts at the time of the event that completed the combo.
pub proof fn lemma_start_needs_whole_combo(combo: Seq<Key>, down: Seq<bool>, started: Option<u64>, ev: KeyEvent)
    requires
        down.len() == combo.len(),
    ensures
        ({
            let (d, s, a) = tracker_step(combo, down, started, ev);
            &&& d.len() == combo.len()
            &&& a == Action::Start ==> all_down(d) && started is None && ev is Down && s == Some(ev->Down_1)
        }),
{
    match ev {
        KeyEvent::Down(key, t) => { lemma_index_of(combo, key); },
        KeyEvent::Up(key, t) => { lemma_index_of(combo, key); },
    }
}

/// Holding the whole combo starts a take: for a combo that names each key
/// once, with no take running, pressing the one combo key not yet held, at
/// `t`, starts a take at `t`.
pub proof fn lemma_whole_combo_starts(combo: Seq<Key>, down: Seq<bool>, j: int, t: u64)
    requires
        down.len() == combo.len(),
        forall|a: int, b: int| 0 <= a < b < combo.len() ==> combo[a] != combo[b],
        0 <= j < combo.len(),
        forall|i: int| 0 <= i < combo.len() && i != j ==> down[i],
    ensures
        tracker_step(combo, down, None, KeyEvent::Down(combo[j], t)) == (down.update(j, true), Some(t), Action::Start),
{
    lemma_index_of(combo, combo[j]);
    let i = index_of(combo, combo[j])->0;
    assert(i == j) by {
        if i < j {
            assert(combo[i] == combo[j]);
        } else if i > j {
            assert(combo[j] != combo[i]);
        }
    }
    assert(all_down(down.update(j, true)));
}

/// The key an event is about.
pub open spec fn event_key(ev: KeyEvent) -> Key {
    match ev {
        KeyEvent::Down(k, _) => k,
        KeyEvent::Up(k, _) => k,
    }
}

/// Whether `key` is physically down after the events `evs`: its last event
/// was a press; a key never touched is up.
pub open spec fn physically_down(evs: Seq<KeyEvent>, key: Key) -> bool
    decreases evs.len(),
{
    if evs.len() == 0 {
        false
    } else if event_key(evs.last()) == key {
        evs.last() is Down
    } else {
        physically_down(evs.drop_last(), key)
    }
}

/// Every key event of a combo key is recorded, whether or not a take is
/// running: for a combo that names each key once, after any event the held
/// flag of each combo key is true exactly when that key's event was a press
/// (for the key of the event) or as it was before (for every other key).
pub proof fn lemma_event_records_key(combo: Seq<Key>, down: Seq<bool>, started: Option<u64>, ev: KeyEvent)
    requires
        down.len() == combo.len(),
        forall|a: int, b: int| 0 <= a < b < combo.len() ==> combo[a] != combo[b],
    ensures
        ({
            let (d, s, a) = tracker_step(combo, down, started, ev);
            &&& d.len() == combo.len()
            &&& forall|j: int|
                0 <= j < combo.len() ==> d[j] == if combo[j] == event_key(ev) {
                    ev is Down
                } else {
                    down[j]
                }
        }),
{
    let key = event_key(ev);
    lemma_index_of(combo, key);
    if let Some(i) = index_of(combo, key) {
        assert forall|j: int| 0 <= j < combo.len() && combo[j] == key implies j == i by {
            if j < i {
                assert(combo[j] == combo[i]);
            } else if j > i {
                assert(combo[i] != combo[j]);
            }
        }
    }
}

/// A take starts only when every combo key is physically down: running the
/// tracker from all keys up over the events `evs` (states `downs`, take
/// starts `starts`, actions `acts`), for a combo that names each key once,
/// the held flags always match the physical keys, and every `Start` comes
/// with all combo keys pressed and not released since.
pub proof fn lemma_start_needs_every_key_down(
    combo: Seq<Key>,
    evs: Seq<KeyEvent>,
    downs: Seq<Seq<bool>>,
    starts: Seq<Option<u64>>,
    acts: Seq<Action>,
)
    requires
        forall|a: int, b: int| 0 <= a < b < combo.len() ==> combo[a] != combo[b],
        downs.len() == evs.len() + 1,
        starts.len() == evs.len() + 1,
        acts.len() == evs.len(),
        downs[0] == Seq::new(combo.len(), |i: int| false),
        forall|k: int|
            0 <= k < evs.len() ==> (downs[k + 1], starts[k + 1], acts[k]) == tracker_step(
                combo,
                downs[k],
                starts[k],
                #[trigger] evs[k],
            ),
    ensures
        downs.last().len() == combo.len(),
        forall|j: int| 0 <= j < combo.len() ==> downs.last()[j] == physically_down(evs, combo[j]),
        forall|k: int|
            0 <= k < evs.len() && #[trigger] acts[k] == Action::Start ==> forall|j: int|
                0 <= j < combo.len() ==> physically_down(evs.take(k + 1), combo[j]),
    decreases evs.len(),
{
    if evs.len() > 0 {
        let n = evs.len() - 1;
        lemma_start_needs_every_key_down(combo, evs.drop_last(), downs.drop_last(), starts.drop_last(), acts.drop_last());
        assert(downs.drop_last().last() == downs[n]);
        assert((downs[n + 1], starts[n + 1], acts[n]) == tracker_step(combo, downs[n], starts[n], evs[n]));
        lemma_event_records_key(combo, downs[n], starts[n], evs[n]);
        assert(evs.drop_last().last() == evs[n - 1] || n == 0);
        assert forall|j: int| 0 <= j < combo.len() implies downs.last()[j] == physically_down(evs, combo[j]) by {
            assert(evs.last() == evs[n]);
        }
        assert forall|k: int|
            0 <= k < evs.len() && #[trigger] acts[k] == Action::Start implies forall|j: int|
                0 <= j < combo.len() ==> physically_down(evs.take(k + 1), combo[j]) by {
            if k < n {
                assert(acts.drop_last()[k] == acts[k]);
                assert(evs.drop_last().take(k + 1) =~= evs.take(k + 1));
            } else {
                assert(evs.take(k + 1) =~= evs);
                lemma_start_needs_whole_combo(combo, downs[n], starts[n], evs[n]);
                assert(all_down(downs[n + 1]));
            }
        }
    } else {
        assert forall|j: int| 0 <= j < combo.len() implies downs.last()[j] == physically_down(evs, combo[j]) by {
            assert(downs.last() == downs[0]);
        }
    }
}

/// Takes alternate: `Start` opens a take, `Finish` and `Cancel` close it,
/// and `Idle` leaves it as it was. So a repeated key-down never starts a
/// second take, and a release outside a take reports nothing.
pub proof fn lemma_take_alternation(combo: Seq<Key>, down: Seq<bool>, started: Option<u64>, ev: KeyEvent)
    requires
        down.len() == combo.len(),
    ensures
        ({
            let (d, s, a) = tracker_step(combo, down, started, ev);
            &&& a == Action::Start ==> started is None && s is Some
            &&& (a is Finish || a == Action::Cancel) ==> started is Some && s is None
            &&& a == Action::Idle ==> s == started
            &&& started is Some ==> a != Action::Start
        }),
{
}

/// The first release of any combo key during a take ends it: held at least
/// `MIN_HOLD_MS` it finishes with the hold time, otherwise it cancels.
pub proof fn lemma_release_ends_take(combo: Seq<Key>, down: Seq<bool>, s: u64, key: Key, t: u64)
    requires
        down.len() == combo.len(),
        combo.contains(key),
    ensures
        ({
            let (d, st, a) = tracker_step(combo, down, Some(s), KeyEvent::Up(key, t));
            &&& st is None
            &&& held_between(s, t) >= MIN_HOLD_MS ==> a == Action::Finish { held_ms: held_between(s, t) }
            &&& held_between(s, t) < MIN_HOLD_MS ==> a == Action::Cancel
        }),
{
    lemma_index_of(combo, key);
}

/// Keys outside the combo change nothing and ask for nothing.
pub proof fn lemma_unrelated_keys_ignored(combo: Seq<Key>, down: Seq<bool>, started: Option<u64>, ev: KeyEvent)
    requires
        !combo.contains(
            match ev {
                KeyEvent::Down(k, _) => k,
                KeyEvent::Up(k, _) => k,
            },
        ),
    ensures
        tracker_step(combo, down, started, ev) == (down, started, Action::Idle),
{
    match ev {
        KeyEvent::Down(key, t) => { lemma_index_of(combo, key); },
        KeyEvent::Up(key, t) => { lemma_index_of(combo, key); },
    }
}

pub struct HoldTracker {
    combo: Vec<Key>,
    down: Vec<bool>,
    started_at: Option<u64>,
}

impl HoldTracker {
    /// The combo being tracked.
    pub closed spec fn combo(&self) -> Seq<Key> {
        self.combo@
    }

    /// For each combo key, whether it is held right now.
    pub closed spec fn held(&self) -> Seq<bool> {
        self.down@
    }

    /// When the current take started, if one is running.
    pub closed spec fn started(&self) -> Option<u64> {
        self.started_at
    }

    pub open spec fn wf(&self) -> bool {
        self.held().len() == self.combo().len()
    }

    pub fn new(combo: Vec<Key>) -> (t: Self)
        ensures
            t.wf(),
            t.combo() == combo@,
            t.held() == Seq::new(combo@.len(), |i: int| false),
            t.started() is None,
    {
        let n = combo.len();
        let mut down: Vec<bool> = Vec::new();
        while down.len() < n
            invariant
                down.len() <= n,
                forall|i: int| 0 <= i < down.len() ==> !down@[i],
            decreases n - down.len(),
        {
            down.push(false);
        }
        assert(down@ =~= Seq::new(combo@.len(), |i: int| false));
        HoldTracker { combo, down, started_at: None }
    }

    fn index_of(&self, key: Key) -> (r: Option<usize>)
        ensures
            match r {
                Some(i) => index_of(self.combo@, key) == Some(i as int) && i < self.combo@.len(),
                None => index_of(self.combo@, key) is None,
            },
    {
        let mut i: usize = 0;
        proof { lemma_index_of(self.combo@, key); }
        while i < self.combo.len()
            invariant
                i <= self.combo.len(),
                forall|j: int| 0 <= j < i ==> self.combo@[j] != key,
            decreases self.combo.len() - i,
        {
            if self.combo[i] == key {
                proof {
                    lemma_index_of(self.combo@, key);
                    if let Some(k) = index_of(self.combo@, key) {
                        assert(k == i as int);
                    }
                }
                return Some(i);
            }
            i += 1;
        }
        assert(!self.combo@.contains(key));
        None
    }

    fn all_held(&self) -> (b: bool)
        ensures
            b == all_down(self.down@),
    {
        let mut i: usize = 0;
        while i < self.down.len()
            invariant
                i <= self.down.len(),
                forall|j: int| 0 <= j < i ==> self.down@[j],
            decreases self.down.len() - i,
        {
            if !self.down[i] {
                return false;
            }
            i += 1;
        }
        true
    }

    /// Feed one key transition; returns what the pipeline should do.
    pub fn on_event(&mut self, ev: KeyEvent) -> (a: Action)
        requires
            old(self).wf(),
        ensures
            final(self).wf(),
            final(self).combo() == old(self).combo(),
            (final(self).held(), final(self).started(), a)
                == tracker_step(old(self).combo(), old(self).held(), old(self).started(), ev),
    {
        match ev {
            KeyEvent::Down(key, t) => {
                let i = match self.index_of(key) {
                    Some(i) => i,
                    None => return Action::Idle,
                };
                self.down.set(i, true);
                if self.all_held() && self.started_at.is_none() {
                    self.started_at = Some(t);
                    Action::Start
                } else {
                    Action::Idle
                }
            },
            KeyEvent::Up(key, t) => {
                let i = match self.index_of(key) {
                    Some(i) => i,
                    None => return Action::Idle,
                };
                self.down.set(i, false);
                match self.started_at.take() {
                    None => Action::Idle,
                    Some(s) => {
                        let held_ms = t.saturating_sub(s);
                        if held_ms >= MIN_HOLD_MS {
                            Action::Finish { held_ms }
                        } else {
                            Action::Cancel
                        }
                    },
                }
            },
        }
    }
}

} // verus!
