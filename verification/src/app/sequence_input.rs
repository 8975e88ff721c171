//! The reading of keystrokes as sequences.
//!
//! Each keystroke is added to a buffer, and the buffer is looked up in the
//! registry: it is bound to an action, which is then run once; or it is the
//! beginning of a longer sequence, and the next keystroke is awaited; or it
//! leads nowhere, and in search mode its characters are text for the search
//! box. A buffer that was left alone for the time of the timeout is stale:
//! the next keystroke starts afresh.

use vstd::prelude::*;

use super::modes::{Action, InputMode};
use crate::hotkeys::{HotkeysRegistry, KeyCombo};

verus! {

/// After this many milliseconds without a keystroke the buffer is stale.
pub const INACTIVITY_TIMEOUT_MS: u64 = 500;

/// What the buffer came to with the last keystroke.
#[derive(Debug, Clone, Copy, PartialEq, Eq, Structural)]
pub enum Resolution {
    /// The buffer begins a longer sequence: nothing is run yet.
    Pending,
    /// The buffer is bound to this action, which is to be run once.
    Execute(Action),
    /// The buffer leads nowhere.
    Unbound,
}

/// What a keystroke led to.
#[derive(Debug)]
pub struct KeyOutcome {
    /// The characters that go into the search box as text, in order.
    pub typed: Vec<char>,
    /// Whether buffered keystrokes were handed over as text, so that the
    /// list has to be filtered again, even where `typed` is empty.
    pub flushed: bool,
    pub resolution: Resolution,
}

/// The buffer of keystrokes and the time of the last one.
#[derive(Debug)]
pub struct SequenceInputController {
    pub collected_key_combos: Vec<KeyCombo>,
    /// When the last keystroke was taken into the buffer, in milliseconds.
    pub last_key_press_time: Option<u64>,
}

/// Whether a buffer whose last keystroke came at `last` is stale at `now`.
pub open spec fn is_stale(last: Option<u64>, now: u64) -> bool {
    match last {
        Some(at) => now - at >= INACTIVITY_TIMEOUT_MS,
        None => false,
    }
}

/// The characters of the character keys among `keys`, in order.
pub open spec fn typed_chars(keys: Seq<KeyCombo>) -> Seq<char>
    decreases keys.len(),
{
    if keys.len() == 0 {
        Seq::empty()
    } else {
        match keys.last().key_code.character() {
            Some(c) => typed_chars(keys.drop_last()).push(c),
            None => typed_chars(keys.drop_last()),
        }
    }
}

/// The buffer that the keystroke `key` is looked up with: what was
/// buffered, unless it is stale, and `key`.
pub open spec fn attempted(buffer: Seq<KeyCombo>, last: Option<u64>, key: KeyCombo, now: u64) -> Seq<
    KeyCombo,
> {
    if is_stale(last, now) {
        seq![key]
    } else {
        buffer.push(key)
    }
}

/// What the buffer `keys` comes to in `mode`.
pub open spec fn resolution_of(
    registry: HotkeysRegistry<InputMode, Action>,
    mode: InputMode,
    keys: Seq<KeyCombo>,
) -> Resolution {
    match registry.hotkey_node(mode, keys) {
        Some(node) => match node.value {
            Some(action) => Resolution::Execute(action),
            None => if node.has_children() {
                Resolution::Pending
            } else {
                Resolution::Unbound
            },
        },
        None => Resolution::Unbound,
    }
}

/// The text that the keystroke hands to the search box: in search mode the
/// characters of a stale buffer, and those of a buffer that leads nowhere.
pub open spec fn text_of(
    registry: HotkeysRegistry<InputMode, Action>,
    mode: InputMode,
    buffer: Seq<KeyCombo>,
    last: Option<u64>,
    key: KeyCombo,
    now: u64,
) -> Seq<char> {
    let keys = attempted(buffer, last, key, now);
    let stale = if mode == InputMode::Search && is_stale(last, now) {
        typed_chars(buffer)
    } else {
        Seq::empty()
    };
    let unbound = if mode == InputMode::Search && resolution_of(registry, mode, keys)
        == Resolution::Unbound {
        typed_chars(keys)
    } else {
        Seq::empty()
    };
    stale + unbound
}

/// Appends the characters of the character keys among `keys` to `text`.
fn flush_chars(keys: &Vec<KeyCombo>, text: &mut Vec<char>)
    ensures
        final(text)@ == old(text)@ + typed_chars(keys@),
{
    let mut i: usize = 0;
    proof {
        assert(keys@.take(0) =~= Seq::empty());
        assert(text@ + Seq::<char>::empty() =~= text@);
    }
    while i < keys.len()
        invariant
            i <= keys.len(),
            text@ == old(text)@ + typed_chars(keys@.take(i as int)),
        decreases keys.len() - i,
    {
        proof {
            assert(keys@.take(i + 1).drop_last() =~= keys@.take(i as int));
            assert(keys@.take(i + 1).last() == keys@[i as int]);
        }
        match keys[i].as_char() {
            Some(c) => {
                text.push(c);
                proof {
                    assert(text@ =~= old(text)@ + typed_chars(keys@.take(i as int)).push(c));
                }
            },
            None => {},
        }
        i += 1;
    }
    proof {
        assert(keys@.take(keys@.len() as int) =~= keys@);
    }
}

impl SequenceInputController {
    /// A controller with an empty buffer.
    pub fn new() -> (controller: Self)
        ensures
            controller.collected_key_combos@.len() == 0,
            controller.last_key_press_time is None,
    {
        SequenceInputController { collected_key_combos: Vec::new(), last_key_press_time: None }
    }

    /// Takes the keystroke `key`, pressed at `now` milliseconds, in `mode`.
    ///
    /// A stale buffer is emptied first; in search mode its characters become
    /// text. Then `key` joins the buffer, and the buffer is looked up. A
    /// bound action is handed back to be run once, and the buffer is
    /// emptied. A buffer that begins a longer sequence stays, with `now` as
    /// the time of its last keystroke. A buffer that leads nowhere is
    /// emptied; in search mode its characters become text.
    pub fn press(
        &mut self,
        registry: &HotkeysRegistry<InputMode, Action>,
        mode: InputMode,
        key: KeyCombo,
        now: u64,
    ) -> (outcome: KeyOutcome)
        ensures
            outcome.resolution == resolution_of(
                *registry,
                mode,
                attempted(
                    old(self).collected_key_combos@,
                    old(self).last_key_press_time,
                    key,
                    now,
                ),
            ),
            outcome.typed@ == text_of(
                *registry,
                mode,
                old(self).collected_key_combos@,
                old(self).last_key_press_time,
                key,
                now,
            ),
            outcome.flushed == (mode == InputMode::Search && (is_stale(
                old(self).last_key_press_time,
                now,
            ) || outcome.resolution == Resolution::Unbound)),
            final(self).collected_key_combos@ == (if outcome.resolution == Resolution::Pending {
                attempted(
                    old(self).collected_key_combos@,
                    old(self).last_key_press_time,
                    key,
                    now,
                )
            } else {
                Seq::empty()
            }),
            final(self).last_key_press_time == (if outcome.resolution == Resolution::Pending {
                Some(now)
            } else {
                None
            }),
    {
        let mut typed: Vec<char> = Vec::new();
        let mut flushed = false;
        let stale = match self.last_key_press_time {
            Some(at) => now >= at && now - at >= INACTIVITY_TIMEOUT_MS,
            None => false,
        };
        if stale {
            match mode {
                InputMode::Search => {
                    flush_chars(&self.collected_key_combos, &mut typed);
                    flushed = true;
                },
                InputMode::Normal => {},
            }
            self.collected_key_combos.clear();
            self.last_key_press_time = None;
        }
        proof {
            assert(Seq::<char>::empty() + typed_chars(old(self).collected_key_combos@)
                =~= typed_chars(old(self).collected_key_combos@));
            assert(Seq::<KeyCombo>::empty().push(key) =~= seq![key]);
        }
        self.collected_key_combos.push(key);
        self.last_key_press_time = Some(now);
        let resolution = match registry.get_hotkey_node(mode, self.collected_key_combos.as_slice()) {
            Some(node) => match node.value {
                Some(action) => Resolution::Execute(action),
                None => if node.is_prefix() {
                    Resolution::Pending
                } else {
                    Resolution::Unbound
                },
            },
            None => Resolution::Unbound,
        };
        match resolution {
            Resolution::Pending => {
                proof {
                    assert(typed@ + Seq::<char>::empty() =~= typed@);
                }
            },
            Resolution::Execute(_) => {
                proof {
                    assert(typed@ + Seq::<char>::empty() =~= typed@);
                }
                self.collected_key_combos.clear();
                self.last_key_press_time = None;
            },
            Resolution::Unbound => {
                match mode {
                    InputMode::Search => {
                        flush_chars(&self.collected_key_combos, &mut typed);
                        flushed = true;
                    },
                    InputMode::Normal => {
                        proof {
                            assert(typed@ + Seq::<char>::empty() =~= typed@);
                        }
                    },
                }
                self.collected_key_combos.clear();
                self.last_key_press_time = None;
            },
        }
        KeyOutcome { typed, flushed, resolution }
    }
}

impl Default for SequenceInputController {
    fn default() -> (controller: Self)
        ensures
            controller.collected_key_combos@.len() == 0,
            controller.last_key_press_time is None,
    {
        SequenceInputController::new()
    }
}

} // verus!
