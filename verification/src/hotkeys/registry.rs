//! The registry of hotkeys in two tiers: the system hotkeys, one trie for
//! each context, set up once; and the hotkeys of the entries on screen, one
//! trie that is emptied and filled again whenever the list is drawn.
//! A lookup asks the system tier first, so that no shortcut of an entry can
//! shadow a system hotkey.

use std::collections::HashMap;
use std::marker::PhantomData;
use vstd::prelude::*;

use super::combo::KeyCombo;
use super::trie::{HotkeysTrie, HotkeysTrieNode};

verus! {

broadcast use vstd::std_specs::hash::group_hash_axioms;

/// A context that system hotkeys are registered for. Each context has a
/// slot of its own, under which the registry keeps its trie.
pub trait HotkeyContext: Sized {
    /// The slot of this context.
    spec fn slot(&self) -> u64;

    /// Computes `slot`.
    fn slot_of(&self) -> (s: u64)
        ensures
            s == self.slot(),
    ;

    /// Two contexts with the same slot are the same context.
    proof fn lemma_slots_identify(a: &Self, b: &Self)
        requires
            a.slot() == b.slot(),
        ensures
            a == b,
    ;
}

/// One more, or `usize::MAX` where the count stands there already.
pub open spec fn counted_up(count: usize) -> usize {
    if count < usize::MAX {
        (count + 1) as usize
    } else {
        count
    }
}

/// The two tiers of hotkeys, with the number of registrations in each.
#[derive(Debug)]
pub struct HotkeysRegistry<C, T> {
    /// The trie of each context that has system hotkeys, under its slot.
    pub system_hotkeys: HashMap<u64, HotkeysTrie<T>>,
    pub system_hotkeys_count: usize,
    /// The hotkeys of the entries on screen.
    pub entry_hotkeys: HotkeysTrie<T>,
    pub entry_hotkeys_count: usize,
    pub context: PhantomData<C>,
}

impl<C: HotkeyContext, T> HotkeysRegistry<C, T> {
    /// The trie of system hotkeys registered for `context`.
    pub open spec fn system_trie(self, context: C) -> Option<HotkeysTrie<T>> {
        if self.system_hotkeys@.contains_key(context.slot()) {
            Some(self.system_hotkeys@[context.slot()])
        } else {
            None
        }
    }

    /// The value that the system tier binds to `keys` in `context`.
    pub open spec fn system_value(self, context: C, keys: Seq<KeyCombo>) -> Option<T> {
        match self.system_trie(context) {
            Some(trie) => trie.value_at(keys),
            None => None,
        }
    }

    /// The node that `keys` leads to in the system tier of `context`.
    pub open spec fn system_node(self, context: C, keys: Seq<KeyCombo>) -> Option<
        HotkeysTrieNode<T>,
    > {
        match self.system_trie(context) {
            Some(trie) => trie.node_at(keys),
            None => None,
        }
    }

    /// Nothing was registered in either tier.
    pub open spec fn is_blank(self) -> bool {
        self.system_hotkeys_count == 0 && self.entry_hotkeys_count == 0
    }

    /// What a lookup of a value gives: nothing while the registry is blank;
    /// else the value of the system tier, and only where that has none, the
    /// value of the entry tier.
    pub open spec fn hotkey_value(self, context: C, keys: Seq<KeyCombo>) -> Option<T> {
        if self.is_blank() {
            None
        } else {
            match self.system_value(context, keys) {
                Some(value) => Some(value),
                None => self.entry_hotkeys.value_at(keys),
            }
        }
    }

    /// What a lookup of a node gives: nothing while the registry is blank;
    /// else the node of the system tier, and only where the path fails
    /// there, the node of the entry tier.
    pub open spec fn hotkey_node(self, context: C, keys: Seq<KeyCombo>) -> Option<
        HotkeysTrieNode<T>,
    > {
        if self.is_blank() {
            None
        } else {
            match self.system_node(context, keys) {
                Some(node) => Some(node),
                None => self.entry_hotkeys.node_at(keys),
            }
        }
    }

    /// Every trie of the registry is well formed.
    pub open spec fn well_formed(self) -> bool {
        &&& self.entry_hotkeys.well_formed()
        &&& forall|s: u64| #[trigger]
            self.system_hotkeys@.contains_key(s) ==> self.system_hotkeys@[s].well_formed()
    }

    /// A registry without hotkeys.
    pub fn new() -> (registry: Self)
        ensures
            registry.is_blank(),
            registry.well_formed(),
            registry.system_hotkeys@ == Map::<u64, HotkeysTrie<T>>::empty(),
            registry.entry_hotkeys.is_empty(),
    {
        HotkeysRegistry {
            system_hotkeys: HashMap::new(),
            system_hotkeys_count: 0,
            entry_hotkeys: HotkeysTrie::new(),
            entry_hotkeys_count: 0,
            context: PhantomData,
        }
    }

    /// Binds `value` to `key_combos` in the system tier of `context`, whose
    /// trie is created if it is the first for that context. The other
    /// contexts and the entry tier stay as they are.
    pub fn register_system_hotkey(&mut self, context: C, key_combos: &[KeyCombo], value: T)
        ensures
            final(self).system_hotkeys_count == counted_up(old(self).system_hotkeys_count),
            final(self).entry_hotkeys_count == old(self).entry_hotkeys_count,
            final(self).entry_hotkeys == old(self).entry_hotkeys,
            final(self).system_hotkeys@.dom() == old(self).system_hotkeys@.dom().insert(
                context.slot(),
            ),
            forall|s: u64|
                s != context.slot() && old(self).system_hotkeys@.contains_key(s) ==> #[trigger]
                final(self).system_hotkeys@[s] == old(self).system_hotkeys@[s],
            forall|c: C, keys: Seq<KeyCombo>| #[trigger]
                final(self).system_value(c, keys) == (if c.slot() == context.slot() && keys
                    == key_combos@ {
                    Some(value)
                } else {
                    old(self).system_value(c, keys)
                }),
            forall|c: C, keys: Seq<KeyCombo>|
                (#[trigger] final(self).system_node(c, keys)) is Some <==> (old(self).system_node(
                    c,
                    keys,
                ) is Some || (c.slot() == context.slot() && keys.is_prefix_of(key_combos@))),
            old(self).well_formed() ==> final(self).well_formed(),
    {
        let slot = context.slot_of();
        if self.system_hotkeys_count < usize::MAX {
            self.system_hotkeys_count += 1;
        }
        let ghost had_trie = self.system_hotkeys@.contains_key(slot);
        let mut trie = match self.system_hotkeys.remove(&slot) {
            Some(found) => found,
            None => HotkeysTrie::new(),
        };
        let ghost before = trie;
        trie.insert(key_combos, value);
        let ghost after = trie;
        self.system_hotkeys.insert(slot, trie);
        proof {
            assert(final(self).system_hotkeys@ =~= old(self).system_hotkeys@.insert(slot, after));
            assert(final(self).system_hotkeys@.dom() =~= old(self).system_hotkeys@.dom().insert(
                slot,
            ));
            assert forall|c: C, keys: Seq<KeyCombo>| #[trigger]
                final(self).system_value(c, keys) == (if c.slot() == context.slot() && keys
                    == key_combos@ {
                    Some(value)
                } else {
                    old(self).system_value(c, keys)
                }) by {
                if c.slot() == slot {
                    assert(after.value_at(keys) == (if keys == key_combos@ {
                        Some(value)
                    } else {
                        before.value_at(keys)
                    }));
                    if !had_trie {
                        before.lemma_empty();
                        assert(before.value_at(keys) is None);
                    }
                }
            }
            assert forall|c: C, keys: Seq<KeyCombo>|
                (#[trigger] final(self).system_node(c, keys)) is Some <==> (old(self).system_node(
                    c,
                    keys,
                ) is Some || (c.slot() == context.slot() && keys.is_prefix_of(key_combos@))) by {
                if c.slot() == slot {
                    assert(after.has_path(keys) <==> (before.has_path(keys) || keys.is_prefix_of(
                        key_combos@,
                    )));
                    if !had_trie {
                        before.lemma_empty();
                        assert(before.has_path(keys) <==> keys.len() == 0);
                        if keys.len() == 0 {
                            assert(keys.is_prefix_of(key_combos@));
                        }
                    }
                }
            }
        }
    }

    /// Binds `value` to `key_combos` in the entry tier. The system tier stays
    /// as it is.
    pub fn register_entry_hotkey(&mut self, key_combos: &[KeyCombo], value: T)
        ensures
            final(self).entry_hotkeys_count == counted_up(old(self).entry_hotkeys_count),
            final(self).system_hotkeys_count == old(self).system_hotkeys_count,
            final(self).system_hotkeys == old(self).system_hotkeys,
            final(self).entry_hotkeys@ == old(self).entry_hotkeys@.insert(key_combos@, value),
            forall|keys: Seq<KeyCombo>| #[trigger]
                final(self).entry_hotkeys.value_at(keys) == (if keys == key_combos@ {
                    Some(value)
                } else {
                    old(self).entry_hotkeys.value_at(keys)
                }),
            forall|keys: Seq<KeyCombo>|
                (#[trigger] final(self).entry_hotkeys.node_at(keys)) is Some <==> (old(self).entry_hotkeys.has_path(keys) || keys.is_prefix_of(key_combos@)),
            old(self).entry_hotkeys.well_formed() ==> final(self).entry_hotkeys.well_formed(),
            old(self).well_formed() ==> final(self).well_formed(),
    {
        if self.entry_hotkeys_count < usize::MAX {
            self.entry_hotkeys_count += 1;
        }
        self.entry_hotkeys.insert(key_combos, value);
    }

    /// Empties the entry tier. The system tier stays as it is.
    pub fn clear_entry_hotkeys(&mut self)
        ensures
            final(self).entry_hotkeys_count == 0,
            final(self).entry_hotkeys.is_empty(),
            final(self).entry_hotkeys.well_formed(),
            final(self).entry_hotkeys@ == Map::<Seq<KeyCombo>, T>::empty(),
            final(self).system_hotkeys_count == old(self).system_hotkeys_count,
            final(self).system_hotkeys == old(self).system_hotkeys,
            old(self).well_formed() ==> final(self).well_formed(),
    {
        self.entry_hotkeys.clear();
        self.entry_hotkeys_count = 0;
    }

    /// The value bound to `key_combos`: that of the system tier of
    /// `context` where it has one, else that of the entry tier.
    pub fn get_hotkey_value(&self, context: C, key_combos: &[KeyCombo]) -> (value: Option<&T>)
        ensures
            match value {
                Some(found) => self.hotkey_value(context, key_combos@) == Some(*found),
                None => self.hotkey_value(context, key_combos@) is None,
            },
    {
        if self.system_hotkeys_count == 0 && self.entry_hotkeys_count == 0 {
            return None;
        }
        let slot = context.slot_of();
        match self.system_hotkeys.get(&slot) {
            Some(trie) => {
                match trie.get_value(key_combos) {
                    Some(found) => Some(found),
                    None => self.entry_hotkeys.get_value(key_combos),
                }
            },
            None => self.entry_hotkeys.get_value(key_combos),
        }
    }

    /// The node that `key_combos` leads to: that of the system tier of
    /// `context` where the path exists there, else that of the entry tier.
    pub fn get_hotkey_node(&self, context: C, key_combos: &[KeyCombo]) -> (node: Option<
        &HotkeysTrieNode<T>,
    >)
        ensures
            match node {
                Some(found) => self.hotkey_node(context, key_combos@) == Some(*found),
                None => self.hotkey_node(context, key_combos@) is None,
            },
    {
        if self.system_hotkeys_count == 0 && self.entry_hotkeys_count == 0 {
            return None;
        }
        let slot = context.slot_of();
        match self.system_hotkeys.get(&slot) {
            Some(trie) => {
                match trie.get_node(key_combos) {
                    Some(found) => Some(found),
                    None => self.entry_hotkeys.get_node(key_combos),
                }
            },
            None => self.entry_hotkeys.get_node(key_combos),
        }
    }

    /// A system hotkey is found under its sequence whatever the entry tier
    /// binds to the same sequence.
    pub proof fn lemma_system_hotkeys_take_precedence(self, context: C, keys: Seq<KeyCombo>)
        requires
            self.system_value(context, keys) is Some,
            !self.is_blank(),
        ensures
            self.hotkey_value(context, keys) == self.system_value(context, keys),
            self.hotkey_node(context, keys) == self.system_node(context, keys),
    {
    }
}

impl<C: HotkeyContext, T> Default for HotkeysRegistry<C, T> {
    fn default() -> (registry: Self)
        ensures
            registry.is_blank(),
            registry.well_formed(),
    {
        HotkeysRegistry::new()
    }
}

} // verus!
