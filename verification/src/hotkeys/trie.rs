//! A prefix tree over sequences of key combinations.
//!
//! Each node owns its children, filed under the token of the combination
//! that leads to them. A node with a value ends a sequence; a node with
//! children and no value is a prefix that is still alive; a missing child
//! means that no sequence goes on that way.

use std::collections::HashMap;
use vstd::prelude::*;

use super::combo::KeyCombo;

verus! {

broadcast use vstd::std_specs::hash::group_hash_axioms;

/// Two non-empty sequences with the same first item are equal exactly if
/// their tails are, and one is a prefix of the other exactly if its tail is a
/// prefix of the other's tail.
proof fn lemma_same_head<A>(q: Seq<A>, r: Seq<A>)
    requires
        q.len() > 0,
        r.len() > 0,
        q[0] == r[0],
    ensures
        q == r <==> q.skip(1) == r.skip(1),
        q.is_prefix_of(r) <==> q.skip(1).is_prefix_of(r.skip(1)),
{
    assert(q.skip(1).len() == q.len() - 1);
    assert(r.skip(1).len() == r.len() - 1);
    if q.skip(1) == r.skip(1) {
        assert(q.len() == r.len());
        assert forall|i: int| 0 <= i < q.len() implies q[i] == r[i] by {
            if i > 0 {
                assert(q[i] == q.skip(1)[i - 1]);
                assert(r[i] == r.skip(1)[i - 1]);
            }
        }
        assert(q =~= r);
    }
    if q.skip(1).is_prefix_of(r.skip(1)) {
        let p = r.subrange(0, q.len() as int);
        assert forall|i: int| 0 <= i < q.len() implies q[i] == p[i] by {
            if i > 0 {
                assert(q[i] == q.skip(1)[i - 1]);
                assert(q.skip(1)[i - 1] == r.skip(1).subrange(0, q.len() - 1)[i - 1]);
            }
        }
        assert(q =~= p);
    }
    if q.is_prefix_of(r) {
        let p = r.skip(1).subrange(0, q.len() - 1);
        assert forall|i: int| 0 <= i < q.len() - 1 implies q.skip(1)[i] == p[i] by {
            assert(q.skip(1)[i] == q[i + 1]);
            assert(q[i + 1] == r.subrange(0, q.len() as int)[i + 1]);
        }
        assert(q.skip(1) =~= p);
    }
}

/// A node of the tree.
#[derive(Debug)]
pub struct HotkeysTrieNode<T> {
    pub children: HashMap<u64, HotkeysTrieNode<T>>,
    pub value: Option<T>,
}

impl<T> HotkeysTrieNode<T> {
    /// The child that `key` leads to.
    pub open spec fn child(self, key: KeyCombo) -> Option<Self> {
        if self.children@.contains_key(key.spec_token()) {
            Some(self.children@[key.spec_token()])
        } else {
            None
        }
    }

    /// The node reached from this one by following `keys`, one child per
    /// combination.
    pub open spec fn descend(self, keys: Seq<KeyCombo>) -> Option<Self>
        decreases keys.len(),
    {
        if keys.len() == 0 {
            Some(self)
        } else {
            match self.child(keys[0]) {
                Some(next) => next.descend(keys.skip(1)),
                None => None,
            }
        }
    }

    /// The value bound to the sequence `keys`, counted from this node.
    pub open spec fn value_at(self, keys: Seq<KeyCombo>) -> Option<T> {
        match self.descend(keys) {
            Some(node) => node.value,
            None => None,
        }
    }

    /// Whether some sequence goes on below this node.
    pub open spec fn has_children(self) -> bool {
        !self.children@.is_empty()
    }

    /// A node without value and without children.
    pub open spec fn is_vacant(self) -> bool {
        self.value is None && !self.has_children()
    }

    /// Every child is filed under the token of a combination, and no node
    /// below this one is vacant: each of them ends a sequence or leads to one.
    pub open spec fn well_formed(self) -> bool
        decreases self,
    {
        forall|t: u64| #[trigger]
            self.children@.contains_key(t) ==> {
                &&& exists|key: KeyCombo| key.spec_token() == t
                &&& !self.children@[t].is_vacant()
                &&& self.children@[t].well_formed()
            }
    }

    /// A node without value and without children.
    pub fn new() -> (node: Self)
        ensures
            node.is_vacant(),
            node.children@ == Map::<u64, HotkeysTrieNode<T>>::empty(),
            node.well_formed(),
    {
        HotkeysTrieNode { children: HashMap::new(), value: None }
    }

    /// Whether some sequence goes on below this node.
    pub fn is_prefix(&self) -> (r: bool)
        ensures
            r == self.has_children(),
    {
        !self.children.is_empty()
    }

    /// From a vacant node only the empty sequence leads anywhere, and
    /// nothing is bound.
    pub proof fn lemma_vacant(self, keys: Seq<KeyCombo>)
        requires
            self.is_vacant(),
        ensures
            self.descend(keys) is Some <==> keys.len() == 0,
            self.value_at(keys) is None,
    {
        if keys.len() > 0 {
            assert(!self.children@.dom().contains(keys[0].spec_token()));
        }
    }

    /// Following `a` and then `b` is following `a + b`.
    pub proof fn lemma_descend_concat(self, a: Seq<KeyCombo>, b: Seq<KeyCombo>)
        ensures
            self.descend(a + b) == match self.descend(a) {
                Some(node) => node.descend(b),
                None => None,
            },
        decreases a.len(),
    {
        if a.len() == 0 {
            assert(a + b =~= b);
        } else {
            assert((a + b)[0] == a[0]);
            assert((a + b).skip(1) =~= a.skip(1) + b);
            match self.child(a[0]) {
                Some(next) => {
                    next.lemma_descend_concat(a.skip(1), b);
                },
                None => {},
            }
        }
    }

    /// Where a path leads to a node, every prefix of it leads to one.
    pub proof fn lemma_descend_prefix(self, keys: Seq<KeyCombo>, n: int)
        requires
            0 <= n <= keys.len(),
            self.descend(keys) is Some,
        ensures
            self.descend(keys.take(n)) is Some,
    {
        assert(keys =~= keys.take(n) + keys.skip(n));
        self.lemma_descend_concat(keys.take(n), keys.skip(n));
    }

    /// In a well-formed tree every node that a non-empty path reaches is
    /// itself well formed and not vacant.
    pub proof fn lemma_reached_node(self, keys: Seq<KeyCombo>)
        requires
            self.well_formed(),
            self.descend(keys) is Some,
        ensures
            self.descend(keys)->0.well_formed(),
            keys.len() > 0 ==> !self.descend(keys)->0.is_vacant(),
        decreases keys.len(),
    {
        if keys.len() > 0 {
            let t = keys[0].spec_token();
            assert(self.children@.contains_key(t));
            let next = self.children@[t];
            if keys.len() > 1 {
                next.lemma_reached_node(keys.skip(1));
            } else {
                assert(keys.skip(1).len() == 0);
            }
        }
    }

    /// In a well-formed tree a node has children exactly if some
    /// combination leads on from it.
    pub proof fn lemma_children_are_steps(self)
        requires
            self.well_formed(),
        ensures
            self.has_children() <==> exists|key: KeyCombo| self.child(key) is Some,
    {
        if self.has_children() {
            assert(!(self.children@.dom() =~= Set::<u64>::empty()));
            let t = choose|t: u64| self.children@.dom().contains(t);
            assert(self.children@.contains_key(t));
            let key = choose|key: KeyCombo| key.spec_token() == t;
            assert(self.child(key) is Some);
        }
        if exists|key: KeyCombo| self.child(key) is Some {
            let key = choose|key: KeyCombo| self.child(key) is Some;
            assert(self.children@.dom().contains(key.spec_token()));
        }
    }

    /// A well-formed node that is not vacant has a bound sequence below it.
    pub proof fn lemma_leads_to_binding(self)
        requires
            self.well_formed(),
            !self.is_vacant(),
        ensures
            exists|more: Seq<KeyCombo>| (#[trigger] self.value_at(more)) is Some,
        decreases self,
    {
        if self.value is Some {
            assert(self.value_at(Seq::<KeyCombo>::empty()) is Some);
        } else {
            assert(!(self.children@.dom() =~= Set::<u64>::empty()));
            let t = choose|t: u64| self.children@.dom().contains(t);
            assert(self.children@.contains_key(t));
            let key = choose|key: KeyCombo| key.spec_token() == t;
            let next = self.children@[t];
            next.lemma_leads_to_binding();
            let more = choose|more: Seq<KeyCombo>| (#[trigger] next.value_at(more)) is Some;
            let whole = seq![key] + more;
            assert(whole[0] == key);
            assert(whole.skip(1) =~= more);
            assert(self.value_at(whole) is Some);
        }
    }

    /// Binds `value` to the sequence `key_combos[from..]`, counted from this
    /// node, creating the nodes that are missing on the way.
    fn insert_from(&mut self, key_combos: &[KeyCombo], from: usize, value: T)
        requires
            from <= key_combos.len(),
        ensures
            forall|q: Seq<KeyCombo>| #[trigger]
                final(self).value_at(q) == (if q == key_combos@.skip(from as int) {
                    Some(value)
                } else {
                    old(self).value_at(q)
                }),
            forall|q: Seq<KeyCombo>|
                (#[trigger] final(self).descend(q)) is Some <==> (old(self).descend(q) is Some
                    || q.is_prefix_of(key_combos@.skip(from as int))),
            old(self).well_formed() ==> final(self).well_formed(),
        decreases key_combos.len() - from,
    {
        let ghost rest = key_combos@.skip(from as int);
        if from == key_combos.len() {
            self.value = Some(value);
            assert(rest.len() == 0);
            assert forall|q: Seq<KeyCombo>| #[trigger]
                final(self).value_at(q) == (if q == rest {
                    Some(value)
                } else {
                    old(self).value_at(q)
                }) by {
                if q.len() == 0 {
                    assert(q =~= rest);
                }
            }
            assert forall|q: Seq<KeyCombo>|
                (#[trigger] final(self).descend(q)) is Some <==> (old(self).descend(q) is Some
                    || q.is_prefix_of(rest)) by {
                if q.len() == 0 {
                    assert(q.is_prefix_of(rest));
                }
            }
        } else {
            let key = key_combos[from];
            let token = key.token();
            let ghost had_child = self.children@.contains_key(token);
            let mut next = match self.children.remove(&token) {
                Some(node) => node,
                None => HotkeysTrieNode::new(),
            };
            let ghost before = next;
            next.insert_from(key_combos, from + 1, value);
            let ghost after = next;
            self.children.insert(token, next);
            let ghost tail = key_combos@.skip(from + 1);
            proof {
                assert(rest.len() > 0);
                assert(rest[0] == key);
                assert(rest.skip(1) =~= tail);
                assert(final(self).children@ =~= old(self).children@.insert(token, after));
                assert(final(self).value == old(self).value);
                assert(final(self).children@.dom().contains(token));
                assert(had_child ==> before == old(self).children@[token]);
                assert(!had_child ==> before.is_vacant());
                // The node put back is not vacant: the rest of the sequence
                // leads somewhere below it.
                assert(after.descend(tail) is Some) by {
                    assert(tail.is_prefix_of(tail));
                }
                assert(!after.is_vacant()) by {
                    if tail.len() == 0 {
                        assert(after.value_at(tail) == Some(value));
                    } else {
                        assert(after.children@.dom().contains(tail[0].spec_token()));
                    }
                }
            }
            assert forall|q: Seq<KeyCombo>| #[trigger]
                final(self).value_at(q) == (if q == rest {
                    Some(value)
                } else {
                    old(self).value_at(q)
                }) by {
                if q.len() == 0 {
                } else if q[0].spec_token() == token {
                    KeyCombo::lemma_token_injective(q[0], key);
                    assert(after.value_at(q.skip(1)) == (if q.skip(1) == tail {
                        Some(value)
                    } else {
                        before.value_at(q.skip(1))
                    }));
                    lemma_same_head(q, rest);
                    if !had_child {
                        before.lemma_vacant(q.skip(1));
                    }
                } else {
                    assert(q[0] != rest[0]);
                }
            }
            assert forall|q: Seq<KeyCombo>|
                (#[trigger] final(self).descend(q)) is Some <==> (old(self).descend(q) is Some
                    || q.is_prefix_of(rest)) by {
                if q.len() == 0 {
                    assert(q.is_prefix_of(rest));
                } else if q[0].spec_token() == token {
                    KeyCombo::lemma_token_injective(q[0], key);
                    assert(after.descend(q.skip(1)) is Some <==> (before.descend(q.skip(1)) is Some
                        || q.skip(1).is_prefix_of(tail)));
                    lemma_same_head(q, rest);
                    if !had_child {
                        before.lemma_vacant(q.skip(1));
                        if q.skip(1).len() == 0 {
                            assert(q.skip(1).is_prefix_of(tail));
                        }
                    }
                } else {
                    assert(q[0] != rest[0]);
                    assert(!q.is_prefix_of(rest)) by {
                        if q.is_prefix_of(rest) {
                            assert(q[0] == rest.subrange(0, q.len() as int)[0]);
                        }
                    }
                }
            }
            assert(old(self).well_formed() ==> final(self).well_formed()) by {
                if old(self).well_formed() {
                    assert(had_child ==> before.well_formed());
                    assert(after.well_formed());
                    assert forall|t: u64| #[trigger]
                        final(self).children@.contains_key(t) implies {
                        &&& exists|k: KeyCombo| k.spec_token() == t
                        &&& !final(self).children@[t].is_vacant()
                        &&& final(self).children@[t].well_formed()
                    } by {
                        if t == token {
                            assert(key.spec_token() == t);
                        } else {
                            assert(old(self).children@.contains_key(t));
                        }
                    }
                }
            }
        }
    }
}

/// A prefix tree that maps complete sequences of key combinations to values.
#[derive(Debug)]
pub struct HotkeysTrie<T> {
    pub root: HotkeysTrieNode<T>,
}

impl<T> View for HotkeysTrie<T> {
    type V = Map<Seq<KeyCombo>, T>;

    /// The bindings of the tree: each sequence that has a value, with it.
    open spec fn view(&self) -> Map<Seq<KeyCombo>, T> {
        Map::new(
            |keys: Seq<KeyCombo>| self.root.value_at(keys) is Some,
            |keys: Seq<KeyCombo>| self.root.value_at(keys)->0,
        )
    }
}

impl<T> HotkeysTrie<T> {
    /// The node that the sequence `keys` leads to from the root.
    pub open spec fn node_at(self, keys: Seq<KeyCombo>) -> Option<HotkeysTrieNode<T>> {
        self.root.descend(keys)
    }

    /// The value bound to exactly the sequence `keys`.
    pub open spec fn value_at(self, keys: Seq<KeyCombo>) -> Option<T> {
        self.root.value_at(keys)
    }

    /// Whether `keys` leads to a node: it is bound, or a longer sequence is.
    pub open spec fn has_path(self, keys: Seq<KeyCombo>) -> bool {
        self.node_at(keys) is Some
    }

    /// No node below the root is vacant.
    pub open spec fn well_formed(self) -> bool {
        self.root.well_formed()
    }

    /// Nothing is bound and only the root exists.
    pub open spec fn is_empty(self) -> bool {
        self.root.is_vacant()
    }

    /// An empty tree.
    pub fn new() -> (trie: Self)
        ensures
            trie.is_empty(),
            trie.well_formed(),
            trie@ == Map::<Seq<KeyCombo>, T>::empty(),
            forall|keys: Seq<KeyCombo>| (#[trigger] trie.node_at(keys)) is Some <==> keys.len() == 0,
    {
        let trie = HotkeysTrie { root: HotkeysTrieNode::new() };
        proof {
            trie.lemma_empty();
        }
        trie
    }

    /// An empty tree binds nothing, and only the empty sequence has a path.
    pub proof fn lemma_empty(self)
        requires
            self.is_empty(),
        ensures
            self@ == Map::<Seq<KeyCombo>, T>::empty(),
            forall|keys: Seq<KeyCombo>| (#[trigger] self.node_at(keys)) is Some <==> keys.len() == 0,
            forall|keys: Seq<KeyCombo>| #[trigger] self.value_at(keys) is None,
            forall|keys: Seq<KeyCombo>| keys.len() > 0 ==> #[trigger] self.node_at(keys) is None,
    {
        assert forall|keys: Seq<KeyCombo>| #[trigger] self.value_at(keys) is None by {
            self.root.lemma_vacant(keys);
        }
        assert forall|keys: Seq<KeyCombo>| (#[trigger] self.node_at(keys)) is Some <==> keys.len() == 0 by {
            self.root.lemma_vacant(keys);
        }
        assert forall|keys: Seq<KeyCombo>| keys.len() > 0 implies #[trigger] self.node_at(
            keys,
        ) is None by {
            self.root.lemma_vacant(keys);
        }
        assert(self@ =~= Map::<Seq<KeyCombo>, T>::empty());
    }

    /// Binds `value` to the sequence `key_combos`, creating the nodes on the
    /// way; a value bound to that sequence before is overwritten. Every
    /// other binding stays, and the sequences that lead to a node are those
    /// that did before and the prefixes of `key_combos`.
    pub fn insert(&mut self, key_combos: &[KeyCombo], value: T)
        ensures
            final(self)@ == old(self)@.insert(key_combos@, value),
            forall|keys: Seq<KeyCombo>| #[trigger]
                final(self).value_at(keys) == (if keys == key_combos@ {
                    Some(value)
                } else {
                    old(self).value_at(keys)
                }),
            forall|keys: Seq<KeyCombo>|
                (#[trigger] final(self).node_at(keys)) is Some <==> (old(self).has_path(keys)
                    || keys.is_prefix_of(key_combos@)),
            old(self).well_formed() ==> final(self).well_formed(),
            !final(self).is_empty(),
    {
        proof {
            assert(key_combos@.skip(0) =~= key_combos@);
        }
        self.root.insert_from(key_combos, 0, value);
        proof {
            assert forall|keys: Seq<KeyCombo>|
                (#[trigger] final(self).node_at(keys)) is Some <==> (old(self).has_path(keys)
                    || keys.is_prefix_of(key_combos@)) by {
                assert(final(self).root.descend(keys) is Some <==> (old(self).root.descend(keys) is Some
                    || keys.is_prefix_of(key_combos@.skip(0))));
            }
            assert(final(self)@ =~= old(self)@.insert(key_combos@, value)) by {
                assert forall|keys: Seq<KeyCombo>| #[trigger]
                    final(self)@.dom().contains(keys) <==> old(self)@.insert(
                        key_combos@,
                        value,
                    ).dom().contains(keys) by {
                    assert(final(self).root.value_at(keys) == (if keys == key_combos@ {
                        Some(value)
                    } else {
                        old(self).root.value_at(keys)
                    }));
                }
                assert forall|keys: Seq<KeyCombo>| #[trigger]
                    final(self)@.dom().contains(keys) implies final(self)@[keys] == old(
                    self,
                )@.insert(key_combos@, value)[keys] by {
                    assert(final(self).root.value_at(keys) == (if keys == key_combos@ {
                        Some(value)
                    } else {
                        old(self).root.value_at(keys)
                    }));
                }
            }
            assert(final(self).root.value_at(key_combos@) == Some(value));
            if key_combos@.len() > 0 {
                assert(key_combos@.take(1).is_prefix_of(key_combos@));
                assert(final(self).has_path(key_combos@.take(1)));
                assert(final(self).root.children@.dom().contains(
                    key_combos@.take(1)[0].spec_token(),
                ));
            }
        }
    }

    /// The node that `key_combos` leads to, or `None` where a combination on
    /// the way has no child.
    pub fn get_node(&self, key_combos: &[KeyCombo]) -> (node: Option<&HotkeysTrieNode<T>>)
        ensures
            match node {
                Some(found) => self.node_at(key_combos@) == Some(*found),
                None => self.node_at(key_combos@) is None,
            },
    {
        let mut current = &self.root;
        let mut i: usize = 0;
        proof {
            assert(key_combos@.skip(0) =~= key_combos@);
        }
        while i < key_combos.len()
            invariant
                i <= key_combos.len(),
                self.root.descend(key_combos@) == current.descend(key_combos@.skip(i as int)),
            decreases key_combos.len() - i,
        {
            let token = key_combos[i].token();
            proof {
                assert(key_combos@.skip(i as int)[0] == key_combos@[i as int]);
                assert(key_combos@.skip(i as int).skip(1) =~= key_combos@.skip(i + 1));
            }
            match current.children.get(&token) {
                Some(next) => {
                    current = next;
                },
                None => {
                    return None;
                },
            }
            i += 1;
        }
        proof {
            assert(key_combos@.skip(i as int).len() == 0);
        }
        Some(current)
    }

    /// The value bound to exactly `key_combos`: `None` where the path does
    /// not exist or ends in a node without a value.
    pub fn get_value(&self, key_combos: &[KeyCombo]) -> (value: Option<&T>)
        ensures
            match value {
                Some(found) => self.value_at(key_combos@) == Some(*found),
                None => self.value_at(key_combos@) is None,
            },
            value is Some <==> self@.contains_key(key_combos@),
            value is Some ==> *value->0 == self@[key_combos@],
    {
        match self.get_node(key_combos) {
            Some(node) => node.value.as_ref(),
            None => None,
        }
    }

    /// Empties the tree.
    pub fn clear(&mut self)
        ensures
            final(self).is_empty(),
            final(self).well_formed(),
            final(self)@ == Map::<Seq<KeyCombo>, T>::empty(),
            forall|keys: Seq<KeyCombo>|
                (#[trigger] final(self).node_at(keys)) is Some <==> keys.len() == 0,
    {
        self.root.children.clear();
        self.root.value = None;
        proof {
            final(self).lemma_empty();
        }
    }

    /// In a well-formed tree every non-empty path is the beginning of a bound
    /// sequence.
    pub proof fn lemma_path_is_prefix_of_binding(self, keys: Seq<KeyCombo>)
        requires
            self.well_formed(),
            self.has_path(keys),
            keys.len() > 0,
        ensures
            exists|more: Seq<KeyCombo>| (#[trigger] self.value_at(keys + more)) is Some,
    {
        self.root.lemma_reached_node(keys);
        let node = self.root.descend(keys)->0;
        node.lemma_leads_to_binding();
        let more = choose|more: Seq<KeyCombo>| (#[trigger] node.value_at(more)) is Some;
        self.root.lemma_descend_concat(keys, more);
        assert(self.value_at(keys + more) is Some);
    }

    /// Every prefix of a bound sequence has a path.
    pub proof fn lemma_binding_has_paths(self, keys: Seq<KeyCombo>, n: int)
        requires
            self.value_at(keys) is Some,
            0 <= n <= keys.len(),
        ensures
            self.has_path(keys.take(n)),
    {
        self.root.lemma_descend_prefix(keys, n);
    }

    /// In a well-formed tree every path leads to a binding: the sequence is
    /// bound itself, or a longer one goes on from it.
    pub proof fn lemma_no_dead_path(self, keys: Seq<KeyCombo>)
        requires
            self.well_formed(),
            self.has_path(keys),
            keys.len() > 0,
        ensures
            self.value_at(keys) is Some || exists|key: KeyCombo| self.has_path(keys.push(key)),
    {
        self.root.lemma_reached_node(keys);
        let node = self.root.descend(keys)->0;
        if node.value is None {
            node.lemma_children_are_steps();
            let key = choose|key: KeyCombo| node.child(key) is Some;
            self.root.lemma_descend_concat(keys, seq![key]);
            assert(keys + seq![key] =~= keys.push(key));
            assert(seq![key][0] == key);
            assert(seq![key].skip(1).len() == 0);
            assert(node.child(key)->0.descend(seq![key].skip(1)) is Some);
            assert(node.descend(seq![key]) is Some);
        }
    }
}

impl<T> Default for HotkeysTrie<T> {
    fn default() -> (trie: Self)
        ensures
            trie.is_empty(),
            trie.well_formed(),
    {
        HotkeysTrie::new()
    }
}

} // verus!
