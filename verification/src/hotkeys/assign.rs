//! The assignment of shortcuts to the entries on screen.
//!
//! Every time the list is drawn, the entry tier of the registry is emptied
//! and each directory of the list gets a sequence of key combinations of its
//! own. The sequences are taken from the preferred combinations, without
//! those whose character some entry reserves, and are as short as the number
//! of directories allows.

use vstd::arithmetic::power::*;
use vstd::prelude::*;

use super::combo::KeyCombo;
use super::registry::HotkeysRegistry;
use super::sequences::{
    all_sequences, is_sequence_length, lemma_nth_sequence_item, lemma_sequence_length_bounds,
    lemma_sequence_length_exists, lemma_sequence_length_unique, lemma_sequences_differ,
    nth_sequence, sequence_at, sequence_length,
};
use crate::app::{Action, InputMode};
use crate::entry::EntryRenderData;

verus! {

/// The positions of the directories among `entries`, in the order of the
/// list.
pub open spec fn directory_indexes<'a>(entries: Seq<EntryRenderData<'a>>) -> Seq<usize>
    decreases entries.len(),
{
    if entries.len() == 0 {
        Seq::empty()
    } else {
        let before = directory_indexes(entries.drop_last());
        if entries.last().is_eligible() {
            before.push((entries.len() - 1) as usize)
        } else {
            before
        }
    }
}

/// The number of directories that stand before position `at`.
pub open spec fn directory_rank<'a>(entries: Seq<EntryRenderData<'a>>, at: int) -> nat {
    directory_indexes(entries.take(at)).len()
}

/// The characters that the entries reserve, files as well as directories.
pub open spec fn illegal_chars<'a>(entries: Seq<EntryRenderData<'a>>) -> Set<char> {
    Set::new(
        |c: char|
            exists|i: int|
                0 <= i < entries.len() && (#[trigger] entries[i]).illegal_char_for_hotkey == Some(
                    c,
                ),
    )
}

/// Whether a combination may stand in a shortcut: its key is no character
/// that is reserved.
pub open spec fn is_available(key: KeyCombo, illegal: Set<char>) -> bool {
    match key.key_code.character() {
        Some(c) => !illegal.contains(c),
        None => true,
    }
}

/// The combinations of `pool` that may stand in a shortcut, in the order of
/// `pool`.
pub open spec fn available_key_combos(pool: Seq<KeyCombo>, illegal: Set<char>) -> Seq<KeyCombo>
    decreases pool.len(),
{
    if pool.len() == 0 {
        Seq::empty()
    } else {
        let before = available_key_combos(pool.drop_last(), illegal);
        if is_available(pool.last(), illegal) {
            before.push(pool.last())
        } else {
            before
        }
    }
}

/// The length of the shortcuts for `entries` directories over `keys`
/// combinations, or `None` where no shortcuts are assigned: there is no
/// directory, there is no combination, or one combination would have to tell
/// several directories apart.
pub open spec fn shortcut_length(keys: nat, entries: nat) -> Option<nat> {
    if entries == 0 || keys == 0 || (keys < 2 && entries > 1) {
        None
    } else {
        Some(sequence_length(keys, entries))
    }
}

/// The combinations that the shortcuts of this pass are made of.
pub open spec fn pass_key_combos<'a>(
    entries: Seq<EntryRenderData<'a>>,
    pool: Seq<KeyCombo>,
) -> Seq<KeyCombo> {
    available_key_combos(pool, illegal_chars(entries))
}

/// The length of the shortcuts of this pass, if any are assigned.
pub open spec fn pass_length<'a>(entries: Seq<EntryRenderData<'a>>, pool: Seq<KeyCombo>) -> Option<
    nat,
> {
    shortcut_length(pass_key_combos(entries, pool).len(), directory_indexes(entries).len())
}

/// The sequence that the entry at position `at` has after the pass: each
/// directory gets the sequence whose number is the number of directories
/// before it; every other entry, and every entry of a pass without
/// shortcuts, keeps what it had.
pub open spec fn assigned_sequence<'a>(
    entries: Seq<EntryRenderData<'a>>,
    pool: Seq<KeyCombo>,
    at: int,
) -> Option<Seq<KeyCombo>> {
    match pass_length(entries, pool) {
        Some(length) => if entries[at].is_eligible() {
            Some(nth_sequence(pass_key_combos(entries, pool), length, directory_rank(entries, at)))
        } else {
            entries[at].sequence()
        },
        None => entries[at].sequence(),
    }
}

/// The bindings that registering the first `count` sequences leaves, each
/// sequence bound to the change into the directory it was assigned to.
pub open spec fn entry_bindings(
    keys: Seq<KeyCombo>,
    length: nat,
    directories: Seq<usize>,
    count: nat,
) -> Map<Seq<KeyCombo>, Action>
    decreases count,
{
    if count == 0 {
        Map::empty()
    } else {
        entry_bindings(keys, length, directories, (count - 1) as nat).insert(
            nth_sequence(keys, length, (count - 1) as nat),
            Action::ChangeDirectoryToEntryWithIndex(directories[count - 1]),
        )
    }
}

/// The bindings of the entry tier after the pass.
pub open spec fn assigned_bindings<'a>(
    entries: Seq<EntryRenderData<'a>>,
    pool: Seq<KeyCombo>,
) -> Map<Seq<KeyCombo>, Action> {
    match pass_length(entries, pool) {
        Some(length) => entry_bindings(
            pass_key_combos(entries, pool),
            length,
            directory_indexes(entries),
            directory_indexes(entries).len(),
        ),
        None => Map::empty(),
    }
}

/// One more entry at the end adds its position to the directories if it is
/// one.
pub proof fn lemma_directory_indexes_step<'a>(entries: Seq<EntryRenderData<'a>>, at: int)
    requires
        0 <= at < entries.len(),
    ensures
        directory_indexes(entries.take(at + 1)) == if entries[at].is_eligible() {
            directory_indexes(entries.take(at)).push(at as usize)
        } else {
            directory_indexes(entries.take(at))
        },
{
    assert(entries.take(at + 1).drop_last() =~= entries.take(at));
    assert(entries.take(at + 1).last() == entries[at]);
}

/// The directories found among the first entries stay, at their places,
/// when more entries are looked at.
pub proof fn lemma_directory_indexes_grow<'a>(
    entries: Seq<EntryRenderData<'a>>,
    shorter: int,
    longer: int,
)
    requires
        0 <= shorter <= longer <= entries.len(),
    ensures
        directory_indexes(entries.take(shorter)).is_prefix_of(
            directory_indexes(entries.take(longer)),
        ),
    decreases longer - shorter,
{
    let short = directory_indexes(entries.take(shorter));
    if shorter == longer {
        assert(short =~= short.subrange(0, short.len() as int));
    } else {
        lemma_directory_indexes_grow(entries, shorter, longer - 1);
        lemma_directory_indexes_step(entries, longer - 1);
        let mid = directory_indexes(entries.take(longer - 1));
        let long = directory_indexes(entries.take(longer));
        assert(short =~= long.subrange(0, short.len() as int)) by {
            assert(short =~= mid.subrange(0, short.len() as int));
        }
    }
}

/// Every position among the directories is the position of a directory,
/// and as many directories stand before it as positions stand before it
/// in the list of directories.
pub proof fn lemma_directory_at<'a>(entries: Seq<EntryRenderData<'a>>, n: int)
    requires
        entries.len() <= usize::MAX,
        0 <= n < directory_indexes(entries).len(),
    ensures
        0 <= directory_indexes(entries)[n] < entries.len(),
        entries[directory_indexes(entries)[n] as int].is_eligible(),
        directory_rank(entries, directory_indexes(entries)[n] as int) == n,
    decreases entries.len(),
{
    let before = directory_indexes(entries.drop_last());
    let last = entries.len() - 1;
    assert(entries.take(last) =~= entries.drop_last());
    if n < before.len() {
        lemma_directory_at(entries.drop_last(), n);
        let at = before[n] as int;
        assert(directory_indexes(entries)[n] == before[n]);
        assert(entries.drop_last()[at] == entries[at]);
        assert(entries.drop_last().take(at) =~= entries.take(at));
    } else {
        assert(entries.last().is_eligible());
        assert(n == before.len());
        assert(directory_indexes(entries)[n] == last as usize);
        assert(entries[last] == entries.last());
    }
}

/// A directory stands among the directories, at the place that the number
/// of directories before it gives.
pub proof fn lemma_directory_rank<'a>(entries: Seq<EntryRenderData<'a>>, at: int)
    requires
        0 <= at < entries.len(),
        entries.len() <= usize::MAX,
        entries[at].is_eligible(),
    ensures
        directory_rank(entries, at) < directory_indexes(entries).len(),
        directory_indexes(entries)[directory_rank(entries, at) as int] == at,
{
    lemma_directory_indexes_step(entries, at);
    lemma_directory_indexes_grow(entries, at + 1, entries.len() as int);
    assert(entries.take(entries.len() as int) =~= entries);
    let upto = directory_indexes(entries.take(at + 1));
    let all = directory_indexes(entries);
    let rank = directory_rank(entries, at);
    assert(upto[rank as int] == at as usize);
    assert(upto =~= all.subrange(0, upto.len() as int));
    assert(all.subrange(0, upto.len() as int)[rank as int] == all[rank as int]);
}

/// One more combination at the end of the pool is added to the available
/// ones if it is available.
pub proof fn lemma_available_step(pool: Seq<KeyCombo>, illegal: Set<char>, at: int)
    requires
        0 <= at < pool.len(),
    ensures
        available_key_combos(pool.take(at + 1), illegal) == if is_available(pool[at], illegal) {
            available_key_combos(pool.take(at), illegal).push(pool[at])
        } else {
            available_key_combos(pool.take(at), illegal)
        },
{
    assert(pool.take(at + 1).drop_last() =~= pool.take(at));
    assert(pool.take(at + 1).last() == pool[at]);
}

/// Every available combination stands in the pool and is on no reserved
/// character, and where the pool holds no combination twice, neither do the
/// available ones.
pub proof fn lemma_available_from_pool(pool: Seq<KeyCombo>, illegal: Set<char>)
    ensures
        forall|i: int|
            0 <= i < available_key_combos(pool, illegal).len() ==> pool.contains(
                #[trigger] available_key_combos(pool, illegal)[i],
            ),
        forall|i: int|
            0 <= i < available_key_combos(pool, illegal).len() ==> is_available(
                #[trigger] available_key_combos(pool, illegal)[i],
                illegal,
            ),
        pool.no_duplicates() ==> available_key_combos(pool, illegal).no_duplicates(),
    decreases pool.len(),
{
    if pool.len() > 0 {
        let before = available_key_combos(pool.drop_last(), illegal);
        let now = available_key_combos(pool, illegal);
        lemma_available_from_pool(pool.drop_last(), illegal);
        assert forall|i: int| 0 <= i < now.len() implies is_available(#[trigger] now[i], illegal) by {
            if i < before.len() {
                assert(is_available(before[i], illegal));
            }
        }
        assert forall|i: int| 0 <= i < now.len() implies pool.contains(#[trigger] now[i]) by {
            if i < before.len() {
                assert(pool.drop_last().contains(before[i]));
                let j = choose|j: int| 0 <= j < pool.drop_last().len() && pool.drop_last()[j] == before[i];
                assert(pool[j] == before[i]);
            } else {
                assert(pool[pool.len() - 1] == now[i]);
            }
        }
        if pool.no_duplicates() {
            assert(pool.drop_last().no_duplicates());
            assert forall|i: int, j: int|
                0 <= i < now.len() && 0 <= j < now.len() && i != j implies now[i] != now[j] by {
                if i < before.len() && j < before.len() {
                } else {
                    let inner = if i < before.len() {
                        i
                    } else {
                        j
                    };
                    assert(pool.drop_last().contains(before[inner]));
                    let k = choose|k: int|
                        0 <= k < pool.drop_last().len() && pool.drop_last()[k] == before[inner];
                    assert(pool[k] == before[inner]);
                    assert(pool[pool.len() - 1] == pool.last());
                }
            }
        }
    }
}

/// Where the pool holds no combination twice, no two directories get the
/// same sequence in a pass.
pub proof fn lemma_assigned_sequences_differ<'a>(
    entries: Seq<EntryRenderData<'a>>,
    pool: Seq<KeyCombo>,
    first: int,
    second: int,
)
    requires
        entries.len() <= usize::MAX,
        pool.no_duplicates(),
        0 <= first < entries.len(),
        0 <= second < entries.len(),
        first != second,
        entries[first].is_eligible(),
        entries[second].is_eligible(),
        pass_length(entries, pool) is Some,
    ensures
        assigned_sequence(entries, pool, first) is Some,
        assigned_sequence(entries, pool, second) is Some,
        assigned_sequence(entries, pool, first) != assigned_sequence(entries, pool, second),
{
    let keys = pass_key_combos(entries, pool);
    let directories = directory_indexes(entries);
    let length = pass_length(entries, pool)->0;
    lemma_available_from_pool(pool, illegal_chars(entries));
    lemma_directory_rank(entries, first);
    lemma_directory_rank(entries, second);
    let a = directory_rank(entries, first);
    let b = directory_rank(entries, second);
    assert(a != b);
    lemma_sequence_length_exists(keys.len(), directories.len());
    lemma_sequences_differ(keys, length, a, b);
}

/// Over combinations that are all different, each of the first `count`
/// sequences stays bound to the change into its own directory.
pub proof fn lemma_entry_bindings(
    keys: Seq<KeyCombo>,
    length: nat,
    directories: Seq<usize>,
    count: nat,
    n: nat,
)
    requires
        keys.no_duplicates(),
        n < count,
        count <= pow(keys.len() as int, length),
    ensures
        entry_bindings(keys, length, directories, count).contains_key(
            nth_sequence(keys, length, n),
        ),
        entry_bindings(keys, length, directories, count)[nth_sequence(keys, length, n)]
            == Action::ChangeDirectoryToEntryWithIndex(directories[n as int]),
    decreases count,
{
    if n + 1 < count {
        lemma_entry_bindings(keys, length, directories, (count - 1) as nat, n);
        lemma_sequences_differ(keys, length, n, (count - 1) as nat);
    }
}

/// Where the pool holds no combination twice, the sequence of each
/// directory is bound, in the entry tier, to the change into that
/// directory.
pub proof fn lemma_assigned_sequence_is_bound<'a>(
    entries: Seq<EntryRenderData<'a>>,
    pool: Seq<KeyCombo>,
    at: int,
)
    requires
        entries.len() <= usize::MAX,
        pool.no_duplicates(),
        0 <= at < entries.len(),
        entries[at].is_eligible(),
        pass_length(entries, pool) is Some,
    ensures
        assigned_sequence(entries, pool, at) is Some,
        assigned_bindings(entries, pool).contains_key(assigned_sequence(entries, pool, at)->0),
        assigned_bindings(entries, pool)[assigned_sequence(entries, pool, at)->0]
            == Action::ChangeDirectoryToEntryWithIndex(at as usize),
{
    let keys = pass_key_combos(entries, pool);
    let directories = directory_indexes(entries);
    let length = pass_length(entries, pool)->0;
    lemma_available_from_pool(pool, illegal_chars(entries));
    lemma_directory_rank(entries, at);
    lemma_sequence_length_exists(keys.len(), directories.len());
    lemma_entry_bindings(keys, length, directories, directories.len(), directory_rank(entries, at));
}

/// No sequence that a pass assigns is on a character that an entry
/// reserves: whoever goes on typing the name of an entry presses no
/// shortcut.
pub proof fn lemma_assigned_sequence_is_legal<'a>(
    entries: Seq<EntryRenderData<'a>>,
    pool: Seq<KeyCombo>,
    at: int,
    place: int,
)
    requires
        0 <= at < entries.len(),
        entries[at].is_eligible(),
        pass_length(entries, pool) is Some,
        0 <= place < pass_length(entries, pool)->0,
    ensures
        assigned_sequence(entries, pool, at) is Some,
        assigned_sequence(entries, pool, at)->0.len() == pass_length(entries, pool)->0,
        is_available(assigned_sequence(entries, pool, at)->0[place], illegal_chars(entries)),
{
    let keys = pass_key_combos(entries, pool);
    let length = pass_length(entries, pool)->0;
    let n = directory_rank(entries, at);
    lemma_available_from_pool(pool, illegal_chars(entries));
    lemma_nth_sequence_item(keys, length, n, place);
    let digit = (n / (pow(keys.len() as int, (length - 1 - place) as nat) as nat)) as int % (
    keys.len() as int);
    vstd::arithmetic::div_mod::lemma_mod_bound(
        (n / (pow(keys.len() as int, (length - 1 - place) as nat) as nat)) as int,
        keys.len() as int,
    );
    assert(nth_sequence(keys, length, n)[place] == keys[digit]);
}

/// In a pass with shortcuts, with two combinations or more for two
/// directories or more, the length of the sequences is the one at which
/// they first suffice.
pub proof fn lemma_pass_length_bounds<'a>(entries: Seq<EntryRenderData<'a>>, pool: Seq<KeyCombo>)
    requires
        pass_key_combos(entries, pool).len() >= 2,
        directory_indexes(entries).len() >= 2,
    ensures
        pass_length(entries, pool) is Some,
        pass_length(entries, pool)->0 >= 1,
        pow(
            pass_key_combos(entries, pool).len() as int,
            (pass_length(entries, pool)->0 - 1) as nat,
        ) < directory_indexes(entries).len(),
        directory_indexes(entries).len() <= pow(
            pass_key_combos(entries, pool).len() as int,
            pass_length(entries, pool)->0,
        ),
{
    lemma_sequence_length_bounds(
        pass_key_combos(entries, pool).len(),
        directory_indexes(entries).len(),
    );
}

/// Whether `c` stands in `chars`.
fn holds_char(chars: &Vec<char>, c: char) -> (found: bool)
    ensures
        found == chars@.contains(c),
{
    let mut i: usize = 0;
    while i < chars.len()
        invariant
            i <= chars.len(),
            forall|j: int| 0 <= j < i ==> chars@[j] != c,
        decreases chars.len() - i,
    {
        if chars[i] == c {
            return true;
        }
        i += 1;
    }
    false
}

/// Whether `keys` times `below` sequences are fewer than `entries`.
fn falls_short(below: usize, keys: usize, entries: usize) -> (short: bool)
    ensures
        short == (below * keys < entries),
{
    assert(below * keys <= u128::MAX) by (nonlinear_arith)
        requires
            below <= 0xffff_ffff_ffff_ffff,
            keys <= 0xffff_ffff_ffff_ffff,
    ;
    (below as u128) * (keys as u128) < entries as u128
}

/// The smallest length, at least 1, at which `keys` combinations give
/// `entries` sequences or more.
fn compute_sequence_length(keys: usize, entries: usize) -> (length: usize)
    requires
        keys >= 2 || (keys == 1 && entries <= 1),
    ensures
        length == sequence_length(keys as nat, entries as nat),
        is_sequence_length(keys as nat, entries as nat, length as nat),
{
    let mut length: usize = 1;
    // The number of sequences one combination shorter than `length`.
    let mut below: usize = 1;
    proof {
        lemma_pow0(keys as int);
    }
    while falls_short(below, keys, entries)
        invariant
            keys >= 2 || (keys == 1 && entries <= 1),
            length >= 1,
            below == pow(keys as int, (length - 1) as nat),
            length == 1 || below < entries,
            length <= below,
            below >= 1,
        decreases entries - below,
    {
        proof {
            assert(pow(keys as int, length as nat) == keys * pow(keys as int, (length - 1) as nat))
                by {
                reveal(pow);
            }
            assert(keys >= 2) by (nonlinear_arith)
                requires
                    below * keys < entries,
                    below >= 1,
                    keys >= 2 || (keys == 1 && entries <= 1),
            ;
            assert(below * keys >= 2 * below) by (nonlinear_arith)
                requires
                    keys >= 2,
                    below >= 1,
            ;
            assert(below * keys == keys * below) by (nonlinear_arith);
        }
        below = below * keys;
        length += 1;
    }
    proof {
        assert(pow(keys as int, length as nat) == keys * pow(keys as int, (length - 1) as nat)) by {
            reveal(pow);
        }
        assert(below * keys == keys * below) by (nonlinear_arith);
        assert(is_sequence_length(keys as nat, entries as nat, length as nat));
        lemma_sequence_length_exists(keys as nat, entries as nat);
        lemma_sequence_length_unique(
            keys as nat,
            entries as nat,
            length as nat,
            sequence_length(keys as nat, entries as nat),
        );
    }
    length
}

impl HotkeysRegistry<InputMode, Action> {
    /// All sequences of the given length over `key_combos`, in the order in
    /// which the first combination varies slowest.
    pub fn generate_sequence_permutations(key_combos: &[KeyCombo], length: usize) -> (sequences:
        Vec<Vec<KeyCombo>>)
        requires
            pow(key_combos@.len() as int, length as nat) <= usize::MAX,
        ensures
            sequences@.len() == pow(key_combos@.len() as int, length as nat),
            forall|n: int|
                0 <= n < sequences@.len() ==> (#[trigger] sequences@[n])@ == nth_sequence(
                    key_combos@,
                    length as nat,
                    n as nat,
                ),
    {
        all_sequences(key_combos, length)
    }

    /// Empties the entry tier and assigns a shortcut to each directory of
    /// the list, in the order of the list: the first directory gets the first
    /// sequence. The sequences are made of the preferred combinations whose
    /// character no entry reserves and have the smallest length that gives
    /// each directory one of its own. Each sequence is stored on its entry
    /// and bound, in the entry tier, to the change into that entry.
    ///
    /// No shortcut is assigned where the list has no directory, where no
    /// combination is available, or where a single combination is available
    /// for several directories.
    pub fn assign_hotkeys(
        &mut self,
        entry_render_data: &mut [EntryRenderData],
        preferred_key_combos_in_order: &[KeyCombo],
    )
        ensures
            final(entry_render_data)@.len() == old(entry_render_data)@.len(),
            forall|i: int|
                0 <= i < old(entry_render_data)@.len() ==> (#[trigger] final(entry_render_data)@[i]).same_entry(old(entry_render_data)@[i]),
            forall|i: int|
                0 <= i < old(entry_render_data)@.len() ==> (#[trigger] final(entry_render_data)@[i]).sequence() == assigned_sequence(
                    old(entry_render_data)@,
                    preferred_key_combos_in_order@,
                    i,
                ),
            final(self).entry_hotkeys@ == assigned_bindings(
                old(entry_render_data)@,
                preferred_key_combos_in_order@,
            ),
            final(self).entry_hotkeys_count == (if pass_length(
                old(entry_render_data)@,
                preferred_key_combos_in_order@,
            ) is Some {
                directory_indexes(old(entry_render_data)@).len()
            } else {
                0
            }),
            final(self).entry_hotkeys.well_formed(),
            final(self).system_hotkeys == old(self).system_hotkeys,
            final(self).system_hotkeys_count == old(self).system_hotkeys_count,
            old(self).well_formed() ==> final(self).well_formed(),
            pass_key_combos(old(entry_render_data)@, preferred_key_combos_in_order@).len() < 2
                && directory_indexes(old(entry_render_data)@).len() > 1 ==> {
                &&& final(self).entry_hotkeys.is_empty()
                &&& final(self).entry_hotkeys_count == 0
                &&& forall|i: int|
                    0 <= i < old(entry_render_data)@.len() ==> (#[trigger] final(entry_render_data)@[i]).sequence() == old(entry_render_data)@[i].sequence()
            },
    {
        let ghost entries = old(entry_render_data)@;
        let ghost pool = preferred_key_combos_in_order@;
        let ghost illegal_set = illegal_chars(entries);
        self.clear_entry_hotkeys();

        let total = entry_render_data.len();
        let mut directories: Vec<usize> = Vec::new();
        let mut illegal: Vec<char> = Vec::new();
        let mut i: usize = 0;
        proof {
            assert(entries.take(0) =~= Seq::empty());
        }
        while i < total
            invariant
                i <= total,
                total == entries.len(),
                entry_render_data@ == entries,
                directories@ == directory_indexes(entries.take(i as int)),
                forall|c: char|
                    illegal@.contains(c) <==> exists|j: int|
                        0 <= j < i && (#[trigger] entries[j]).illegal_char_for_hotkey == Some(c),
            decreases total - i,
        {
            proof {
                lemma_directory_indexes_step(entries, i as int);
            }
            if entry_render_data[i].kind.is_directory() {
                directories.push(i);
            }
            let ghost before = illegal@;
            match entry_render_data[i].illegal_char_for_hotkey {
                Some(c) => {
                    illegal.push(c);
                    proof {
                        assert(illegal@.last() == c);
                        assert forall|d: char|
                            illegal@.contains(d) <==> exists|j: int|
                                0 <= j < i + 1 && (#[trigger] entries[j]).illegal_char_for_hotkey
                                    == Some(d) by {
                            if illegal@.contains(d) {
                                let k = choose|k: int| 0 <= k < illegal@.len() && illegal@[k] == d;
                                if k < before.len() {
                                    assert(before[k] == d);
                                    assert(before.contains(d));
                                } else {
                                    assert(entries[i as int].illegal_char_for_hotkey == Some(d));
                                }
                            }
                            if exists|j: int|
                                0 <= j < i + 1 && (#[trigger] entries[j]).illegal_char_for_hotkey
                                    == Some(d) {
                                let j = choose|j: int|
                                    0 <= j < i + 1 && (
                                    #[trigger] entries[j]).illegal_char_for_hotkey == Some(d);
                                if j < i {
                                    assert(before.contains(d));
                                    let k = choose|k: int| 0 <= k < before.len() && before[k] == d;
                                    assert(illegal@[k] == d);
                                } else {
                                    assert(illegal@[illegal@.len() - 1] == d);
                                }
                            }
                        }
                    }
                },
                None => {
                    proof {
                        assert forall|d: char|
                            illegal@.contains(d) <==> exists|j: int|
                                0 <= j < i + 1 && (#[trigger] entries[j]).illegal_char_for_hotkey
                                    == Some(d) by {
                            if exists|j: int|
                                0 <= j < i + 1 && (#[trigger] entries[j]).illegal_char_for_hotkey
                                    == Some(d) {
                                let j = choose|j: int|
                                    0 <= j < i + 1 && (
                                    #[trigger] entries[j]).illegal_char_for_hotkey == Some(d);
                                assert(j < i);
                            }
                        }
                    }
                },
            }
            i += 1;
        }
        proof {
            assert(entries.take(total as int) =~= entries);
            assert forall|c: char| illegal@.contains(c) <==> illegal_set.contains(c) by {}
        }

        let directory_count = directories.len();
        if directory_count == 0 {
            proof {
                self.entry_hotkeys.lemma_empty();
            }
            return ;
        }
        let mut available: Vec<KeyCombo> = Vec::new();
        let mut at: usize = 0;
        proof {
            assert(pool.take(0) =~= Seq::empty());
        }
        while at < preferred_key_combos_in_order.len()
            invariant
                at <= preferred_key_combos_in_order.len(),
                pool == preferred_key_combos_in_order@,
                available@ == available_key_combos(pool.take(at as int), illegal_set),
                forall|c: char| illegal@.contains(c) <==> illegal_set.contains(c),
            decreases preferred_key_combos_in_order.len() - at,
        {
            let key_combo = preferred_key_combos_in_order[at];
            proof {
                lemma_available_step(pool, illegal_set, at as int);
            }
            let free = match key_combo.as_char() {
                Some(c) => !holds_char(&illegal, c),
                None => true,
            };
            if free {
                available.push(key_combo);
            }
            at += 1;
        }
        proof {
            assert(pool.take(pool.len() as int) =~= pool);
        }

        let available_count = available.len();
        if available_count == 0 || (available_count < 2 && directory_count > 1) {
            proof {
                self.entry_hotkeys.lemma_empty();
            }
            return ;
        }
        let sequence_length = compute_sequence_length(available_count, directory_count);
        let ghost keys = available@;
        let ghost length = sequence_length as nat;
        assert(pass_length(entries, pool) == Some(length));

        let mut n: usize = 0;
        while n < directory_count
            invariant
                n <= directory_count,
                directory_count == directories@.len(),
                directories@ == directory_indexes(entries),
                keys == available@,
                keys.len() > 0,
                length == sequence_length,
                entries.len() <= usize::MAX,
                entry_render_data@.len() == entries.len(),
                forall|i: int|
                    0 <= i < entries.len() ==> (#[trigger] entry_render_data@[i]).same_entry(
                        entries[i],
                    ),
                forall|i: int|
                    0 <= i < entries.len() ==> (#[trigger] entry_render_data@[i]).sequence() == (
                    if entries[i].is_eligible() && directory_rank(entries, i) < n {
                        Some(nth_sequence(keys, length, directory_rank(entries, i)))
                    } else {
                        entries[i].sequence()
                    }),
                self.entry_hotkeys@ == entry_bindings(keys, length, directories@, n as nat),
                self.entry_hotkeys_count == n,
                self.entry_hotkeys.well_formed(),
                self.system_hotkeys == old(self).system_hotkeys,
                self.system_hotkeys_count == old(self).system_hotkeys_count,
            decreases directory_count - n,
        {
            let directory_index = directories[n];
            proof {
                lemma_directory_at(entries, n as int);
            }
            let sequence = sequence_at(available.as_slice(), sequence_length, n);
            self.register_entry_hotkey(
                sequence.as_slice(),
                Action::ChangeDirectoryToEntryWithIndex(directory_index),
            );
            let ghost before = entry_render_data@;
            entry_render_data[directory_index].key_combo_sequence = Some(sequence);
            proof {
                assert forall|i: int| 0 <= i < entries.len() implies (
                #[trigger] entry_render_data@[i]).sequence() == (if entries[i].is_eligible()
                    && directory_rank(entries, i) < n + 1 {
                    Some(nth_sequence(keys, length, directory_rank(entries, i)))
                } else {
                    entries[i].sequence()
                }) by {
                    if i != directory_index {
                        assert(entry_render_data@[i] == before[i]);
                        if entries[i].is_eligible() {
                            lemma_directory_rank(entries, i);
                        }
                    }
                }
                assert forall|i: int| 0 <= i < entries.len() implies (
                #[trigger] entry_render_data@[i]).same_entry(entries[i]) by {
                    if i != directory_index {
                        assert(entry_render_data@[i] == before[i]);
                    } else {
                        assert(before[i].same_entry(entries[i]));
                    }
                }
            }
            n += 1;
        }
        proof {
            assert forall|i: int| 0 <= i < entries.len() implies (
            #[trigger] entry_render_data@[i]).sequence() == assigned_sequence(entries, pool, i) by {
                if entries[i].is_eligible() {
                    lemma_directory_rank(entries, i);
                }
            }
        }
    }
}

} // verus!
