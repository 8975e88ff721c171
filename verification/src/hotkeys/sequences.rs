//! The address space of shortcuts: all sequences of one length over the
//! available key combinations, in the order in which the first combination
//! varies slowest, and the length that a number of entries needs.

use vstd::arithmetic::div_mod::*;
use vstd::arithmetic::mul::*;
use vstd::arithmetic::power::*;
use vstd::prelude::*;

use super::combo::KeyCombo;

verus! {

/// `length` is the smallest length, at least 1, at which `keys`
/// combinations give `entries` sequences or more.
pub open spec fn is_sequence_length(keys: nat, entries: nat, length: nat) -> bool {
    &&& length >= 1
    &&& pow(keys as int, length) >= entries
    &&& (length == 1 || pow(keys as int, (length - 1) as nat) < entries)
}

/// The length of the shortcuts for `entries` entries over `keys`
/// combinations: the smallest length, at least 1, whose sequences suffice.
pub open spec fn sequence_length(keys: nat, entries: nat) -> nat {
    choose|length: nat| is_sequence_length(keys, entries, length)
}

/// The last digit of `n` to the base `base`.
pub open spec fn last_digit(n: nat, base: nat) -> int {
    n as int % base as int
}

/// What is left of `n` when its last digit to the base `base` is taken away.
pub open spec fn leading_digits(n: nat, base: nat) -> nat {
    (n as int / base as int) as nat
}

/// The sequence number `n` of the given length: its items are the digits of
/// `n` to the base `keys.len()`, most significant first, each digit standing
/// for the combination at that place of `keys`.
pub open spec fn nth_sequence(keys: Seq<KeyCombo>, length: nat, n: nat) -> Seq<KeyCombo>
    decreases length,
{
    if length == 0 {
        Seq::empty()
    } else {
        nth_sequence(keys, (length - 1) as nat, leading_digits(n, keys.len())).push(
            keys[last_digit(n, keys.len())],
        )
    }
}

/// A sequence has the length it was asked for.
pub proof fn lemma_nth_sequence_len(keys: Seq<KeyCombo>, length: nat, n: nat)
    ensures
        nth_sequence(keys, length, n).len() == length,
    decreases length,
{
    if length > 0 {
        lemma_nth_sequence_len(keys, (length - 1) as nat, leading_digits(n, keys.len()));
    }
}

/// The item at place `at` of sequence `n` is the digit of `n` that counts
/// the powers of `keys.len()` with exponent `length - 1 - at`.
pub proof fn lemma_nth_sequence_item(keys: Seq<KeyCombo>, length: nat, n: nat, at: int)
    requires
        keys.len() > 0,
        0 <= at < length,
    ensures
        nth_sequence(keys, length, n).len() == length,
        nth_sequence(keys, length, n)[at] == keys[(n / (pow(
            keys.len() as int,
            (length - 1 - at) as nat,
        ) as nat)) as int % (keys.len() as int)],
    decreases length,
{
    let p = keys.len() as int;
    lemma_nth_sequence_len(keys, length, n);
    lemma_nth_sequence_len(keys, (length - 1) as nat, leading_digits(n, keys.len()));
    if at == length - 1 {
        lemma_pow0(p);
        assert(n as int / 1 == n);
    } else {
        let e = (length - 2 - at) as nat;
        lemma_div_pos_is_pos(n as int, p);
        lemma_nth_sequence_item(keys, (length - 1) as nat, leading_digits(n, keys.len()), at);
        lemma_pow_positive(p, e);
        assert(pow(p, (e + 1) as nat) == p * pow(p, e)) by {
            reveal(pow);
        }
        lemma_div_denominator(n as int, p, pow(p, e));
        assert((length - 1 - at) as nat == (e + 1) as nat);
        assert((length - 1 - 1 - at) as nat == e);
    }
}

/// Over combinations that are all different, the sequences of one length
/// with different numbers are different.
pub proof fn lemma_sequences_differ(keys: Seq<KeyCombo>, length: nat, a: nat, b: nat)
    requires
        keys.no_duplicates(),
        a < pow(keys.len() as int, length),
        b < pow(keys.len() as int, length),
        a != b,
    ensures
        nth_sequence(keys, length, a) != nth_sequence(keys, length, b),
    decreases length,
{
    let p = keys.len() as int;
    if length == 0 {
        lemma_pow0(p);
    } else {
        let shorter = (length - 1) as nat;
        assert(pow(p, length) == p * pow(p, shorter)) by {
            reveal(pow);
        }
        if p <= 0 {
            assert(pow(p, length) == 0) by (nonlinear_arith)
                requires
                    p == 0,
                    pow(p, length) == p * pow(p, shorter),
            ;
        }
        let sa = nth_sequence(keys, length, a);
        let sb = nth_sequence(keys, length, b);
        let qa = leading_digits(a, keys.len());
        let qb = leading_digits(b, keys.len());
        lemma_div_pos_is_pos(a as int, p);
        lemma_div_pos_is_pos(b as int, p);
        lemma_fundamental_div_mod(a as int, p);
        lemma_fundamental_div_mod(b as int, p);
        lemma_mod_bound(a as int, p);
        lemma_mod_bound(b as int, p);
        lemma_nth_sequence_len(keys, shorter, qa);
        lemma_nth_sequence_len(keys, shorter, qb);
        if last_digit(a, keys.len()) != last_digit(b, keys.len()) {
            assert(sa[shorter as int] == keys[last_digit(a, keys.len())]);
            assert(sb[shorter as int] == keys[last_digit(b, keys.len())]);
        } else {
            assert(qa != qb);
            lemma_pow_positive(p, shorter);
            lemma_quotient_below(a as int, p, pow(p, shorter));
            lemma_quotient_below(b as int, p, pow(p, shorter));
            lemma_sequences_differ(keys, shorter, qa, qb);
            assert(sa.drop_last() =~= nth_sequence(keys, shorter, qa));
            assert(sb.drop_last() =~= nth_sequence(keys, shorter, qb));
        }
    }
}

/// Below `d * bound`, the quotient by `d` is below `bound`.
proof fn lemma_quotient_below(x: int, d: int, bound: int)
    requires
        0 <= x < d * bound,
        d > 0,
    ensures
        0 <= x / d < bound,
{
    lemma_fundamental_div_mod(x, d);
    lemma_mod_bound(x, d);
    lemma_div_pos_is_pos(x, d);
    assert(x / d < bound) by (nonlinear_arith)
        requires
            x == d * (x / d) + x % d,
            0 <= x % d,
            x < d * bound,
            d > 0,
    ;
}

/// Two lengths that both are the smallest sufficient one are the same.
pub proof fn lemma_sequence_length_unique(keys: nat, entries: nat, a: nat, b: nat)
    requires
        is_sequence_length(keys, entries, a),
        is_sequence_length(keys, entries, b),
    ensures
        a == b,
{
    lemma_lengths_ordered(keys, entries, a, b);
    lemma_lengths_ordered(keys, entries, b, a);
}

/// Of two smallest sufficient lengths the second is not the longer one.
proof fn lemma_lengths_ordered(keys: nat, entries: nat, a: nat, b: nat)
    requires
        is_sequence_length(keys, entries, a),
        is_sequence_length(keys, entries, b),
    ensures
        b <= a,
{
    if a < b {
        let below = (b - 1) as nat;
        if keys == 0 {
            lemma0_pow(a);
            lemma0_pow(below);
        } else {
            lemma_pow_increases(keys, a, below);
        }
    }
}

/// With two combinations or more, and with one where a single entry asks,
/// there is a smallest sufficient length; `sequence_length` is that length.
pub proof fn lemma_sequence_length_exists(keys: nat, entries: nat)
    requires
        keys >= 2 || (keys == 1 && entries <= 1),
    ensures
        is_sequence_length(keys, entries, sequence_length(keys, entries)),
{
    lemma_pow0(keys as int);
    lemma_search_length(keys, entries, 1);
}

proof fn lemma_search_length(keys: nat, entries: nat, from: nat)
    requires
        keys >= 2 || (keys == 1 && entries <= 1),
        from >= 1,
        from == 1 || pow(keys as int, (from - 1) as nat) < entries,
    ensures
        exists|length: nat| is_sequence_length(keys, entries, length),
    decreases entries - pow(keys as int, (from - 1) as nat),
{
    let p = keys as int;
    let below = (from - 1) as nat;
    lemma_pow_positive(p, below);
    assert(pow(p, from) == p * pow(p, below)) by {
        reveal(pow);
    }
    if pow(p, from) >= entries {
        assert(is_sequence_length(keys, entries, from));
    } else {
        assert(keys >= 2) by {
            if keys == 1 {
                lemma1_pow(from);
            }
        }
        assert(pow(p, from) > pow(p, below)) by (nonlinear_arith)
            requires
                pow(p, from) == p * pow(p, below),
                pow(p, below) > 0,
                p >= 2,
        ;
        assert(((from + 1) - 1) as nat == from);
        lemma_search_length(keys, entries, from + 1);
    }
}

/// With two combinations or more and two entries or more, the length of the
/// shortcuts is the one at which the sequences first suffice: one length
/// less gives fewer sequences than there are entries.
pub proof fn lemma_sequence_length_bounds(keys: nat, entries: nat)
    requires
        keys >= 2,
        entries >= 2,
    ensures
        sequence_length(keys, entries) >= 1,
        pow(keys as int, (sequence_length(keys, entries) - 1) as nat) < entries,
        entries <= pow(keys as int, sequence_length(keys, entries)),
{
    lemma_sequence_length_exists(keys, entries);
    lemma_pow0(keys as int);
}

/// All that is needed to name the sequences of a length: at least one
/// combination, unless the length is 0.
pub open spec fn can_spell(keys: Seq<KeyCombo>, length: nat) -> bool {
    keys.len() > 0 || length == 0
}

/// The sequence number `n` of the given length over `key_combos`.
pub fn sequence_at(key_combos: &[KeyCombo], length: usize, n: usize) -> (sequence: Vec<KeyCombo>)
    requires
        can_spell(key_combos@, length as nat),
    ensures
        sequence@ == nth_sequence(key_combos@, length as nat, n as nat),
{
    let mut sequence: Vec<KeyCombo> = Vec::new();
    if length == 0 {
        return sequence;
    }
    let count: usize = key_combos.len();
    let mut filled: usize = 0;
    while filled < length
        invariant
            filled <= length,
            sequence@.len() == filled,
            key_combos@.len() > 0,
        decreases length - filled,
    {
        sequence.push(key_combos[0]);
        filled += 1;
    }
    let mut rest: usize = n;
    let mut at: usize = length;
    proof {
        lemma_nth_sequence_len(key_combos@, at as nat, rest as nat);
        assert(sequence@.subrange(at as int, length as int) =~= Seq::<KeyCombo>::empty());
        assert(nth_sequence(key_combos@, at as nat, rest as nat) + Seq::<KeyCombo>::empty()
            =~= nth_sequence(key_combos@, at as nat, rest as nat));
    }
    while at > 0
        invariant
            at <= length,
            sequence@.len() == length,
            count == key_combos@.len(),
            count > 0,
            nth_sequence(key_combos@, length as nat, n as nat) == nth_sequence(
                key_combos@,
                at as nat,
                rest as nat,
            ) + sequence@.subrange(at as int, length as int),
        decreases at,
    {
        let digit: usize = rest % count;
        let ghost before = sequence@;
        let ghost shorter = nth_sequence(
            key_combos@,
            (at - 1) as nat,
            leading_digits(rest as nat, count as nat),
        );
        proof {
            lemma_nth_sequence_len(
                key_combos@,
                (at - 1) as nat,
                leading_digits(rest as nat, count as nat),
            );
        }
        sequence.set(at - 1, key_combos[digit]);
        proof {
            assert(nth_sequence(key_combos@, at as nat, rest as nat) == shorter.push(
                key_combos@[digit as int],
            ));
            assert(shorter.push(key_combos@[digit as int]) + before.subrange(
                at as int,
                length as int,
            ) =~= shorter + sequence@.subrange(at - 1, length as int));
        }
        rest = rest / count;
        at -= 1;
    }
    proof {
        assert(nth_sequence(key_combos@, 0, rest as nat) + sequence@.subrange(0, length as int)
            =~= sequence@);
    }
    sequence
}

/// The number of sequences of the given length over `count` combinations.
fn count_sequences(count: usize, length: usize) -> (total: usize)
    requires
        pow(count as int, length as nat) <= usize::MAX,
    ensures
        total == pow(count as int, length as nat),
{
    let mut total: usize = 1;
    let mut done: usize = 0;
    proof {
        lemma_pow0(count as int);
    }
    while done < length
        invariant
            done <= length,
            total == pow(count as int, done as nat),
            pow(count as int, length as nat) <= usize::MAX,
        decreases length - done,
    {
        proof {
            assert(pow(count as int, (done + 1) as nat) == count * pow(count as int, done as nat))
                by {
                reveal(pow);
            }
            if count > 0 {
                lemma_pow_increases(count as nat, (done + 1) as nat, length as nat);
            } else {
                assert(count * pow(count as int, done as nat) == 0) by (nonlinear_arith)
                    requires
                        count == 0,
                ;
            }
            assert(total * count == count * pow(count as int, done as nat)) by (nonlinear_arith)
                requires
                    total == pow(count as int, done as nat),
            ;
        }
        total = total * count;
        done += 1;
    }
    total
}

/// All sequences of the given length over `key_combos`, in the order of
/// their numbers: the first combination varies slowest.
pub fn all_sequences(key_combos: &[KeyCombo], length: usize) -> (sequences: Vec<Vec<KeyCombo>>)
    requires
        pow(key_combos@.len() as int, length as nat) <= usize::MAX,
    ensures
        sequences@.len() == pow(key_combos@.len() as int, length as nat),
        forall|n: int|
            0 <= n < sequences@.len() ==> (#[trigger] sequences@[n])@ == nth_sequence(
                key_combos@,
                length as nat,
                n as nat,
            ),
{
    let total = count_sequences(key_combos.len(), length);
    proof {
        if key_combos@.len() == 0 && length > 0 {
            lemma0_pow(length as nat);
        }
    }
    let mut sequences: Vec<Vec<KeyCombo>> = Vec::new();
    let mut n: usize = 0;
    while n < total
        invariant
            n <= total,
            sequences@.len() == n,
            total > 0 ==> can_spell(key_combos@, length as nat),
            forall|m: int|
                0 <= m < n ==> (#[trigger] sequences@[m])@ == nth_sequence(
                    key_combos@,
                    length as nat,
                    m as nat,
                ),
        decreases total - n,
    {
        let sequence = sequence_at(key_combos, length, n);
        sequences.push(sequence);
        n += 1;
    }
    sequences
}

} // verus!
