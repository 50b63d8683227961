//! Lookup in open-addressed hash tables that were laid out ahead of time.
//!
//! A table has a power-of-two number of slots. A key is looked for at the slot
//! its hash names and then, by quadratic probing, at the slots 1, 3, 6, 10, ...
//! further on, until a slot holds the key or is empty.

use vstd::prelude::*;
use vstd::arithmetic::div_mod::{lemma_add_mod_noop, lemma_mod_bound, lemma_small_mod};
use vstd::arithmetic::power::pow;
use vstd::arithmetic::power2::{
    is_pow2, is_pow2_equiv, pow2, lemma_pow2, lemma_pow2_pos, lemma_pow2_strictly_increases,
    lemma_pow2_unfold, lemma2_to64,
};
use vstd::bits::{low_bits_mask, lemma_usize_low_bits_mask_is_mod};
use vstd::std_specs::cmp::PartialEqSpec;
use crate::triangular::{lemma_probes_cover, probe_index, triangle};

verus! {

/// A table of slots, each empty or holding one key.
pub trait Table<K: Copy + Eq> {
    /// The key of each slot, `None` where the slot is empty.
    spec fn keys(&self) -> Seq<Option<K>>;

    /// The number of slots.
    fn len(&self) -> (n: usize)
        ensures
            n == self.keys().len(),
    ;

    /// The key in slot `idx`, or `None` if the slot is empty.
    fn key(&self, idx: usize) -> (k: Option<K>)
        requires
            idx < self.keys().len(),
        ensures
            k == self.keys()[idx as int],
    ;
}

/// `==` on `K` tells whether two keys are the same key.
pub open spec fn eq_is_identity<K: PartialEq>() -> bool {
    &&& K::obeys_eq_spec()
    &&& forall|a: K, b: K| #[trigger] a.eq_spec(&b) <==> a == b
}

/// A probe for `key` ends at `slot`: the slot is empty or holds `key`.
pub open spec fn ends_probe<K>(keys: Seq<Option<K>>, key: K, slot: int) -> bool {
    keys[slot] is None || keys[slot] == Some(key)
}

/// Every probe for `key` in `keys` comes to an end: the number of slots is a
/// power of two, and some slot is empty or holds `key`.
pub open spec fn can_probe<K>(keys: Seq<Option<K>>, key: K) -> bool {
    &&& is_pow2(keys.len() as int)
    &&& exists|slot: int| 0 <= slot < keys.len() && ends_probe(keys, key, slot)
}

/// The outcome of probing from probe number `n` on: `Ok` with the slot that
/// holds `key`, or `Err` with the empty slot that was met first.
pub open spec fn probe_from<K>(keys: Seq<Option<K>>, key: K, hash: int, n: nat) -> Result<
    usize,
    usize,
>
    decreases keys.len() - n,
{
    if n >= keys.len() {
        Err(0)
    } else {
        let slot = probe_index(hash, n, keys.len() as int);
        match keys[slot] {
            None => Err(slot as usize),
            Some(k) => if k == key {
                Ok(slot as usize)
            } else {
                probe_from(keys, key, hash, n + 1)
            },
        }
    }
}

/// The outcome of looking `key` up in `keys`, starting at the slot `hash` names.
pub open spec fn probe_result<K>(keys: Seq<Option<K>>, key: K, hash: int) -> Result<usize, usize> {
    probe_from(keys, key, hash, 0)
}

/// The slot a lookup ended at, found or not.
pub open spec fn slot_of(r: Result<usize, usize>) -> usize {
    match r {
        Ok(slot) => slot,
        Err(slot) => slot,
    }
}

/// A power of two that fits in `usize` is `pow2(e)` for some `e` below the
/// width of `usize`.
proof fn lemma_pow2_exponent(len: usize) -> (e: nat)
    requires
        is_pow2(len as int),
    ensures
        len == pow2(e),
        e < usize::BITS,
{
    is_pow2_equiv(len as int);
    let e: nat = choose|e: nat| pow(2, e) == len as int;
    lemma_pow2(e);
    if e >= usize::BITS {
        lemma2_to64();
        if e > usize::BITS {
            lemma_pow2_strictly_increases(usize::BITS as nat, e);
        }
    }
    e
}

/// While no probe before number `n` has ended, some probe from `n` on will,
/// and `n` is still below the number of slots.
proof fn lemma_probe_goes_on<K>(keys: Seq<Option<K>>, key: K, hash: int, n: nat, e: nat)
    requires
        keys.len() == pow2(e),
        exists|slot: int| 0 <= slot < keys.len() && ends_probe(keys, key, slot),
        forall|m: nat| m < n ==> !ends_probe(keys, key, #[trigger] probe_index(hash, m, keys.len() as int)),
    ensures
        n < keys.len(),
{
    let slot: int = choose|slot: int| 0 <= slot < keys.len() && ends_probe(keys, key, slot);
    lemma_probes_cover(hash, slot, e);
    let m: nat = choose|m: nat| m < pow2(e) && probe_index(hash, m, pow2(e) as int) == slot;
    assert(ends_probe(keys, key, probe_index(hash, m, keys.len() as int)));
}

/// Probe number `n` is the first that ends the search for `key`.
pub open spec fn first_end<K>(keys: Seq<Option<K>>, key: K, hash: int, n: nat) -> bool {
    &&& ends_probe(keys, key, probe_index(hash, n, keys.len() as int))
    &&& forall|m: nat|
        m < n ==> !ends_probe(keys, key, #[trigger] probe_index(hash, m, keys.len() as int))
}

/// What a lookup returns is a slot of the table: one that holds the key if the
/// lookup succeeds, an empty one if it fails. It is the slot of the first
/// probe that meets the key or an empty slot, and that probe is one of the
/// first `len`.
pub proof fn lemma_probe_result<K>(keys: Seq<Option<K>>, key: K, hash: int)
    requires
        can_probe(keys, key),
        keys.len() <= usize::MAX,
    ensures
        0 <= slot_of(probe_result(keys, key, hash)) < keys.len(),
        probe_result(keys, key, hash) is Ok ==> keys[slot_of(probe_result(keys, key, hash)) as int]
            == Some(key),
        probe_result(keys, key, hash) is Err ==> keys[slot_of(
            probe_result(keys, key, hash),
        ) as int] is None,
        exists|n: nat|
            n < keys.len() && #[trigger] first_end(keys, key, hash, n) && slot_of(
                probe_result(keys, key, hash),
            ) == probe_index(hash, n, keys.len() as int),
{
    lemma_probe_from(keys, key, hash, 0);
}

proof fn lemma_probe_from<K>(keys: Seq<Option<K>>, key: K, hash: int, n: nat)
    requires
        can_probe(keys, key),
        keys.len() <= usize::MAX,
        forall|m: nat| m < n ==> !ends_probe(keys, key, #[trigger] probe_index(hash, m, keys.len() as int)),
    ensures
        0 <= slot_of(probe_from(keys, key, hash, n)) < keys.len(),
        probe_from(keys, key, hash, n) is Ok ==> keys[slot_of(probe_from(keys, key, hash, n)) as int]
            == Some(key),
        probe_from(keys, key, hash, n) is Err ==> keys[slot_of(
            probe_from(keys, key, hash, n),
        ) as int] is None,
        exists|last: nat|
            last < keys.len() && #[trigger] first_end(keys, key, hash, last) && slot_of(
                probe_from(keys, key, hash, n),
            ) == probe_index(hash, last, keys.len() as int),
    decreases keys.len() - n,
{
    is_pow2_equiv(keys.len() as int);
    let e: nat = choose|e: nat| pow(2, e) == keys.len() as int;
    lemma_pow2(e);
    lemma_probe_goes_on(keys, key, hash, n, e);
    let slot: int = probe_index(hash, n, keys.len() as int);
    lemma_mod_bound(hash + triangle(n), keys.len() as int);
    if !ends_probe(keys, key, slot) {
        lemma_probe_from(keys, key, hash, n + 1);
    } else {
        assert(first_end(keys, key, hash, n));
    }
}

/// A key that no slot holds is not found.
pub proof fn lemma_probe_absent<K>(keys: Seq<Option<K>>, key: K, hash: int)
    requires
        can_probe(keys, key),
        keys.len() <= usize::MAX,
        forall|slot: int| 0 <= slot < keys.len() ==> keys[slot] != Some(key),
    ensures
        probe_result(keys, key, hash) is Err,
{
    lemma_probe_result(keys, key, hash);
}

/// Every key of the table is found when it is looked up from the slot that
/// `hash` names for it, and found in the slot that holds it.
pub open spec fn keys_reachable<K>(keys: Seq<Option<K>>, hash: spec_fn(K) -> int) -> bool {
    forall|slot: int|
        0 <= slot < keys.len() ==> ((#[trigger] keys[slot]) matches Some(k) ==> probe_result(
            keys,
            k,
            hash(k),
        ) == Ok::<usize, usize>(slot as usize))
}

/// In a table whose keys are all reachable, a lookup that fails tells that no
/// slot holds the key, and no key is held by two slots.
pub proof fn lemma_miss_means_absent<K>(keys: Seq<Option<K>>, key: K, hash: spec_fn(K) -> int)
    requires
        keys_reachable(keys, hash),
        keys.len() <= usize::MAX,
    ensures
        probe_result(keys, key, hash(key)) is Err ==> forall|slot: int|
            0 <= slot < keys.len() ==> keys[slot] != Some(key),
        forall|a: int, b: int|
            0 <= a < keys.len() && 0 <= b < keys.len() && keys[a] == Some(key) && keys[b] == Some(
                key,
            ) ==> a == b,
{
    assert forall|a: int, b: int|
        0 <= a < keys.len() && 0 <= b < keys.len() && keys[a] == Some(key) && keys[b] == Some(
            key,
        ) implies a == b by {
        assert(probe_result(keys, key, hash(key)) == Ok::<usize, usize>(a as usize));
        assert(probe_result(keys, key, hash(key)) == Ok::<usize, usize>(b as usize));
    }
}

/// Looks `key` up in `table`, starting at the slot that `hash` names.
///
/// Returns `Ok` with the slot that holds the key, or `Err` with the empty slot
/// at which the search gave up.
pub fn probe<K: Copy + Eq, T: Table<K> + ?Sized>(table: &T, key: K, hash: usize) -> (r: Result<
    usize,
    usize,
>)
    requires
        can_probe(table.keys(), key),
        eq_is_identity::<K>(),
    ensures
        r == probe_result(table.keys(), key, hash as int),
        slot_of(r) < table.keys().len(),
        r is Ok ==> table.keys()[slot_of(r) as int] == Some(key),
        r is Err ==> table.keys()[slot_of(r) as int] is None,
{
    let len: usize = table.len();
    let ghost keys = table.keys();
    let ghost e: nat = lemma_pow2_exponent(len);
    proof {
        lemma_pow2_pos(e);
        lemma_probe_result(keys, key, hash as int);
    }
    let mask: usize = len - 1;
    let mut idx: usize = hash;
    let mut step: usize = 0;
    loop
        invariant
            keys == table.keys(),
            len == keys.len(),
            len == pow2(e),
            e < usize::BITS,
            mask == len - 1,
            can_probe(keys, key),
            eq_is_identity::<K>(),
            step < len,
            idx as int % len as int == probe_index(hash as int, step as nat, len as int),
            forall|m: nat|
                m < step ==> !ends_probe(keys, key, #[trigger] probe_index(hash as int, m, len as int)),
            probe_from(keys, key, hash as int, step as nat) == probe_result(keys, key, hash as int),
        decreases len - step,
    {
        proof {
            lemma_usize_low_bits_mask_is_mod(idx, e);
            lemma_low_bits_mask_is_pow2_minus_one(e);
        }
        idx &= mask;
        assert(idx == probe_index(hash as int, step as nat, len as int));
        match table.key(idx) {
            None => return Err(idx),
            Some(k) if k == key => return Ok(idx),
            _ => {},
        }
        proof {
            assert forall|m: nat| m < step + 1 implies !ends_probe(
                keys,
                key,
                #[trigger] probe_index(hash as int, m, len as int),
            ) by {}
            lemma_probe_goes_on(keys, key, hash as int, (step + 1) as nat, e);
            lemma_pow2_bound(e);
            assert(triangle((step + 1) as nat) == step + 1 + triangle(step as nat));
            lemma_small_mod((step + 1) as nat, len as nat);
            lemma_add_mod_noop(hash as int + triangle(step as nat), step + 1, len as int);
        }
        step += 1;
        idx += step;
    }
}

/// The mask of the low `e` bits is one less than `pow2(e)`.
proof fn lemma_low_bits_mask_is_pow2_minus_one(e: nat)
    ensures
        low_bits_mask(e) == pow2(e) - 1,
{
    lemma_pow2_pos(e);
}

/// Twice a power of two that fits in `usize` is at most one more than the
/// largest `usize`.
proof fn lemma_pow2_bound(e: nat)
    requires
        e < usize::BITS,
    ensures
        2 * pow2(e) <= usize::MAX + 1,
{
    lemma2_to64();
    lemma_pow2_unfold(e + 1);
    if e + 1 < usize::BITS {
        lemma_pow2_strictly_increases(e + 1, usize::BITS as nat);
    }
}

} // verus!
