//! Triangular numbers modulo a power of two.
//!
//! Quadratic probing visits slot `hash + 0`, `hash + 1`, `hash + 3`, `hash + 6`,
//! and so on. In a table whose length is a power of two the first `len` probes
//! land on `len` different slots, and so on every slot.

use vstd::prelude::*;
use vstd::arithmetic::div_mod::{
    lemma_fundamental_div_mod, lemma_mod_equivalence, lemma_mod_multiples_basic, lemma_small_mod,
};
use vstd::arithmetic::power2::{pow2, lemma2_to64, lemma_pow2_pos, lemma_pow2_unfold};
use vstd::set_lib::{set_int_range, lemma_int_range, lemma_subset_equality};

verus! {

/// The sum `0 + 1 + ... + n`.
pub open spec fn triangle(n: nat) -> nat
    decreases n,
{
    if n == 0 {
        0
    } else {
        n + triangle((n - 1) as nat)
    }
}

/// The slot that probe number `n` visits in a table of `len` slots.
pub open spec fn probe_index(hash: int, n: nat, len: int) -> int {
    (hash + triangle(n)) % len
}

/// The slots visited by the first `n` probes.
spec fn visited(hash: int, n: nat, len: int) -> Set<int> {
    Set::new(|slot: int| exists|m: nat| m < n && probe_index(hash, m, len) == slot)
}

/// Twice the `n`th triangular number is `n * (n + 1)`.
pub proof fn lemma_triangle_closed_form(n: nat)
    ensures
        2 * triangle(n) == n * (n + 1),
    decreases n,
{
    if n == 0 {
        assert(n * (n + 1) == 0) by (nonlinear_arith)
            requires
                n == 0,
        ;
    } else {
        let m: nat = (n - 1) as nat;
        lemma_triangle_closed_form(m);
        assert(triangle(n) == n + triangle(m));
        assert(m * (m + 1) + 2 * n == n * (n + 1)) by (nonlinear_arith)
            requires
                m + 1 == n,
        ;
    }
}

/// An odd factor can be dropped from a multiple of a power of two.
proof fn lemma_odd_factor(x: int, y: int, e: nat)
    requires
        x % 2 == 1,
        (x * y) % (pow2(e) as int) == 0,
    ensures
        y % (pow2(e) as int) == 0,
    decreases e,
{
    lemma_pow2_pos(e);
    if e == 0 {
        lemma2_to64();
    } else {
        let half: int = pow2((e - 1) as nat) as int;
        lemma_pow2_unfold(e);
        lemma_pow2_pos((e - 1) as nat);
        let q: int = (x * y) / (2 * half);
        lemma_fundamental_div_mod(x * y, 2 * half);
        assert(x * y == 2 * (half * q)) by (nonlinear_arith)
            requires
                x * y == (2 * half) * q + 0,
        ;
        let xh: int = x / 2;
        let yh: int = y / 2;
        let yr: int = y % 2;
        assert(x * y == 2 * (2 * (xh * yh) + xh * yr + yh) + yr) by (nonlinear_arith)
            requires
                x == 2 * xh + 1,
                y == 2 * yh + yr,
        ;
        assert(yr == 0);
        assert(x * yh == half * q) by (nonlinear_arith)
            requires
                y == 2 * yh,
                x * y == 2 * (half * q),
        ;
        assert(half * q == q * half) by (nonlinear_arith);
        lemma_mod_multiples_basic(q, half);
        lemma_odd_factor(x, yh, (e - 1) as nat);
        let r: int = yh / half;
        lemma_fundamental_div_mod(yh, half);
        assert(y == r * (2 * half)) by (nonlinear_arith)
            requires
                y == 2 * yh,
                yh == half * r + 0,
        ;
        lemma_mod_multiples_basic(r, 2 * half);
    }
}

/// Below a power of two, different indices have different triangular numbers
/// modulo that power.
pub proof fn lemma_triangle_distinct(a: nat, b: nat, e: nat)
    requires
        a < b < pow2(e),
    ensures
        triangle(a) % pow2(e) != triangle(b) % pow2(e),
{
    let len: int = pow2(e) as int;
    lemma_pow2_pos(e);
    if triangle(a) % pow2(e) == triangle(b) % pow2(e) {
        let d: int = triangle(b) - triangle(a);
        lemma_mod_equivalence(triangle(b) as int, triangle(a) as int, len);
        assert(d % len == 0);
        let q: int = d / len;
        lemma_fundamental_div_mod(d, len);
        lemma_triangle_closed_form(a);
        lemma_triangle_closed_form(b);
        let x: int = b - a;
        let y: int = (a + b + 1) as int;
        assert(x * y == b * (b + 1) - a * (a + 1)) by (nonlinear_arith)
            requires
                x == b - a,
                y == a + b + 1,
        ;
        lemma_pow2_unfold(e + 1);
        let twice: int = pow2(e + 1) as int;
        assert(twice == 2 * len);
        assert(x * y == q * twice) by (nonlinear_arith)
            requires
                x * y == 2 * d,
                d == len * q + 0,
                twice == 2 * len,
        ;
        lemma_mod_multiples_basic(q, twice);
        if x % 2 == 1 {
            lemma_odd_factor(x, y, e + 1);
            lemma_small_mod(y as nat, twice as nat);
        } else {
            assert(y % 2 == 1);
            assert(y * x == x * y) by (nonlinear_arith);
            lemma_odd_factor(y, x, e + 1);
            lemma_small_mod(x as nat, twice as nat);
        }
    }
}

/// The first `pow2(e)` probes from any hash visit different slots.
pub proof fn lemma_probes_distinct(hash: int, a: nat, b: nat, e: nat)
    requires
        a < b < pow2(e),
    ensures
        probe_index(hash, a, pow2(e) as int) != probe_index(hash, b, pow2(e) as int),
{
    let len: int = pow2(e) as int;
    lemma_pow2_pos(e);
    lemma_triangle_distinct(a, b, e);
    lemma_mod_equivalence(hash + triangle(a), hash + triangle(b), len);
    lemma_mod_equivalence(triangle(a) as int, triangle(b) as int, len);
}

/// The first `n` probes visit `n` slots.
proof fn lemma_visited_len(hash: int, n: nat, e: nat)
    requires
        n <= pow2(e),
    ensures
        visited(hash, n, pow2(e) as int).finite(),
        visited(hash, n, pow2(e) as int).len() == n,
    decreases n,
{
    let len: int = pow2(e) as int;
    if n == 0 {
        assert(visited(hash, n, len) =~= Set::<int>::empty());
    } else {
        let before: nat = (n - 1) as nat;
        lemma_visited_len(hash, before, e);
        let slot: int = probe_index(hash, before, len);
        assert(!visited(hash, before, len).contains(slot)) by {
            if visited(hash, before, len).contains(slot) {
                let m: nat = choose|m: nat| m < before && probe_index(hash, m, len) == slot;
                lemma_probes_distinct(hash, m, before, e);
            }
        }
        assert(visited(hash, n, len) =~= visited(hash, before, len).insert(slot)) by {
            assert forall|s: int| visited(hash, before, len).insert(slot).contains(s) implies visited(
                hash,
                n,
                len,
            ).contains(s) by {
                if s == slot {
                    assert(before < n && probe_index(hash, before, len) == s);
                } else {
                    let m: nat = choose|m: nat| m < before && probe_index(hash, m, len) == s;
                    assert(m < n && probe_index(hash, m, len) == s);
                }
            }
            assert forall|s: int| visited(hash, n, len).contains(s) implies visited(
                hash,
                before,
                len,
            ).insert(slot).contains(s) by {
                let m: nat = choose|m: nat| m < n && probe_index(hash, m, len) == s;
                if m < before {
                    assert(visited(hash, before, len).contains(s));
                }
            }
        }
    }
}

/// In a table of `pow2(e)` slots, every slot is visited by one of the first
/// `pow2(e)` probes, whatever the hash.
pub proof fn lemma_probes_cover(hash: int, slot: int, e: nat)
    requires
        0 <= slot < pow2(e),
    ensures
        exists|n: nat| n < pow2(e) && probe_index(hash, n, pow2(e) as int) == slot,
{
    let len: int = pow2(e) as int;
    lemma_pow2_pos(e);
    lemma_visited_len(hash, pow2(e), e);
    lemma_int_range(0, len);
    let all: Set<int> = set_int_range(0, len);
    let seen: Set<int> = visited(hash, pow2(e), len);
    assert(seen.subset_of(all)) by {
        assert forall|s: int| seen.contains(s) implies all.contains(s) by {
            let m: nat = choose|m: nat| m < pow2(e) && probe_index(hash, m, len) == s;
            assert(0 <= (hash + triangle(m)) % len < len);
        }
    }
    lemma_subset_equality(seen, all);
    assert(all.contains(slot));
    assert(seen.contains(slot));
}

} // verus!
