//! The boolean settings of a configuration, and a read-only view of the ISA
//! predicates among them.

use vstd::prelude::*;
use vstd::arithmetic::power2::pow2;
use vstd::bits::{lemma_u8_pow2_no_overflow, lemma_u8_shl_is_mul};

verus! {

/// Bit `n` of byte `b`, bit 0 being the least significant.
pub open spec fn bit_of(b: u8, n: nat) -> bool {
    (b as nat / pow2(n)) % 2 == 1
}

/// The flags held in `bytes`, eight to a byte, the least significant bit of
/// the first byte first.
pub open spec fn flags_of(bytes: Seq<u8>) -> Seq<bool> {
    Seq::new(8 * bytes.len(), |p: int| bit_of(bytes[p / 8], (p % 8) as nat))
}

/// The predicate bits of an ISA configuration, eight to a byte.
#[derive(Clone, Copy)]
pub struct PredicateView<'a>(pub &'a [u8]);

impl<'a> View for PredicateView<'a> {
    type V = Seq<bool>;

    /// One flag for each predicate.
    open spec fn view(&self) -> Seq<bool> {
        flags_of(self.0@)
    }
}

impl<'a> PredicateView<'a> {
    /// A view of the predicates stored in `bits`.
    pub fn new(bits: &'a [u8]) -> (v: Self)
        ensures
            v == PredicateView(bits),
            v@ == flags_of(bits@),
    {
        PredicateView(bits)
    }

    /// Whether predicate `p` is set.
    pub fn test(self, p: usize) -> (r: bool)
        requires
            p < self@.len(),
        ensures
            r == self@[p as int],
    {
        let byte: u8 = self.0[p / 8];
        let n: u8 = (p % 8) as u8;
        let mask: u8 = 1 << n;
        proof {
            lemma_u8_pow2_no_overflow(n as nat);
            lemma_u8_shl_is_mul(1, n);
            assert((byte & mask != 0) == ((byte / mask) % 2 == 1)) by (bit_vector)
                requires
                    n < 8,
                    mask == 1u8 << n,
            ;
        }
        byte & mask != 0
    }
}

/// The settings of a configuration that are flags, eight to a byte. A code
/// generator has one set that all targets share and one of the target.
#[derive(Debug)]
pub struct Flags {
    pub bytes: Vec<u8>,
}

impl View for Flags {
    type V = Seq<bool>;

    /// One flag for each setting.
    open spec fn view(&self) -> Seq<bool> {
        flags_of(self.bytes@)
    }
}

impl Flags {
    /// The flags stored in `bytes`.
    pub fn new(bytes: Vec<u8>) -> (flags: Self)
        ensures
            flags.bytes == bytes,
    {
        Flags { bytes }
    }

    /// The flags as predicates that encoding lists can test.
    pub fn predicate_view(&self) -> (v: PredicateView<'_>)
        ensures
            v.0@ == self.bytes@,
            v@ == self@,
    {
        PredicateView::new(self.bytes.as_slice())
    }
}

} // verus!
