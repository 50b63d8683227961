//! The two-level hash table that leads from a type and an opcode to the list
//! of encodings of an instruction.
//!
//! The first level is keyed by the controlling type of the instruction and
//! leads to a second-level table, which is keyed by the opcode and leads to
//! the encoding list of the instruction.

use core::ops::Range;
use vstd::prelude::*;
use vstd::arithmetic::power::pow;
use vstd::arithmetic::power2::{
    is_pow2, is_pow2_equiv, pow2, lemma_pow2, lemma_pow2_strictly_increases, lemma2_to64,
};
use vstd::bits::{lemma_usize_pow2_no_overflow, lemma_usize_shl_is_mul};
use vstd::slice::slice_subrange;
use crate::constant_hash::{
    can_probe, ends_probe, eq_is_identity, keys_reachable, lemma_probe_result, probe, probe_result,
    slot_of, Table,
};
use crate::enc_lists::{list_ok, EncListEntry, LegalizeCode, Outcomes, Shape};
use crate::encoding::Encoding;
use crate::encodings::{shape_with, Encodings, EncodingsView, NOT_FOUND};
use crate::ir::{Function, InstructionData, Opcode, Type};
use crate::settings::PredicateView;

verus! {

/// Level 1 hash table entry.
///
/// One level 1 hash table is generated per CPU mode. This table is keyed by
/// the controlling type variable, with the invalid type for non-polymorphic
/// instructions.
///
/// An entry refers to a level 2 hash table by the offset at which that table
/// begins in the array of all level 2 tables and the binary logarithm of its
/// length: all level 2 tables have a power-of-two size.
///
/// Empty entries have all bits of `log2len` set. An entry that has a
/// `legalize` code but no level 2 table has a window that is out of bounds.
#[derive(Clone, Copy, Debug)]
pub struct Level1Entry {
    pub ty: Type,
    pub log2len: u8,
    pub legalize: LegalizeCode,
    pub offset: u32,
}

impl Level1Entry {
    /// The type that this entry is for, if it is not empty.
    pub open spec fn key(self) -> Option<Type> {
        if self.log2len != 0xff {
            Some(self.ty)
        } else {
            None
        }
    }

    /// One past the last level 2 entry that this entry refers to.
    pub open spec fn window_end(self) -> int {
        self.offset + pow2(self.log2len as nat)
    }

    /// Get the level 2 table range indicated by this entry, or `None` if no
    /// array can be that long.
    fn range(&self) -> (r: Option<Range<usize>>)
        ensures
            match r {
                Some(range) => range.start == self.offset && range.end == self.window_end(),
                None => self.window_end() > usize::MAX,
            },
    {
        let b: usize = self.offset as usize;
        if self.log2len as u32 >= usize::BITS {
            proof {
                lemma2_to64();
                if self.log2len as nat > usize::BITS as nat {
                    lemma_pow2_strictly_increases(usize::BITS as nat, self.log2len as nat);
                }
            }
            return None;
        }
        proof {
            lemma_usize_pow2_no_overflow(self.log2len as nat);
            lemma_usize_shl_is_mul(1, self.log2len as usize);
        }
        let len: usize = 1usize << self.log2len;
        match b.checked_add(len) {
            Some(end) => Some(b..end),
            None => None,
        }
    }

    /// The level 2 table that this entry refers to, or `None` if the range of
    /// the entry is out of the bounds of `level2`.
    pub(crate) fn window<'a>(&self, level2: &'a [Level2Entry]) -> (w: Option<&'a [Level2Entry]>)
        ensures
            match w {
                Some(table) => self.window_end() <= level2@.len() && table@ == level2@.subrange(
                    self.offset as int,
                    self.window_end(),
                ),
                None => self.window_end() > level2@.len(),
            },
    {
        let len: usize = level2.len();
        match self.range() {
            Some(range) => if range.end <= len {
                Some(slice_subrange(level2, range.start, range.end))
            } else {
                None
            },
            None => None,
        }
    }
}

/// The key of each entry of a level 1 table.
pub open spec fn level1_keys(table: Seq<Level1Entry>) -> Seq<Option<Type>> {
    Seq::new(table.len(), |i: int| table[i].key())
}

impl Table<Type> for [Level1Entry] {
    open spec fn keys(&self) -> Seq<Option<Type>> {
        level1_keys(self@)
    }

    fn len(&self) -> (n: usize) {
        self.len()
    }

    fn key(&self, idx: usize) -> (k: Option<Type>) {
        if self[idx].log2len != 0xff {
            Some(self[idx].ty)
        } else {
            None
        }
    }
}

/// Level 2 hash table entry.
///
/// The second level hash tables are keyed by `Opcode`, and contain an offset
/// into the array of code words where the encoding list of the instruction
/// begins.
///
/// Empty entries have no opcode.
#[derive(Clone, Copy, Debug)]
pub struct Level2Entry {
    pub opcode: Option<Opcode>,
    pub offset: u32,
}

/// The key of each entry of a level 2 table.
pub open spec fn level2_keys(table: Seq<Level2Entry>) -> Seq<Option<Opcode>> {
    Seq::new(table.len(), |i: int| table[i].opcode)
}

impl Table<Opcode> for [Level2Entry] {
    open spec fn keys(&self) -> Seq<Option<Opcode>> {
        level2_keys(self@)
    }

    fn len(&self) -> (n: usize) {
        self.len()
    }

    fn key(&self, idx: usize) -> (k: Option<Opcode>) {
        self[idx].opcode
    }
}

/// Where the encoding list of an instruction begins, and the legalization
/// code that goes with its type.
pub struct Lookup {
    /// The offset of the first code word, or `NOT_FOUND`.
    pub offset: usize,
    /// The legalization code to use if no encoding is found.
    pub legalize: LegalizeCode,
}

/// Where the second level leads for `opcode`, in the window of `entry`:
/// `NOT_FOUND` if the window is out of bounds or has no entry for the opcode.
pub open spec fn lookup_level2(entry: Level1Entry, level2: Seq<Level2Entry>, opcode: Opcode) -> usize {
    if entry.window_end() <= level2.len() {
        let window = level2.subrange(entry.offset as int, entry.window_end());
        match probe_result(level2_keys(window), opcode, opcode.0 as int) {
            Ok(slot) => window[slot as int].offset as usize,
            Err(_) => NOT_FOUND,
        }
    } else {
        NOT_FOUND
    }
}

/// Where the two tables lead for an instruction with controlling type `ty`
/// and opcode `opcode`.
pub open spec fn lookup(
    level1: Seq<Level1Entry>,
    level2: Seq<Level2Entry>,
    ty: Type,
    opcode: Opcode,
) -> Lookup {
    match probe_result(level1_keys(level1), ty, ty.0 as int) {
        Err(miss) => Lookup { offset: NOT_FOUND, legalize: level1[miss as int].legalize },
        Ok(hit) => Lookup {
            offset: lookup_level2(level1[hit as int], level2, opcode),
            legalize: level1[hit as int].legalize,
        },
    }
}

/// The tables are sound: every lookup in them comes to an end, and leads to a
/// legalization code that names an action and to an encoding list that is
/// sound.
pub open spec fn tables_ok(
    level1: Seq<Level1Entry>,
    level2: Seq<Level2Entry>,
    words: Seq<EncListEntry>,
    shape: Shape,
) -> bool {
    &&& is_pow2(level1.len() as int)
    &&& exists|i: int| 0 <= i < level1.len() && (#[trigger] level1[i]).key() is None
    &&& forall|i: int| 0 <= i < level1.len() ==> (#[trigger] level1[i]).legalize < shape.legalize_actions
    &&& forall|i: int|
        0 <= i < level1.len() && (#[trigger] level1[i]).key() is Some && level1[i].window_end()
            <= level2.len() ==> has_empty_entry(level2, level1[i].offset as int, level1[i].window_end())
    &&& forall|j: int|
        0 <= j < level2.len() && (#[trigger] level2[j]).opcode is Some ==> list_ok(
            words,
            shape,
            level2[j].offset as int,
        )
}

/// Some entry of `level2` from `start` up to `end` is empty.
pub open spec fn has_empty_entry(level2: Seq<Level2Entry>, start: int, end: int) -> bool {
    exists|j: int| start <= j < end && (#[trigger] level2[j]).opcode is None
}

/// The number that a type hashes to.
pub open spec fn type_hash(ty: Type) -> int {
    ty.0 as int
}

/// The number that an opcode hashes to.
pub open spec fn opcode_hash(opcode: Opcode) -> int {
    opcode.0 as int
}

/// A lookup of the type of an entry of the level 1 table ends at that entry.
pub open spec fn level1_reachable(level1: Seq<Level1Entry>) -> bool {
    keys_reachable(level1_keys(level1), |ty: Type| type_hash(ty))
}

/// A lookup of the opcode of an entry of the level 2 table ends at that
/// entry.
pub open spec fn level2_reachable(table: Seq<Level2Entry>) -> bool {
    keys_reachable(level2_keys(table), |opcode: Opcode| opcode_hash(opcode))
}

/// Every entry of the tables can be found: a lookup of the type of an entry
/// of the first level ends at that entry, and a lookup of the opcode of an
/// entry of a level 2 table ends at that entry.
pub open spec fn entries_reachable(level1: Seq<Level1Entry>, level2: Seq<Level2Entry>) -> bool {
    &&& level1_reachable(level1)
    &&& forall|i: int|
        0 <= i < level1.len() && (#[trigger] level1[i]).key() is Some && level1[i].window_end()
            <= level2.len() ==> level2_reachable(
            level2.subrange(level1[i].offset as int, level1[i].window_end()),
        )
}

/// In tables whose entries can all be found, the lookup finds what the
/// tables hold: for a type with an entry in the first level it gives the
/// legalization code of that entry, and for an opcode with an entry in the
/// level 2 table of the type it gives the offset of that entry.
pub proof fn lemma_lookup_finds_entries(
    level1: Seq<Level1Entry>,
    level2: Seq<Level2Entry>,
    ty: Type,
    opcode: Opcode,
    i: int,
)
    requires
        entries_reachable(level1, level2),
        level1.len() <= usize::MAX,
        level2.len() <= usize::MAX,
        0 <= i < level1.len(),
        level1[i].key() == Some(ty),
    ensures
        lookup(level1, level2, ty, opcode).legalize == level1[i].legalize,
        forall|j: int|
            level1[i].offset <= j < level1[i].window_end() <= level2.len() && level2[j].opcode
                == Some(opcode) ==> lookup(level1, level2, ty, opcode).offset
                == level2[j].offset as usize,
{
    let keys = level1_keys(level1);
    assert(keys[i] == Some(ty));
    assert(probe_result(keys, ty, type_hash(ty)) == Ok::<usize, usize>(i as usize));
    assert forall|j: int|
        level1[i].offset <= j < level1[i].window_end() <= level2.len() && level2[j].opcode == Some(
            opcode,
        ) implies lookup(level1, level2, ty, opcode).offset == level2[j].offset as usize by {
        let window = level2.subrange(level1[i].offset as int, level1[i].window_end());
        let slot: int = j - level1[i].offset;
        assert(window[slot] == level2[j]);
        assert(level2_keys(window)[slot] == Some(opcode));
        assert(probe_result(level2_keys(window), opcode, opcode_hash(opcode)) == Ok::<
            usize,
            usize,
        >(slot as usize));
    }
}

/// Two-level hash table lookup and iterator construction.
///
/// Given the controlling type variable and instruction opcode, find the corresponding encoding
/// list.
///
/// Returns an iterator that produces legal encodings for `inst`.
pub fn lookup_enclist<
    'a,
    L: Copy,
    RP: Fn(PredicateView<'a>, &'a InstructionData) -> bool,
    IP: Fn(&'a Function, &'a InstructionData) -> bool,
>(
    ctrl_typevar: Type,
    inst: &'a InstructionData,
    func: &'a Function,
    level1_table: &'a [Level1Entry],
    level2_table: &'a [Level2Entry],
    enclist: &'a [EncListEntry],
    legalize_actions: &'a [L],
    recipe_preds: &'a [Option<RP>],
    inst_preds: &'a [IP],
    isa_preds: PredicateView<'a>,
) -> (encodings: Encodings<'a, L, RP, IP>)
    requires
        tables_ok(
            level1_table@,
            level2_table@,
            enclist@,
            shape_with(legalize_actions@, recipe_preds@, inst_preds@, isa_preds),
        ),
    ensures
        encodings@ == (EncodingsView {
            offset: lookup(level1_table@, level2_table@, ctrl_typevar, inst.opcode).offset,
            legalize: lookup(level1_table@, level2_table@, ctrl_typevar, inst.opcode).legalize,
            inst,
            func,
            words: enclist@,
            actions: legalize_actions@,
            recipe_preds: recipe_preds@,
            inst_preds: inst_preds@,
            isa_preds,
        }),
        encodings@.cursor_ok(),
        encodings@.legalize_ok(),
{
    proof {
        lemma_level1_can_probe(level1_table@, ctrl_typevar);
    }
    let (offset, legalize) = match probe(level1_table, ctrl_typevar, ctrl_typevar.index()) {
        Err(l1idx) => {
            // No level 1 entry found for the type.
            // We have a sentinel entry with the default legalization code.
            (NOT_FOUND, level1_table[l1idx].legalize)
        },
        Ok(l1idx) => {
            // We have a valid level 1 entry for this type.
            let l1ent = &level1_table[l1idx];
            let offset = match l1ent.window(level2_table) {
                Some(l2tab) => {
                    let opcode = inst.opcode();
                    proof {
                        lemma_level2_can_probe(*l1ent, level2_table@, opcode);
                    }
                    match probe(l2tab, opcode, opcode.index()) {
                        Ok(l2idx) => l2tab[l2idx].offset as usize,
                        Err(_) => NOT_FOUND,
                    }
                },
                // The l1ent range is invalid. This means that we just have a customized
                // legalization code for this type. The level 2 table is empty.
                None => NOT_FOUND,
            };
            (offset, l1ent.legalize)
        },
    };

    // Now we have an offset into `enclist` that is `NOT_FOUND` when no encoding list could be
    // found. The default legalization code is always valid.
    Encodings::new(
        offset,
        legalize,
        inst,
        func,
        enclist,
        legalize_actions,
        recipe_preds,
        inst_preds,
        isa_preds,
    )
}

/// In a level 1 table with an empty entry, a probe for any type comes to an
/// end.
proof fn lemma_level1_can_probe(level1: Seq<Level1Entry>, ty: Type)
    requires
        is_pow2(level1.len() as int),
        exists|i: int| 0 <= i < level1.len() && (#[trigger] level1[i]).key() is None,
    ensures
        can_probe(level1_keys(level1), ty),
        eq_is_identity::<Type>(),
{
    let i: int = choose|i: int| 0 <= i < level1.len() && (#[trigger] level1[i]).key() is None;
    assert(ends_probe(level1_keys(level1), ty, i));
}

/// The level 2 table of an entry has a power-of-two length.
pub proof fn lemma_window_is_pow2(entry: Level1Entry)
    ensures
        is_pow2(entry.window_end() - entry.offset),
{
    lemma_pow2(entry.log2len as nat);
    is_pow2_equiv(entry.window_end() - entry.offset);
    assert(pow(2, entry.log2len as nat) == entry.window_end() - entry.offset);
}

/// In a level 2 window with an empty entry, a probe for any opcode comes to
/// an end.
proof fn lemma_level2_can_probe(entry: Level1Entry, level2: Seq<Level2Entry>, opcode: Opcode)
    requires
        entry.window_end() <= level2.len(),
        has_empty_entry(level2, entry.offset as int, entry.window_end()),
    ensures
        can_probe(level2_keys(level2.subrange(entry.offset as int, entry.window_end())), opcode),
        eq_is_identity::<Opcode>(),
{
    let window = level2.subrange(entry.offset as int, entry.window_end());
    let j: int = choose|j: int|
        entry.offset <= j < entry.window_end() && (#[trigger] level2[j]).opcode is None;
    assert(window[j - entry.offset] == level2[j]);
    assert(ends_probe(level2_keys(window), opcode, j - entry.offset));
    lemma_window_is_pow2(entry);
}

/// A type that no entry of the first level is for has no encodings, and its
/// legalization code is that of the empty entry at which the lookup gave up.
pub proof fn lemma_unknown_type_has_no_encodings<'a, L, RP, IP>(
    level1: Seq<Level1Entry>,
    level2: Seq<Level2Entry>,
    ty: Type,
    opcode: Opcode,
    found: EncodingsView<'a, L, RP, IP>,
    outcomes: Outcomes,
)
    requires
        can_probe(level1_keys(level1), ty),
        level1.len() <= usize::MAX,
        forall|i: int| 0 <= i < level1.len() ==> (#[trigger] level1[i]).key() != Some(ty),
        found.offset == lookup(level1, level2, ty, opcode).offset,
        found.legalize == lookup(level1, level2, ty, opcode).legalize,
    ensures
        probe_result(level1_keys(level1), ty, ty.0 as int) is Err,
        level1[slot_of(probe_result(level1_keys(level1), ty, ty.0 as int)) as int].key() is None,
        found.is_exhausted(),
        found.remaining(outcomes) == Seq::<Encoding>::empty(),
        found.resulting_legalize(outcomes) == level1[slot_of(
            probe_result(level1_keys(level1), ty, ty.0 as int),
        ) as int].legalize,
{
    lemma_probe_result(level1_keys(level1), ty, ty.0 as int);
}

/// A type whose entry of the first level refers to no level 2 table has no
/// encodings, whatever the opcode, and its legalization code is that of the
/// entry.
pub proof fn lemma_type_without_level2_has_no_encodings<'a, L, RP, IP>(
    level1: Seq<Level1Entry>,
    level2: Seq<Level2Entry>,
    ty: Type,
    opcode: Opcode,
    found: EncodingsView<'a, L, RP, IP>,
    outcomes: Outcomes,
)
    requires
        probe_result(level1_keys(level1), ty, ty.0 as int) is Ok,
        level1[slot_of(probe_result(level1_keys(level1), ty, ty.0 as int)) as int].window_end()
            > level2.len(),
        found.offset == lookup(level1, level2, ty, opcode).offset,
        found.legalize == lookup(level1, level2, ty, opcode).legalize,
    ensures
        found.is_exhausted(),
        found.remaining(outcomes) == Seq::<Encoding>::empty(),
        found.resulting_legalize(outcomes) == level1[slot_of(
            probe_result(level1_keys(level1), ty, ty.0 as int),
        ) as int].legalize,
{
}

} // verus!
