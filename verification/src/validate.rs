//! Validation of generated tables before they are used.
//!
//! The lookup functions take sound tables for granted. Tables come from a
//! generator outside this crate, so this module tells whether a set of
//! tables is sound, and hands out sound tables in a form that the lookup
//! accepts without further ado.

use vstd::prelude::*;
use vstd::arithmetic::power2::is_pow2;
use crate::constant_hash::probe_result;
use crate::enc_lists::{
    lemma_list_starts_inside, list_ok, EncListEntry, LegalizeCode, Shape, PRED_START,
};
use crate::constant_hash::{ends_probe, probe};
use crate::enc_tables::{
    entries_reachable, has_empty_entry, level1_keys, level1_reachable, level2_keys,
    level2_reachable, lemma_window_is_pow2, lookup, lookup_enclist, opcode_hash, tables_ok,
    type_hash, Level1Entry, Level2Entry,
};
use crate::encodings::{shape_with, Encodings, EncodingsView};
use crate::ir::{Function, InstructionData, Type};
use crate::settings::PredicateView;

verus! {

/// Whether `n` is a power of two.
pub fn is_power_of_two(n: usize) -> (r: bool)
    ensures
        r == is_pow2(n as int),
{
    if n == 0 {
        proof {
            reveal(is_pow2);
        }
        return false;
    }
    let mut m: usize = n;
    while m % 2 == 0
        invariant
            m > 0,
            is_pow2(m as int) == is_pow2(n as int),
        decreases m,
    {
        proof {
            reveal(is_pow2);
        }
        m = m / 2;
    }
    proof {
        reveal(is_pow2);
    }
    m == 1
}

/// The sizes of the tables that code words refer to. The ISA predicates are
/// counted in bytes of eight predicates.
pub struct TableSizes {
    /// How many recipes there are.
    pub recipes: usize,
    /// How many instruction predicates there are.
    pub inst_preds: usize,
    /// How many bytes of ISA predicates there are.
    pub isa_bytes: usize,
    /// How many legalization actions there are.
    pub legalize_actions: usize,
}

impl TableSizes {
    /// The sizes of the given tables.
    pub fn of<L, RP, IP>(
        legalize_actions: &[L],
        recipe_preds: &[Option<RP>],
        inst_preds: &[IP],
        isa_preds: PredicateView,
    ) -> (sizes: TableSizes)
        ensures
            sizes@ == shape_with(legalize_actions@, recipe_preds@, inst_preds@, isa_preds),
    {
        TableSizes {
            recipes: recipe_preds.len(),
            inst_preds: inst_preds.len(),
            isa_bytes: isa_preds.0.len(),
            legalize_actions: legalize_actions.len(),
        }
    }
}

impl View for TableSizes {
    type V = Shape;

    open spec fn view(&self) -> Shape {
        Shape {
            recipes: self.recipes as nat,
            inst_preds: self.inst_preds as nat,
            isa_preds: 8 * self.isa_bytes as nat,
            legalize_actions: self.legalize_actions as nat,
        }
    }
}

/// Whether the list that starts at offset `at` is sound, given in `later`
/// whether the lists that start after `at` are.
fn check_list_at(words: &[EncListEntry], sizes: &TableSizes, later: &Vec<bool>, at: usize) -> (ok:
    bool)
    requires
        at < words@.len(),
        later@.len() == words@.len(),
        forall|i: int| at < i < words@.len() ==> later@[i] == list_ok(words@, sizes@, i),
    ensures
        ok == list_ok(words@, sizes@, at as int),
{
    let len: usize = words.len();
    let word: usize = words[at] as usize;
    proof {
        let skip: int = (word - PRED_START) / 0x1000;
        lemma_list_starts_inside(words@, sizes@, at + 1);
        lemma_list_starts_inside(words@, sizes@, at + 2);
        lemma_list_starts_inside(words@, sizes@, at + 1 + skip);
    }
    if word / 2 < sizes.recipes {
        if at + 1 >= len {
            false
        } else if word % 2 == 1 {
            true
        } else {
            at + 2 < len && later[at + 2]
        }
    } else if word < PRED_START {
        let code: usize = word - 2 * sizes.recipes;
        code < sizes.legalize_actions && code <= LegalizeCode::MAX as usize
    } else {
        let pred: usize = (word - PRED_START) % 0x1000;
        let skip: usize = (word - PRED_START) / 0x1000;
        let known: bool = pred < sizes.inst_preds || (pred - sizes.inst_preds) / 8
            < sizes.isa_bytes;
        let on: bool = at + 1 < len && later[at + 1];
        let over: bool = skip == 0 || (skip < len - at - 1 && later[at + 1 + skip]);
        known && on && over
    }
}

/// For each offset into `words`, whether the list that starts there is sound.
pub fn check_lists(words: &[EncListEntry], sizes: &TableSizes) -> (ok: Vec<bool>)
    ensures
        ok@.len() == words@.len(),
        forall|at: int| 0 <= at < words@.len() ==> ok@[at] == list_ok(words@, sizes@, at),
{
    let len: usize = words.len();
    let mut ok: Vec<bool> = Vec::new();
    let mut n: usize = 0;
    while n < len
        invariant
            n <= len,
            len == words@.len(),
            ok@.len() == n,
        decreases len - n,
    {
        ok.push(false);
        n += 1;
    }
    let mut at: usize = len;
    while at > 0
        invariant
            at <= len,
            len == words@.len(),
            ok@.len() == len,
            forall|i: int| at <= i < len ==> ok@[i] == list_ok(words@, sizes@, i),
        decreases at,
    {
        at -= 1;
        let here: bool = check_list_at(words, sizes, &ok, at);
        ok[at] = here;
    }
    ok
}

/// Whether some entry of `table` is empty.
fn level1_has_empty(table: &[Level1Entry]) -> (found: bool)
    ensures
        found == exists|i: int| 0 <= i < table@.len() && (#[trigger] table@[i]).key() is None,
{
    let mut i: usize = 0;
    while i < table.len()
        invariant
            i <= table@.len(),
            forall|k: int| 0 <= k < i ==> (#[trigger] table@[k]).key() is Some,
        decreases table@.len() - i,
    {
        if table[i].log2len == 0xff {
            return true;
        }
        i += 1;
    }
    false
}

/// Whether some entry of `table` is empty.
fn level2_has_empty(table: &[Level2Entry]) -> (found: bool)
    ensures
        found == exists|j: int| 0 <= j < table@.len() && (#[trigger] table@[j]).opcode is None,
{
    let mut j: usize = 0;
    while j < table.len()
        invariant
            j <= table@.len(),
            forall|k: int| 0 <= k < j ==> (#[trigger] table@[k]).opcode is Some,
        decreases table@.len() - j,
    {
        if table[j].opcode.is_none() {
            return true;
        }
        j += 1;
    }
    false
}

/// Whether every entry of `level1` has a legalization code that names an
/// action, and every level 2 table that an entry refers to has an empty entry.
fn check_level1(level1: &[Level1Entry], level2: &[Level2Entry], legalize_actions: usize) -> (ok:
    bool)
    ensures
        ok == {
            &&& forall|i: int|
                0 <= i < level1@.len() ==> (#[trigger] level1@[i]).legalize < legalize_actions
            &&& forall|i: int|
                0 <= i < level1@.len() && (#[trigger] level1@[i]).key() is Some
                    && level1@[i].window_end() <= level2@.len() ==> has_empty_entry(
                    level2@,
                    level1@[i].offset as int,
                    level1@[i].window_end(),
                )
        },
{
    let mut i: usize = 0;
    while i < level1.len()
        invariant
            i <= level1@.len(),
            forall|k: int| 0 <= k < i ==> (#[trigger] level1@[k]).legalize < legalize_actions,
            forall|k: int|
                0 <= k < i && (#[trigger] level1@[k]).key() is Some && level1@[k].window_end()
                    <= level2@.len() ==> has_empty_entry(
                    level2@,
                    level1@[k].offset as int,
                    level1@[k].window_end(),
                ),
        decreases level1@.len() - i,
    {
        let entry = &level1[i];
        if entry.legalize as usize >= legalize_actions {
            return false;
        }
        if entry.log2len != 0xff {
            match entry.window(level2) {
                Some(window) => {
                    let found: bool = level2_has_empty(window);
                    proof {
                        let start: int = entry.offset as int;
                        if found {
                            let j: int = choose|j: int|
                                0 <= j < window@.len() && (#[trigger] window@[j]).opcode is None;
                            assert(level2@[start + j] == window@[j]);
                        } else if has_empty_entry(level2@, start, entry.window_end()) {
                            let j: int = choose|j: int|
                                start <= j < entry.window_end() && (#[trigger] level2@[j]).opcode is None;
                            assert(window@[j - start] == level2@[j]);
                        }
                    }
                    if !found {
                        return false;
                    }
                },
                None => {},
            }
        }
        i += 1;
    }
    true
}

/// Whether every entry of `level2` that is not empty leads to a sound list.
fn check_level2(level2: &[Level2Entry], words: &[EncListEntry], sizes: &TableSizes) -> (ok: bool)
    ensures
        ok == forall|j: int|
            0 <= j < level2@.len() && (#[trigger] level2@[j]).opcode is Some ==> list_ok(
                words@,
                sizes@,
                level2@[j].offset as int,
            ),
{
    let lists: Vec<bool> = check_lists(words, sizes);
    let mut j: usize = 0;
    while j < level2.len()
        invariant
            j <= level2@.len(),
            lists@.len() == words@.len(),
            forall|at: int| 0 <= at < words@.len() ==> lists@[at] == list_ok(words@, sizes@, at),
            forall|k: int|
                0 <= k < j && (#[trigger] level2@[k]).opcode is Some ==> list_ok(
                    words@,
                    sizes@,
                    level2@[k].offset as int,
                ),
        decreases level2@.len() - j,
    {
        let entry = &level2[j];
        if entry.opcode.is_some() {
            let offset: usize = entry.offset as usize;
            if offset >= words.len() || !lists[offset] {
                return false;
            }
        }
        j += 1;
    }
    true
}

/// Whether the tables are sound, so that every lookup in them comes to an
/// end and leads to a list that can be read without fault.
pub fn validate_tables(
    level1: &[Level1Entry],
    level2: &[Level2Entry],
    words: &[EncListEntry],
    sizes: &TableSizes,
) -> (ok: bool)
    ensures
        ok == tables_ok(level1@, level2@, words@, sizes@),
{
    is_power_of_two(level1.len()) && level1_has_empty(level1) && check_level1(
        level1,
        level2,
        sizes.legalize_actions,
    ) && check_level2(level2, words, sizes)
}

/// Whether a lookup of the type of any entry of `table` ends at that entry.
fn check_level1_reachable(table: &[Level1Entry]) -> (ok: bool)
    requires
        is_pow2(table@.len() as int),
    ensures
        ok == level1_reachable(table@),
{
    let ghost keys = level1_keys(table@);
    let mut i: usize = 0;
    while i < table.len()
        invariant
            i <= table@.len(),
            keys == level1_keys(table@),
            is_pow2(table@.len() as int),
            forall|k: int|
                0 <= k < i ==> ((#[trigger] keys[k]) matches Some(ty) ==> probe_result(
                    keys,
                    ty,
                    type_hash(ty),
                ) == Ok::<usize, usize>(k as usize)),
        decreases table@.len() - i,
    {
        if table[i].log2len != 0xff {
            let ty = table[i].ty;
            assert(ends_probe(keys, ty, i as int));
            match probe(table, ty, ty.index()) {
                Ok(slot) => {
                    if slot != i {
                        assert(keys[i as int] == Some(ty));
                        return false;
                    }
                },
                Err(_) => {
                    assert(keys[i as int] == Some(ty));
                    return false;
                },
            }
        }
        i += 1;
    }
    true
}

/// Whether a lookup of the opcode of any entry of `table` ends at that entry.
fn check_level2_reachable(table: &[Level2Entry]) -> (ok: bool)
    requires
        is_pow2(table@.len() as int),
    ensures
        ok == level2_reachable(table@),
{
    let ghost keys = level2_keys(table@);
    let mut j: usize = 0;
    while j < table.len()
        invariant
            j <= table@.len(),
            keys == level2_keys(table@),
            is_pow2(table@.len() as int),
            forall|k: int|
                0 <= k < j ==> ((#[trigger] keys[k]) matches Some(opcode) ==> probe_result(
                    keys,
                    opcode,
                    opcode_hash(opcode),
                ) == Ok::<usize, usize>(k as usize)),
        decreases table@.len() - j,
    {
        match table[j].opcode {
            Some(opcode) => {
                assert(ends_probe(keys, opcode, j as int));
                match probe(table, opcode, opcode.index()) {
                    Ok(slot) => {
                        if slot != j {
                            assert(keys[j as int] == Some(opcode));
                            return false;
                        }
                    },
                    Err(_) => {
                        assert(keys[j as int] == Some(opcode));
                        return false;
                    },
                }
            },
            None => {},
        }
        j += 1;
    }
    true
}

/// Whether the level 1 table has a power-of-two length and every entry of
/// the tables can be found by looking its key up.
pub fn check_reachable(level1: &[Level1Entry], level2: &[Level2Entry]) -> (ok: bool)
    ensures
        ok == (is_pow2(level1@.len() as int) && entries_reachable(level1@, level2@)),
{
    if !is_power_of_two(level1.len()) || !check_level1_reachable(level1) {
        return false;
    }
    let mut i: usize = 0;
    while i < level1.len()
        invariant
            i <= level1@.len(),
            forall|k: int|
                0 <= k < i && (#[trigger] level1@[k]).key() is Some && level1@[k].window_end()
                    <= level2@.len() ==> level2_reachable(
                    level2@.subrange(level1@[k].offset as int, level1@[k].window_end()),
                ),
        decreases level1@.len() - i,
    {
        let entry = &level1[i];
        if entry.log2len != 0xff {
            match entry.window(level2) {
                Some(window) => {
                    proof {
                        lemma_window_is_pow2(*entry);
                    }
                    if !check_level2_reachable(window) {
                        return false;
                    }
                },
                None => {},
            }
        }
        i += 1;
    }
    true
}

/// The tables of a target that have been found sound, together with the ISA
/// predicates they are used with. A lookup in them needs no further test.
pub struct SoundTables<'a, L, RP, IP> {
    level1: &'a [Level1Entry],
    level2: &'a [Level2Entry],
    enclist: &'a [EncListEntry],
    legalize_actions: &'a [L],
    recipe_preds: &'a [Option<RP>],
    inst_preds: &'a [IP],
    isa_preds: PredicateView<'a>,
}

impl<'a, L, RP, IP> SoundTables<'a, L, RP, IP> {
    #[verifier::type_invariant]
    spec fn sound(self) -> bool {
        &&& tables_ok(
            self.level1@,
            self.level2@,
            self.enclist@,
            shape_with(self.legalize_actions@, self.recipe_preds@, self.inst_preds@, self.isa_preds),
        )
        &&& entries_reachable(self.level1@, self.level2@)
    }
}

impl<
    'a,
    L: Copy,
    RP: Fn(PredicateView<'a>, &'a InstructionData) -> bool,
    IP: Fn(&'a Function, &'a InstructionData) -> bool,
> SoundTables<'a, L, RP, IP> {
    /// The level 1 table.
    pub closed spec fn level1(self) -> Seq<Level1Entry> {
        self.level1@
    }

    /// The level 2 tables.
    pub closed spec fn level2(self) -> Seq<Level2Entry> {
        self.level2@
    }

    /// The code words of the encoding lists.
    pub closed spec fn words(self) -> Seq<EncListEntry> {
        self.enclist@
    }

    /// The legalization actions.
    pub closed spec fn actions(self) -> Seq<L> {
        self.legalize_actions@
    }

    /// The predicates of the recipes.
    pub closed spec fn recipe_preds(self) -> Seq<Option<RP>> {
        self.recipe_preds@
    }

    /// The instruction predicates.
    pub closed spec fn inst_preds(self) -> Seq<IP> {
        self.inst_preds@
    }

    /// The ISA predicates.
    pub closed spec fn isa_preds(self) -> PredicateView<'a> {
        self.isa_preds
    }

    /// The given tables if they are sound and every entry of them can be
    /// found, and `None` if not.
    pub fn new(
        level1: &'a [Level1Entry],
        level2: &'a [Level2Entry],
        enclist: &'a [EncListEntry],
        legalize_actions: &'a [L],
        recipe_preds: &'a [Option<RP>],
        inst_preds: &'a [IP],
        isa_preds: PredicateView<'a>,
    ) -> (tables: Option<Self>)
        ensures
            tables is Some <==> tables_ok(
                level1@,
                level2@,
                enclist@,
                shape_with(legalize_actions@, recipe_preds@, inst_preds@, isa_preds),
            ) && entries_reachable(level1@, level2@),
            tables matches Some(t) ==> {
                &&& t.level1() == level1@
                &&& t.level2() == level2@
                &&& t.words() == enclist@
                &&& t.actions() == legalize_actions@
                &&& t.recipe_preds() == recipe_preds@
                &&& t.inst_preds() == inst_preds@
                &&& t.isa_preds() == isa_preds
            },
    {
        let sizes = TableSizes::of(legalize_actions, recipe_preds, inst_preds, isa_preds);
        if validate_tables(level1, level2, enclist, &sizes) && check_reachable(level1, level2) {
            Some(
                SoundTables {
                    level1,
                    level2,
                    enclist,
                    legalize_actions,
                    recipe_preds,
                    inst_preds,
                    isa_preds,
                },
            )
        } else {
            None
        }
    }

    /// An iterator over the encodings that are legal for `inst`, whose
    /// controlling type is `ctrl_typevar`.
    pub fn lookup(&self, ctrl_typevar: Type, inst: &'a InstructionData, func: &'a Function) -> (encodings:
        Encodings<'a, L, RP, IP>)
        ensures
            encodings@ == (EncodingsView {
                offset: lookup(self.level1(), self.level2(), ctrl_typevar, inst.opcode).offset,
                legalize: lookup(self.level1(), self.level2(), ctrl_typevar, inst.opcode).legalize,
                inst,
                func,
                words: self.words(),
                actions: self.actions(),
                recipe_preds: self.recipe_preds(),
                inst_preds: self.inst_preds(),
                isa_preds: self.isa_preds(),
            }),
            encodings@.cursor_ok(),
            encodings@.legalize_ok(),
            entries_reachable(self.level1(), self.level2()),
    {
        proof {
            use_type_invariant(self);
        }
        lookup_enclist(
            ctrl_typevar,
            inst,
            func,
            self.level1,
            self.level2,
            self.enclist,
            self.legalize_actions,
            self.recipe_preds,
            self.inst_preds,
            self.isa_preds,
        )
    }
}

} // verus!
