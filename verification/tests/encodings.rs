use isa_encodings::enc_tables::{lookup_enclist, Level1Entry, Level2Entry};
use isa_encodings::encodings::{Encodings, NOT_FOUND};
use isa_encodings::encoding::Encoding;
use isa_encodings::ir::{Function, InstructionData, Opcode, Type, Value};
use isa_encodings::settings::{Flags, PredicateView};
use isa_encodings::x64::X64Backend;
use isa_encodings::validate::{
    check_lists, check_reachable, is_power_of_two, validate_tables, SoundTables, TableSizes,
};

type RecipePredicate = Option<fn(PredicateView, &InstructionData) -> bool>;
type InstPredicate = fn(&Function, &InstructionData) -> bool;

fn imm_is_small(_: PredicateView, inst: &InstructionData) -> bool {
    -128 <= inst.imm && inst.imm < 128
}

fn never(_: PredicateView, _: &InstructionData) -> bool {
    false
}

fn has_args(_: &Function, inst: &InstructionData) -> bool {
    !inst.args.is_empty()
}

fn first_arg_is_wide(func: &Function, inst: &InstructionData) -> bool {
    match inst.args.first() {
        Some(arg) => func.value_types[arg.0 as usize] == Type(2),
        None => false,
    }
}

// Three recipes: the first has no predicate.
const RECIPE_PREDS: [RecipePredicate; 3] = [None, Some(imm_is_small), Some(never)];

// Predicates 0 and 1 of the code words; ISA predicates are numbered from 2.
const INST_PREDS: [InstPredicate; 2] = [has_args, first_arg_is_wide];

// ISA predicates 0 and 2 are set, predicate 1 and all others are not.
const ISA_BITS: [u8; 1] = [0b0000_0101];

const LEGALIZE_ACTIONS: [&str; 4] = ["expand", "narrow", "widen", "custom"];

const LEVEL1: [Level1Entry; 4] = [
    // Instructions that are not polymorphic: two level 2 entries from 4 on.
    Level1Entry { ty: Type(0), log2len: 1, legalize: 0, offset: 4 },
    // Type 1: four level 2 entries from 0 on.
    Level1Entry { ty: Type(1), log2len: 2, legalize: 1, offset: 0 },
    // Type 2 has a legalization code of its own and no level 2 table.
    Level1Entry { ty: Type(2), log2len: 0, legalize: 3, offset: 100 },
    // The empty entry that all other types end at.
    Level1Entry { ty: Type(0), log2len: 0xff, legalize: 2, offset: 0 },
];

const LEVEL2: [Level2Entry; 6] = [
    Level2Entry { opcode: None, offset: 0 },
    Level2Entry { opcode: Some(Opcode(1)), offset: 0 },
    // Opcode 5 hashes to slot 1 as well and sits one probe further.
    Level2Entry { opcode: Some(Opcode(5)), offset: 8 },
    Level2Entry { opcode: None, offset: 0 },
    Level2Entry { opcode: Some(Opcode(2)), offset: 12 },
    Level2Entry { opcode: None, offset: 0 },
];

const ENCLIST: [u16; 14] = [
    // The list of opcode 1 with type 1.
    0x3002, // 0: skip 2 words unless ISA predicate 0 holds (it does)
    0x0000, // 1: recipe 0
    0x0011, // 2:   with these bits
    0x3003, // 3: skip 2 words unless ISA predicate 1 holds (it does not)
    0x0002, // 4: recipe 1
    0x0022, // 5:   with these bits
    0x0003, // 6: recipe 1, the last of the list
    0x0033, // 7:   with these bits
    // The list of opcode 5 with type 1.
    0x1000, // 8: stop unless instruction predicate 0 holds
    0x0004, // 9: recipe 2
    0x0044, // 10:  with these bits
    0x0008, // 11: stop, and legalize with action 2
    // The list of opcode 2, not polymorphic.
    0x0001, // 12: recipe 0, the last of the list
    0x0055, // 13:  with these bits
];

fn inst(opcode: u16, args: Vec<Value>, imm: i64) -> InstructionData {
    InstructionData { opcode: Opcode(opcode), args, imm }
}

fn func() -> Function {
    Function { value_types: vec![Type(1), Type(2)] }
}

fn sizes() -> TableSizes {
    TableSizes::of(&LEGALIZE_ACTIONS, &RECIPE_PREDS, &INST_PREDS, PredicateView::new(&ISA_BITS))
}

/// Looks `inst` up with controlling type `ty` and reads the iterator to its
/// end with `next`: the encodings and the legalization action.
fn select(ty: Type, inst: &InstructionData) -> (Vec<Encoding>, &'static str) {
    let func = func();
    let mut encodings = lookup_enclist(
        ty,
        inst,
        &func,
        &LEVEL1,
        &LEVEL2,
        &ENCLIST,
        &LEGALIZE_ACTIONS,
        &RECIPE_PREDS,
        &INST_PREDS,
        PredicateView::new(&ISA_BITS),
    );
    let mut found = Vec::new();
    while let Some(encoding) = encodings.next() {
        found.push(encoding);
    }
    // Exhausted is exhausted.
    assert_eq!(encodings.next(), None);
    (found, encodings.legalize())
}

/// Reads the list at `offset` of `words` to its end.
fn read(words: &[u16], offset: usize, legalize: u8, inst: &InstructionData) -> (Vec<Encoding>, &'static str) {
    let func = func();
    let mut encodings = Encodings::new(
        offset,
        legalize,
        inst,
        &func,
        words,
        &LEGALIZE_ACTIONS,
        &RECIPE_PREDS,
        &INST_PREDS,
        PredicateView::new(&ISA_BITS),
    );
    let found = encodings.collect();
    (found, encodings.legalize())
}

#[test]
fn the_tables_are_sound() {
    assert!(validate_tables(&LEVEL1, &LEVEL2, &ENCLIST, &sizes()));
}

#[test]
fn sizes_are_those_of_the_tables() {
    let sizes = sizes();
    assert_eq!(sizes.recipes, 3);
    assert_eq!(sizes.inst_preds, 2);
    assert_eq!(sizes.isa_bytes, 1);
    assert_eq!(sizes.legalize_actions, 4);
}

#[test]
fn encodings_come_in_table_order() {
    let (found, legalize) = select(Type(1), &inst(1, vec![], 5));
    assert_eq!(found, vec![Encoding::new(0, 0x11), Encoding::new(1, 0x33)]);
    assert_eq!(legalize, "narrow");
}

#[test]
fn recipe_whose_predicate_fails_is_left_out() {
    let (found, legalize) = select(Type(1), &inst(1, vec![], 1000));
    assert_eq!(found, vec![Encoding::new(0, 0x11)]);
    assert_eq!(legalize, "narrow");
}

#[test]
fn unknown_type_has_no_encodings() {
    // Type 5 hashes to slot 1 and probes slots 1, 2, 0 and 3, which is empty.
    let (found, legalize) = select(Type(5), &inst(1, vec![], 5));
    assert_eq!(found, vec![]);
    assert_eq!(legalize, "widen");
    // So does every other type without an entry, whatever the opcode.
    for ty in 3..=255u8 {
        for opcode in [0u16, 1, 2, 5, 77] {
            assert_eq!(select(Type(ty), &inst(opcode, vec![], 5)), (vec![], "widen"));
        }
    }
}

#[test]
fn type_without_level2_table_has_no_encodings() {
    for opcode in [0u16, 1, 2, 5, 77, 0xffff] {
        let (found, legalize) = select(Type(2), &inst(opcode, vec![], 5));
        assert_eq!(found, vec![]);
        assert_eq!(legalize, "custom");
    }
}

#[test]
fn unknown_opcode_has_no_encodings() {
    let (found, legalize) = select(Type(1), &inst(3, vec![], 5));
    assert_eq!(found, vec![]);
    assert_eq!(legalize, "narrow");
    // Opcode 9 hashes to slot 1, probes slot 2 and ends at the empty slot 0.
    let (found, legalize) = select(Type(1), &inst(9, vec![], 5));
    assert_eq!(found, vec![]);
    assert_eq!(legalize, "narrow");
}

#[test]
fn colliding_opcode_is_found_by_probing() {
    // With an argument the list of opcode 5 runs into its legalization word.
    let (found, legalize) = select(Type(1), &inst(5, vec![Value(0)], 5));
    assert_eq!(found, vec![]);
    assert_eq!(legalize, "widen");
}

#[test]
fn failed_check_without_skip_stops_with_the_default_action() {
    // Without an argument instruction predicate 0 fails, and the skip is 0.
    let (found, legalize) = select(Type(1), &inst(5, vec![], 5));
    assert_eq!(found, vec![]);
    assert_eq!(legalize, "narrow");
}

#[test]
fn non_polymorphic_instruction_uses_the_invalid_type() {
    let (found, legalize) = select(Type::invalid(), &inst(2, vec![], 0));
    assert_eq!(found, vec![Encoding::new(0, 0x55)]);
    assert_eq!(legalize, "expand");
    let (found, legalize) = select(Type::invalid(), &inst(1, vec![], 0));
    assert_eq!(found, vec![]);
    assert_eq!(legalize, "expand");
}

#[test]
fn decoding_twice_gives_the_same_encodings() {
    for offset in [0usize, 8, 12, NOT_FOUND] {
        for imm in [5i64, 1000] {
            let inst = inst(1, vec![Value(1)], imm);
            assert_eq!(read(&ENCLIST, offset, 1, &inst), read(&ENCLIST, offset, 1, &inst));
        }
    }
    let inst = inst(1, vec![], 5);
    assert_eq!(select(Type(1), &inst), select(Type(1), &inst));
}

#[test]
fn collect_and_next_agree() {
    let inst = inst(1, vec![], 5);
    assert_eq!(read(&ENCLIST, 0, 1, &inst), select(Type(1), &inst));
}

#[test]
fn not_found_offset_yields_nothing() {
    let inst = inst(1, vec![], 5);
    assert_eq!(read(&ENCLIST, NOT_FOUND, 3, &inst), (vec![], "custom"));
    assert_eq!(read(&[], NOT_FOUND, 0, &inst), (vec![], "expand"));
}

#[test]
fn failed_check_skips_exactly_its_words() {
    // The check at offset 3 fails and skips 2 words: whatever stands at
    // offsets 4 and 5 is not looked at.
    let inst = inst(1, vec![], 5);
    let expected = (vec![Encoding::new(1, 0x33)], "narrow");
    assert_eq!(read(&ENCLIST, 3, 1, &inst), expected);
    assert_eq!(read(&ENCLIST, 3, 1, &inst), read(&ENCLIST, 6, 1, &inst));
    for junk in [0x0000u16, 0x0001, 0x0008, 0x1000, 0xffff] {
        let mut words = ENCLIST;
        words[4] = junk;
        words[5] = junk;
        assert_eq!(read(&words, 3, 1, &inst), expected);
    }
    // The word right behind the skipped ones is looked at.
    let mut words = ENCLIST;
    words[6] = 0x0001;
    assert_eq!(read(&words, 3, 1, &inst), (vec![Encoding::new(0, 0x33)], "narrow"));
}

#[test]
fn check_that_holds_goes_on_with_the_next_word() {
    // The check at offset 0 holds: the recipe behind it is read.
    let inst = inst(1, vec![], 1000);
    assert_eq!(read(&ENCLIST, 0, 1, &inst), (vec![Encoding::new(0, 0x11)], "narrow"));
    // Were it to fail, the two words behind it would be skipped.
    let mut words = ENCLIST;
    words[0] = 0x3003;
    assert_eq!(read(&words, 0, 1, &inst), (vec![], "narrow"));
}

#[test]
fn last_recipe_ends_the_list() {
    // Offset 6 holds recipe 1 with the last bit; what follows is another list.
    let small = inst(1, vec![Value(0)], 5);
    let large = inst(1, vec![Value(0)], 1000);
    assert_eq!(read(&ENCLIST, 6, 0, &small), (vec![Encoding::new(1, 0x33)], "expand"));
    assert_eq!(read(&ENCLIST, 6, 0, &large), (vec![], "expand"));
    // Without the last bit the list would run on into the next one.
    let mut words = ENCLIST;
    words[6] = 0x0002;
    assert_eq!(read(&words, 6, 0, &large), (vec![], "widen"));
}

#[test]
fn legalize_word_overrides_the_default() {
    let inst = inst(5, vec![Value(0)], 0);
    // Code word 6 + n names action n.
    for (word, action) in [(6u16, "expand"), (7, "narrow"), (8, "widen"), (9, "custom")] {
        let words = [word];
        assert_eq!(read(&words, 0, 3, &inst), (vec![], action));
    }
}

#[test]
fn instruction_predicates_see_the_function() {
    // Predicate 1 asks for the type of the first argument.
    let words: [u16; 3] = [0x1001, 0x0001, 0x0066];
    let wide = inst(1, vec![Value(1)], 0);
    let narrow = inst(1, vec![Value(0)], 0);
    assert_eq!(read(&words, 0, 0, &wide), (vec![Encoding::new(0, 0x66)], "expand"));
    assert_eq!(read(&words, 0, 0, &narrow), (vec![], "expand"));
}

#[test]
fn isa_predicates_are_numbered_after_instruction_predicates() {
    let inst = inst(1, vec![], 0);
    // Code word predicates 2, 3, 4 are ISA predicates 0, 1, 2.
    for (pred, holds) in [(2u16, true), (3, false), (4, true), (5, false), (9, false)] {
        let words: [u16; 3] = [0x1000 + pred, 0x0001, 0x0077];
        let expected = if holds { vec![Encoding::new(0, 0x77)] } else { vec![] };
        assert_eq!(read(&words, 0, 0, &inst), (expected, "expand"));
    }
}

#[test]
fn next_stops_after_each_encoding() {
    let inst = inst(1, vec![], 5);
    let func = func();
    let mut encodings = lookup_enclist(
        Type(1),
        &inst,
        &func,
        &LEVEL1,
        &LEVEL2,
        &ENCLIST,
        &LEGALIZE_ACTIONS,
        &RECIPE_PREDS,
        &INST_PREDS,
        PredicateView::new(&ISA_BITS),
    );
    let first = encodings.next();
    assert_eq!(first, Some(Encoding::new(0, 0x11)));
    let first = first.unwrap();
    assert_eq!(first.recipe(), 0);
    assert_eq!(first.bits(), 0x11);
    assert_eq!(encodings.next(), Some(Encoding::new(1, 0x33)));
    assert_eq!(encodings.next(), None);
    assert_eq!(encodings.legalize(), "narrow");
}

#[test]
fn predicate_view_reads_bits_from_the_low_end() {
    let bytes: [u8; 2] = [0b1000_0001, 0b0000_0010];
    let view = PredicateView::new(&bytes);
    let set: Vec<usize> = (0..16).filter(|p| view.test(*p)).collect();
    assert_eq!(set, vec![0, 7, 9]);
}

#[test]
fn powers_of_two() {
    assert!(!is_power_of_two(0));
    for n in [1usize, 2, 4, 8, 1024, 1 << 31] {
        assert!(is_power_of_two(n));
    }
    for n in [3usize, 5, 6, 7, 12, 1023, 1025, usize::MAX] {
        assert!(!is_power_of_two(n));
    }
}

#[test]
fn check_lists_tells_sound_offsets() {
    let ok = check_lists(&ENCLIST, &sizes());
    // Offset 13 holds bits that read as recipe 42, which does not exist, and
    // as no legalization action either; offset 7 reads as a legalize word
    // for an action that does not exist; offset 2 and 5 likewise. Offset 10
    // reads as a legalize word too.
    let expected = [
        true, true, false, true, true, false, true, false, true, true, false, true, true, false,
    ];
    assert_eq!(ok, expected.to_vec());
}

#[test]
fn broken_level1_tables_are_refused() {
    let sizes = sizes();
    // Not a power of two.
    assert!(!validate_tables(&LEVEL1[..3], &LEVEL2, &ENCLIST, &sizes));
    assert!(!validate_tables(&[], &LEVEL2, &ENCLIST, &sizes));
    // No empty entry to miss on.
    let mut level1 = LEVEL1;
    level1[3].log2len = 0;
    assert!(!validate_tables(&level1, &LEVEL2, &ENCLIST, &sizes));
    // A legalization code that names no action.
    let mut level1 = LEVEL1;
    level1[3].legalize = 4;
    assert!(!validate_tables(&level1, &LEVEL2, &ENCLIST, &sizes));
    // A level 2 table without an empty entry.
    let mut level1 = LEVEL1;
    level1[1].log2len = 0;
    level1[1].offset = 1;
    assert!(!validate_tables(&level1, &LEVEL2, &ENCLIST, &sizes));
}

#[test]
fn broken_level2_tables_are_refused() {
    let sizes = sizes();
    // An entry that leads past the end of the code words.
    let mut level2 = LEVEL2;
    level2[1].offset = 14;
    assert!(!validate_tables(&LEVEL1, &level2, &ENCLIST, &sizes));
    // An entry that leads into the middle of a list, at a word of bits.
    let mut level2 = LEVEL2;
    level2[1].offset = 2;
    assert!(!validate_tables(&LEVEL1, &level2, &ENCLIST, &sizes));
    // An empty entry may hold any offset.
    let mut level2 = LEVEL2;
    level2[0].offset = 9999;
    assert!(validate_tables(&LEVEL1, &level2, &ENCLIST, &sizes));
}

#[test]
fn broken_lists_are_refused() {
    let sizes = sizes();
    // A recipe without bits behind it.
    assert!(!validate_tables(&LEVEL1, &LEVEL2, &ENCLIST[..13], &sizes));
    // A list that runs off the end without a last recipe.
    let mut words = ENCLIST;
    words[12] = 0x0000;
    assert!(!validate_tables(&LEVEL1, &LEVEL2, &words, &sizes));
    // A legalization action that does not exist.
    let mut words = ENCLIST;
    words[11] = 6 + 4;
    assert!(!validate_tables(&LEVEL1, &LEVEL2, &words, &sizes));
    // A predicate that does not exist: 2 instruction and 8 ISA predicates.
    let mut words = ENCLIST;
    words[8] = 0x1000 + 10;
    assert!(!validate_tables(&LEVEL1, &LEVEL2, &words, &sizes));
    let mut words = ENCLIST;
    words[8] = 0x1000 + 9;
    assert!(validate_tables(&LEVEL1, &LEVEL2, &words, &sizes));
    // A skip that leads past the end.
    let mut words = ENCLIST;
    words[8] = 0x7000;
    assert!(!validate_tables(&LEVEL1, &LEVEL2, &words, &sizes));
}

#[test]
fn sound_tables_are_accepted_and_looked_up() {
    let tables = SoundTables::new(
        &LEVEL1,
        &LEVEL2,
        &ENCLIST,
        &LEGALIZE_ACTIONS,
        &RECIPE_PREDS,
        &INST_PREDS,
        PredicateView::new(&ISA_BITS),
    );
    let tables = match tables {
        Some(tables) => tables,
        None => panic!("the tables are sound"),
    };
    let func = func();
    for (ty, opcode, imm) in [(1u8, 1u16, 5i64), (1, 1, 1000), (1, 5, 0), (0, 2, 0), (2, 1, 0), (9, 1, 0)] {
        let inst = inst(opcode, vec![], imm);
        let mut encodings = tables.lookup(Type(ty), &inst, &func);
        let found = encodings.collect();
        assert_eq!((found, encodings.legalize()), select(Type(ty), &inst));
    }
}

#[test]
fn unsound_tables_are_refused() {
    // The ISA predicates are part of the tables: with no ISA predicate at
    // all, the checks of ISA predicates in the lists refer to nothing.
    let none: [u8; 0] = [];
    assert!(SoundTables::new(
        &LEVEL1,
        &LEVEL2,
        &ENCLIST,
        &LEGALIZE_ACTIONS,
        &RECIPE_PREDS,
        &INST_PREDS,
        PredicateView::new(&none),
    )
    .is_none());
    // Without recipes, the word for recipe 2 names legalization action 4.
    assert!(SoundTables::new(
        &LEVEL1,
        &LEVEL2,
        &ENCLIST,
        &LEGALIZE_ACTIONS,
        &RECIPE_PREDS[..0],
        &INST_PREDS,
        PredicateView::new(&ISA_BITS),
    )
    .is_none());
    // An entry that sits where its key is not looked for cannot be found.
    let mut level2 = LEVEL2;
    level2[3] = level2[1];
    level2[1] = Level2Entry { opcode: None, offset: 0 };
    assert!(validate_tables(&LEVEL1, &level2, &ENCLIST, &sizes()));
    assert!(!check_reachable(&LEVEL1, &level2));
    assert!(check_reachable(&LEVEL1, &LEVEL2));
    assert!(!check_reachable(&LEVEL1[..3], &LEVEL2));
    assert!(!check_reachable(&[], &LEVEL2));
    assert!(SoundTables::new(
        &LEVEL1,
        &level2,
        &ENCLIST,
        &LEGALIZE_ACTIONS,
        &RECIPE_PREDS,
        &INST_PREDS,
        PredicateView::new(&ISA_BITS),
    )
    .is_none());
    // So it is with a type that is entered twice.
    let mut level1 = LEVEL1;
    level1[3] = level1[1];
    level1[1] = Level1Entry { ty: Type(0), log2len: 0xff, legalize: 2, offset: 0 };
    assert!(!check_reachable(&level1, &LEVEL2));
    let mut level1 = LEVEL1;
    level1[3] = level1[1];
    assert!(!check_reachable(&level1, &LEVEL2));
    // With one action less, a legalization code names no action.
    assert!(SoundTables::new(
        &LEVEL1,
        &LEVEL2,
        &ENCLIST,
        &LEGALIZE_ACTIONS[..3],
        &RECIPE_PREDS,
        &INST_PREDS,
        PredicateView::new(&ISA_BITS),
    )
    .is_none());
}

#[test]
fn iterator_is_exhausted_after_the_last_recipe() {
    // The list of opcode 1 ends with a recipe that has the last bit: once it
    // has been yielded, the action can be asked without one more call.
    let inst = inst(1, vec![], 5);
    let func = func();
    let mut encodings = lookup_enclist(
        Type(1),
        &inst,
        &func,
        &LEVEL1,
        &LEVEL2,
        &ENCLIST,
        &LEGALIZE_ACTIONS,
        &RECIPE_PREDS,
        &INST_PREDS,
        PredicateView::new(&ISA_BITS),
    );
    assert!(!encodings.is_exhausted());
    assert_eq!(encodings.next(), Some(Encoding::new(0, 0x11)));
    assert!(!encodings.is_exhausted());
    assert_eq!(encodings.next(), Some(Encoding::new(1, 0x33)));
    assert!(encodings.is_exhausted());
    assert_eq!(encodings.legalize(), "narrow");
    assert_eq!(encodings.next(), None);
    assert!(encodings.is_exhausted());
    assert_eq!(encodings.legalize(), "narrow");
}

#[test]
fn lookup_that_finds_nothing_is_exhausted_at_once() {
    let inst = inst(1, vec![], 5);
    let func = func();
    for ty in [2u8, 5] {
        let encodings = lookup_enclist(
            Type(ty),
            &inst,
            &func,
            &LEVEL1,
            &LEVEL2,
            &ENCLIST,
            &LEGALIZE_ACTIONS,
            &RECIPE_PREDS,
            &INST_PREDS,
            PredicateView::new(&ISA_BITS),
        );
        assert!(encodings.is_exhausted());
        assert_eq!(encodings.legalize(), if ty == 2 { "custom" } else { "widen" });
    }
}

#[test]
fn exhausted_iterator_stays_exhausted() {
    let inst = inst(1, vec![], 5);
    let func = func();
    let mut encodings = Encodings::new(
        NOT_FOUND,
        3,
        &inst,
        &func,
        &ENCLIST,
        &LEGALIZE_ACTIONS,
        &RECIPE_PREDS,
        &INST_PREDS,
        PredicateView::new(&ISA_BITS),
    );
    for _ in 0..3 {
        assert_eq!(encodings.next(), None);
        assert!(encodings.is_exhausted());
        assert_eq!(encodings.legalize(), "custom");
    }
    assert_eq!(encodings.collect(), vec![]);
    assert_eq!(encodings.legalize(), "custom");
}

#[test]
fn iterator_rests_behind_the_word_that_yields() {
    // After the first encoding of the list of opcode 1 the iterator stands at
    // offset 3: reading on from there gives what a fresh read from 3 gives.
    let inst = inst(1, vec![], 5);
    let func = func();
    let mut encodings = Encodings::new(
        0,
        1,
        &inst,
        &func,
        &ENCLIST,
        &LEGALIZE_ACTIONS,
        &RECIPE_PREDS,
        &INST_PREDS,
        PredicateView::new(&ISA_BITS),
    );
    assert_eq!(encodings.next(), Some(Encoding::new(0, 0x11)));
    let rest = encodings.collect();
    assert_eq!((rest, encodings.legalize()), read(&ENCLIST, 3, 1, &inst));
}

#[test]
fn backend_holds_its_flags() {
    let isa = Flags::new(ISA_BITS.to_vec());
    let shared = Flags::new(vec![0xff, 0x00]);
    let backend = X64Backend::new_with_flags(isa, shared);
    assert_eq!(backend.name(), "x64");
    assert_eq!(backend.flags().bytes, vec![0xff, 0x00]);
    assert_eq!(backend.isa_flags().bytes, ISA_BITS.to_vec());
    // The flags of the target are the ISA predicates of its encoding lists.
    let view = backend.isa_flags().predicate_view();
    let set: Vec<usize> = (0..8).filter(|p| view.test(*p)).collect();
    assert_eq!(set, vec![0, 2]);
    let inst = inst(1, vec![], 5);
    let func = func();
    let mut encodings = lookup_enclist(
        Type(1),
        &inst,
        &func,
        &LEVEL1,
        &LEVEL2,
        &ENCLIST,
        &LEGALIZE_ACTIONS,
        &RECIPE_PREDS,
        &INST_PREDS,
        view,
    );
    assert_eq!(encodings.collect(), vec![Encoding::new(0, 0x11), Encoding::new(1, 0x33)]);
}
