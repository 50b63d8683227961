use isa_encodings::constant_hash::{probe, Table};
use isa_encodings::enc_tables::{Level1Entry, Level2Entry};
use isa_encodings::ir::{Opcode, Type};

/// A table of opcodes, zero standing for an empty slot.
fn table(opcodes: &[u16]) -> Vec<Level2Entry> {
    opcodes
        .iter()
        .map(|n| Level2Entry { opcode: if *n == 0 { None } else { Some(Opcode(*n)) }, offset: 0 })
        .collect()
}

/// The outcome of looking opcode `key` up in `opcodes` from `hash`.
fn find(opcodes: &[u16], key: u16, hash: usize) -> Result<usize, usize> {
    let table = table(opcodes);
    probe(&table[..], Opcode(key), hash)
}

#[test]
fn probe_finds_key_at_its_hash() {
    let table = [0, 9, 0, 0];
    assert_eq!(find(&table, 9, 1), Ok(1));
    // Only the low bits of the hash count.
    assert_eq!(find(&table, 9, 5), Ok(1));
    assert_eq!(find(&table, 9, 0xffff_fff1), Ok(1));
}

#[test]
fn probe_misses_at_the_first_empty_slot() {
    let table = [0, 9, 0, 0];
    assert_eq!(find(&table, 7, 0), Err(0));
    assert_eq!(find(&table, 7, 2), Err(2));
    // Slot 1 holds another key; the next probe is one slot further.
    assert_eq!(find(&table, 7, 1), Err(2));
}

#[test]
fn probe_steps_by_triangular_numbers() {
    // From slot 1 the probes go to 1, 2, 4, 7, 3, 0, 6, 5.
    let table = [16, 11, 12, 15, 13, 0, 17, 14];
    assert_eq!(find(&table, 11, 1), Ok(1));
    assert_eq!(find(&table, 12, 1), Ok(2));
    assert_eq!(find(&table, 13, 1), Ok(4));
    assert_eq!(find(&table, 14, 1), Ok(7));
    assert_eq!(find(&table, 15, 1), Ok(3));
    assert_eq!(find(&table, 16, 1), Ok(0));
    assert_eq!(find(&table, 17, 1), Ok(6));
    // The one empty slot is the last that is visited.
    assert_eq!(find(&table, 99, 1), Err(5));
}

#[test]
fn probe_visits_every_slot() {
    // Whatever the hash, the one empty slot of a table is found.
    for log2len in 0..7 {
        let len: usize = 1 << log2len;
        for empty in 0..len {
            let mut slots = vec![1u16; len];
            slots[empty] = 0;
            for hash in 0..len {
                assert_eq!(find(&slots, 2, hash), Err(empty));
            }
        }
    }
}

#[test]
fn probe_finds_key_in_a_full_table() {
    let table = [4, 5, 6, 7];
    assert_eq!(find(&table, 6, 0), Ok(2));
    assert_eq!(find(&table, 4, 3), Ok(0));
}

#[test]
fn probe_in_a_table_of_one_slot() {
    assert_eq!(find(&[0], 3, 17), Err(0));
    assert_eq!(find(&[3], 3, 17), Ok(0));
}

#[test]
fn probe_stops_at_an_empty_slot_before_the_key() {
    // The key sits at the second probe, behind an empty slot; it is not found.
    let table = [0, 0, 8, 0];
    assert_eq!(find(&table, 8, 1), Err(1));
}

#[test]
fn level1_entries_are_empty_with_all_bits_of_log2len() {
    let table: [Level1Entry; 2] = [
        Level1Entry { ty: Type(3), log2len: 0, legalize: 0, offset: 0 },
        Level1Entry { ty: Type(3), log2len: 0xff, legalize: 0, offset: 0 },
    ];
    let table: &[Level1Entry] = &table;
    assert_eq!(Table::len(table), 2);
    assert_eq!(Table::key(table, 0), Some(Type(3)));
    assert_eq!(Table::key(table, 1), None);
    assert_eq!(probe(table, Type(3), Type(3).index()), Err(1));
    assert_eq!(probe(table, Type(3), 0), Ok(0));
}

#[test]
fn level2_entries_are_keyed_by_opcode() {
    let table: [Level2Entry; 2] = [
        Level2Entry { opcode: None, offset: 0 },
        Level2Entry { opcode: Some(Opcode(7)), offset: 12 },
    ];
    let table: &[Level2Entry] = &table;
    assert_eq!(Table::len(table), 2);
    assert_eq!(Table::key(table, 0), None);
    assert_eq!(Table::key(table, 1), Some(Opcode(7)));
    assert_eq!(probe(table, Opcode(7), Opcode(7).index()), Ok(1));
    assert_eq!(probe(table, Opcode(6), Opcode(6).index()), Err(0));
}

#[test]
fn type_and_opcode_hash_to_their_number() {
    assert_eq!(Type(0x78).index(), 0x78);
    assert_eq!(Type::invalid(), Type(0));
    assert_eq!(Type::invalid().index(), 0);
    assert_eq!(Opcode(300).index(), 300);
}
