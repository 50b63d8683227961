//! Encoding selection for a retargetable code generator.
//!
//! Given an instruction and its controlling type, the tables of a target say
//! which encoding recipes can represent the instruction, most preferred
//! first, and which legalization action applies when none can.
//!
//! - [`constant_hash`] looks a key up in an open-addressed hash table;
//!   [`triangular`] holds the arithmetic behind its probe sequence.
//! - [`enc_tables`] leads from a type and an opcode, through two levels of
//!   such tables, to the encoding list of an instruction.
//! - [`enc_lists`] says what an encoding list means, and [`encodings`] is the
//!   iterator that reads one.
//! - [`validate`] tells whether generated tables are sound, which is what the
//!   lookup takes for granted.
//! - [`constraints`] describes where the operands of a recipe must live, and
//!   which branch displacements an encoding can hold.
//! - [`ir`], [`settings`] and [`encoding`] hold the values that these work on,
//!   and [`x64`] the settings of one target.

pub mod constant_hash;
pub mod constraints;
pub mod enc_lists;
pub mod enc_tables;
pub mod encoding;
pub mod encodings;
pub mod ir;
pub mod settings;
pub mod triangular;
pub mod validate;
pub mod x64;
