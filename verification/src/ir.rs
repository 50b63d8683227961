//! The part of the intermediate representation that encoding selection reads.

use vstd::prelude::*;

verus! {

/// The type of an SSA value.
///
/// `Type(0)` is reserved: it is the controlling type of instructions that are
/// not polymorphic.
#[derive(Clone, Copy, Debug, Eq)]
pub struct Type(pub u8);

impl Type {
    /// Not a valid type; the lookup key of non-polymorphic instructions.
    pub fn invalid() -> (t: Type)
        ensures
            t == Type(0),
    {
        Type(0)
    }

    /// The number this type hashes to in tables keyed by type.
    pub fn index(self) -> (i: usize)
        ensures
            i == self.0,
    {
        self.0 as usize
    }
}

impl PartialEq for Type {
    fn eq(&self, other: &Type) -> (r: bool) {
        self.0 == other.0
    }
}

impl vstd::std_specs::cmp::PartialEqSpecImpl for Type {
    open spec fn obeys_eq_spec() -> bool {
        true
    }

    open spec fn eq_spec(&self, other: &Type) -> bool {
        self.0 == other.0
    }
}

/// An instruction mnemonic.
#[derive(Clone, Copy, Debug, Eq)]
pub struct Opcode(pub u16);

impl Opcode {
    /// The number this opcode hashes to in tables keyed by opcode.
    pub fn index(self) -> (i: usize)
        ensures
            i == self.0,
    {
        self.0 as usize
    }
}

impl PartialEq for Opcode {
    fn eq(&self, other: &Opcode) -> (r: bool) {
        self.0 == other.0
    }
}

impl vstd::std_specs::cmp::PartialEqSpecImpl for Opcode {
    open spec fn obeys_eq_spec() -> bool {
        true
    }

    open spec fn eq_spec(&self, other: &Opcode) -> bool {
        self.0 == other.0
    }
}

/// A reference to an SSA value of the function.
#[derive(Clone, Copy, Debug, PartialEq, Eq, Structural)]
pub struct Value(pub u32);

/// One instruction: its opcode and the operands that predicates inspect.
#[derive(Debug)]
pub struct InstructionData {
    pub opcode: Opcode,
    pub args: Vec<Value>,
    pub imm: i64,
}

impl InstructionData {
    /// The opcode of this instruction.
    pub fn opcode(&self) -> (op: Opcode)
        ensures
            op == self.opcode,
    {
        self.opcode
    }
}

/// The function that owns the instruction: the type of each of its values.
#[derive(Debug)]
pub struct Function {
    pub value_types: Vec<Type>,
}

} // verus!
