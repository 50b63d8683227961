//! Register constraints for instruction operands.
//!
//! An encoding recipe specifies how an instruction is encoded as binary machine code, but it only
//! works if the operands and results satisfy certain constraints. Constraints on immediate
//! operands are checked by instruction predicates when the recipe is chosen.
//!
//! It is the register allocator's job to make sure that the register constraints on value operands
//! are satisfied.

use vstd::prelude::*;
use vstd::arithmetic::power2::{pow2, lemma2_to64, lemma_pow2_strictly_increases};
use vstd::bits::lemma_u64_shl_is_mul;
use crate::encoding::Encoding;

verus! {

/// An offset into the code of a function, in bytes.
pub type CodeOffset = u32;

/// The number of a register unit of the target.
pub type RegUnit = u16;

/// The number of a register class of the target.
#[derive(Clone, Copy, Debug, PartialEq, Eq, Structural)]
pub struct RegClass(pub u8);

/// The different kinds of operand constraints.
#[derive(Clone, Copy, Debug, PartialEq, Eq, Structural)]
pub enum ConstraintKind {
    /// This operand or result must be a register from the given register class.
    Reg,
    /// This operand or result must be a fixed register.
    ///
    /// The constraint's `regclass` field is the top-level register class containing the fixed
    /// register.
    FixedReg(RegUnit),
    /// This result value must use the same register as an input value operand.
    ///
    /// The associated number is the index of the input value operand this result is tied to.
    ///
    /// When an (in, out) operand pair is tied, this constraint kind appears in both the `ins` and
    /// the `outs` arrays. The constraint for the in operand is `Tied(out)`, and the constraint for
    /// the out operand is `Tied(in)`.
    Tied(u8),
    /// This operand must be a value in a stack slot.
    ///
    /// The constraint's `regclass` field is the register class that would normally be used to load
    /// and store values of this type.
    Stack,
}

/// Register constraint for a single value operand or instruction result.
#[derive(Clone, Copy, Debug)]
pub struct OperandConstraint {
    /// The kind of constraint.
    pub kind: ConstraintKind,
    /// The register class of the operand.
    ///
    /// This applies to all kinds of constraints, but with slightly different meaning.
    pub regclass: RegClass,
}

/// Some constraint of `ops` asks for a fixed register.
pub open spec fn any_fixed(ops: Seq<OperandConstraint>) -> bool {
    exists|i: int| 0 <= i < ops.len() && (#[trigger] ops[i]).kind is FixedReg
}

/// Some constraint of `ops` is tied to an operand of the other side.
pub open spec fn any_tied(ops: Seq<OperandConstraint>) -> bool {
    exists|i: int| 0 <= i < ops.len() && (#[trigger] ops[i]).kind is Tied
}

/// Every tie in `from` points at an operand of `to` that is tied back to it.
pub open spec fn ties_answered(from: Seq<OperandConstraint>, to: Seq<OperandConstraint>) -> bool {
    forall|i: int|
        0 <= i < from.len() ==> ((#[trigger] from[i]).kind matches ConstraintKind::Tied(peer) ==> {
            &&& peer < to.len()
            &&& to[peer as int].kind matches ConstraintKind::Tied(back)
            &&& back == i
        })
}

/// Value operand constraints for an encoding recipe.
#[derive(Clone, Debug)]
pub struct RecipeConstraints {
    /// Constraints for the instruction's fixed value operands.
    ///
    /// If the instruction takes a variable number of operands, the register constraints for those
    /// operands must be computed dynamically.
    pub ins: &'static [OperandConstraint],
    /// Constraints for the instruction's fixed results.
    ///
    /// If the instruction produces a variable number of results, it's probably a call and the
    /// constraints must be derived from the calling convention ABI.
    pub outs: &'static [OperandConstraint],
    /// Are any of the input constraints `FixedReg`?
    pub fixed_ins: bool,
    /// Are any of the output constraints `FixedReg`?
    pub fixed_outs: bool,
    /// Are there any tied operands?
    pub tied_ops: bool,
}

impl RecipeConstraints {
    /// The three flags say what the two arrays hold.
    pub open spec fn flags_ok(self) -> bool {
        &&& self.fixed_ins == any_fixed(self.ins@)
        &&& self.fixed_outs == any_fixed(self.outs@)
        &&& self.tied_ops == (any_tied(self.ins@) || any_tied(self.outs@))
    }

    /// Tied operands come in pairs: a tied result names an input that is
    /// tied to that result, and a tied input names a result that is tied to
    /// that input.
    pub open spec fn ties_ok(self) -> bool {
        &&& ties_answered(self.outs@, self.ins@)
        &&& ties_answered(self.ins@, self.outs@)
    }

    /// The constraints are consistent.
    pub open spec fn wf(self) -> bool {
        self.flags_ok() && self.ties_ok()
    }

    /// The constraints of a recipe with operands `ins` and results `outs`,
    /// with the flags that go with them.
    pub fn new(ins: &'static [OperandConstraint], outs: &'static [OperandConstraint]) -> (rc: Self)
        ensures
            rc.ins@ == ins@,
            rc.outs@ == outs@,
            rc.flags_ok(),
    {
        let fixed_ins = has_fixed(ins);
        let fixed_outs = has_fixed(outs);
        let tied_ops = has_tied(ins) || has_tied(outs);
        RecipeConstraints { ins, outs, fixed_ins, fixed_outs, tied_ops }
    }

    /// Whether the constraints are consistent: the flags say what the arrays
    /// hold, and tied operands come in pairs.
    pub fn is_consistent(&self) -> (ok: bool)
        ensures
            ok == self.wf(),
    {
        self.fixed_ins == has_fixed(self.ins) && self.fixed_outs == has_fixed(self.outs)
            && self.tied_ops == (has_tied(self.ins) || has_tied(self.outs)) && ties_paired(
            self.outs,
            self.ins,
        ) && ties_paired(self.ins, self.outs)
    }
}

/// Whether some constraint of `ops` asks for a fixed register.
fn has_fixed(ops: &[OperandConstraint]) -> (found: bool)
    ensures
        found == any_fixed(ops@),
{
    let mut i: usize = 0;
    while i < ops.len()
        invariant
            i <= ops@.len(),
            forall|k: int| 0 <= k < i ==> !((#[trigger] ops@[k]).kind is FixedReg),
        decreases ops@.len() - i,
    {
        match ops[i].kind {
            ConstraintKind::FixedReg(_) => {
                return true;
            },
            _ => {},
        }
        i += 1;
    }
    false
}

/// Whether some constraint of `ops` is tied.
fn has_tied(ops: &[OperandConstraint]) -> (found: bool)
    ensures
        found == any_tied(ops@),
{
    let mut i: usize = 0;
    while i < ops.len()
        invariant
            i <= ops@.len(),
            forall|k: int| 0 <= k < i ==> !((#[trigger] ops@[k]).kind is Tied),
        decreases ops@.len() - i,
    {
        match ops[i].kind {
            ConstraintKind::Tied(_) => {
                return true;
            },
            _ => {},
        }
        i += 1;
    }
    false
}

/// Whether every tie in `from` points at an operand of `to` that is tied
/// back to it.
fn ties_paired(from: &[OperandConstraint], to: &[OperandConstraint]) -> (ok: bool)
    ensures
        ok == ties_answered(from@, to@),
{
    let mut i: usize = 0;
    while i < from.len()
        invariant
            i <= from@.len(),
            forall|k: int|
                0 <= k < i ==> ((#[trigger] from@[k]).kind matches ConstraintKind::Tied(peer) ==> {
                    &&& peer < to@.len()
                    &&& to@[peer as int].kind matches ConstraintKind::Tied(back)
                    &&& back == k
                }),
        decreases from@.len() - i,
    {
        match from[i].kind {
            ConstraintKind::Tied(peer) => {
                if peer as usize >= to.len() {
                    return false;
                }
                match to[peer as usize].kind {
                    ConstraintKind::Tied(back) => {
                        if back as usize != i {
                            return false;
                        }
                    },
                    _ => {
                        return false;
                    },
                }
            },
            _ => {},
        }
        i += 1;
    }
    true
}

/// The constraints of every recipe of the table are consistent.
pub open spec fn recipes_consistent(recipes: Seq<RecipeConstraints>) -> bool {
    forall|r: int| 0 <= r < recipes.len() ==> (#[trigger] recipes[r]).wf()
}

/// Whether the constraints of every recipe of the table are consistent.
pub fn all_consistent(recipes: &[RecipeConstraints]) -> (ok: bool)
    ensures
        ok == recipes_consistent(recipes@),
{
    let mut r: usize = 0;
    while r < recipes.len()
        invariant
            r <= recipes@.len(),
            forall|k: int| 0 <= k < r ==> (#[trigger] recipes@[k]).wf(),
        decreases recipes@.len() - r,
    {
        if !recipes[r].is_consistent() {
            return false;
        }
        r += 1;
    }
    true
}

/// The constraints that go with the recipe of `encoding`, in the table that
/// holds those of every recipe; `None` if the table has no such recipe.
pub fn operand_constraints<'a>(recipes: &'a [RecipeConstraints], encoding: Encoding) -> (found:
    Option<&'a RecipeConstraints>)
    ensures
        match found {
            Some(rc) => encoding.recipe < recipes@.len() && *rc == recipes@[encoding.recipe as int],
            None => encoding.recipe >= recipes@.len(),
        },
        recipes_consistent(recipes@) ==> (found matches Some(rc) ==> rc.wf()),
{
    let recipe: usize = encoding.recipe();
    if recipe < recipes.len() {
        Some(&recipes[recipe])
    } else {
        None
    }
}

/// In a table of consistent constraints, for every recipe: a result that is
/// tied to input `j` finds input `j` tied to that result, and each flag is
/// set just when the array it speaks of holds such a constraint.
pub proof fn lemma_every_recipe_is_consistent(
    recipes: Seq<RecipeConstraints>,
    r: int,
    i: int,
    j: u8,
)
    requires
        recipes_consistent(recipes),
        0 <= r < recipes.len(),
    ensures
        0 <= i < recipes[r].outs@.len() && recipes[r].outs@[i].kind == ConstraintKind::Tied(j) ==> j
            < recipes[r].ins@.len() && recipes[r].ins@[j as int].kind == ConstraintKind::Tied(
            i as u8,
        ),
        recipes[r].fixed_ins == any_fixed(recipes[r].ins@),
        recipes[r].fixed_outs == any_fixed(recipes[r].outs@),
        recipes[r].tied_ops == (any_tied(recipes[r].ins@) || any_tied(recipes[r].outs@)),
{
    if 0 <= i < recipes[r].outs@.len() && recipes[r].outs@[i].kind == ConstraintKind::Tied(j) {
        lemma_tied_result_has_tied_input(recipes[r], i, j);
    }
}

/// In consistent constraints, a result that is tied to input `j` finds input
/// `j` tied to that result.
pub proof fn lemma_tied_result_has_tied_input(rc: RecipeConstraints, i: int, j: u8)
    requires
        rc.wf(),
        0 <= i < rc.outs@.len(),
        rc.outs@[i].kind == ConstraintKind::Tied(j),
    ensures
        j < rc.ins@.len(),
        i <= u8::MAX,
        rc.ins@[j as int].kind == ConstraintKind::Tied(i as u8),
{
}

/// In consistent constraints, `fixed_ins` is set just when an input asks for
/// a fixed register, `fixed_outs` just when a result does, and `tied_ops`
/// just when an input or a result is tied.
pub proof fn lemma_flags_say_what_arrays_hold(rc: RecipeConstraints)
    requires
        rc.wf(),
    ensures
        rc.fixed_ins <==> exists|i: int| 0 <= i < rc.ins@.len() && (#[trigger] rc.ins@[i]).kind is FixedReg,
        rc.fixed_outs <==> exists|i: int|
            0 <= i < rc.outs@.len() && (#[trigger] rc.outs@[i]).kind is FixedReg,
        rc.tied_ops <==> (exists|i: int| 0 <= i < rc.ins@.len() && (#[trigger] rc.ins@[i]).kind is Tied)
            || (exists|i: int| 0 <= i < rc.outs@.len() && (#[trigger] rc.outs@[i]).kind is Tied),
{
}

/// Constraints on the range of a branch instruction.
///
/// A branch instruction usually encodes its destination as a signed n-bit offset from an origin.
/// The origin depends on the ISA and the specific instruction:
///
/// - RISC-V and ARM Aarch64 use the address of the branch instruction, `origin = 0`.
/// - Intel uses the address of the instruction following the branch, `origin = 2` for a 2-byte
///   branch instruction.
/// - ARM's A32 encoding uses the address of the branch instruction + 8 bytes, `origin = 8`.
#[derive(Clone, Copy, Debug)]
pub struct BranchRange {
    /// Offset in bytes from the address of the branch instruction to the origin used for computing
    /// the branch displacement. This is the destination of a branch that encodes a 0 displacement.
    pub origin: u8,
    /// Number of bits in the signed byte displacement encoded in the instruction. This does not
    /// account for branches that can only target aligned addresses.
    pub bits: u8,
}

/// The 32-bit two's complement number with the bits of `n`.
pub open spec fn signed32(n: int) -> int {
    if n % 0x1_0000_0000 < 0x8000_0000 {
        n % 0x1_0000_0000
    } else {
        n % 0x1_0000_0000 - 0x1_0000_0000
    }
}

/// The code offset `k` bytes after `offset`, wrapping around at 32 bits.
pub open spec fn moved(offset: CodeOffset, k: int) -> CodeOffset {
    ((offset + k) % 0x1_0000_0000) as CodeOffset
}

impl BranchRange {
    /// The displacement field has at least one bit and at most 32.
    pub open spec fn wf(self) -> bool {
        1 <= self.bits <= 32
    }

    /// The displacement that a branch at `branch` to `dest` encodes, as a
    /// signed 32-bit number.
    pub open spec fn displacement(self, branch: CodeOffset, dest: CodeOffset) -> int {
        signed32(dest - (branch + self.origin))
    }

    /// The displacement from `branch` to `dest` fits in the signed
    /// displacement field.
    pub open spec fn in_range(self, branch: CodeOffset, dest: CodeOffset) -> bool {
        -pow2((self.bits - 1) as nat) <= self.displacement(branch, dest) < pow2(
            (self.bits - 1) as nat,
        )
    }

    /// Determine if this branch range can represent the range from `branch` to `dest`, where
    /// `branch` is the code offset of the branch instruction itself and `dest` is the code offset
    /// of the destination EBB header.
    ///
    /// This method does not detect if the range is larger than 2 GB.
    pub fn contains(self, branch: CodeOffset, dest: CodeOffset) -> (r: bool)
        requires
            self.wf(),
        ensures
            r == self.in_range(branch, dest),
    {
        let w: u32 = dest.wrapping_sub(branch.wrapping_add(self.origin as u32));
        let d: i32 = w as i32;
        let s: u8 = 32 - self.bits;
        let t: i32 = d << s >> s;
        proof {
            let bits: u8 = self.bits;
            let n: u64 = (bits - 1) as u64;
            let half: u64 = 1u64 << n;
            assert(w == (dest - (branch + self.origin)) % 0x1_0000_0000);
            assert(d as int == if w < 0x8000_0000u32 {
                w as int
            } else {
                w - 0x1_0000_0000
            }) by (bit_vector)
                requires
                    d == w as i32,
            ;
            assert(d == t <==> -(half as int) <= d as int && (d as int) < half as int)
                by (bit_vector)
                requires
                    t == d << s >> s,
                    s == 32 - bits,
                    1 <= bits <= 32,
                    n == (bits - 1) as u64,
                    half == 1u64 << n,
            ;
            lemma2_to64();
            lemma_pow2_le_2_31(n as nat);
            lemma_u64_shl_is_mul(1, n);
        }
        d == t
    }
}

/// Two to a power of at most 31 is at most two to the 31st.
proof fn lemma_pow2_le_2_31(n: nat)
    requires
        n <= 31,
    ensures
        pow2(n) <= 0x8000_0000,
{
    lemma2_to64();
    if n < 31 {
        lemma_pow2_strictly_increases(n, 31);
    }
}

/// Moving the branch and its destination by the same number of bytes does
/// not change whether the branch is in range.
pub proof fn lemma_contains_moves_along(
    range: BranchRange,
    branch: CodeOffset,
    dest: CodeOffset,
    k: int,
)
    ensures
        range.displacement(moved(branch, k), moved(dest, k)) == range.displacement(branch, dest),
        range.in_range(moved(branch, k), moved(dest, k)) == range.in_range(branch, dest),
{
    let m: int = 0x1_0000_0000;
    let b: int = (branch + k) % m;
    let d: int = (dest + k) % m;
    assert(moved(branch, k) == b);
    assert(moved(dest, k) == d);
    assert((d - (b + range.origin)) % m == (dest - (branch + range.origin)) % m);
}

} // verus!
