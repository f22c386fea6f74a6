//! Two-operand arithmetic forms and their GAS operand text.

use vstd::prelude::*;
use vstd::string::StringExecFns;

use super::mem::{memory_reference_view, spec_gas_reference, MemoryReference, MemoryReferenceV};
use super::unit::{IntegerRegister, PsuedoInstruction, PsuedoInstructionBuilder, PsuedoInstructionV,
    lemma_pis_view, pi_view, pis_view};
use crate::numfmt::dec_int;

verus! {

/// The operand forms of a two-operand arithmetic instruction.
#[derive(Debug)]
pub enum MathOp {
    ToRegisterXRegister(IntegerRegister, IntegerRegister),
    ToRegisterXMemory(IntegerRegister, MemoryReference),
    ToMemoryXRegister(MemoryReference, IntegerRegister),
    ToRegisterXImmediate(IntegerRegister, isize),
    ToMemoryXImmediate(MemoryReference, isize),
}

/// The mathematical view of a `MathOp`.
pub enum MathOpV {
    ToRegisterXRegister(Seq<char>, Seq<char>),
    ToRegisterXMemory(Seq<char>, MemoryReferenceV),
    ToMemoryXRegister(MemoryReferenceV, Seq<char>),
    ToRegisterXImmediate(Seq<char>, int),
    ToMemoryXImmediate(MemoryReferenceV, int),
}

pub open spec fn math_op_view(op: MathOp) -> MathOpV {
    match op {
        MathOp::ToRegisterXRegister(a, b) => MathOpV::ToRegisterXRegister(a.0@, b.0@),
        MathOp::ToRegisterXMemory(a, m) => MathOpV::ToRegisterXMemory(a.0@, memory_reference_view(m)),
        MathOp::ToMemoryXRegister(m, a) => MathOpV::ToMemoryXRegister(memory_reference_view(m), a.0@),
        MathOp::ToRegisterXImmediate(a, i) => MathOpV::ToRegisterXImmediate(a.0@, i as int),
        MathOp::ToMemoryXImmediate(m, i) => MathOpV::ToMemoryXImmediate(
            memory_reference_view(m),
            i as int,
        ),
    }
}

/// The GAS operand text of each form: destination, a comma and a space,
/// source.
pub open spec fn spec_gas_math_op(op: MathOpV) -> Seq<char> {
    match op {
        MathOpV::ToMemoryXImmediate(m, i) => spec_gas_reference(m) + seq![',', ' '] + dec_int(i),
        MathOpV::ToMemoryXRegister(m, r) => spec_gas_reference(m) + seq![',', ' '] + r,
        MathOpV::ToRegisterXImmediate(r, i) => r + seq![',', ' '] + dec_int(i),
        MathOpV::ToRegisterXMemory(r, m) => r + seq![',', ' '] + spec_gas_reference(m),
        MathOpV::ToRegisterXRegister(a, b) => a + seq![',', ' '] + b,
    }
}

impl MathOp {
    /// Writes the operand pair as GAS text.
    pub fn to_gas_string(&self) -> (r: String)
        ensures
            r@ == spec_gas_math_op(math_op_view(*self)),
    {
        let mut out = String::new();
        match self {
            MathOp::ToMemoryXImmediate(mem, imm) => {
                let m = mem.to_gas_string();
                out.append(m.as_str());
                out.append(", ");
                let i = crate::numfmt::isize_to_string(*imm);
                out.append(i.as_str());
            },
            MathOp::ToMemoryXRegister(mem, reg) => {
                let m = mem.to_gas_string();
                out.append(m.as_str());
                out.append(", ");
                out.append(reg.0);
            },
            MathOp::ToRegisterXImmediate(reg, imm) => {
                out.append(reg.0);
                out.append(", ");
                let i = crate::numfmt::isize_to_string(*imm);
                out.append(i.as_str());
            },
            MathOp::ToRegisterXMemory(reg, mem) => {
                out.append(reg.0);
                out.append(", ");
                let m = mem.to_gas_string();
                out.append(m.as_str());
            },
            MathOp::ToRegisterXRegister(left, right) => {
                out.append(left.0);
                out.append(", ");
                out.append(right.0);
            },
        }
        proof {
            reveal_strlit(", ");
            assert(", "@ =~= seq![',', ' ']);
            assert(out@ =~= spec_gas_math_op(math_op_view(*self)));
        }
        out
    }
}

/// The operand pair an arithmetic instruction takes, by destination and
/// source kind.
pub trait MathOpableBy<T>: Sized {
    /// The operand pair as a view.
    spec fn spec_math_op_by(self, t: T) -> MathOpV;

    /// Builds the operand pair.
    fn math_op_by(self, t: T) -> (r: MathOp)
        ensures
            math_op_view(r) == self.spec_math_op_by(t),
    ;
}

impl MathOpableBy<isize> for IntegerRegister {
    open spec fn spec_math_op_by(self, t: isize) -> MathOpV {
        MathOpV::ToRegisterXImmediate(self.0@, t as int)
    }

    fn math_op_by(self, t: isize) -> (r: MathOp) {
        MathOp::ToRegisterXImmediate(self, t)
    }
}

impl MathOpableBy<IntegerRegister> for IntegerRegister {
    open spec fn spec_math_op_by(self, t: IntegerRegister) -> MathOpV {
        MathOpV::ToRegisterXRegister(self.0@, t.0@)
    }

    fn math_op_by(self, t: IntegerRegister) -> (r: MathOp) {
        MathOp::ToRegisterXRegister(self, t)
    }
}

impl MathOpableBy<MemoryReference> for IntegerRegister {
    open spec fn spec_math_op_by(self, t: MemoryReference) -> MathOpV {
        MathOpV::ToRegisterXMemory(self.0@, memory_reference_view(t))
    }

    fn math_op_by(self, t: MemoryReference) -> (r: MathOp) {
        MathOp::ToRegisterXMemory(self, t)
    }
}

impl MathOpableBy<IntegerRegister> for MemoryReference {
    open spec fn spec_math_op_by(self, t: IntegerRegister) -> MathOpV {
        MathOpV::ToMemoryXRegister(memory_reference_view(self), t.0@)
    }

    fn math_op_by(self, t: IntegerRegister) -> (r: MathOp) {
        MathOp::ToMemoryXRegister(self, t)
    }
}

impl MathOpableBy<isize> for MemoryReference {
    open spec fn spec_math_op_by(self, t: isize) -> MathOpV {
        MathOpV::ToMemoryXImmediate(memory_reference_view(self), t as int)
    }

    fn math_op_by(self, t: isize) -> (r: MathOp) {
        MathOp::ToMemoryXImmediate(self, t)
    }
}

impl PsuedoInstructionBuilder {
    /// Appends an add instruction.
    pub fn add<Left: MathOpableBy<Right>, Right>(&mut self, left: Left, right: Right)
        ensures
            pis_view(final(self).contents@) == pis_view(old(self).contents@).push(
                PsuedoInstructionV::Add(left.spec_math_op_by(right)),
            ),
    {
        broadcast use lemma_pis_view;

        let ghost before = pis_view(self.contents@);
        let ghost opv = left.spec_math_op_by(right);
        let op = left.math_op_by(right);
        self.contents.push(PsuedoInstruction::Add(op));
        proof {
            assert(pis_view(self.contents@) =~= before.push(PsuedoInstructionV::Add(opv)));
        }
    }

    /// Appends a subtract instruction.
    pub fn sub<Left: MathOpableBy<Right>, Right>(&mut self, left: Left, right: Right)
        ensures
            pis_view(final(self).contents@) == pis_view(old(self).contents@).push(
                PsuedoInstructionV::Sub(left.spec_math_op_by(right)),
            ),
    {
        broadcast use lemma_pis_view;

        let ghost before = pis_view(self.contents@);
        let ghost opv = left.spec_math_op_by(right);
        let op = left.math_op_by(right);
        self.contents.push(PsuedoInstruction::Sub(op));
        proof {
            assert(pis_view(self.contents@) =~= before.push(PsuedoInstructionV::Sub(opv)));
        }
    }
}

} // verus!
