//! The move instruction's operand forms.

use vstd::prelude::*;

use super::mem::{memory_reference_view, MemoryReference};
use super::unit::{lemma_pis_view, pi_view, pis_view, IntegerRegister, PsuedoInstruction,
    PsuedoInstructionBuilder, PsuedoInstructionV};

verus! {

/// A source operand that can be moved into a destination of type `T`.
pub trait MovableInto<T>: Sized {
    /// The move instruction as a view.
    spec fn spec_mov(self, t: T) -> PsuedoInstructionV;

    /// Builds the move instruction.
    fn mov(self, t: T) -> (r: PsuedoInstruction)
        ensures
            pi_view(r) == self.spec_mov(t),
    ;
}

impl MovableInto<MemoryReference> for IntegerRegister {
    open spec fn spec_mov(self, t: MemoryReference) -> PsuedoInstructionV {
        PsuedoInstructionV::ToMemoryMoveRegister(memory_reference_view(t), self.0@)
    }

    fn mov(self, t: MemoryReference) -> (r: PsuedoInstruction) {
        PsuedoInstruction::ToMemoryMoveRegister(t, self)
    }
}

impl MovableInto<IntegerRegister> for MemoryReference {
    open spec fn spec_mov(self, t: IntegerRegister) -> PsuedoInstructionV {
        PsuedoInstructionV::ToRegisterMoveMemory(t.0@, memory_reference_view(self))
    }

    fn mov(self, t: IntegerRegister) -> (r: PsuedoInstruction) {
        PsuedoInstruction::ToRegisterMoveMemory(t, self)
    }
}

impl MovableInto<IntegerRegister> for IntegerRegister {
    open spec fn spec_mov(self, t: IntegerRegister) -> PsuedoInstructionV {
        PsuedoInstructionV::ToRegisterMoveRegister(t.0@, self.0@)
    }

    fn mov(self, t: IntegerRegister) -> (r: PsuedoInstruction) {
        PsuedoInstruction::ToRegisterMoveRegister(t, self)
    }
}

impl MovableInto<IntegerRegister> for isize {
    open spec fn spec_mov(self, t: IntegerRegister) -> PsuedoInstructionV {
        PsuedoInstructionV::ToRegisterMoveImmediate(t.0@, self as int)
    }

    fn mov(self, t: IntegerRegister) -> (r: PsuedoInstruction) {
        PsuedoInstruction::ToRegisterMoveImmediate(t, self)
    }
}

impl PsuedoInstructionBuilder {
    /// Appends a move of `src` into `dest`.
    pub fn mov<Dest, Src: MovableInto<Dest>>(&mut self, dest: Dest, src: Src)
        ensures
            pis_view(final(self).contents@) == pis_view(old(self).contents@).push(
                src.spec_mov(dest),
            ),
    {
        broadcast use lemma_pis_view;

        let ghost before = pis_view(self.contents@);
        let ghost piv = src.spec_mov(dest);
        let pi = src.mov(dest);
        self.contents.push(pi);
        proof {
            assert(pis_view(self.contents@) =~= before.push(piv));
        }
    }
}

} // verus!
