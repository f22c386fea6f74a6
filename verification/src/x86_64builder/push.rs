//! The stack push instruction's operand forms.

use vstd::prelude::*;

use super::mem::{memory_reference_view, MemoryReference};
use super::unit::{lemma_pis_view, pi_view, pis_view, IntegerRegister, PsuedoInstruction,
    PsuedoInstructionBuilder, PsuedoInstructionV};

verus! {

/// An operand that can be pushed on the stack.
pub trait Pushable: Sized {
    /// The push instruction as a view.
    spec fn spec_push(self) -> PsuedoInstructionV;

    /// Builds the push instruction.
    fn push(self) -> (r: PsuedoInstruction)
        ensures
            pi_view(r) == self.spec_push(),
    ;
}

impl Pushable for isize {
    open spec fn spec_push(self) -> PsuedoInstructionV {
        PsuedoInstructionV::PushImmediate(self as int)
    }

    fn push(self) -> (r: PsuedoInstruction) {
        PsuedoInstruction::PushImmediate(self)
    }
}

impl Pushable for MemoryReference {
    open spec fn spec_push(self) -> PsuedoInstructionV {
        PsuedoInstructionV::PushMemory(memory_reference_view(self))
    }

    fn push(self) -> (r: PsuedoInstruction) {
        PsuedoInstruction::PushMemory(self)
    }
}

impl Pushable for IntegerRegister {
    open spec fn spec_push(self) -> PsuedoInstructionV {
        PsuedoInstructionV::PushIntegerRegister(self.0@)
    }

    fn push(self) -> (r: PsuedoInstruction) {
        PsuedoInstruction::PushIntegerRegister(self)
    }
}

impl PsuedoInstructionBuilder {
    /// Appends a push of `src`.
    pub fn push<Src: Pushable>(&mut self, src: Src)
        ensures
            pis_view(final(self).contents@) == pis_view(old(self).contents@).push(
                src.spec_push(),
            ),
    {
        broadcast use lemma_pis_view;

        let ghost before = pis_view(self.contents@);
        let ghost piv = src.spec_push();
        let pi = src.push();
        self.contents.push(pi);
        proof {
            assert(pis_view(self.contents@) =~= before.push(piv));
        }
    }
}

} // verus!
