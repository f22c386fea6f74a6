//! A small builder for x86-64 GAS assembly: pseudo-instructions, memory
//! operands, labels and translation units, with the emitted text specified
//! exactly.

pub mod mathop;
pub mod mem;
pub mod mov;
pub mod push;
pub mod to_string;
pub mod unit;

use vstd::prelude::*;

verus! {

/// A qword-sized reference to the given address.
pub fn qword(addr: mem::MemoryAddress) -> (r: mem::MemoryReference)
    ensures
        mem::memory_reference_view(r) == (mem::MemoryReferenceV {
            address: mem::memory_address_view(addr),
            size: mem::WordSize::qword,
        }),
{
    mem::MemoryReference { address: addr, size: mem::WordSize::qword }
}

} // verus!
