//! Memory operands: a base register with an offset and an optional label.

use vstd::prelude::*;
use vstd::string::StringExecFns;

use crate::numfmt::{dec_int, isize_to_string};
use super::unit::IntegerRegister;

verus! {

/// An operand width.
#[derive(Debug, Clone, Copy, PartialEq, Eq, Structural)]
#[allow(non_camel_case_types)]
pub enum WordSize {
    qword,
    dword,
    word,
    byte,
}

/// A base register plus byte offset, optionally displaced by a label.
#[derive(Debug)]
pub struct MemoryAddress {
    pub register: IntegerRegister,
    pub offset: isize,
    pub label_offset: Option<String>,
}

/// A sized memory reference.
#[derive(Debug)]
pub struct MemoryReference {
    pub address: MemoryAddress,
    pub size: WordSize,
}

/// The mathematical view of a `MemoryAddress`.
pub struct MemoryAddressV {
    pub register: Seq<char>,
    pub offset: int,
    pub label_offset: Option<Seq<char>>,
}

/// The mathematical view of a `MemoryReference`.
pub struct MemoryReferenceV {
    pub address: MemoryAddressV,
    pub size: WordSize,
}

pub open spec fn memory_address_view(a: MemoryAddress) -> MemoryAddressV {
    MemoryAddressV {
        register: a.register.0@,
        offset: a.offset as int,
        label_offset: match a.label_offset {
            Some(l) => Some(l@),
            None => None,
        },
    }
}

pub open spec fn memory_reference_view(r: MemoryReference) -> MemoryReferenceV {
    MemoryReferenceV { address: memory_address_view(r.address), size: r.size }
}

/// The GAS keyword for each width.
pub open spec fn spec_word_size_name(w: WordSize) -> Seq<char> {
    match w {
        WordSize::qword => "qword"@,
        WordSize::dword => "dword"@,
        WordSize::word => "word"@,
        WordSize::byte => "byte"@,
    }
}

/// The GAS text of an address: the bracketed base register, a signed offset
/// when nonzero, and the label displacement when present.
pub open spec fn spec_gas_address(a: MemoryAddressV) -> Seq<char> {
    let base = seq!['['] + a.register;
    let with_offset = if a.offset > 0 {
        base + seq!['+'] + dec_int(a.offset)
    } else if a.offset < 0 {
        base + dec_int(a.offset)
    } else {
        base
    };
    let with_label = match a.label_offset {
        Some(l) => with_offset + seq!['+'] + l,
        None => with_offset,
    };
    with_label + seq![']']
}

/// The GAS text of a sized reference: the width keyword, a space, and the
/// address.
pub open spec fn spec_gas_reference(r: MemoryReferenceV) -> Seq<char> {
    spec_word_size_name(r.size) + seq![' '] + spec_gas_address(r.address)
}

impl WordSize {
    /// The GAS keyword of this width.
    pub fn name(&self) -> (r: &'static str)
        ensures
            r@ == spec_word_size_name(*self),
    {
        match self {
            WordSize::qword => "qword",
            WordSize::dword => "dword",
            WordSize::word => "word",
            WordSize::byte => "byte",
        }
    }
}

impl MemoryAddress {
    /// Writes the address as GAS text.
    pub fn to_gas_string(&self) -> (r: String)
        ensures
            r@ == spec_gas_address(memory_address_view(*self)),
    {
        let mut out = String::new();
        crate::tokeniser::push_char(&mut out, '[');
        out.append(self.register.0);
        if self.offset > 0 {
            crate::tokeniser::push_char(&mut out, '+');
            let num = isize_to_string(self.offset);
            out.append(num.as_str());
        } else if self.offset < 0 {
            let num = isize_to_string(self.offset);
            out.append(num.as_str());
        }
        if let Some(label) = &self.label_offset {
            crate::tokeniser::push_char(&mut out, '+');
            out.append(label.as_str());
        }
        crate::tokeniser::push_char(&mut out, ']');
        proof {
            assert(out@ =~= spec_gas_address(memory_address_view(*self)));
        }
        out
    }

    /// Copies the address.
    pub fn copy(&self) -> (r: MemoryAddress)
        ensures
            memory_address_view(r) == memory_address_view(*self),
    {
        MemoryAddress {
            register: self.register,
            offset: self.offset,
            label_offset: match &self.label_offset {
                Some(l) => Some(l.clone()),
                None => None,
            },
        }
    }
}

impl MemoryReference {
    /// Writes the reference as GAS text.
    pub fn to_gas_string(&self) -> (r: String)
        ensures
            r@ == spec_gas_reference(memory_reference_view(*self)),
    {
        let mut out = String::new();
        out.append(self.size.name());
        crate::tokeniser::push_char(&mut out, ' ');
        let addr = self.address.to_gas_string();
        out.append(addr.as_str());
        proof {
            assert(out@ =~= spec_gas_reference(memory_reference_view(*self)));
        }
        out
    }

    /// Copies the reference.
    pub fn copy(&self) -> (r: MemoryReference)
        ensures
            memory_reference_view(r) == memory_reference_view(*self),
    {
        MemoryReference { address: self.address.copy(), size: self.size }
    }
}

/// The views of a list of memory references.
pub open spec fn mem_refs_view(s: Seq<MemoryReference>) -> Seq<MemoryReferenceV>
    decreases s,
{
    if s.len() == 0 {
        Seq::empty()
    } else {
        seq![memory_reference_view(s[0])] + mem_refs_view(s.drop_first())
    }
}

/// How `mem_refs_view` relates to indexing.
pub broadcast proof fn lemma_mem_refs_view(s: Seq<MemoryReference>)
    ensures
        (#[trigger] mem_refs_view(s)).len() == s.len(),
        forall|i: int|
            0 <= i < s.len() ==> #[trigger] mem_refs_view(s)[i] == memory_reference_view(s[i]),
    decreases s.len(),
{
    if s.len() > 0 {
        lemma_mem_refs_view(s.drop_first());
        assert forall|i: int| 0 <= i < s.len() implies #[trigger] mem_refs_view(s)[i]
            == memory_reference_view(s[i]) by {
            if i > 0 {
                assert(mem_refs_view(s)[i] == mem_refs_view(s.drop_first())[i - 1]);
            }
        }
    }
}

} // verus!
