//! The x86-64 System V backend: it lays out a stack frame for every
//! function, classifies arguments into integer registers, and emits GAS
//! assembly through the builder.
//!
//! Frame layout is specified exactly: every variable slot is 8-byte
//! aligned and the frame size is padded to a multiple of 16, so the stack
//! stays 16-byte aligned at nested calls. Conditional jumps, phis and
//! indirect calls are outside the implemented subset and are reported as
//! unsupported rather than aborting.

use vstd::prelude::*;
use vstd::string::StringExecFns;

use crate::ir::{lemma_var_types_view, var_types_view, Block, Function, Module, Operation,
    Statement, Terminal};
use crate::numfmt::usize_to_string;
use crate::typ::{type_view, Pointer, Type, TypeV};
use crate::x86_64builder::mathop::MathOpV;
use crate::x86_64builder::mem::{MemoryAddress, WordSize};
use crate::x86_64builder::qword;
use crate::x86_64builder::unit::{
    pis_view, r8, r9, rax, rbp, rcx, rdi, rdx, rip, rsi, rsp, IntegerRegister, Label,
    PsuedoInstruction, PsuedoInstructionBuilder, PsuedoInstructionV, Unit,
};

verus! {

/// A code generation failure.
#[derive(Debug, Clone, Copy, PartialEq, Eq, Structural)]
pub enum CodegenError {
    /// A return value whose shape the backend cannot place in registers.
    UnsupportedReturnShape,
    /// An argument whose shape the backend cannot pass.
    UnsupportedArgumentShape,
    /// An operation or terminator outside the implemented subset.
    UnsupportedOperation,
    /// A variable id without a frame slot or recorded type, or a constant
    /// index outside the pool.
    MissingSlot(usize),
}

/// The byte size of a value of the given type in the x86-64 layout: one
/// word for integers and pointers, two words for a slice, zero for unit and
/// the capability token, one byte for a byte or a flag, and element size
/// times count for an array.
pub open spec fn spec_size_x86_64(t: TypeV) -> int
    decreases t, 0int,
{
    match t {
        TypeV::Usize => 8,
        TypeV::Pointer(_) => 8,
        TypeV::Slice(_) => 16,
        TypeV::U8 => 1,
        TypeV::Bool => 1,
        TypeV::IO => 0,
        TypeV::Tuple(ts) => spec_sizes_sum(ts, 0),
        TypeV::Array(elem, n) => spec_size_x86_64(*elem) * n,
    }
}

/// The summed size of a tuple's fields.
pub open spec fn spec_sizes_sum(ts: Seq<TypeV>, i: int) -> int
    decreases ts, ts.len() - i,
{
    if i < 0 || i >= ts.len() {
        0
    } else {
        spec_size_x86_64(ts[i]) + spec_sizes_sum(ts, i + 1)
    }
}

/// Sizes are never negative.
pub proof fn lemma_size_nonneg(t: TypeV)
    ensures
        spec_size_x86_64(t) >= 0,
    decreases t, 0int,
{
    match t {
        TypeV::Tuple(ts) => {
            lemma_sizes_sum_nonneg(ts, 0);
        },
        TypeV::Array(elem, n) => {
            lemma_size_nonneg(*elem);
            assert(spec_size_x86_64(*elem) * n >= 0) by (nonlinear_arith)
                requires
                    spec_size_x86_64(*elem) >= 0,
                    n >= 0,
            ;
        },
        _ => {},
    }
}

/// Summed sizes are never negative.
pub proof fn lemma_sizes_sum_nonneg(ts: Seq<TypeV>, i: int)
    ensures
        spec_sizes_sum(ts, i) >= 0,
    decreases ts, ts.len() - i,
{
    if 0 <= i < ts.len() {
        lemma_size_nonneg(ts[i]);
        lemma_sizes_sum_nonneg(ts, i + 1);
    }
}

impl Type {
    /// The byte size of a value of this type in the x86-64 layout.
    pub fn size_x86_64(&self) -> (r: isize)
        requires
            spec_size_x86_64(type_view(*self)) <= isize::MAX,
        ensures
            r == spec_size_x86_64(type_view(*self)),
            r >= 0,
        decreases *self,
    {
        proof {
            lemma_size_nonneg(type_view(*self));
        }
        match self {
            Type::Usize => 8,
            Type::Pointer(_) => 8,
            Type::Slice(_) => 16,
            Type::U8 => 1,
            Type::Bool => 1,
            Type::IO => 0,
            Type::Tuple(ts) => {
                let ghost tsv = crate::typ::types_view(ts@);
                let n = ts.len();
                let mut acc: isize = 0;
                let mut i: usize = 0;
                proof {
                    crate::typ::lemma_types_view(ts@);
                }
                while i < n
                    invariant
                        i <= n,
                        n == ts@.len(),
                        tsv == crate::typ::types_view(ts@),
                        tsv.len() == n,
                        forall|j: int| 0 <= j < n ==> #[trigger] tsv[j] == type_view(ts@[j]),
                        spec_sizes_sum(tsv, 0) <= isize::MAX,
                        acc + spec_sizes_sum(tsv, i as int) == spec_sizes_sum(tsv, 0),
                        acc >= 0,
                        *self == Type::Tuple(*ts),
                    decreases n - i,
                {
                    proof {
                        lemma_size_nonneg(tsv[i as int]);
                        lemma_sizes_sum_nonneg(tsv, i as int + 1);
                        assert(decreases_to!(*self => self->Tuple_0));
                        assert(decreases_to!(*ts => ts@));
                        assert(decreases_to!(ts@ => ts@[i as int]));
                    }
                    let s = ts[i].size_x86_64();
                    acc = acc + s;
                    i += 1;
                }
                proof {
                    assert(spec_sizes_sum(tsv, n as int) == 0);
                }
                acc
            },
            Type::Array(elem, n) => {
                if *n == 0 {
                    proof {
                        assert(spec_size_x86_64(type_view(*self)) == spec_size_x86_64(
                            type_view(**elem),
                        ) * (*n as int));
                        assert(spec_size_x86_64(type_view(**elem)) * 0 == 0) by (nonlinear_arith);
                    }
                    0
                } else {
                    proof {
                        lemma_size_nonneg(type_view(**elem));
                        assert(spec_size_x86_64(type_view(**elem)) <= spec_size_x86_64(
                            type_view(**elem),
                        ) * (*n as int)) by (nonlinear_arith)
                            requires
                                spec_size_x86_64(type_view(**elem)) >= 0,
                                *n as int >= 1,
                        ;
                    }
                    let es = elem.size_x86_64();
                    proof {
                        assert((es as i128) * (*n as i128) <= i128::MAX && (es as i128) * (
                        *n as i128) >= 0) by (nonlinear_arith)
                            requires
                                0 <= es as i128 <= 0x7fff_ffff_ffff_ffffi128,
                                0 <= *n as i128 <= 0xffff_ffff_ffff_ffffi128,
                        ;
                    }
                    let wide: i128 = (es as i128) * (*n as i128);
                    proof {
                        assert(wide == spec_size_x86_64(type_view(**elem)) * (*n as int));
                    }
                    wide as isize
                }
            },
        }
    }
}

/// The value rounded up to the next multiple of `k`.
pub open spec fn spec_align(n: int, k: int) -> int {
    if n % k == 0 {
        n
    } else {
        n + k - n % k
    }
}

/// Rounding up aligns, and adds less than `k`.
pub proof fn lemma_align(n: int, k: int)
    requires
        n >= 0,
        k > 0,
    ensures
        spec_align(n, k) % k == 0,
        n <= spec_align(n, k) < n + k,
    decreases 0int,
{
    if n % k != 0 {
        assert((n + k - n % k) % k == 0) by (nonlinear_arith)
            requires
                n >= 0,
                k > 0,
        ;
        assert(0 <= n % k < k) by (nonlinear_arith)
            requires
                n >= 0,
                k > 0,
        ;
    }
}

/// The frame layout of a variable-type table: the slot offsets in entry
/// order, each 8-byte aligned, and the total frame size.
pub open spec fn spec_frame(entries: Seq<(usize, TypeV)>, i: int, acc: int) -> (int, Seq<int>)
    decreases entries.len() - i,
{
    if i < 0 || i >= entries.len() {
        (acc, Seq::empty())
    } else {
        let size = spec_size_x86_64(entries[i].1);
        let next = spec_align(acc + size, 8);
        let rest = spec_frame(entries, i + 1, next);
        (rest.0, seq![acc] + rest.1)
    }
}

/// Frame offsets only grow, and stay aligned when the start is aligned.
pub proof fn lemma_frame_bounds(entries: Seq<(usize, TypeV)>, i: int, acc: int)
    requires
        acc >= 0,
        acc % 8 == 0,
    ensures
        ({
            let r = spec_frame(entries, i, acc);
            &&& r.0 >= acc
            &&& r.0 % 8 == 0
            &&& r.1.len() == if i < 0 || i >= entries.len() {
                0int
            } else {
                entries.len() - i
            }
            &&& forall|j: int| 0 <= j < r.1.len() ==> #[trigger] r.1[j] % 8 == 0 && r.1[j] >= acc
        }),
    decreases entries.len() - i,
{
    if 0 <= i < entries.len() {
        let size = spec_size_x86_64(entries[i].1);
        lemma_size_nonneg(entries[i].1);
        lemma_align(acc + size, 8);
        let next = spec_align(acc + size, 8);
        lemma_frame_bounds(entries, i + 1, next);
        let rest = spec_frame(entries, i + 1, next);
        assert forall|j: int| 0 <= j < (seq![acc] + rest.1).len() implies #[trigger] (seq![acc]
            + rest.1)[j] % 8 == 0 && (seq![acc] + rest.1)[j] >= acc by {
            if j > 0 {
                assert((seq![acc] + rest.1)[j] == rest.1[j - 1]);
            }
        }
    }
}

/// Lays out the frame and emits the prologue: the saved base pointer, the
/// new frame, the stack adjustment and the jump to the entry block. The
/// returned frame size is 16-byte aligned, and every slot offset is 8-byte
/// aligned, so the stack stays 16-byte aligned at nested calls.
#[verifier::loop_isolation(false)]
#[verifier::rlimit(60)]
pub fn prologue(function: &Function, name: &String) -> (r: (isize, Vec<isize>, Vec<
    PsuedoInstruction,
>))
    requires
        spec_frame(var_types_view(function.variable_types.entries@), 0, 0).0 + 16 <= isize::MAX,
    ensures
        ({
            let entries = var_types_view(function.variable_types.entries@);
            let frame = spec_frame(entries, 0, 0);
            &&& r.0 as int == spec_align(frame.0, 16)
            &&& r.0 % 16 == 0
            &&& r.0 >= 0
            &&& r.1@.len() == entries.len()
            &&& forall|j: int| 0 <= j < r.1@.len() ==> #[trigger] r.1@[j] as int == frame.1[j]
            &&& forall|j: int| 0 <= j < r.1@.len() ==> #[trigger] r.1@[j] % 8 == 0
            &&& pis_view(r.2@) == seq![
                PsuedoInstructionV::PushIntegerRegister("rbp"@),
                PsuedoInstructionV::ToRegisterMoveRegister("rbp"@, "rsp"@),
                PsuedoInstructionV::Sub(MathOpV::ToRegisterXImmediate("rsp"@, r.0 as int)),
                PsuedoInstructionV::Jmp(name@ + "/0block"@),
            ]
        }),
{
    broadcast use lemma_var_types_view, lemma_offsets_ints;

    let ghost entries = var_types_view(function.variable_types.entries@);
    let mut emit = PsuedoInstructionBuilder { contents: Vec::new() };
    let mut stack_size: isize = 0;
    let mut offsets: Vec<isize> = Vec::new();
    let n = function.variable_types.entries.len();
    let mut i: usize = 0;
    proof {
        lemma_frame_bounds(entries, 0, 0);
        assert(offsets_ints(offsets@) =~= Seq::<int>::empty());
    }
    while i < n
        invariant
            i <= n,
            n == entries.len(),
            entries == var_types_view(function.variable_types.entries@),
            stack_size >= 0,
            stack_size % 8 == 0,
            spec_frame(entries, 0, 0).0 + 16 <= isize::MAX,
            spec_frame(entries, 0, 0).0 == spec_frame(entries, i as int, stack_size as int).0,
            offsets@.len() == i,
            spec_frame(entries, 0, 0).1 =~= offsets_ints(offsets@) + spec_frame(
                entries,
                i as int,
                stack_size as int,
            ).1,
            forall|j: int| 0 <= j < i ==> #[trigger] offsets@[j] % 8 == 0,
        decreases n - i,
    {
        let ghost size_i = spec_size_x86_64(entries[i as int].1);
        proof {
            lemma_size_nonneg(entries[i as int].1);
            lemma_align(stack_size as int + size_i, 8);
            lemma_frame_bounds(entries, i as int + 1, spec_align(stack_size as int + size_i, 8));
            assert(spec_frame(entries, i as int, stack_size as int).0 == spec_frame(
                entries,
                i as int + 1,
                spec_align(stack_size as int + size_i, 8),
            ).0);
            assert(stack_size as int + size_i <= spec_frame(entries, 0, 0).0);
        }
        let typ = &function.variable_types.entries[i].1;
        proof {
            assert(type_view(function.variable_types.entries@[i as int].1) == entries[i as int].1);
        }
        let size = typ.size_x86_64();
        let ghost offs0 = offsets@;
        let ghost old_stack = stack_size;
        offsets.push(stack_size);
        stack_size = stack_size + size;
        if stack_size % 8 != 0 {
            stack_size = stack_size + (8 - stack_size % 8);
        }
        proof {
            assert(stack_size as int == spec_align(old_stack as int + size_i, 8));
            assert(offsets_ints(offsets@) =~= offsets_ints(offs0) + seq![old_stack as int]);
            assert(spec_frame(entries, i as int, old_stack as int).1 == seq![old_stack as int]
                + spec_frame(entries, i as int + 1, stack_size as int).1);
            assert(offsets_ints(offs0) + spec_frame(entries, i as int, old_stack as int).1
                =~= offsets_ints(offsets@) + spec_frame(
                entries,
                i as int + 1,
                stack_size as int,
            ).1);
        }
        i += 1;
    }
    proof {
        assert(spec_frame(entries, n as int, stack_size as int).1 =~= Seq::<int>::empty());
        assert(offsets_ints(offsets@) =~= spec_frame(entries, 0, 0).1);
        assert(stack_size as int == spec_frame(entries, 0, 0).0);
        lemma_align(stack_size as int, 16);
        lemma_frame_bounds(entries, 0, 0);
    }
    if stack_size % 16 != 0 {
        stack_size = stack_size + (16 - stack_size % 16);
    }
    emit.push(rbp());
    emit.mov(rbp(), rsp());
    emit.sub(rsp(), stack_size);
    let label = name.clone().concat("/0block");
    emit.jmp(label);
    proof {
        assert(pis_view(emit.contents@) =~= seq![
            PsuedoInstructionV::PushIntegerRegister("rbp"@),
            PsuedoInstructionV::ToRegisterMoveRegister("rbp"@, "rsp"@),
            PsuedoInstructionV::Sub(MathOpV::ToRegisterXImmediate("rsp"@, stack_size as int)),
            PsuedoInstructionV::Jmp(name@ + "/0block"@),
        ]);
        assert forall|j: int| 0 <= j < offsets@.len() implies #[trigger] offsets@[j] as int
            == spec_frame(entries, 0, 0).1[j] by {
            assert(offsets_ints(offsets@)[j] == offsets@[j] as int);
        }
    }
    (stack_size, offsets, emit.contents)
}

/// The offsets as mathematical integers.
pub open spec fn offsets_ints(s: Seq<isize>) -> Seq<int>
    decreases s,
{
    if s.len() == 0 {
        Seq::empty()
    } else {
        seq![s[0] as int] + offsets_ints(s.drop_first())
    }
}

/// How `offsets_ints` relates to indexing.
pub broadcast proof fn lemma_offsets_ints(s: Seq<isize>)
    ensures
        (#[trigger] offsets_ints(s)).len() == s.len(),
        forall|i: int| 0 <= i < s.len() ==> #[trigger] offsets_ints(s)[i] == s[i] as int,
    decreases s.len(),
{
    if s.len() > 0 {
        lemma_offsets_ints(s.drop_first());
        assert forall|i: int| 0 <= i < s.len() implies #[trigger] offsets_ints(s)[i] == s[i]
            as int by {
            if i > 0 {
                assert(offsets_ints(s)[i] == offsets_ints(s.drop_first())[i - 1]);
            }
        }
    }
}

/// Emits the epilogue: the stack adjustment back, leave, and return.
pub fn epilogue(stack_size: isize) -> (r: Vec<PsuedoInstruction>)
    ensures
        pis_view(r@) == seq![
            PsuedoInstructionV::Add(MathOpV::ToRegisterXImmediate("rsp"@, stack_size as int)),
            PsuedoInstructionV::Leave,
            PsuedoInstructionV::Ret,
        ],
{
    let mut emit = PsuedoInstructionBuilder { contents: Vec::new() };
    emit.add(rsp(), stack_size);
    emit.leave();
    emit.ret();
    proof {
        assert(pis_view(emit.contents@) =~= seq![
            PsuedoInstructionV::Add(MathOpV::ToRegisterXImmediate("rsp"@, stack_size as int)),
            PsuedoInstructionV::Leave,
            PsuedoInstructionV::Ret,
        ]);
    }
    emit.contents
}

/// The name of the integer argument register for each position, in the
/// System V order.
pub open spec fn spec_int_arg_register(i: int) -> Seq<char> {
    if i == 0 {
        "rdi"@
    } else if i == 1 {
        "rsi"@
    } else if i == 2 {
        "rdx"@
    } else if i == 3 {
        "rcx"@
    } else if i == 4 {
        "r8"@
    } else {
        "r9"@
    }
}

/// The integer argument register for each position.
fn int_arg_register(i: usize) -> (r: IntegerRegister)
    requires
        i < 6,
    ensures
        r.0@ == spec_int_arg_register(i as int),
{
    if i == 0 {
        rdi()
    } else if i == 1 {
        rsi()
    } else if i == 2 {
        rdx()
    } else if i == 3 {
        rcx()
    } else if i == 4 {
        r8()
    } else {
        r9()
    }
}

/// A qword reference at the given offset below the base pointer.
pub open spec fn spec_rbp_slot(offset: int) -> crate::x86_64builder::mem::MemoryReferenceV {
    crate::x86_64builder::mem::MemoryReferenceV {
        address: crate::x86_64builder::mem::MemoryAddressV {
            register: "rbp"@,
            offset: offset,
            label_offset: None,
        },
        size: WordSize::qword,
    }
}

/// The moves that load the call arguments into the System V integer
/// registers, from argument `i` on with `int_reg` registers already used,
/// and the stack-passed eightbytes collected so far: one eightbyte for an
/// integer or pointer, two for a slice (pointer then length, kept
/// together), none for unit or the capability token. When too few
/// registers remain, the eightbyte(s) join the stack-passed list instead.
/// A shape outside the subset or a missing slot or type is an error.
pub open spec fn spec_load_args(
    offsets: Seq<int>,
    args: Seq<usize>,
    vt: Seq<(usize, TypeV)>,
    i: int,
    int_reg: int,
    acc: Seq<PsuedoInstructionV>,
    spill: Seq<crate::x86_64builder::mem::MemoryReferenceV>,
) -> Result<
    (Seq<PsuedoInstructionV>, int, Seq<crate::x86_64builder::mem::MemoryReferenceV>),
    CodegenError,
>
    decreases args.len() - i,
{
    if i < 0 || i >= args.len() {
        Ok((acc, int_reg, spill))
    } else {
        let var = args[i];
        if var >= offsets.len() {
            Err(CodegenError::MissingSlot(var))
        } else {
            let off = offsets[var as int];
            match crate::maps::assoc_get(vt, var) {
                None => Err(CodegenError::MissingSlot(var)),
                Some(t) => match t {
                    TypeV::Pointer(_) | TypeV::U8 | TypeV::Usize => if off <= isize::MAX - 8 {
                        if int_reg < 6 {
                            spec_load_args(
                                offsets,
                                args,
                                vt,
                                i + 1,
                                int_reg + 1,
                                acc.push(
                                    PsuedoInstructionV::ToRegisterMoveMemory(
                                        spec_int_arg_register(int_reg),
                                        spec_rbp_slot(-(off + 8)),
                                    ),
                                ),
                                spill,
                            )
                        } else {
                            spec_load_args(
                                offsets,
                                args,
                                vt,
                                i + 1,
                                int_reg,
                                acc,
                                spill.push(spec_rbp_slot(-(off + 8))),
                            )
                        }
                    } else {
                        Err(CodegenError::MissingSlot(var))
                    },
                    TypeV::Slice(_) => if off <= isize::MAX - 16 {
                        if int_reg < 5 {
                            spec_load_args(
                                offsets,
                                args,
                                vt,
                                i + 1,
                                int_reg + 2,
                                acc.push(
                                    PsuedoInstructionV::ToRegisterMoveMemory(
                                        spec_int_arg_register(int_reg),
                                        spec_rbp_slot(-(off + 8)),
                                    ),
                                ).push(
                                    PsuedoInstructionV::ToRegisterMoveMemory(
                                        spec_int_arg_register(int_reg + 1),
                                        spec_rbp_slot(-(off + 16)),
                                    ),
                                ),
                                spill,
                            )
                        } else {
                            // Both halves spill together, pointer first.
                            spec_load_args(
                                offsets,
                                args,
                                vt,
                                i + 1,
                                int_reg,
                                acc,
                                spill.push(spec_rbp_slot(-(off + 8))).push(
                                    spec_rbp_slot(-(off + 16)),
                                ),
                            )
                        }
                    } else {
                        Err(CodegenError::MissingSlot(var))
                    },
                    TypeV::IO => spec_load_args(offsets, args, vt, i + 1, int_reg, acc, spill),
                    TypeV::Tuple(ts) => if ts.len() == 0 {
                        spec_load_args(offsets, args, vt, i + 1, int_reg, acc, spill)
                    } else {
                        Err(CodegenError::UnsupportedArgumentShape)
                    },
                    _ => Err(CodegenError::UnsupportedArgumentShape),
                },
            }
        }
    }
}

/// The pushes of the stack-passed eightbytes, emitted from the last
/// collected to the first, so that the first stack eightbyte ends nearest
/// the stack pointer at the call.
pub open spec fn spec_spill_pushes(
    spill: Seq<crate::x86_64builder::mem::MemoryReferenceV>,
    k: int,
) -> Seq<PsuedoInstructionV>
    decreases k,
{
    if k <= 0 || k > spill.len() {
        Seq::empty()
    } else {
        seq![PsuedoInstructionV::PushMemory(spill[k - 1])] + spec_spill_pushes(spill, k - 1)
    }
}

/// The whole argument-loading emission: the register moves, then the
/// stack-passed pushes in reverse collection order.
pub open spec fn spec_load_args_full(
    offsets: Seq<int>,
    args: Seq<usize>,
    vt: Seq<(usize, TypeV)>,
    acc: Seq<PsuedoInstructionV>,
) -> Result<Seq<PsuedoInstructionV>, CodegenError> {
    match spec_load_args(offsets, args, vt, 0, 0, acc, Seq::empty()) {
        Err(e) => Err(e),
        Ok(p) => Ok(p.0 + spec_spill_pushes(p.2, p.2.len() as int)),
    }
}

/// Emits the code that passes the call arguments: register moves per the
/// System V classification, then the stack-passed eightbytes pushed in
/// reverse collection order, exactly as `spec_load_args_full` says.
#[verifier::loop_isolation(false)]
#[verifier::rlimit(100)]
pub fn load_args(
    emit: &mut PsuedoInstructionBuilder,
    offsets: &Vec<isize>,
    args_vars: &Vec<usize>,
    types: &crate::maps::VarMap<Type>,
) -> (r: Result<(), CodegenError>)
    ensures
        ({
            let sr = spec_load_args_full(
                offsets_ints(offsets@),
                args_vars@,
                var_types_view(types.entries@),
                pis_view(old(emit).contents@),
            );
            match r {
                Ok(_) => sr matches Ok(p) && p == pis_view(final(emit).contents@),
                Err(e) => sr matches Err(e2) && e2 == e,
            }
        }),
{
    broadcast use lemma_offsets_ints, lemma_var_types_view,
        crate::x86_64builder::unit::lemma_pis_view, crate::typ::lemma_types_view,
        crate::x86_64builder::mem::lemma_mem_refs_view;

    let ghost offv = offsets_ints(offsets@);
    let ghost vtv = var_types_view(types.entries@);
    let mut stack_passed: Vec<crate::x86_64builder::mem::MemoryReference> = Vec::new();
    let mut int_reg_arg: usize = 0;
    let n = args_vars.len();
    let mut i: usize = 0;
    proof {
        assert(crate::x86_64builder::mem::mem_refs_view(stack_passed@) =~= Seq::<
            crate::x86_64builder::mem::MemoryReferenceV,
        >::empty());
    }
    while i < n
        invariant
            i <= n,
            n == args_vars@.len(),
            int_reg_arg <= 6,
            spec_load_args(
                offv,
                args_vars@,
                vtv,
                0,
                0,
                pis_view(old(emit).contents@),
                Seq::empty(),
            ) == spec_load_args(
                offv,
                args_vars@,
                vtv,
                i as int,
                int_reg_arg as int,
                pis_view(emit.contents@),
                crate::x86_64builder::mem::mem_refs_view(stack_passed@),
            ),
        decreases n - i,
    {
        let ghost iprev = i as int;
        let ghost regprev = int_reg_arg as int;
        let ghost pis_prev = pis_view(emit.contents@);
        let ghost spill_prev = crate::x86_64builder::mem::mem_refs_view(stack_passed@);
        let var = args_vars[i];
        if var >= offsets.len() {
            return Err(CodegenError::MissingSlot(var));
        }
        let offset = offsets[var];
        proof {
            crate::ir::lemma_var_types_get_bridge(types.entries@, var);
        }
        let typ = match types.get(var) {
            Some(t) => t,
            None => {
                return Err(CodegenError::MissingSlot(var));
            },
        };
        match typ {
            Type::Pointer(_) | Type::U8 | Type::Usize => {
                if offset > isize::MAX - 8 {
                    return Err(CodegenError::MissingSlot(var));
                }
                let slot = qword(MemoryAddress {
                    register: rbp(),
                    offset: -(offset + 8),
                    label_offset: None,
                });
                proof {
                    assert(crate::x86_64builder::mem::memory_reference_view(slot)
                        == spec_rbp_slot(-(offset as int + 8)));
                    assert(offv[var as int] == offset as int);
                }
                if int_reg_arg < 6 {
                    let reg = int_arg_register(int_reg_arg);
                    emit.mov(reg, slot);
                    int_reg_arg += 1;
                    proof {
                        assert(crate::maps::assoc_get(vtv, var) matches Some(t2) && (t2
                            is Pointer || t2 is U8 || t2 is Usize));
                        assert(spec_load_args(offv, args_vars@, vtv, iprev, regprev, pis_prev,
                            spill_prev) == spec_load_args(
                            offv,
                            args_vars@,
                            vtv,
                            iprev + 1,
                            regprev + 1,
                            pis_prev.push(
                                PsuedoInstructionV::ToRegisterMoveMemory(
                                    spec_int_arg_register(regprev),
                                    spec_rbp_slot(-(offv[var as int] + 8)),
                                ),
                            ),
                            spill_prev,
                        ));
                    }
                } else {
                    let ghost slotv = crate::x86_64builder::mem::memory_reference_view(slot);
                    stack_passed.push(slot);
                    proof {
                        assert(crate::x86_64builder::mem::mem_refs_view(stack_passed@)
                            =~= spill_prev.push(slotv));
                        assert(crate::maps::assoc_get(vtv, var) matches Some(t2) && (t2
                            is Pointer || t2 is U8 || t2 is Usize));
                        assert(spec_load_args(offv, args_vars@, vtv, iprev, regprev, pis_prev,
                            spill_prev) == spec_load_args(
                            offv,
                            args_vars@,
                            vtv,
                            iprev + 1,
                            regprev,
                            pis_prev,
                            spill_prev.push(spec_rbp_slot(-(offv[var as int] + 8))),
                        ));
                    }
                }
            },
            Type::Slice(_) => {
                if offset > isize::MAX - 16 {
                    return Err(CodegenError::MissingSlot(var));
                }
                let slot = qword(MemoryAddress {
                    register: rbp(),
                    offset: -(offset + 8),
                    label_offset: None,
                });
                let slot2 = qword(MemoryAddress {
                    register: rbp(),
                    offset: -(offset + 16),
                    label_offset: None,
                });
                proof {
                    assert(crate::x86_64builder::mem::memory_reference_view(slot)
                        == spec_rbp_slot(-(offset as int + 8)));
                    assert(crate::x86_64builder::mem::memory_reference_view(slot2)
                        == spec_rbp_slot(-(offset as int + 16)));
                    assert(offv[var as int] == offset as int);
                }
                if int_reg_arg < 5 {
                    let reg = int_arg_register(int_reg_arg);
                    emit.mov(reg, slot);
                    int_reg_arg += 1;
                    let reg2 = int_arg_register(int_reg_arg);
                    emit.mov(reg2, slot2);
                    int_reg_arg += 1;
                    proof {
                        assert(crate::maps::assoc_get(vtv, var) matches Some(t2) && t2
                            is Slice);
                        assert(spec_load_args(offv, args_vars@, vtv, iprev, regprev, pis_prev,
                            spill_prev) == spec_load_args(
                            offv,
                            args_vars@,
                            vtv,
                            iprev + 1,
                            regprev + 2,
                            pis_prev.push(
                                PsuedoInstructionV::ToRegisterMoveMemory(
                                    spec_int_arg_register(regprev),
                                    spec_rbp_slot(-(offv[var as int] + 8)),
                                ),
                            ).push(
                                PsuedoInstructionV::ToRegisterMoveMemory(
                                    spec_int_arg_register(regprev + 1),
                                    spec_rbp_slot(-(offv[var as int] + 16)),
                                ),
                            ),
                            spill_prev,
                        ));
                    }
                } else {
                    let ghost slotv = crate::x86_64builder::mem::memory_reference_view(slot);
                    let ghost slotv2 = crate::x86_64builder::mem::memory_reference_view(slot2);
                    stack_passed.push(slot);
                    stack_passed.push(slot2);
                    proof {
                        assert(crate::x86_64builder::mem::mem_refs_view(stack_passed@)
                            =~= spill_prev.push(slotv).push(slotv2));
                        assert(crate::maps::assoc_get(vtv, var) matches Some(t2) && t2
                            is Slice);
                        assert(spec_load_args(offv, args_vars@, vtv, iprev, regprev, pis_prev,
                            spill_prev) == spec_load_args(
                            offv,
                            args_vars@,
                            vtv,
                            iprev + 1,
                            regprev,
                            pis_prev,
                            spill_prev.push(spec_rbp_slot(-(offv[var as int] + 8))).push(
                                spec_rbp_slot(-(offv[var as int] + 16)),
                            ),
                        ));
                    }
                }
            },
            Type::IO => {
                proof {
                    assert(crate::maps::assoc_get(vtv, var) matches Some(t2) && t2 is IO);
                    assert(spec_load_args(offv, args_vars@, vtv, iprev, regprev, pis_prev,
                        spill_prev) == spec_load_args(
                        offv,
                        args_vars@,
                        vtv,
                        iprev + 1,
                        regprev,
                        pis_prev,
                        spill_prev,
                    ));
                }
            },
            Type::Tuple(ts) => {
                if ts.len() != 0 {
                    proof {
                        crate::typ::lemma_types_view(ts@);
                        assert(crate::maps::assoc_get(vtv, var) matches Some(t2) && (t2 matches
                            TypeV::Tuple(e2) && e2.len() != 0));
                        assert(spec_load_args(offv, args_vars@, vtv, iprev, regprev, pis_prev,
                            spill_prev) matches Err(e2) && e2
                            == CodegenError::UnsupportedArgumentShape);
                    }
                    return Err(CodegenError::UnsupportedArgumentShape);
                }
                proof {
                    crate::typ::lemma_types_view(ts@);
                    assert(crate::maps::assoc_get(vtv, var) matches Some(t2) && (t2 matches
                        TypeV::Tuple(e2) && e2.len() == 0));
                    assert(spec_load_args(offv, args_vars@, vtv, iprev, regprev, pis_prev,
                        spill_prev) == spec_load_args(
                        offv,
                        args_vars@,
                        vtv,
                        iprev + 1,
                        regprev,
                        pis_prev,
                        spill_prev,
                    ));
                }
            },
            _ => {
                return Err(CodegenError::UnsupportedArgumentShape);
            },
        }
        i += 1;
    }
    // Push the stack-passed eightbytes, last collected first.
    let ghost regs_done = pis_view(emit.contents@);
    let ghost spillv = crate::x86_64builder::mem::mem_refs_view(stack_passed@);
    let mut k = stack_passed.len();
    proof {
        assert(spec_spill_pushes(spillv, spillv.len() as int) =~= spec_spill_pushes(
            spillv,
            k as int,
        ));
    }
    while k > 0
        invariant
            k <= stack_passed@.len(),
            spillv == crate::x86_64builder::mem::mem_refs_view(stack_passed@),
            spillv.len() == stack_passed@.len(),
            pis_view(emit.contents@) =~= regs_done + spec_spill_pushes(
                spillv,
                spillv.len() as int,
            ).take(spillv.len() - k),
        decreases k,
    {
        let ghost pis_prev = pis_view(emit.contents@);
        let slot = stack_passed[k - 1].copy();
        proof {
            assert(crate::x86_64builder::mem::memory_reference_view(slot) == spillv[k - 1]);
            lemma_spill_pushes_index(spillv, spillv.len() as int, (spillv.len() - k) as int);
        }
        emit.push(slot);
        proof {
            assert(pis_view(emit.contents@) =~= regs_done + spec_spill_pushes(
                spillv,
                spillv.len() as int,
            ).take(spillv.len() - k + 1));
        }
        k -= 1;
    }
    proof {
        lemma_spill_pushes_len(spillv, spillv.len() as int);
        assert(spec_spill_pushes(spillv, spillv.len() as int).take(spillv.len() as int)
            =~= spec_spill_pushes(spillv, spillv.len() as int));
        assert(pis_view(emit.contents@) =~= regs_done + spec_spill_pushes(
            spillv,
            spillv.len() as int,
        ));
    }
    Ok(())
}

/// The spill-push list has one push per collected eightbyte.
pub proof fn lemma_spill_pushes_len(
    spill: Seq<crate::x86_64builder::mem::MemoryReferenceV>,
    k: int,
)
    requires
        0 <= k <= spill.len(),
    ensures
        spec_spill_pushes(spill, k).len() == k,
    decreases k,
{
    if k > 0 {
        lemma_spill_pushes_len(spill, k - 1);
    }
}

/// The `j`-th emitted push names the eightbyte collected `j`-th from the
/// end.
pub proof fn lemma_spill_pushes_index(
    spill: Seq<crate::x86_64builder::mem::MemoryReferenceV>,
    k: int,
    j: int,
)
    requires
        0 <= j < k <= spill.len(),
    ensures
        spec_spill_pushes(spill, k).len() == k,
        spec_spill_pushes(spill, k)[j] == PsuedoInstructionV::PushMemory(spill[k - 1 - j]),
    decreases k,
{
    lemma_spill_pushes_len(spill, k);
    if j == 0 {
    } else {
        lemma_spill_pushes_index(spill, k - 1, j - 1);
        assert(spec_spill_pushes(spill, k)[j] == spec_spill_pushes(spill, k - 1)[j - 1]);
    }
}

/// What one statement appends to the emitted instruction list: the
/// argument passing and call of a statically resolved call (a slice
/// result stored through `rax`/`rdx` when a destination is given), or the
/// address-and-length store of a global constant. Every other operation
/// is outside the implemented subset.
pub open spec fn spec_compile_stmt(
    st: crate::ir::StatementV,
    offsets: Seq<int>,
    vt: Seq<(usize, TypeV)>,
    constants: Seq<Seq<u8>>,
    acc: Seq<PsuedoInstructionV>,
) -> Result<Seq<PsuedoInstructionV>, CodegenError> {
    match st {
        crate::ir::StatementV::Operation(op, store) => match op {
            crate::ir::OperationV::Call { function, args } => match spec_load_args_full(
                offsets,
                args,
                vt,
                acc,
            ) {
                Err(e) => Err(e),
                Ok(acc1) => {
                    let acc2 = acc1.push(
                        PsuedoInstructionV::Call(spec_join_names(function, 0)),
                    );
                    match store {
                        None => Ok(acc2),
                        Some(dest) => if dest >= offsets.len() {
                            Err(CodegenError::MissingSlot(dest))
                        } else {
                            let off = offsets[dest as int];
                            match crate::maps::assoc_get(vt, dest) {
                                None => Err(CodegenError::MissingSlot(dest)),
                                Some(t) => if !(t is Slice) {
                                    Err(CodegenError::UnsupportedReturnShape)
                                } else if off > isize::MAX - 16 {
                                    Err(CodegenError::MissingSlot(dest))
                                } else {
                                    Ok(
                                        acc2.push(
                                            PsuedoInstructionV::ToMemoryMoveRegister(
                                                spec_rbp_slot(-(off + 8)),
                                                "rax"@,
                                            ),
                                        ).push(
                                            PsuedoInstructionV::ToMemoryMoveRegister(
                                                spec_rbp_slot(-(off + 16)),
                                                "rdx"@,
                                            ),
                                        ),
                                    )
                                },
                            }
                        },
                    }
                },
            },
            crate::ir::OperationV::LoadGlobal { src } => match store {
                None => Ok(acc),
                Some(dest) => if dest >= offsets.len() {
                    Err(CodegenError::MissingSlot(dest))
                } else if src >= constants.len() {
                    Err(CodegenError::MissingSlot(src))
                } else {
                    let off = offsets[dest as int];
                    if off > isize::MAX - 16 {
                        Err(CodegenError::MissingSlot(dest))
                    } else {
                        let label = "_c."@ + crate::numfmt::dec_digits(src as int);
                        let acc1 = acc.push(
                            PsuedoInstructionV::Lea(
                                "rax"@,
                                (crate::x86_64builder::mem::MemoryAddressV {
                                    register: "rip"@,
                                    offset: 0,
                                    label_offset: Some(label),
                                }),
                            ),
                        ).push(
                            PsuedoInstructionV::ToMemoryMoveRegister(
                                spec_rbp_slot(-(off + 16)),
                                "rax"@,
                            ),
                        );
                        if constants[src as int].len() > isize::MAX {
                            Err(CodegenError::MissingSlot(src))
                        } else {
                            Ok(
                                acc1.push(
                                    PsuedoInstructionV::ToRegisterMoveImmediate(
                                        "rax"@,
                                        constants[src as int].len() as int,
                                    ),
                                ).push(
                                    PsuedoInstructionV::ToMemoryMoveRegister(
                                        spec_rbp_slot(-(off + 8)),
                                        "rax"@,
                                    ),
                                ),
                            )
                        }
                    }
                },
            },
            _ => Err(CodegenError::UnsupportedOperation),
        },
    }
}

/// The statements of a block from `i` on, folded over `spec_compile_stmt`.
pub open spec fn spec_compile_stmts(
    stmts: Seq<crate::ir::StatementV>,
    offsets: Seq<int>,
    vt: Seq<(usize, TypeV)>,
    constants: Seq<Seq<u8>>,
    i: int,
    acc: Seq<PsuedoInstructionV>,
) -> Result<Seq<PsuedoInstructionV>, CodegenError>
    decreases stmts.len() - i,
{
    if i < 0 || i >= stmts.len() {
        Ok(acc)
    } else {
        match spec_compile_stmt(stmts[i], offsets, vt, constants, acc) {
            Err(e) => Err(e),
            Ok(acc1) => spec_compile_stmts(stmts, offsets, vt, constants, i + 1, acc1),
        }
    }
}

/// What a block's terminator appends: a jump to the numbered block label,
/// or the return moves (`rax` for a word, `rax`/`rdx` for a slice) and a
/// jump to the function's epilogue. Conditional terminators are outside
/// the implemented subset.
pub open spec fn spec_compile_terminal(
    t: Terminal,
    offsets: Seq<int>,
    vt: Seq<(usize, TypeV)>,
    name: Seq<char>,
    acc: Seq<PsuedoInstructionV>,
) -> Result<Seq<PsuedoInstructionV>, CodegenError> {
    match t {
        Terminal::Return(opt) => match opt {
            None => Ok(acc.push(PsuedoInstructionV::Jmp(name + "/epilogue"@))),
            Some(var) => if var >= offsets.len() {
                Err(CodegenError::MissingSlot(var))
            } else {
                let off = offsets[var as int];
                if off > isize::MAX - 16 {
                    Err(CodegenError::MissingSlot(var))
                } else {
                    match crate::maps::assoc_get(vt, var) {
                        None => Err(CodegenError::MissingSlot(var)),
                        Some(ty) => if ty is Slice {
                            Ok(
                                acc.push(
                                    PsuedoInstructionV::ToRegisterMoveMemory(
                                        "rax"@,
                                        spec_rbp_slot(-(off + 8)),
                                    ),
                                ).push(
                                    PsuedoInstructionV::ToRegisterMoveMemory(
                                        "rdx"@,
                                        spec_rbp_slot(-(off + 16)),
                                    ),
                                ).push(PsuedoInstructionV::Jmp(name + "/epilogue"@)),
                            )
                        } else if ty is U8 || ty is Pointer || ty is Usize {
                            Ok(
                                acc.push(
                                    PsuedoInstructionV::ToRegisterMoveMemory(
                                        "rax"@,
                                        spec_rbp_slot(-(off + 8)),
                                    ),
                                ).push(PsuedoInstructionV::Jmp(name + "/epilogue"@)),
                            )
                        } else {
                            Err(CodegenError::UnsupportedReturnShape)
                        },
                    }
                }
            },
        },
        Terminal::Jump(target) => Ok(
            acc.push(
                PsuedoInstructionV::Jmp(
                    name + "/"@ + crate::numfmt::dec_digits(target as int) + "block"@,
                ),
            ),
        ),
        _ => Err(CodegenError::UnsupportedOperation),
    }
}

/// The whole emission of a block: its statements in order, then its
/// terminator.
pub open spec fn spec_compile_block(
    b: crate::ir::BlockV,
    offsets: Seq<int>,
    vt: Seq<(usize, TypeV)>,
    constants: Seq<Seq<u8>>,
    name: Seq<char>,
) -> Result<Seq<PsuedoInstructionV>, CodegenError> {
    match spec_compile_stmts(b.statements, offsets, vt, constants, 0, Seq::empty()) {
        Err(e) => Err(e),
        Ok(acc) => spec_compile_terminal(b.terminal, offsets, vt, name, acc),
    }
}

/// Emits the code of one block, exactly as `spec_compile_block` says:
/// statically resolved calls and global slice loads, followed by the
/// block's terminator. Conditional jumps, phis, indirect calls and
/// residual calls are outside the implemented subset and are rejected.
#[verifier::loop_isolation(false)]
#[verifier::rlimit(100)]
#[verifier::spinoff_prover]
pub fn compile_block(
    block: &Block,
    function: &Function,
    offsets: &Vec<isize>,
    module: &Module,
    name: &String,
) -> (r: Result<Vec<PsuedoInstruction>, CodegenError>)
    ensures
        ({
            let sr = spec_compile_block(
                crate::ir::block_view(*block),
                offsets_ints(offsets@),
                var_types_view(function.variable_types.entries@),
                crate::ir::byte_seqs_view(module.constants@),
                name@,
            );
            match r {
                Ok(v) => sr matches Ok(p) && p == pis_view(v@),
                Err(e) => sr matches Err(e2) && e2 == e,
            }
        }),
{
    broadcast use crate::x86_64builder::unit::lemma_pis_view, crate::ir::lemma_statements_view;

    broadcast use lemma_offsets_ints, lemma_var_types_view, crate::ir::lemma_byte_seqs_view;

    let ghost bv = crate::ir::block_view(*block);
    let ghost sv = bv.statements;
    let ghost offv = offsets_ints(offsets@);
    let ghost vtv = var_types_view(function.variable_types.entries@);
    let ghost csv = crate::ir::byte_seqs_view(module.constants@);
    proof {
        crate::ir::lemma_statements_view(block.statements@);
        assert(bv.statements == crate::ir::statements_view(block.statements@));
        assert(bv.terminal == block.terminal);
    }
    let mut emit = PsuedoInstructionBuilder { contents: Vec::new() };
    let n = block.statements.len();
    let mut i: usize = 0;
    proof {
        assert(pis_view(emit.contents@) =~= Seq::<PsuedoInstructionV>::empty());
    }
    while i < n
        invariant
            i <= n,
            n == block.statements@.len(),
            bv == crate::ir::block_view(*block),
            sv.len() == n,
            spec_compile_stmts(sv, offv, vtv, csv, 0, Seq::empty()) == spec_compile_stmts(
                sv,
                offv,
                vtv,
                csv,
                i as int,
                pis_view(emit.contents@),
            ),
        decreases n - i,
    {
        let ghost iprev = i as int;
        let ghost cur0 = pis_view(emit.contents@);
        let ghost stv = sv[i as int];
        proof {
            assert(stv == crate::ir::statement_view(block.statements@[i as int]));
        }
        match &block.statements[i] {
            Statement::Operation(op, store) => match op {
                Operation::Call { function: callee, args } => {
                    proof {
                        assert(stv == crate::ir::StatementV::Operation(
                            crate::ir::OperationV::Call {
                                function: crate::ir::names_view(callee@),
                                args: args@,
                            },
                            *store,
                        ));
                    }
                    match load_args(&mut emit, offsets, args, &function.variable_types) {
                        Ok(_) => {},
                        Err(e) => {
                            proof {
                                assert(spec_compile_stmt(stv, offv, vtv, csv, cur0) == Err::<
                                    Seq<PsuedoInstructionV>,
                                    CodegenError,
                                >(e));
                            }
                            return Err(e);
                        },
                    }
                    let joined = join_names(callee);
                    emit.call(joined);
                    let ghost acc2 = pis_view(emit.contents@);
                    proof {
                        assert(spec_load_args_full(offv, args@, vtv, cur0) matches Ok(a1)
                            && acc2 == a1.push(
                            PsuedoInstructionV::Call(
                                spec_join_names(crate::ir::names_view(callee@), 0),
                            ),
                        ));
                    }
                    if let Some(dest) = store {
                        if *dest >= offsets.len() {
                            proof {
                                assert(spec_compile_stmt(stv, offv, vtv, csv, cur0) == Err::<
                                    Seq<PsuedoInstructionV>,
                                    CodegenError,
                                >(CodegenError::MissingSlot(*dest)));
                            }
                            return Err(CodegenError::MissingSlot(*dest));
                        }
                        let offset = offsets[*dest];
                        proof {
                            assert(offv[*dest as int] == offset as int);
                            crate::ir::lemma_var_types_get_bridge(
                                function.variable_types.entries@,
                                *dest,
                            );
                        }
                        let is_slice = match function.variable_types.get(*dest) {
                            Some(Type::Slice(_)) => true,
                            Some(_) => false,
                            None => {
                                proof {
                                    assert(spec_compile_stmt(stv, offv, vtv, csv, cur0) == Err::<
                                        Seq<PsuedoInstructionV>,
                                        CodegenError,
                                    >(CodegenError::MissingSlot(*dest)));
                                }
                                return Err(CodegenError::MissingSlot(*dest));
                            },
                        };
                        if !is_slice {
                            proof {
                                assert(spec_compile_stmt(stv, offv, vtv, csv, cur0) == Err::<
                                    Seq<PsuedoInstructionV>,
                                    CodegenError,
                                >(CodegenError::UnsupportedReturnShape));
                            }
                            return Err(CodegenError::UnsupportedReturnShape);
                        }
                        if offset > isize::MAX - 16 {
                            proof {
                                assert(spec_compile_stmt(stv, offv, vtv, csv, cur0) == Err::<
                                    Seq<PsuedoInstructionV>,
                                    CodegenError,
                                >(CodegenError::MissingSlot(*dest)));
                            }
                            return Err(CodegenError::MissingSlot(*dest));
                        }
                        let slot_lo = qword(MemoryAddress {
                            register: rbp(),
                            offset: -(offset + 8),
                            label_offset: None,
                        });
                        let slot_hi = qword(MemoryAddress {
                            register: rbp(),
                            offset: -(offset + 16),
                            label_offset: None,
                        });
                        proof {
                            assert(crate::x86_64builder::mem::memory_reference_view(slot_lo)
                                == spec_rbp_slot(-(offset as int + 8)));
                            assert(crate::x86_64builder::mem::memory_reference_view(slot_hi)
                                == spec_rbp_slot(-(offset as int + 16)));
                        }
                        emit.mov(slot_lo, rax());
                        emit.mov(slot_hi, rdx());
                        proof {
                            assert(spec_compile_stmt(stv, offv, vtv, csv, cur0) == Ok::<
                                _,
                                CodegenError,
                            >(pis_view(emit.contents@)));
                        }
                    } else {
                        proof {
                            assert(spec_compile_stmt(stv, offv, vtv, csv, cur0) == Ok::<
                                _,
                                CodegenError,
                            >(pis_view(emit.contents@)));
                        }
                    }
                },
                Operation::LoadGlobal { src } => {
                    proof {
                        assert(stv == crate::ir::StatementV::Operation(
                            crate::ir::OperationV::LoadGlobal { src: *src },
                            *store,
                        ));
                    }
                    if let Some(dest) = store {
                        if *dest >= offsets.len() {
                            proof {
                                assert(spec_compile_stmt(stv, offv, vtv, csv, cur0) == Err::<
                                    Seq<PsuedoInstructionV>,
                                    CodegenError,
                                >(CodegenError::MissingSlot(*dest)));
                            }
                            return Err(CodegenError::MissingSlot(*dest));
                        }
                        if *src >= module.constants.len() {
                            proof {
                                assert(spec_compile_stmt(stv, offv, vtv, csv, cur0) == Err::<
                                    Seq<PsuedoInstructionV>,
                                    CodegenError,
                                >(CodegenError::MissingSlot(*src)));
                            }
                            return Err(CodegenError::MissingSlot(*src));
                        }
                        let offset = offsets[*dest];
                        proof {
                            assert(offv[*dest as int] == offset as int);
                        }
                        if offset > isize::MAX - 16 {
                            proof {
                                assert(spec_compile_stmt(stv, offv, vtv, csv, cur0) == Err::<
                                    Seq<PsuedoInstructionV>,
                                    CodegenError,
                                >(CodegenError::MissingSlot(*dest)));
                            }
                            return Err(CodegenError::MissingSlot(*dest));
                        }
                        let idx_text = usize_to_string(*src);
                        let mut label = String::new();
                        label.append("_c.");
                        label.append(idx_text.as_str());
                        proof {
                            assert(label@ =~= "_c."@ + crate::numfmt::dec_digits(*src as int));
                        }
                        emit.lea(
                            rax(),
                            MemoryAddress { register: rip(), offset: 0, label_offset: Some(label) },
                        );
                        emit.mov(
                            qword(MemoryAddress {
                                register: rbp(),
                                offset: -(offset + 16),
                                label_offset: None,
                            }),
                            rax(),
                        );
                        let csize = module.constants[*src].len();
                        proof {
                            assert(csv[*src as int] == module.constants@[*src as int]@);
                            assert(csv[*src as int].len() == csize);
                        }
                        if csize > isize::MAX as usize {
                            proof {
                                assert(spec_compile_stmt(stv, offv, vtv, csv, cur0) == Err::<
                                    Seq<PsuedoInstructionV>,
                                    CodegenError,
                                >(CodegenError::MissingSlot(*src)));
                            }
                            return Err(CodegenError::MissingSlot(*src));
                        }
                        emit.mov(rax(), csize as isize);
                        emit.mov(
                            qword(MemoryAddress {
                                register: rbp(),
                                offset: -(offset + 8),
                                label_offset: None,
                            }),
                            rax(),
                        );
                        proof {
                            assert(spec_compile_stmt(stv, offv, vtv, csv, cur0) == Ok::<
                                _,
                                CodegenError,
                            >(pis_view(emit.contents@)));
                        }
                    } else {
                        proof {
                            assert(spec_compile_stmt(stv, offv, vtv, csv, cur0) == Ok::<
                                _,
                                CodegenError,
                            >(pis_view(emit.contents@)));
                        }
                    }
                },
                _ => {
                    proof {
                        assert(spec_compile_stmt(stv, offv, vtv, csv, cur0) == Err::<
                            Seq<PsuedoInstructionV>,
                            CodegenError,
                        >(CodegenError::UnsupportedOperation));
                    }
                    return Err(CodegenError::UnsupportedOperation);
                },
            },
        }
        i += 1;
        proof {
            assert(spec_compile_stmts(sv, offv, vtv, csv, iprev, cur0) == spec_compile_stmts(
                sv,
                offv,
                vtv,
                csv,
                iprev + 1,
                pis_view(emit.contents@),
            ));
        }
    }
    let ghost accf = pis_view(emit.contents@);
    proof {
        assert(spec_compile_stmts(sv, offv, vtv, csv, n as int, accf) == Ok::<_, CodegenError>(
            accf,
        ));
    }
    match &block.terminal {
        Terminal::Return(ret) => {
            if let Some(var) = ret {
                if *var >= offsets.len() {
                    return Err(CodegenError::MissingSlot(*var));
                }
                let offset = offsets[*var];
                proof {
                    assert(offv[*var as int] == offset as int);
                }
                if offset > isize::MAX - 16 {
                    return Err(CodegenError::MissingSlot(*var));
                }
                proof {
                    crate::ir::lemma_var_types_get_bridge(function.variable_types.entries@, *var);
                }
                let shape: u8 = match function.variable_types.get(*var) {
                    Some(Type::Slice(_)) => 2,
                    Some(Type::U8) | Some(Type::Pointer(_)) | Some(Type::Usize) => 1,
                    Some(_) => 0,
                    None => {
                        return Err(CodegenError::MissingSlot(*var));
                    },
                };
                if shape == 2 {
                    emit.mov(rax(), qword(MemoryAddress {
                        register: rbp(),
                        offset: -(offset + 8),
                        label_offset: None,
                    }));
                    emit.mov(rdx(), qword(MemoryAddress {
                        register: rbp(),
                        offset: -(offset + 16),
                        label_offset: None,
                    }));
                } else if shape == 1 {
                    emit.mov(rax(), qword(MemoryAddress {
                        register: rbp(),
                        offset: -(offset + 8),
                        label_offset: None,
                    }));
                } else {
                    return Err(CodegenError::UnsupportedReturnShape);
                }
            }
            let label = name.clone().concat("/epilogue");
            proof {
                assert(label@ =~= name@ + "/epilogue"@);
            }
            emit.jmp(label);
            proof {
                assert(spec_compile_terminal(bv.terminal, offv, vtv, name@, accf) == Ok::<
                    _,
                    CodegenError,
                >(pis_view(emit.contents@)));
            }
        },
        Terminal::Jump(target) => {
            // The label is `<function>/<n>block`.
            let t = usize_to_string(*target);
            let mut full = name.clone();
            full.append("/");
            full.append(t.as_str());
            full.append("block");
            proof {
                reveal_strlit("/");
                reveal_strlit("block");
                assert(full@ =~= name@ + "/"@ + crate::numfmt::dec_digits(*target as int)
                    + "block"@);
            }
            emit.jmp(full);
            proof {
                assert(spec_compile_terminal(bv.terminal, offv, vtv, name@, accf) == Ok::<
                    _,
                    CodegenError,
                >(pis_view(emit.contents@)));
            }
        },
        _ => {
            return Err(CodegenError::UnsupportedOperation);
        },
    }
    Ok(emit.contents)
}

/// The dotted spelling of a name path from segment `i` on.
pub open spec fn spec_join_names(names: Seq<Seq<char>>, i: int) -> Seq<char>
    decreases names.len() - i,
{
    if i < 0 || i >= names.len() {
        Seq::empty()
    } else {
        (if i > 0 {
            seq!['.']
        } else {
            Seq::<char>::empty()
        }) + names[i] + spec_join_names(names, i + 1)
    }
}

/// Joins a dotted name path with dots.
#[verifier::loop_isolation(false)]
pub(crate) fn join_names(names: &Vec<String>) -> (r: String)
    ensures
        r@ == spec_join_names(crate::ir::names_view(names@), 0),
{
    broadcast use crate::ir::lemma_names_view;

    let ghost nv = crate::ir::names_view(names@);
    let mut out = String::new();
    let n = names.len();
    let mut i: usize = 0;
    while i < n
        invariant
            i <= n,
            n == names@.len(),
            nv.len() == n,
            spec_join_names(nv, 0) =~= out@ + spec_join_names(nv, i as int),
        decreases n - i,
    {
        let ghost outp = out@;
        if i > 0 {
            crate::tokeniser::push_char(&mut out, '.');
        }
        out.append(names[i].as_str());
        proof {
            assert(outp + spec_join_names(nv, i as int) =~= out@ + spec_join_names(
                nv,
                i as int + 1,
            ));
        }
        i += 1;
    }
    proof {
        assert(spec_join_names(nv, n as int) =~= Seq::<char>::empty());
        assert(out@ =~= spec_join_names(nv, 0));
    }
    out
}

/// The data-section labels of the constant pool from index `i` on: label
/// `_c.<i>` holding the constant's raw bytes.
pub open spec fn spec_data_labels(constants: Seq<Seq<u8>>, i: int) -> Seq<
    (Seq<char>, crate::x86_64builder::unit::LabelV),
>
    decreases constants.len() - i,
{
    if i < 0 || i >= constants.len() {
        Seq::empty()
    } else {
        seq![
            (
                "_c."@ + crate::numfmt::dec_digits(i),
                crate::x86_64builder::unit::LabelV {
                    global: false,
                    contents: seq![
                        (None, seq![PsuedoInstructionV::Bytes(constants[i])]),
                    ],
                },
            ),
        ] + spec_data_labels(constants, i + 1)
    }
}

/// The named instruction groups of a function's blocks from `b` on, each
/// block under its `<b>block` local name.
pub open spec fn spec_block_groups(
    blocks: Seq<crate::ir::BlockV>,
    offsets: Seq<int>,
    vt: Seq<(usize, TypeV)>,
    constants: Seq<Seq<u8>>,
    name: Seq<char>,
    b: int,
    acc: Seq<(Option<Seq<char>>, Seq<PsuedoInstructionV>)>,
) -> Result<Seq<(Option<Seq<char>>, Seq<PsuedoInstructionV>)>, CodegenError>
    decreases blocks.len() - b,
{
    if b < 0 || b >= blocks.len() {
        Ok(acc)
    } else {
        match spec_compile_block(blocks[b], offsets, vt, constants, name) {
            Err(e) => Err(e),
            Ok(pis) => spec_block_groups(
                blocks,
                offsets,
                vt,
                constants,
                name,
                b + 1,
                acc.push((Some(crate::numfmt::dec_digits(b) + "block"@), pis)),
            ),
        }
    }
}

/// The whole text-section label of one function: the frame check, the
/// prologue as the unnamed group, one named group per block, and the
/// epilogue group.
pub open spec fn spec_compile_function(
    name: Seq<char>,
    f: crate::ir::FunctionV,
    constants: Seq<Seq<u8>>,
) -> Result<(Seq<char>, crate::x86_64builder::unit::LabelV), CodegenError> {
    let frame = spec_frame(f.variable_types, 0, 0);
    if frame.0 + 16 > isize::MAX {
        Err(CodegenError::UnsupportedArgumentShape)
    } else {
        let stack = spec_align(frame.0, 16);
        let prologue_pis = seq![
            PsuedoInstructionV::PushIntegerRegister("rbp"@),
            PsuedoInstructionV::ToRegisterMoveRegister("rbp"@, "rsp"@),
            PsuedoInstructionV::Sub(MathOpV::ToRegisterXImmediate("rsp"@, stack)),
            PsuedoInstructionV::Jmp(name + "/0block"@),
        ];
        match spec_block_groups(
            f.ir,
            frame.1,
            f.variable_types,
            constants,
            name,
            0,
            seq![(None, prologue_pis)],
        ) {
            Err(e) => Err(e),
            Ok(groups) => Ok(
                (
                    name,
                    crate::x86_64builder::unit::LabelV {
                        global: f.exported,
                        contents: groups.push(
                            (
                                Some("epilogue"@),
                                seq![
                                    PsuedoInstructionV::Add(
                                        MathOpV::ToRegisterXImmediate("rsp"@, stack),
                                    ),
                                    PsuedoInstructionV::Leave,
                                    PsuedoInstructionV::Ret,
                                ],
                            ),
                        ),
                    },
                ),
            ),
        }
    }
}

/// The text-section labels of the functions from index `i` on.
pub open spec fn spec_text_labels(
    funs: Seq<(Seq<char>, crate::ir::FunctionV)>,
    constants: Seq<Seq<u8>>,
    i: int,
    acc: Seq<(Seq<char>, crate::x86_64builder::unit::LabelV)>,
) -> Result<Seq<(Seq<char>, crate::x86_64builder::unit::LabelV)>, CodegenError>
    decreases funs.len() - i,
{
    if i < 0 || i >= funs.len() {
        Ok(acc)
    } else {
        match spec_compile_function(funs[i].0, funs[i].1, constants) {
            Err(e) => Err(e),
            Ok(lab) => spec_text_labels(funs, constants, i + 1, acc.push(lab)),
        }
    }
}

/// The whole emitted unit: the syntax directive, the `.data` section with
/// one label per constant, and the `.text` section with one label per
/// function.
pub open spec fn spec_compile(m: crate::ir::ModuleV) -> Result<Seq<char>, CodegenError> {
    match spec_text_labels(m.functions, m.constants, 0, Seq::empty()) {
        Err(e) => Err(e),
        Ok(text_labels) => Ok(
            ".intel_syntax noprefix\n"@ + crate::x86_64builder::unit::spec_gas_sections(
                seq![
                    (".data"@, spec_data_labels(m.constants, 0)),
                    (".text"@, text_labels),
                ],
                0,
            ),
        ),
    }
}

/// Compiles a module to GAS assembly text: a data section with one label
/// per constant, and a text section with one label per function holding
/// its prologue, each block and the epilogue.
///
/// The emitted text is exact end to end: `spec_compile` composes the
/// frame check, prologue, per-block emission and epilogue of every
/// function with the constant pool, through `spec_gas_sections` and the
/// builder layer below it.
#[verifier::loop_isolation(false)]
#[verifier::rlimit(100)]
#[verifier::spinoff_prover]
pub fn compile(module: Module) -> (r: Result<String, CodegenError>)
    ensures
        ({
            let sr = spec_compile(crate::ir::module_view(module));
            match r {
                Ok(s) => sr matches Ok(t) && t == s@,
                Err(e) => sr matches Err(e2) && e2 == e,
            }
        }),
{
    broadcast use crate::x86_64builder::unit::lemma_sections_view,
        crate::x86_64builder::unit::lemma_labels_view,
        crate::x86_64builder::unit::lemma_label_contents_view, crate::ir::lemma_functions_view,
        crate::ir::lemma_blocks_view, crate::ir::lemma_byte_seqs_view, lemma_offsets_ints,
        lemma_var_types_view;

    let ghost mv = crate::ir::module_view(module);
    let ghost csv = crate::ir::byte_seqs_view(module.constants@);
    let ghost fv = crate::ir::functions_view(module.functions.entries@);
    let mut section_data: Vec<(String, Label)> = Vec::new();
    let nconst = module.constants.len();
    let mut i: usize = 0;
    proof {
        assert(crate::x86_64builder::unit::labels_view(section_data@) =~= Seq::<
            (Seq<char>, crate::x86_64builder::unit::LabelV),
        >::empty());
    }
    while i < nconst
        invariant
            i <= nconst,
            nconst == module.constants@.len(),
            csv.len() == nconst,
            spec_data_labels(csv, 0) =~= crate::x86_64builder::unit::labels_view(section_data@)
                + spec_data_labels(csv, i as int),
        decreases nconst - i,
    {
        let ghost lv0 = crate::x86_64builder::unit::labels_view(section_data@);
        let mut label_name = String::new();
        label_name.append("_c.");
        let t = usize_to_string(i);
        label_name.append(t.as_str());
        proof {
            assert(label_name@ =~= "_c."@ + crate::numfmt::dec_digits(i as int));
        }
        let data = crate::ir::copy_bytes(&module.constants[i]);
        let lab = Label::data(false, data);
        proof {
            assert(crate::x86_64builder::unit::label_contents_view(lab.contents@) =~= seq![
                (
                    None::<Seq<char>>,
                    seq![PsuedoInstructionV::Bytes(csv[i as int])],
                ),
            ]);
            assert(crate::x86_64builder::unit::label_view(lab)
                == (crate::x86_64builder::unit::LabelV {
                global: false,
                contents: seq![
                    (
                        None::<Seq<char>>,
                        seq![PsuedoInstructionV::Bytes(csv[i as int])],
                    ),
                ],
            }));
        }
        section_data.push((label_name, lab));
        proof {
            assert(crate::x86_64builder::unit::labels_view(section_data@) =~= lv0.push(
                ("_c."@ + crate::numfmt::dec_digits(i as int), crate::x86_64builder::unit::label_view(lab)),
            ));
            assert(spec_data_labels(csv, i as int) == seq![
                (
                    "_c."@ + crate::numfmt::dec_digits(i as int),
                    crate::x86_64builder::unit::LabelV {
                        global: false,
                        contents: seq![
                            (
                                None::<Seq<char>>,
                                seq![PsuedoInstructionV::Bytes(csv[i as int])],
                            ),
                        ],
                    },
                ),
            ] + spec_data_labels(csv, i as int + 1));
            assert(spec_data_labels(csv, 0) =~= crate::x86_64builder::unit::labels_view(
                section_data@,
            ) + spec_data_labels(csv, i as int + 1));
        }
        i += 1;
    }
    let mut section_text: Vec<(String, Label)> = Vec::new();
    let nfuns = module.functions.entries.len();
    let mut f: usize = 0;
    proof {
        assert(crate::x86_64builder::unit::labels_view(section_text@) =~= Seq::<
            (Seq<char>, crate::x86_64builder::unit::LabelV),
        >::empty());
    }
    while f < nfuns
        invariant
            f <= nfuns,
            nfuns == module.functions.entries@.len(),
            fv.len() == nfuns,
            spec_text_labels(fv, csv, 0, Seq::empty()) == spec_text_labels(
                fv,
                csv,
                f as int,
                crate::x86_64builder::unit::labels_view(section_text@),
            ),
        decreases nfuns - f,
    {
        let ghost tl0 = crate::x86_64builder::unit::labels_view(section_text@);
        let fname = &module.functions.entries[f].0;
        let function = &module.functions.entries[f].1;
        let ghost namev = fname@;
        let ghost funv = crate::ir::function_view(*function);
        let ghost vtv = var_types_view(function.variable_types.entries@);
        let ghost frame = spec_frame(vtv, 0, 0);
        proof {
            assert(fv[f as int] == (namev, funv));
            assert(funv.variable_types == vtv);
        }
        // The frame must fit; a function whose frame cannot be laid out is
        // rejected.
        let frame_fits = check_frame_fits(function);
        if !frame_fits {
            proof {
                assert(spec_compile_function(namev, funv, csv) == Err::<
                    (Seq<char>, crate::x86_64builder::unit::LabelV),
                    CodegenError,
                >(CodegenError::UnsupportedArgumentShape));
                assert(spec_text_labels(fv, csv, f as int, tl0) == Err::<
                    Seq<(Seq<char>, crate::x86_64builder::unit::LabelV)>,
                    CodegenError,
                >(CodegenError::UnsupportedArgumentShape));
            }
            return Err(CodegenError::UnsupportedArgumentShape);
        }
        let (stack_size, offsets, prologue_pis) = prologue(function, fname);
        let ghost offs = offsets_ints(offsets@);
        let ghost stack = spec_align(frame.0, 16);
        let ghost prov = seq![
            PsuedoInstructionV::PushIntegerRegister("rbp"@),
            PsuedoInstructionV::ToRegisterMoveRegister("rbp"@, "rsp"@),
            PsuedoInstructionV::Sub(MathOpV::ToRegisterXImmediate("rsp"@, stack)),
            PsuedoInstructionV::Jmp(namev + "/0block"@),
        ];
        proof {
            lemma_frame_bounds(vtv, 0, 0);
            assert(offs =~= frame.1);
            assert(stack_size as int == stack);
            assert(pis_view(prologue_pis@) == prov);
        }
        let mut contents: Vec<(Option<String>, Vec<PsuedoInstruction>)> = Vec::new();
        contents.push((None, prologue_pis));
        proof {
            assert(crate::x86_64builder::unit::label_contents_view(contents@) =~= seq![
                (None::<Seq<char>>, prov),
            ]);
        }
        let nblocks = function.ir.len();
        let ghost firv = crate::ir::blocks_view(function.ir@);
        let mut b: usize = 0;
        while b < nblocks
            invariant
                b <= nblocks,
                nblocks == function.ir@.len(),
                firv.len() == nblocks,
                spec_block_groups(firv, offs, vtv, csv, namev, 0, seq![(None::<Seq<char>>, prov)])
                    == spec_block_groups(
                    firv,
                    offs,
                    vtv,
                    csv,
                    namev,
                    b as int,
                    crate::x86_64builder::unit::label_contents_view(contents@),
                ),
            decreases nblocks - b,
        {
            let ghost cg0 = crate::x86_64builder::unit::label_contents_view(contents@);
            proof {
                assert(firv[b as int] == crate::ir::block_view(function.ir@[b as int]));
            }
            let pis = match compile_block(&function.ir[b], function, &offsets, &module, fname) {
                Ok(p) => p,
                Err(e) => {
                    proof {
                        assert(spec_compile_block(firv[b as int], offs, vtv, csv, namev) == Err::<
                            Seq<PsuedoInstructionV>,
                            CodegenError,
                        >(e));
                        assert(spec_block_groups(firv, offs, vtv, csv, namev, b as int, cg0)
                            == Err::<
                            Seq<(Option<Seq<char>>, Seq<PsuedoInstructionV>)>,
                            CodegenError,
                        >(e));
                        assert(spec_compile_function(namev, funv, csv) == Err::<
                            (Seq<char>, crate::x86_64builder::unit::LabelV),
                            CodegenError,
                        >(e));
                        assert(spec_text_labels(fv, csv, f as int, tl0) == Err::<
                            Seq<(Seq<char>, crate::x86_64builder::unit::LabelV)>,
                            CodegenError,
                        >(e));
                    }
                    return Err(e);
                },
            };
            let mut local = usize_to_string(b);
            local.append("block");
            proof {
                assert(local@ =~= crate::numfmt::dec_digits(b as int) + "block"@);
            }
            contents.push((Some(local), pis));
            proof {
                assert(crate::x86_64builder::unit::label_contents_view(contents@) =~= cg0.push(
                    (
                        Some(crate::numfmt::dec_digits(b as int) + "block"@),
                        spec_compile_block(firv[b as int], offs, vtv, csv, namev)->Ok_0,
                    ),
                ));
                assert(spec_block_groups(firv, offs, vtv, csv, namev, b as int, cg0)
                    == spec_block_groups(
                    firv,
                    offs,
                    vtv,
                    csv,
                    namev,
                    b as int + 1,
                    crate::x86_64builder::unit::label_contents_view(contents@),
                ));
            }
            b += 1;
        }
        let ghost groups = crate::x86_64builder::unit::label_contents_view(contents@);
        proof {
            assert(spec_block_groups(firv, offs, vtv, csv, namev, nblocks as int, groups) == Ok::<
                _,
                CodegenError,
            >(groups));
        }
        let epilogue_name: &str = "epilogue";
        contents.push((Some(epilogue_name.to_owned()), epilogue(stack_size)));
        proof {
            assert(crate::x86_64builder::unit::label_contents_view(contents@) =~= groups.push(
                (
                    Some("epilogue"@),
                    seq![
                        PsuedoInstructionV::Add(MathOpV::ToRegisterXImmediate("rsp"@, stack)),
                        PsuedoInstructionV::Leave,
                        PsuedoInstructionV::Ret,
                    ],
                ),
            ));
        }
        let text_label = Label { global: function.exported, contents };
        proof {
            assert(spec_compile_function(namev, funv, csv) matches Ok(lab) && lab == (
                namev,
                crate::x86_64builder::unit::label_view(text_label),
            ));
        }
        section_text.push((fname.clone(), text_label));
        proof {
            assert(crate::x86_64builder::unit::labels_view(section_text@) =~= tl0.push(
                (namev, crate::x86_64builder::unit::label_view(text_label)),
            ));
            assert(spec_text_labels(fv, csv, f as int, tl0) == spec_text_labels(
                fv,
                csv,
                f as int + 1,
                crate::x86_64builder::unit::labels_view(section_text@),
            ));
        }
        f += 1;
    }
    let ghost tlv = crate::x86_64builder::unit::labels_view(section_text@);
    proof {
        assert(spec_text_labels(fv, csv, nfuns as int, tlv) == Ok::<_, CodegenError>(tlv));
        assert(spec_data_labels(csv, nconst as int) =~= Seq::<
            (Seq<char>, crate::x86_64builder::unit::LabelV),
        >::empty());
        assert(spec_data_labels(csv, 0) =~= crate::x86_64builder::unit::labels_view(
            section_data@,
        ));
    }
    let mut unit = Unit::new();
    let data_name: &str = ".data";
    let text_name: &str = ".text";
    unit.sections.push((data_name.to_owned(), section_data));
    unit.sections.push((text_name.to_owned(), section_text));
    let text = unit.to_gas_string();
    proof {
        let sv = crate::x86_64builder::unit::sections_view(unit.sections@);
        assert(sv =~= seq![
            (".data"@, spec_data_labels(csv, 0)),
            (".text"@, tlv),
        ]);
        assert(text@ == ".intel_syntax noprefix\n"@
            + crate::x86_64builder::unit::spec_gas_sections(sv, 0));
    }
    Ok(text)
}

/// The byte size of a value of this type, or nothing when it cannot be
/// computed within the machine word.
fn try_size_x86_64(t: &Type) -> (r: Option<isize>)
    ensures
        r matches Some(s) ==> s as int == spec_size_x86_64(type_view(*t)) && s >= 0,
        r is None ==> spec_size_x86_64(type_view(*t)) > isize::MAX,
    decreases *t,
{
    match t {
        Type::Usize => Some(8),
        Type::Pointer(_) => Some(8),
        Type::Slice(_) => Some(16),
        Type::U8 => Some(1),
        Type::Bool => Some(1),
        Type::IO => Some(0),
        Type::Tuple(ts) => {
            let ghost tsv = crate::typ::types_view(ts@);
            proof {
                crate::typ::lemma_types_view(ts@);
            }
            let n = ts.len();
            let mut acc: isize = 0;
            let mut i: usize = 0;
            while i < n
                invariant
                    i <= n,
                    n == ts@.len(),
                    tsv == crate::typ::types_view(ts@),
                    tsv.len() == n,
                    forall|j: int| 0 <= j < n ==> #[trigger] tsv[j] == type_view(ts@[j]),
                    acc >= 0,
                    acc + spec_sizes_sum(tsv, i as int) == spec_sizes_sum(tsv, 0),
                    *t == Type::Tuple(*ts),
                decreases n - i,
            {
                proof {
                    assert(decreases_to!(*t => t->Tuple_0));
                    assert(decreases_to!(*ts => ts@));
                    assert(decreases_to!(ts@ => ts@[i as int]));
                }
                let s = match try_size_x86_64(&ts[i]) {
                    Some(s) => s,
                    None => {
                        proof {
                            lemma_sizes_sum_nonneg(tsv, i as int + 1);
                            assert(spec_sizes_sum(tsv, i as int) == spec_size_x86_64(
                                tsv[i as int],
                            ) + spec_sizes_sum(tsv, i as int + 1));
                        }
                        return None;
                    },
                };
                if acc > isize::MAX - s {
                    proof {
                        lemma_sizes_sum_nonneg(tsv, i as int + 1);
                        assert(spec_sizes_sum(tsv, i as int) == spec_size_x86_64(tsv[i as int])
                            + spec_sizes_sum(tsv, i as int + 1));
                    }
                    return None;
                }
                acc = acc + s;
                i += 1;
            }
            proof {
                assert(spec_sizes_sum(tsv, n as int) == 0);
            }
            Some(acc)
        },
        Type::Array(elem, n) => {
            if *n == 0 {
                proof {
                    assert(spec_size_x86_64(type_view(**elem)) * 0 == 0) by (nonlinear_arith);
                }
                Some(0)
            } else {
                let es = match try_size_x86_64(elem) {
                    Some(s) => s,
                    None => {
                        proof {
                            lemma_size_nonneg(type_view(**elem));
                            assert(spec_size_x86_64(type_view(**elem)) <= spec_size_x86_64(
                                type_view(**elem),
                            ) * (*n as int)) by (nonlinear_arith)
                                requires
                                    spec_size_x86_64(type_view(**elem)) >= 0,
                                    *n as int >= 1,
                            ;
                        }
                        return None;
                    },
                };
                proof {
                    assert((es as i128) * (*n as i128) <= i128::MAX && (es as i128) * (
                    *n as i128) >= 0) by (nonlinear_arith)
                        requires
                            0 <= es as i128 <= 0x7fff_ffff_ffff_ffffi128,
                            0 <= *n as i128 <= 0xffff_ffff_ffff_ffffi128,
                    ;
                }
                let wide: i128 = (es as i128) * (*n as i128);
                proof {
                    assert(wide == spec_size_x86_64(type_view(**elem)) * (*n as int)) by (
                    nonlinear_arith)
                        requires
                            es as int == spec_size_x86_64(type_view(**elem)),
                            wide == (es as i128) * (*n as i128),
                    ;
                    assert(wide >= 0) by (nonlinear_arith)
                        requires
                            es >= 0,
                            *n as int >= 0,
                            wide == (es as i128) * (*n as i128),
                    ;
                }
                if wide > isize::MAX as i128 {
                    return None;
                }
                Some(wide as isize)
            }
        },
    }
}

/// Whether the function's frame layout, plus the sixteen bytes of saved
/// base pointer and return address, fits the machine word.
#[verifier::loop_isolation(false)]
fn check_frame_fits(function: &Function) -> (r: bool)
    ensures
        r <==> spec_frame(var_types_view(function.variable_types.entries@), 0, 0).0 + 16
            <= isize::MAX,
{
    broadcast use lemma_var_types_view;

    let ghost entries = var_types_view(function.variable_types.entries@);
    let n = function.variable_types.entries.len();
    let mut acc: isize = 0;
    let mut i: usize = 0;
    while i < n
        invariant
            i <= n,
            n == entries.len(),
            entries == var_types_view(function.variable_types.entries@),
            acc >= 0,
            acc % 8 == 0,
            spec_frame(entries, 0, 0).0 == spec_frame(entries, i as int, acc as int).0,
        decreases n - i,
    {
        let typ = &function.variable_types.entries[i].1;
        proof {
            assert(type_view(function.variable_types.entries@[i as int].1) == entries[i as int].1);
        }
        let ghost size = spec_size_x86_64(entries[i as int].1);
        let s = match try_size_x86_64(typ) {
            Some(s) => s,
            None => {
                proof {
                    lemma_size_nonneg(entries[i as int].1);
                    lemma_align(acc as int + size, 8);
                    lemma_frame_bounds(entries, i as int + 1, spec_align(acc as int + size, 8));
                    assert(spec_frame(entries, i as int, acc as int).0 > isize::MAX);
                }
                return false;
            },
        };
        if acc > isize::MAX - s {
            proof {
                lemma_align(acc as int + size, 8);
                lemma_frame_bounds(entries, i as int + 1, spec_align(acc as int + size, 8));
                assert(spec_frame(entries, i as int, acc as int).0 > isize::MAX - 16);
            }
            return false;
        }
        proof {
            lemma_align(acc as int + s as int, 8);
        }
        acc = acc + s;
        if acc % 8 != 0 {
            if acc > isize::MAX - 8 {
                proof {
                    let ghost accp = acc as int - size;
                    lemma_frame_bounds(entries, i as int + 1, spec_align(accp + size, 8));
                    assert(spec_frame(entries, i as int, accp).0 > isize::MAX - 16);
                }
                return false;
            }
            acc = acc + (8 - acc % 8);
        }
        i += 1;
    }
    proof {
        assert(spec_frame(entries, n as int, acc as int).0 == acc as int);
    }
    acc <= isize::MAX - 16
}

} // verus!
