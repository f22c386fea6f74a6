//! The GAS text of each pseudo-instruction.

use vstd::prelude::*;
use vstd::string::StringExecFns;

use super::mathop::spec_gas_math_op;
use super::mem::{spec_gas_address, spec_gas_reference};
use super::unit::{pi_view, PsuedoInstruction, PsuedoInstructionV};
use crate::numfmt::{dec_digits, dec_int};

verus! {

/// The decimal byte values of a data directive, separated by commas.
pub open spec fn spec_gas_bytes(bytes: Seq<u8>, i: int) -> Seq<char>
    decreases bytes.len() - i,
{
    if i < 0 || i >= bytes.len() {
        Seq::empty()
    } else if i + 1 == bytes.len() {
        dec_digits(bytes[i] as int)
    } else {
        dec_digits(bytes[i] as int) + seq![','] + spec_gas_bytes(bytes, i + 1)
    }
}

/// The GAS text of one pseudo-instruction.
pub open spec fn spec_gas_instruction(p: PsuedoInstructionV) -> Seq<char> {
    match p {
        PsuedoInstructionV::Add(op) => "add "@ + spec_gas_math_op(op),
        PsuedoInstructionV::Div(op) => "div "@ + spec_gas_math_op(op),
        PsuedoInstructionV::Mul(op) => "mul "@ + spec_gas_math_op(op),
        PsuedoInstructionV::Sub(op) => "sub "@ + spec_gas_math_op(op),
        PsuedoInstructionV::Jmp(name) => "jmp \""@ + name + seq!['"'],
        PsuedoInstructionV::Bytes(bytes) => ".byte "@ + spec_gas_bytes(bytes, 0),
        PsuedoInstructionV::Call(name) => "call \""@ + name + seq!['"'],
        PsuedoInstructionV::Lea(reg, mem) => "lea "@ + reg + seq![',', ' '] + spec_gas_address(
            mem,
        ),
        PsuedoInstructionV::Leave => "leave"@,
        PsuedoInstructionV::Ret => "ret"@,
        PsuedoInstructionV::PushImmediate(imm) => "push "@ + dec_int(imm),
        PsuedoInstructionV::PushIntegerRegister(reg) => "push "@ + reg,
        PsuedoInstructionV::PushMemory(mem) => "push "@ + spec_gas_reference(mem),
        PsuedoInstructionV::ToMemoryMoveRegister(mem, reg) => "mov "@ + spec_gas_reference(mem)
            + seq![',', ' '] + reg,
        PsuedoInstructionV::ToRegisterMoveMemory(reg, mem) => "mov "@ + reg + seq![',', ' ']
            + spec_gas_reference(mem),
        PsuedoInstructionV::ToRegisterMoveRegister(left, right) => "mov "@ + left + seq![',', ' ']
            + right,
        PsuedoInstructionV::ToRegisterMoveImmediate(reg, imm) => "mov "@ + reg + seq![',', ' ']
            + dec_int(imm),
    }
}

impl PsuedoInstruction {
    /// Writes the instruction as GAS text.
    #[verifier::loop_isolation(false)]
    #[verifier::rlimit(60)]
    pub fn to_gas_string(&self) -> (r: String)
        ensures
            r@ == spec_gas_instruction(pi_view(*self)),
    {
        proof {
            reveal_strlit(", ");
            assert(", "@ =~= seq![',', ' ']);
        }
        let mut out = String::new();
        match self {
            PsuedoInstruction::Add(op) => {
                out.append("add ");
                let t = op.to_gas_string();
                out.append(t.as_str());
            },
            PsuedoInstruction::Div(op) => {
                out.append("div ");
                let t = op.to_gas_string();
                out.append(t.as_str());
            },
            PsuedoInstruction::Mul(op) => {
                out.append("mul ");
                let t = op.to_gas_string();
                out.append(t.as_str());
            },
            PsuedoInstruction::Sub(op) => {
                out.append("sub ");
                let t = op.to_gas_string();
                out.append(t.as_str());
            },
            PsuedoInstruction::Jmp(name) => {
                out.append("jmp \"");
                out.append(name.as_str());
                crate::tokeniser::push_char(&mut out, '"');
            },
            PsuedoInstruction::Bytes(bytes) => {
                out.append(".byte ");
                let n = bytes.len();
                let mut i: usize = 0;
                while i < n
                    invariant
                        i <= n,
                        n == bytes@.len(),
                        ".byte "@ + spec_gas_bytes(bytes@, 0) =~= out@ + spec_gas_bytes(
                            bytes@,
                            i as int,
                        ),
                    decreases n - i,
                {
                    let ghost out0 = out@;
                    let d = crate::numfmt::usize_to_string(bytes[i] as usize);
                    out.append(d.as_str());
                    if i + 1 < n {
                        crate::tokeniser::push_char(&mut out, ',');
                        proof {
                            assert(out@ =~= out0 + (dec_digits(bytes@[i as int] as int)
                                + seq![',']));
                            assert(out0 + spec_gas_bytes(bytes@, i as int) =~= out@
                                + spec_gas_bytes(bytes@, i as int + 1));
                        }
                    } else {
                        proof {
                            assert(spec_gas_bytes(bytes@, i as int + 1) =~= Seq::<char>::empty());
                            assert(out0 + spec_gas_bytes(bytes@, i as int) =~= out@
                                + spec_gas_bytes(bytes@, i as int + 1));
                        }
                    }
                    i += 1;
                }
                proof {
                    assert(spec_gas_bytes(bytes@, n as int) =~= Seq::<char>::empty());
                    assert(out@ =~= ".byte "@ + spec_gas_bytes(bytes@, 0));
                }
            },
            PsuedoInstruction::Call(name) => {
                out.append("call \"");
                out.append(name.as_str());
                crate::tokeniser::push_char(&mut out, '"');
            },
            PsuedoInstruction::Lea(reg, mem) => {
                out.append("lea ");
                out.append(reg.0);
                out.append(", ");
                let t = mem.to_gas_string();
                out.append(t.as_str());
            },
            PsuedoInstruction::Leave => {
                out.append("leave");
            },
            PsuedoInstruction::Ret => {
                out.append("ret");
            },
            PsuedoInstruction::PushImmediate(imm) => {
                out.append("push ");
                let t = crate::numfmt::isize_to_string(*imm);
                out.append(t.as_str());
            },
            PsuedoInstruction::PushIntegerRegister(reg) => {
                out.append("push ");
                out.append(reg.0);
            },
            PsuedoInstruction::PushMemory(mem) => {
                out.append("push ");
                let t = mem.to_gas_string();
                out.append(t.as_str());
            },
            PsuedoInstruction::ToMemoryMoveRegister(mem, reg) => {
                out.append("mov ");
                let t = mem.to_gas_string();
                out.append(t.as_str());
                out.append(", ");
                out.append(reg.0);
            },
            PsuedoInstruction::ToRegisterMoveMemory(reg, mem) => {
                out.append("mov ");
                out.append(reg.0);
                out.append(", ");
                let t = mem.to_gas_string();
                out.append(t.as_str());
            },
            PsuedoInstruction::ToRegisterMoveRegister(left, right) => {
                out.append("mov ");
                out.append(left.0);
                out.append(", ");
                out.append(right.0);
            },
            PsuedoInstruction::ToRegisterMoveImmediate(reg, imm) => {
                out.append("mov ");
                out.append(reg.0);
                out.append(", ");
                let t = crate::numfmt::isize_to_string(*imm);
                out.append(t.as_str());
            },
        }
        proof {
            assert(out@ =~= spec_gas_instruction(pi_view(*self)));
        }
        out
    }
}

} // verus!
