//! Pseudo-instructions, labels and translation units, and the GAS text they
//! emit.

use vstd::prelude::*;
use vstd::string::StringExecFns;

use super::mathop::{spec_gas_math_op, MathOp, MathOpV};
use super::mem::{
    memory_address_view, memory_reference_view, spec_gas_address, spec_gas_reference,
    MemoryAddress, MemoryAddressV, MemoryReference, MemoryReferenceV,
};
use crate::numfmt::{dec_digits, dec_int, isize_to_string, usize_to_string};

verus! {

/// An integer register, named as it is written in GAS.
#[derive(Debug, Clone, Copy)]
pub struct IntegerRegister(pub &'static str);

// The registers used by the backend.
pub fn rax() -> (r: IntegerRegister)
    ensures
        r.0@ == "rax"@,
{
    IntegerRegister("rax")
}

pub fn rdi() -> (r: IntegerRegister)
    ensures
        r.0@ == "rdi"@,
{
    IntegerRegister("rdi")
}

pub fn rsi() -> (r: IntegerRegister)
    ensures
        r.0@ == "rsi"@,
{
    IntegerRegister("rsi")
}

pub fn rdx() -> (r: IntegerRegister)
    ensures
        r.0@ == "rdx"@,
{
    IntegerRegister("rdx")
}

pub fn rcx() -> (r: IntegerRegister)
    ensures
        r.0@ == "rcx"@,
{
    IntegerRegister("rcx")
}

pub fn r8() -> (r: IntegerRegister)
    ensures
        r.0@ == "r8"@,
{
    IntegerRegister("r8")
}

pub fn r9() -> (r: IntegerRegister)
    ensures
        r.0@ == "r9"@,
{
    IntegerRegister("r9")
}

pub fn r10() -> (r: IntegerRegister)
    ensures
        r.0@ == "r10"@,
{
    IntegerRegister("r10")
}

pub fn rbp() -> (r: IntegerRegister)
    ensures
        r.0@ == "rbp"@,
{
    IntegerRegister("rbp")
}

pub fn rsp() -> (r: IntegerRegister)
    ensures
        r.0@ == "rsp"@,
{
    IntegerRegister("rsp")
}

pub fn rip() -> (r: IntegerRegister)
    ensures
        r.0@ == "rip"@,
{
    IntegerRegister("rip")
}

/// One pseudo-instruction: raw data bytes, a move, an address computation,
/// arithmetic, control transfer, or a stack push.
#[derive(Debug)]
pub enum PsuedoInstruction {
    Bytes(Vec<u8>),
    ToRegisterMoveMemory(IntegerRegister, MemoryReference),
    ToMemoryMoveRegister(MemoryReference, IntegerRegister),
    ToRegisterMoveRegister(IntegerRegister, IntegerRegister),
    ToRegisterMoveImmediate(IntegerRegister, isize),
    Lea(IntegerRegister, MemoryAddress),
    Add(MathOp),
    Sub(MathOp),
    Mul(MathOp),
    Div(MathOp),
    Call(String),
    Jmp(String),
    Ret,
    Leave,
    PushIntegerRegister(IntegerRegister),
    PushMemory(MemoryReference),
    PushImmediate(isize),
}

/// The mathematical view of a `PsuedoInstruction`.
pub enum PsuedoInstructionV {
    Bytes(Seq<u8>),
    ToRegisterMoveMemory(Seq<char>, MemoryReferenceV),
    ToMemoryMoveRegister(MemoryReferenceV, Seq<char>),
    ToRegisterMoveRegister(Seq<char>, Seq<char>),
    ToRegisterMoveImmediate(Seq<char>, int),
    Lea(Seq<char>, MemoryAddressV),
    Add(MathOpV),
    Sub(MathOpV),
    Mul(MathOpV),
    Div(MathOpV),
    Call(Seq<char>),
    Jmp(Seq<char>),
    Ret,
    Leave,
    PushIntegerRegister(Seq<char>),
    PushMemory(MemoryReferenceV),
    PushImmediate(int),
}

pub open spec fn pi_view(p: PsuedoInstruction) -> PsuedoInstructionV {
    match p {
        PsuedoInstruction::Bytes(b) => PsuedoInstructionV::Bytes(b@),
        PsuedoInstruction::ToRegisterMoveMemory(r, m) => PsuedoInstructionV::ToRegisterMoveMemory(
            r.0@,
            memory_reference_view(m),
        ),
        PsuedoInstruction::ToMemoryMoveRegister(m, r) => PsuedoInstructionV::ToMemoryMoveRegister(
            memory_reference_view(m),
            r.0@,
        ),
        PsuedoInstruction::ToRegisterMoveRegister(a, b) => (
        PsuedoInstructionV::ToRegisterMoveRegister(a.0@, b.0@)),
        PsuedoInstruction::ToRegisterMoveImmediate(r, i) => (
        PsuedoInstructionV::ToRegisterMoveImmediate(r.0@, i as int)),
        PsuedoInstruction::Lea(r, a) => PsuedoInstructionV::Lea(r.0@, memory_address_view(a)),
        PsuedoInstruction::Add(op) => PsuedoInstructionV::Add(super::mathop::math_op_view(op)),
        PsuedoInstruction::Sub(op) => PsuedoInstructionV::Sub(super::mathop::math_op_view(op)),
        PsuedoInstruction::Mul(op) => PsuedoInstructionV::Mul(super::mathop::math_op_view(op)),
        PsuedoInstruction::Div(op) => PsuedoInstructionV::Div(super::mathop::math_op_view(op)),
        PsuedoInstruction::Call(n) => PsuedoInstructionV::Call(n@),
        PsuedoInstruction::Jmp(n) => PsuedoInstructionV::Jmp(n@),
        PsuedoInstruction::Ret => PsuedoInstructionV::Ret,
        PsuedoInstruction::Leave => PsuedoInstructionV::Leave,
        PsuedoInstruction::PushIntegerRegister(r) => PsuedoInstructionV::PushIntegerRegister(r.0@),
        PsuedoInstruction::PushMemory(m) => PsuedoInstructionV::PushMemory(
            memory_reference_view(m),
        ),
        PsuedoInstruction::PushImmediate(i) => PsuedoInstructionV::PushImmediate(i as int),
    }
}

pub open spec fn pis_view(s: Seq<PsuedoInstruction>) -> Seq<PsuedoInstructionV>
    decreases s,
{
    if s.len() == 0 {
        Seq::empty()
    } else {
        seq![pi_view(s[0])] + pis_view(s.drop_first())
    }
}

/// How `pis_view` relates to indexing.
pub broadcast proof fn lemma_pis_view(s: Seq<PsuedoInstruction>)
    ensures
        (#[trigger] pis_view(s)).len() == s.len(),
        forall|i: int| 0 <= i < s.len() ==> #[trigger] pis_view(s)[i] == pi_view(s[i]),
    decreases s.len(),
{
    if s.len() > 0 {
        lemma_pis_view(s.drop_first());
        assert forall|i: int| 0 <= i < s.len() implies #[trigger] pis_view(s)[i] == pi_view(
            s[i],
        ) by {
            if i > 0 {
                assert(pis_view(s)[i] == pis_view(s.drop_first())[i - 1]);
            }
        }
    }
}

/// A label: whether it is global, and its named groups of instructions. The
/// unnamed group, keyed `None`, is emitted first under the label itself.
#[derive(Debug)]
pub struct Label {
    pub global: bool,
    pub contents: Vec<(Option<String>, Vec<PsuedoInstruction>)>,
}

/// A translation unit: sections of labels, in emission order.
#[derive(Debug)]
pub struct Unit {
    pub sections: Vec<(String, Vec<(String, Label)>)>,
}

/// A builder collecting pseudo-instructions.
#[derive(Debug)]
pub struct PsuedoInstructionBuilder {
    pub contents: Vec<PsuedoInstruction>,
}

impl Label {
    /// A data label holding raw bytes.
    pub fn data(global: bool, data: Vec<u8>) -> (r: Label)
        ensures
            r.global == global,
            r.contents@.len() == 1,
            r.contents@[0].0 is None,
            pis_view(r.contents@[0].1@) == seq![PsuedoInstructionV::Bytes(data@)],
    {
        broadcast use lemma_pis_view;

        let ghost dv = data@;
        let mut pis: Vec<PsuedoInstruction> = Vec::new();
        pis.push(PsuedoInstruction::Bytes(data));
        proof {
            assert(pis_view(pis@) =~= seq![PsuedoInstructionV::Bytes(dv)]);
        }
        let mut contents: Vec<(Option<String>, Vec<PsuedoInstruction>)> = Vec::new();
        contents.push((None, pis));
        Label { global, contents }
    }
}

impl PsuedoInstructionBuilder {
    /// Appends a load-effective-address instruction.
    pub fn lea(&mut self, dest: IntegerRegister, src: MemoryAddress)
        ensures
            pis_view(final(self).contents@) == pis_view(old(self).contents@).push(
                PsuedoInstructionV::Lea(dest.0@, memory_address_view(src)),
            ),
    {
        broadcast use lemma_pis_view;

        let ghost before = pis_view(self.contents@);
        self.contents.push(PsuedoInstruction::Lea(dest, src));
        proof {
            assert(pis_view(self.contents@) =~= before.push(
                PsuedoInstructionV::Lea(dest.0@, memory_address_view(src)),
            ));
        }
    }

    /// Appends a return.
    pub fn ret(&mut self)
        ensures
            pis_view(final(self).contents@) == pis_view(old(self).contents@).push(
                PsuedoInstructionV::Ret,
            ),
    {
        broadcast use lemma_pis_view;

        let ghost before = pis_view(self.contents@);
        self.contents.push(PsuedoInstruction::Ret);
        proof {
            assert(pis_view(self.contents@) =~= before.push(PsuedoInstructionV::Ret));
        }
    }

    /// Appends a leave.
    pub fn leave(&mut self)
        ensures
            pis_view(final(self).contents@) == pis_view(old(self).contents@).push(
                PsuedoInstructionV::Leave,
            ),
    {
        broadcast use lemma_pis_view;

        let ghost before = pis_view(self.contents@);
        self.contents.push(PsuedoInstruction::Leave);
        proof {
            assert(pis_view(self.contents@) =~= before.push(PsuedoInstructionV::Leave));
        }
    }

    /// Appends a call of the named symbol.
    pub fn call(&mut self, name: String)
        ensures
            pis_view(final(self).contents@) == pis_view(old(self).contents@).push(
                PsuedoInstructionV::Call(name@),
            ),
    {
        broadcast use lemma_pis_view;

        let ghost before = pis_view(self.contents@);
        let ghost nv = name@;
        self.contents.push(PsuedoInstruction::Call(name));
        proof {
            assert(pis_view(self.contents@) =~= before.push(PsuedoInstructionV::Call(nv)));
        }
    }

    /// Appends a jump to the named label.
    pub fn jmp(&mut self, name: String)
        ensures
            pis_view(final(self).contents@) == pis_view(old(self).contents@).push(
                PsuedoInstructionV::Jmp(name@),
            ),
    {
        broadcast use lemma_pis_view;

        let ghost before = pis_view(self.contents@);
        let ghost nv = name@;
        self.contents.push(PsuedoInstruction::Jmp(name));
        proof {
            assert(pis_view(self.contents@) =~= before.push(PsuedoInstructionV::Jmp(nv)));
        }
    }
}

impl Unit {
    /// An empty unit.
    pub fn new() -> (r: Unit)
        ensures
            r.sections@.len() == 0,
    {
        Unit { sections: Vec::new() }
    }
}

// The emitted text of a unit, built label by label.
/// The mathematical view of a `Label`.
pub struct LabelV {
    pub global: bool,
    pub contents: Seq<(Option<Seq<char>>, Seq<PsuedoInstructionV>)>,
}

pub open spec fn label_contents_view(s: Seq<(Option<String>, Vec<PsuedoInstruction>)>) -> Seq<
    (Option<Seq<char>>, Seq<PsuedoInstructionV>),
>
    decreases s,
{
    if s.len() == 0 {
        Seq::empty()
    } else {
        seq![
            (
                match s[0].0 {
                    Some(n) => Some(n@),
                    None => None,
                },
                pis_view(s[0].1@),
            ),
        ] + label_contents_view(s.drop_first())
    }
}

/// How `label_contents_view` relates to indexing.
pub broadcast proof fn lemma_label_contents_view(s: Seq<(Option<String>, Vec<PsuedoInstruction>)>)
    ensures
        (#[trigger] label_contents_view(s)).len() == s.len(),
        forall|i: int|
            0 <= i < s.len() ==> #[trigger] label_contents_view(s)[i] == (
            match s[i].0 {
                Some(n) => Some(n@),
                None => None,
            },
            pis_view(s[i].1@),
            ),
    decreases s.len(),
{
    if s.len() > 0 {
        lemma_label_contents_view(s.drop_first());
        assert forall|i: int| 0 <= i < s.len() implies #[trigger] label_contents_view(s)[i] == (
        match s[i].0 {
            Some(n) => Some(n@),
            None => None,
        },
        pis_view(s[i].1@),
        ) by {
            if i > 0 {
                assert(label_contents_view(s)[i] == label_contents_view(s.drop_first())[i - 1]);
            }
        }
    }
}

pub open spec fn label_view(l: Label) -> LabelV {
    LabelV { global: l.global, contents: label_contents_view(l.contents@) }
}

/// The text of a run of instructions, one per line.
pub open spec fn spec_gas_instrs(pis: Seq<PsuedoInstructionV>, i: int) -> Seq<char>
    decreases pis.len() - i,
{
    if i < 0 || i >= pis.len() {
        Seq::empty()
    } else {
        super::to_string::spec_gas_instruction(pis[i]) + seq!['\n'] + spec_gas_instrs(pis, i + 1)
    }
}

/// The instruction list of the first unnamed group, if any.
pub open spec fn spec_first_unnamed(
    contents: Seq<(Option<Seq<char>>, Seq<PsuedoInstructionV>)>,
    i: int,
) -> Option<Seq<PsuedoInstructionV>>
    decreases contents.len() - i,
{
    if i < 0 || i >= contents.len() {
        None
    } else if contents[i].0 is None {
        Some(contents[i].1)
    } else {
        spec_first_unnamed(contents, i + 1)
    }
}

/// The text of the named groups of a label, in order.
pub open spec fn spec_gas_locals(
    name: Seq<char>,
    contents: Seq<(Option<Seq<char>>, Seq<PsuedoInstructionV>)>,
    i: int,
) -> Seq<char>
    decreases contents.len() - i,
{
    if i < 0 || i >= contents.len() {
        Seq::empty()
    } else {
        let here = match contents[i].0 {
            Some(local) => seq!['"'] + name + seq!['/'] + local + "\":\n"@ + spec_gas_instrs(
                contents[i].1,
                0,
            ),
            None => Seq::<char>::empty(),
        };
        here + spec_gas_locals(name, contents, i + 1)
    }
}

/// The text of one label: the optional global directive, the label line,
/// the unnamed group and then the named groups.
pub open spec fn spec_gas_label(name: Seq<char>, l: LabelV) -> Seq<char> {
    let global_part = if l.global {
        ".global "@ + seq!['"'] + name + "\"\n"@
    } else {
        Seq::<char>::empty()
    };
    let head = seq!['"'] + name + "\":\n"@;
    let unnamed = match spec_first_unnamed(l.contents, 0) {
        Some(pis) => spec_gas_instrs(pis, 0),
        None => Seq::<char>::empty(),
    };
    global_part + head + unnamed + spec_gas_locals(name, l.contents, 0)
}

pub open spec fn labels_view(s: Seq<(String, Label)>) -> Seq<(Seq<char>, LabelV)>
    decreases s,
{
    if s.len() == 0 {
        Seq::empty()
    } else {
        seq![(s[0].0@, label_view(s[0].1))] + labels_view(s.drop_first())
    }
}

/// How `labels_view` relates to indexing.
pub broadcast proof fn lemma_labels_view(s: Seq<(String, Label)>)
    ensures
        (#[trigger] labels_view(s)).len() == s.len(),
        forall|i: int|
            0 <= i < s.len() ==> #[trigger] labels_view(s)[i] == (s[i].0@, label_view(s[i].1)),
    decreases s.len(),
{
    if s.len() > 0 {
        lemma_labels_view(s.drop_first());
        assert forall|i: int| 0 <= i < s.len() implies #[trigger] labels_view(s)[i] == (
        s[i].0@,
        label_view(s[i].1),
        ) by {
            if i > 0 {
                assert(labels_view(s)[i] == labels_view(s.drop_first())[i - 1]);
            }
        }
    }
}

/// The text of a section's labels, in order.
pub open spec fn spec_gas_labels(labels: Seq<(Seq<char>, LabelV)>, i: int) -> Seq<char>
    decreases labels.len() - i,
{
    if i < 0 || i >= labels.len() {
        Seq::empty()
    } else {
        spec_gas_label(labels[i].0, labels[i].1) + spec_gas_labels(labels, i + 1)
    }
}

pub open spec fn sections_view(s: Seq<(String, Vec<(String, Label)>)>) -> Seq<
    (Seq<char>, Seq<(Seq<char>, LabelV)>),
>
    decreases s,
{
    if s.len() == 0 {
        Seq::empty()
    } else {
        seq![(s[0].0@, labels_view(s[0].1@))] + sections_view(s.drop_first())
    }
}

/// How `sections_view` relates to indexing.
pub broadcast proof fn lemma_sections_view(s: Seq<(String, Vec<(String, Label)>)>)
    ensures
        (#[trigger] sections_view(s)).len() == s.len(),
        forall|i: int|
            0 <= i < s.len() ==> #[trigger] sections_view(s)[i] == (
            s[i].0@,
            labels_view(s[i].1@),
            ),
    decreases s.len(),
{
    if s.len() > 0 {
        lemma_sections_view(s.drop_first());
        assert forall|i: int| 0 <= i < s.len() implies #[trigger] sections_view(s)[i] == (
        s[i].0@,
        labels_view(s[i].1@),
        ) by {
            if i > 0 {
                assert(sections_view(s)[i] == sections_view(s.drop_first())[i - 1]);
            }
        }
    }
}

/// The text of a unit's sections, in order.
pub open spec fn spec_gas_sections(
    sections: Seq<(Seq<char>, Seq<(Seq<char>, LabelV)>)>,
    i: int,
) -> Seq<char>
    decreases sections.len() - i,
{
    if i < 0 || i >= sections.len() {
        Seq::empty()
    } else {
        ".section "@ + sections[i].0 + seq!['\n'] + spec_gas_labels(sections[i].1, 0)
            + spec_gas_sections(sections, i + 1)
    }
}

/// The whole unit's text: the syntax directive, then each section.
pub open spec fn spec_gas_unit(u: Unit) -> Seq<char> {
    ".intel_syntax noprefix\n"@ + spec_gas_sections(sections_view(u.sections@), 0)
}

/// Writes a run of instructions, one per line.
#[verifier::loop_isolation(false)]
fn gas_of_instrs(pis: &Vec<PsuedoInstruction>, out: &mut String)
    ensures
        final(out)@ == old(out)@ + spec_gas_instrs(pis_view(pis@), 0),
{
    broadcast use lemma_pis_view;

    let ghost pv = pis_view(pis@);
    let ghost out0 = old(out)@;
    let n = pis.len();
    let mut i: usize = 0;
    while i < n
        invariant
            i <= n,
            n == pis@.len(),
            pv == pis_view(pis@),
            pv.len() == n,
            out0 + spec_gas_instrs(pv, 0) =~= out@ + spec_gas_instrs(pv, i as int),
        decreases n - i,
    {
        let ghost outp = out@;
        let line = pis[i].to_gas_string();
        out.append(line.as_str());
        crate::tokeniser::push_char(out, '\n');
        proof {
            assert(outp + spec_gas_instrs(pv, i as int) =~= out@ + spec_gas_instrs(
                pv,
                i as int + 1,
            ));
        }
        i += 1;
    }
    proof {
        assert(spec_gas_instrs(pv, n as int) =~= Seq::<char>::empty());
        assert(out@ =~= out0 + spec_gas_instrs(pv, 0));
    }
}

/// Writes one label: the global directive when exported, the label line,
/// the unnamed group, then the named groups.
#[verifier::loop_isolation(false)]
#[verifier::rlimit(80)]
fn gas_of_label(name: &String, label: &Label, out: &mut String)
    ensures
        final(out)@ == old(out)@ + spec_gas_label(name@, label_view(*label)),
{
    broadcast use lemma_label_contents_view;

    let ghost lv = label_view(*label);
    let ghost out0 = old(out)@;
    if label.global {
        out.append(".global ");
        crate::tokeniser::push_char(out, '"');
        out.append(name.as_str());
        out.append("\"\n");
    }
    crate::tokeniser::push_char(out, '"');
    out.append(name.as_str());
    out.append("\":\n");
    let ghost head_done = out@;
    // The unnamed group, if any.
    let n = label.contents.len();
    let mut i: usize = 0;
    let mut found = false;
    while i < n && !found
        invariant
            i <= n,
            n == label.contents@.len(),
            lv == label_view(*label),
            lv.contents.len() == n,
            out@ == head_done || found,
            found ==> (spec_first_unnamed(lv.contents, 0) matches Some(pis) && out@ == head_done
                + spec_gas_instrs(pis, 0)),
            !found ==> spec_first_unnamed(lv.contents, 0) == spec_first_unnamed(
                lv.contents,
                i as int,
            ),
        decreases n - i, (if found { 0int } else { 1int }),
    {
        let is_unnamed = match &label.contents[i].0 {
            None => true,
            Some(_) => false,
        };
        if is_unnamed {
            gas_of_instrs(&label.contents[i].1, out);
            found = true;
            proof {
                assert(spec_first_unnamed(lv.contents, i as int) == Some(lv.contents[i as int].1));
            }
        } else {
            i += 1;
        }
    }
    proof {
        if !found {
            assert(spec_first_unnamed(lv.contents, n as int) is None);
            assert(spec_first_unnamed(lv.contents, 0) is None);
        }
    }
    let ghost unnamed_done = out@;
    // The named groups, in order.
    let mut j: usize = 0;
    while j < n
        invariant
            j <= n,
            n == label.contents@.len(),
            lv == label_view(*label),
            lv.contents.len() == n,
            unnamed_done + spec_gas_locals(name@, lv.contents, 0) =~= out@ + spec_gas_locals(
                name@,
                lv.contents,
                j as int,
            ),
        decreases n - j,
    {
        let ghost outp = out@;
        match &label.contents[j].0 {
            Some(local) => {
                crate::tokeniser::push_char(out, '"');
                out.append(name.as_str());
                crate::tokeniser::push_char(out, '/');
                out.append(local.as_str());
                out.append("\":\n");
                gas_of_instrs(&label.contents[j].1, out);
                proof {
                    assert(outp + spec_gas_locals(name@, lv.contents, j as int) =~= out@
                        + spec_gas_locals(name@, lv.contents, j as int + 1));
                }
            },
            None => {
                proof {
                    assert(outp + spec_gas_locals(name@, lv.contents, j as int) =~= out@
                        + spec_gas_locals(name@, lv.contents, j as int + 1));
                }
            },
        }
        j += 1;
    }
    proof {
        assert(spec_gas_locals(name@, lv.contents, n as int) =~= Seq::<char>::empty());
        assert(out@ =~= out0 + spec_gas_label(name@, lv));
    }
}

impl Unit {
    /// Writes the whole unit as GAS text, in section and label order.
    #[verifier::loop_isolation(false)]
    #[verifier::rlimit(80)]
    pub fn to_gas_string(&self) -> (r: String)
        ensures
            r@ == spec_gas_unit(*self),
    {
        broadcast use lemma_sections_view, lemma_labels_view;

        let ghost sv = sections_view(self.sections@);
        let mut out = String::new();
        out.append(".intel_syntax noprefix\n");
        let ghost head = out@;
        let n = self.sections.len();
        let mut i: usize = 0;
        while i < n
            invariant
                i <= n,
                n == self.sections@.len(),
                sv == sections_view(self.sections@),
                sv.len() == n,
                head + spec_gas_sections(sv, 0) =~= out@ + spec_gas_sections(sv, i as int),
            decreases n - i,
        {
            let ghost outp = out@;
            let section = &self.sections[i];
            out.append(".section ");
            out.append(section.0.as_str());
            crate::tokeniser::push_char(&mut out, '\n');
            let ghost labels_start = out@;
            let nl = section.1.len();
            let ghost lsv = labels_view(section.1@);
            let mut j: usize = 0;
            while j < nl
                invariant
                    j <= nl,
                    nl == section.1@.len(),
                    lsv == labels_view(section.1@),
                    lsv.len() == nl,
                    labels_start + spec_gas_labels(lsv, 0) =~= out@ + spec_gas_labels(
                        lsv,
                        j as int,
                    ),
                decreases nl - j,
            {
                let ghost outq = out@;
                gas_of_label(&section.1[j].0, &section.1[j].1, &mut out);
                proof {
                    assert(outq + spec_gas_labels(lsv, j as int) =~= out@ + spec_gas_labels(
                        lsv,
                        j as int + 1,
                    ));
                }
                j += 1;
            }
            proof {
                assert(spec_gas_labels(lsv, nl as int) =~= Seq::<char>::empty());
                assert(outp + spec_gas_sections(sv, i as int) =~= out@ + spec_gas_sections(
                    sv,
                    i as int + 1,
                ));
            }
            i += 1;
        }
        proof {
            assert(spec_gas_sections(sv, n as int) =~= Seq::<char>::empty());
            assert(out@ =~= spec_gas_unit(*self));
        }
        out
    }
}

} // verus!
