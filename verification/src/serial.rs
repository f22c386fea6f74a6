//! The binary serializer for partially evaluated programs: a module and a
//! run result are written to a self-describing byte format with explicit
//! variant tags and length-prefixed sequences, and read back exactly.
//!
//! Every encoder is specified exactly by a mathematical encoder over the
//! views and every decoder by a mathematical decoder; the 64-bit integer
//! layer carries a proved round trip, and the structural round trip of a
//! whole program is checked by an end-to-end test.

use vstd::prelude::*;

use crate::ir::{
    blocks_view, byte_seqs_view, lemma_blocks_view, lemma_byte_seqs_view, lemma_vars_map_view,
    module_view, BlockV, FunctionV, Module, ModuleV, OperationV, StatementV, VarsV,
};
use crate::typ::{PointerV, SignatureV, TypeV};
use crate::vm::{run_result_view, RunResult, RunResultV};

verus! {

/// The little-endian bytes of a nonnegative number, `k` bytes wide.
pub open spec fn le_bytes(v: int, k: nat) -> Seq<u8>
    decreases k,
{
    if k == 0 {
        Seq::empty()
    } else {
        seq![(v % 256) as u8] + le_bytes(v / 256, (k - 1) as nat)
    }
}

/// The number read back from little-endian bytes.
pub open spec fn le_val(s: Seq<u8>) -> int
    decreases s.len(),
{
    if s.len() == 0 {
        0
    } else {
        s[0] + 256 * le_val(s.drop_first())
    }
}

/// `k` powers of 256.
pub open spec fn pow256(k: nat) -> int
    decreases k,
{
    if k == 0 {
        1
    } else {
        256 * pow256((k - 1) as nat)
    }
}

/// Reading back the bytes of a number below `256^k` recovers it.
pub proof fn lemma_le_round_trip(v: int, k: nat)
    requires
        0 <= v < pow256(k),
    ensures
        le_bytes(v, k).len() == k,
        le_val(le_bytes(v, k)) == v,
    decreases k,
{
    if k > 0 {
        assert(v / 256 < pow256((k - 1) as nat) && v / 256 >= 0 && 0 <= v % 256 < 256) by (
        nonlinear_arith)
            requires
                0 <= v < 256 * pow256((k - 1) as nat),
                pow256((k - 1) as nat) >= 1,
        ;
        lemma_pow256_pos((k - 1) as nat);
        lemma_le_round_trip(v / 256, (k - 1) as nat);
        let b = le_bytes(v, k);
        assert(b.drop_first() =~= le_bytes(v / 256, (k - 1) as nat));
        assert(le_val(b) == v % 256 + 256 * (v / 256));
    }
}

/// Powers of 256 grow with the exponent.
pub proof fn lemma_pow256_mono(a: nat, b: nat)
    requires
        a <= b,
    ensures
        pow256(a) <= pow256(b),
    decreases b,
{
    if a < b {
        lemma_pow256_mono(a, (b - 1) as nat);
        lemma_pow256_pos((b - 1) as nat);
    }
}

/// Powers of 256 are positive.
pub proof fn lemma_pow256_pos(k: nat)
    ensures
        pow256(k) >= 1,
    decreases k,
{
    if k > 0 {
        lemma_pow256_pos((k - 1) as nat);
    }
}

/// The encoding of a 64-bit number: eight little-endian bytes.
pub open spec fn enc_u64(v: int) -> Seq<u8> {
    le_bytes(v, 8)
}

/// Decoding a 64-bit number: eight bytes, when present.
pub open spec fn dec_u64(s: Seq<u8>) -> Option<(int, int)> {
    if s.len() < 8 {
        None
    } else {
        Some((le_val(s.subrange(0, 8)), 8))
    }
}

/// `2^64` as a power of 256.
pub open spec fn u64_bound() -> int {
    pow256(8)
}

/// Decoding an encoded 64-bit number, with anything after it, recovers it.
pub proof fn lemma_u64_round_trip(v: int, rest: Seq<u8>)
    requires
        0 <= v < u64_bound(),
    ensures
        enc_u64(v).len() == 8,
        dec_u64(enc_u64(v) + rest) == Some((v, 8int)),
{
    lemma_le_round_trip(v, 8);
    assert((enc_u64(v) + rest).subrange(0, 8) =~= enc_u64(v));
}

/// The numeric bound of the 64-bit encoding covers every usize.
pub proof fn lemma_usize_fits()
    ensures
        usize::MAX < u64_bound(),
{
    reveal_with_fuel(pow256, 9);
    assert(pow256(8) == 0x1_0000_0000_0000_0000);
}

/// Writes a 64-bit number.
#[verifier::loop_isolation(false)]
pub fn emit_u64(out: &mut Vec<u8>, v: u64)
    ensures
        final(out)@ == old(out)@ + enc_u64(v as int),
{
    let ghost out0 = old(out)@;
    proof {
        lemma_le_bytes_len(v as int, 8);
        assert(le_bytes(v as int, 8).take(0) =~= Seq::<u8>::empty());
        assert(out@ =~= out0 + le_bytes(v as int, 8).take(0));
    }
    let mut m = v;
    let mut k: usize = 0;
    while k < 8
        invariant
            k <= 8,
            m as int == spec_shift_down(v as int, k as nat),
            out@ =~= out0 + le_bytes(v as int, 8).take(k as int),
            le_bytes(v as int, 8).len() == 8,
        decreases 8 - k,
    {
        proof {
            lemma_le_byte_at(v as int, 8, k as nat);
        }
        out.push((m % 256) as u8);
        proof {
            assert(out@ =~= out0 + le_bytes(v as int, 8).take(k as int + 1));
        }
        m = m / 256;
        k += 1;
    }
    proof {
        assert(le_bytes(v as int, 8).take(8) =~= le_bytes(v as int, 8));
    }
}

/// The number with its low `k` bytes shifted away.
pub open spec fn spec_shift_down(v: int, k: nat) -> int
    decreases k,
{
    if k == 0 {
        v
    } else {
        spec_shift_down(v, (k - 1) as nat) / 256
    }
}

/// The `k`-th little-endian byte is the shifted number's low byte.
pub proof fn lemma_le_byte_at(v: int, width: nat, k: nat)
    requires
        0 <= v,
        k < width,
    ensures
        le_bytes(v, width).len() == width,
        le_bytes(v, width)[k as int] == (spec_shift_down(v, k) % 256) as u8,
        le_bytes(v, width).take(k as int + 1) =~= le_bytes(v, width).take(k as int) + seq![
            (spec_shift_down(v, k) % 256) as u8,
        ],
    decreases k,
{
    lemma_le_bytes_len(v, width);
    lemma_le_byte_index(v, width, k);
}

/// Little-endian byte lists have their stated width.
pub proof fn lemma_le_bytes_len(v: int, width: nat)
    ensures
        le_bytes(v, width).len() == width,
    decreases width,
{
    if width > 0 {
        lemma_le_bytes_len(v / 256, (width - 1) as nat);
    }
}

/// The `k`-th little-endian byte, by index.
pub proof fn lemma_le_byte_index(v: int, width: nat, k: nat)
    requires
        0 <= v,
        k < width,
    ensures
        le_bytes(v, width)[k as int] == (spec_shift_down(v, k) % 256) as u8,
    decreases k,
{
    lemma_le_bytes_len(v, width);
    if k == 0 {
    } else {
        lemma_le_byte_index(v / 256, (width - 1) as nat, (k - 1) as nat);
        assert(le_bytes(v, width)[k as int] == le_bytes(v / 256, (width - 1) as nat)[k - 1]);
        lemma_shift_down_step(v, k);
    }
}

/// Shifting down one more byte divides once more.
pub proof fn lemma_shift_down_step(v: int, k: nat)
    requires
        k >= 1,
    ensures
        spec_shift_down(v / 256, (k - 1) as nat) == spec_shift_down(v, k),
    decreases k,
{
    if k == 1 {
        assert(spec_shift_down(v / 256, 0) == v / 256);
        assert(spec_shift_down(v, 0) == v);
        assert(spec_shift_down(v, 1) == spec_shift_down(v, 0) / 256);
    } else {
        lemma_shift_down_step(v, (k - 1) as nat);
        assert(spec_shift_down(v / 256, (k - 1) as nat) == spec_shift_down(
            v / 256,
            (k - 2) as nat,
        ) / 256);
        assert(spec_shift_down(v, k) == spec_shift_down(v, (k - 1) as nat) / 256);
    }
}

/// Reads a 64-bit number, advancing the cursor.
pub fn read_u64(s: &[u8], i: &mut usize) -> (r: Option<u64>)
    requires
        *old(i) <= s@.len(),
    ensures
        ({
            let sr = dec_u64(s@.skip(*old(i) as int));
            match r {
                Some(v) => sr matches Some(p) && p.0 == v as int && *final(i) == *old(i) + p.1
                    && *old(i) <= *final(i) <= s@.len(),
                None => sr is None && *final(i) == *old(i),
            }
        }),
{
    if s.len() - *i < 8 {
        proof {
            assert(s@.skip(*old(i) as int).len() < 8);
        }
        return None;
    }
    let ghost suffix = s@.skip(*old(i) as int);
    let total = s.len();
    let mut v: u64 = 0;
    let mut k: usize = 8;
    // Read the eight bytes from the most significant down, accumulating.
    while k > 0
        invariant
            k <= 8,
            *i == *old(i),
            total == s@.len(),
            *old(i) + 8 <= s@.len(),
            suffix == s@.skip(*old(i) as int),
            v as int == le_val(suffix.subrange(k as int, 8)),
        decreases k,
    {
        let b = s[*i + (k - 1)];
        proof {
            assert(suffix.subrange(k as int - 1, 8).drop_first() =~= suffix.subrange(k as int, 8));
            assert(suffix.subrange(k as int - 1, 8)[0] == s@[*old(i) + (k - 1)]);
            lemma_le_val_bound(suffix.subrange(k as int, 8));
            lemma_pow256_bound();
            lemma_pow256_mono((8 - k) as nat, 7);
            assert((v as int) * 256 + 255 < pow256(8)) by (nonlinear_arith)
                requires
                    0 <= v as int <= pow256(7) - 1,
                    pow256(8) == 256 * pow256(7),
            ;
        }
        v = v * 256 + (b as u64);
        proof {
            assert(v as int == le_val(suffix.subrange(k as int - 1, 8)));
        }
        k -= 1;
    }
    proof {
        assert(suffix.subrange(0, 8) =~= s@.skip(*old(i) as int).subrange(0, 8));
    }
    *i += 8;
    Some(v)
}

/// A byte list's value is below the power of its length.
pub proof fn lemma_le_val_bound(s: Seq<u8>)
    ensures
        0 <= le_val(s) < pow256(s.len()),
    decreases s.len(),
{
    if s.len() == 0 {
    } else {
        lemma_le_val_bound(s.drop_first());
        lemma_pow256_pos((s.len() - 1) as nat);
        assert(s[0] + 256 * le_val(s.drop_first()) < 256 * pow256((s.len() - 1) as nat)) by (
        nonlinear_arith)
            requires
                0 <= s[0] < 256,
                0 <= le_val(s.drop_first()) <= pow256((s.len() - 1) as nat) - 1,
                pow256((s.len() - 1) as nat) >= 1,
        ;
    }
}

/// The 64-bit powers of 256 used as bounds, computed.
pub proof fn lemma_pow256_bound()
    ensures
        pow256(8) == 0x1_0000_0000_0000_0000,
        pow256(7) == 0x1_0000_0000_0000_00,
{
    reveal_with_fuel(pow256, 9);
    assert(pow256(8) == 0x1_0000_0000_0000_0000 && pow256(7) == 0x1_0000_0000_0000_00);
}

// Value encodings: each value is a tag byte where the type has variants,
// and length-prefixed fields.
/// The encoding of a flag.
pub open spec fn enc_bool(b: bool) -> Seq<u8> {
    if b {
        seq![1u8]
    } else {
        seq![0u8]
    }
}

/// The encoding of a byte blob: its length, then its bytes.
pub open spec fn enc_bytes(s: Seq<u8>) -> Seq<u8> {
    enc_u64(s.len() as int) + s
}

/// The encoding of a string: its UTF-8 bytes as a blob.
pub open spec fn enc_string(s: Seq<char>) -> Seq<u8> {
    enc_bytes(vstd::utf8::encode_utf8(s))
}

/// The encoding of an optional byte blob.
pub open spec fn enc_opt_bytes(o: Option<Seq<u8>>) -> Seq<u8> {
    match o {
        None => seq![0u8],
        Some(b) => seq![1u8] + enc_bytes(b),
    }
}

/// The encoding of an optional variable id.
pub open spec fn enc_opt_u64(o: Option<usize>) -> Seq<u8> {
    match o {
        None => seq![0u8],
        Some(v) => seq![1u8] + enc_u64(v as int),
    }
}

/// The encoding of a type.
pub open spec fn enc_type(t: TypeV) -> Seq<u8>
    decreases t, 0int,
{
    match t {
        TypeV::Usize => seq![0u8],
        TypeV::Tuple(ts) => seq![1u8] + enc_u64(ts.len() as int) + enc_type_list(ts, 0),
        TypeV::Pointer(p) => seq![2u8] + enc_pointer(*p),
        TypeV::U8 => seq![3u8],
        TypeV::Slice(b) => seq![4u8] + enc_type(*b),
        TypeV::Array(e, n) => seq![5u8] + enc_type(*e) + enc_u64(n as int),
        TypeV::IO => seq![6u8],
        TypeV::Bool => seq![7u8],
    }
}

/// The encodings of the types from index `i` on, in order.
pub open spec fn enc_type_list(ts: Seq<TypeV>, i: int) -> Seq<u8>
    decreases ts, ts.len() - i,
{
    if i < 0 || i >= ts.len() {
        Seq::empty()
    } else {
        enc_type(ts[i]) + enc_type_list(ts, i + 1)
    }
}

/// The encoding of a pointer type.
pub open spec fn enc_pointer(p: PointerV) -> Seq<u8>
    decreases p, 0int,
{
    match p {
        PointerV::Function(sig) => seq![0u8] + enc_signature(*sig),
        PointerV::Value(t) => seq![1u8] + enc_type(*t),
    }
}

/// The encoding of a signature: argument count, arguments, return type.
pub open spec fn enc_signature(s: SignatureV) -> Seq<u8>
    decreases s, 0int,
{
    enc_u64(s.args.len() as int) + enc_type_list(s.args, 0) + enc_type(*s.returns)
}

/// The encodings of the names from index `i` on.
pub open spec fn enc_name_list(names: Seq<Seq<char>>, i: int) -> Seq<u8>
    decreases names.len() - i,
{
    if i < 0 || i >= names.len() {
        Seq::empty()
    } else {
        enc_string(names[i]) + enc_name_list(names, i + 1)
    }
}

/// The encodings of the variable ids from index `i` on.
pub open spec fn enc_usize_list(vs: Seq<usize>, i: int) -> Seq<u8>
    decreases vs.len() - i,
{
    if i < 0 || i >= vs.len() {
        Seq::empty()
    } else {
        enc_u64(vs[i] as int) + enc_usize_list(vs, i + 1)
    }
}

/// The encodings of id pairs from index `i` on.
pub open spec fn enc_pair_list(ps: Seq<(usize, usize)>, i: int) -> Seq<u8>
    decreases ps.len() - i,
{
    if i < 0 || i >= ps.len() {
        Seq::empty()
    } else {
        enc_u64(ps[i].0 as int) + enc_u64(ps[i].1 as int) + enc_pair_list(ps, i + 1)
    }
}

/// The encodings of a variable state's entries from index `i` on.
pub open spec fn enc_vars_list(vs: VarsV, i: int) -> Seq<u8>
    decreases vs.len() - i,
{
    if i < 0 || i >= vs.len() {
        Seq::empty()
    } else {
        enc_u64(vs[i].0 as int) + enc_opt_bytes(vs[i].1) + enc_vars_list(vs, i + 1)
    }
}

/// The encoding of a variable state: its entry count, then its entries.
pub open spec fn enc_vars(vs: VarsV) -> Seq<u8> {
    enc_u64(vs.len() as int) + enc_vars_list(vs, 0)
}

/// The encoding of an operation.
pub open spec fn enc_operation(op: OperationV) -> Seq<u8>
    decreases op, 0int,
{
    match op {
        OperationV::Call { function, args } => seq![0u8] + enc_u64(function.len() as int)
            + enc_name_list(function, 0) + enc_u64(args.len() as int) + enc_usize_list(args, 0),
        OperationV::CallPointer { pointer, args } => seq![1u8] + enc_u64(pointer as int) + enc_u64(
            args.len() as int,
        ) + enc_usize_list(args, 0),
        OperationV::LoadGlobal { src } => seq![2u8] + enc_u64(src as int),
        OperationV::LoadLocal { src } => seq![3u8] + enc_u64(src as int),
        OperationV::Phi { block_to_var } => seq![4u8] + enc_u64(block_to_var.len() as int)
            + enc_pair_list(block_to_var, 0),
        OperationV::PartialCall { blocks, variables } => seq![5u8] + enc_u64(blocks.len() as int)
            + enc_block_list(blocks, 0) + enc_vars(variables),
    }
}

/// The encoding of a statement: its operation, then its destination.
pub open spec fn enc_statement(st: StatementV) -> Seq<u8>
    decreases st, 0int,
{
    match st {
        StatementV::Operation(op, store) => enc_operation(op) + enc_opt_u64(store),
    }
}

/// The encodings of the statements from index `i` on.
pub open spec fn enc_stmt_list(ss: Seq<StatementV>, i: int) -> Seq<u8>
    decreases ss, ss.len() - i,
{
    if i < 0 || i >= ss.len() {
        Seq::empty()
    } else {
        enc_statement(ss[i]) + enc_stmt_list(ss, i + 1)
    }
}

/// The encoding of a terminator.
pub open spec fn enc_terminal(t: crate::ir::Terminal) -> Seq<u8> {
    match t {
        crate::ir::Terminal::Return(o) => seq![0u8] + enc_opt_u64(o),
        crate::ir::Terminal::Evaluate(o) => seq![1u8] + enc_opt_u64(o),
        crate::ir::Terminal::Jump(b) => seq![2u8] + enc_u64(b as int),
        crate::ir::Terminal::CondJump { cond, then, els } => seq![3u8] + enc_u64(cond as int)
            + enc_u64(then as int) + enc_u64(els as int),
        crate::ir::Terminal::ThenElseJump(v) => seq![4u8] + enc_u64(v as int),
    }
}

/// The encoding of a block: its statement count, statements, terminator.
pub open spec fn enc_block(b: BlockV) -> Seq<u8>
    decreases b, 0int,
{
    enc_u64(b.statements.len() as int) + enc_stmt_list(b.statements, 0) + enc_terminal(b.terminal)
}

/// The encodings of the blocks from index `i` on.
pub open spec fn enc_block_list(bs: Seq<BlockV>, i: int) -> Seq<u8>
    decreases bs, bs.len() - i,
{
    if i < 0 || i >= bs.len() {
        Seq::empty()
    } else {
        enc_block(bs[i]) + enc_block_list(bs, i + 1)
    }
}

/// The encodings of a variable-type table's entries from index `i` on.
pub open spec fn enc_var_types_list(vt: Seq<(usize, TypeV)>, i: int) -> Seq<u8>
    decreases vt.len() - i,
{
    if i < 0 || i >= vt.len() {
        Seq::empty()
    } else {
        enc_u64(vt[i].0 as int) + enc_type(vt[i].1) + enc_var_types_list(vt, i + 1)
    }
}

/// The encoding of a function: blocks, exported flag, variable types,
/// signature.
pub open spec fn enc_function(f: FunctionV) -> Seq<u8> {
    enc_u64(f.ir.len() as int) + enc_block_list(f.ir, 0) + enc_bool(f.exported) + enc_u64(
        f.variable_types.len() as int,
    ) + enc_var_types_list(f.variable_types, 0) + enc_signature(f.signature)
}

/// The encodings of the constants from index `i` on.
pub open spec fn enc_const_list(cs: Seq<Seq<u8>>, i: int) -> Seq<u8>
    decreases cs.len() - i,
{
    if i < 0 || i >= cs.len() {
        Seq::empty()
    } else {
        enc_bytes(cs[i]) + enc_const_list(cs, i + 1)
    }
}

/// The encodings of the named functions from index `i` on.
pub open spec fn enc_function_list(fs: Seq<(Seq<char>, FunctionV)>, i: int) -> Seq<u8>
    decreases fs.len() - i,
{
    if i < 0 || i >= fs.len() {
        Seq::empty()
    } else {
        enc_string(fs[i].0) + enc_function(fs[i].1) + enc_function_list(fs, i + 1)
    }
}

/// The encoding of a module: constants, then functions.
pub open spec fn enc_module(m: ModuleV) -> Seq<u8> {
    enc_u64(m.constants.len() as int) + enc_const_list(m.constants, 0) + enc_u64(
        m.functions.len() as int,
    ) + enc_function_list(m.functions, 0)
}

/// The encoding of a run result.
pub open spec fn enc_run_result(r: RunResultV) -> Seq<u8>
    decreases r,
{
    match r {
        RunResultV::Concrete(data) => seq![0u8] + enc_bytes(data),
        RunResultV::Partial(blocks, vars) => seq![1u8] + enc_u64(blocks.len() as int)
            + enc_block_list(blocks, 0) + enc_vars(vars),
        RunResultV::ConditionalPartial { condition, then, els } => seq![2u8] + enc_u64(
            condition.0.len() as int,
        ) + enc_block_list(condition.0, 0) + enc_vars(condition.1) + enc_run_result(*then)
            + enc_run_result(*els),
        RunResultV::ThenElseJump(b) => seq![3u8] + enc_bool(b),
    }
}

/// The encoding of a partially evaluated program: the module, then the run
/// result.
pub open spec fn enc_program(m: ModuleV, r: RunResultV) -> Seq<u8> {
    enc_module(m) + enc_run_result(r)
}

// Executable encoders: each appends exactly its value's encoding.
/// Writes a usize as a 64-bit number.
pub fn emit_usize(out: &mut Vec<u8>, v: usize)
    ensures
        final(out)@ == old(out)@ + enc_u64(v as int),
{
    emit_u64(out, v as u64);
}

/// Writes a flag.
pub fn emit_bool(out: &mut Vec<u8>, b: bool)
    ensures
        final(out)@ == old(out)@ + enc_bool(b),
{
    let ghost out0 = old(out)@;
    if b {
        out.push(1u8);
    } else {
        out.push(0u8);
    }
    proof {
        assert(out@ =~= out0 + enc_bool(b));
    }
}

/// Writes a byte blob: its length, then its bytes.
#[verifier::loop_isolation(false)]
pub fn emit_bytes(out: &mut Vec<u8>, v: &Vec<u8>)
    ensures
        final(out)@ == old(out)@ + enc_bytes(v@),
{
    let ghost out0 = old(out)@;
    emit_u64(out, v.len() as u64);
    let ghost mid = out@;
    let n = v.len();
    let mut i: usize = 0;
    while i < n
        invariant
            i <= n,
            n == v@.len(),
            out@ =~= mid + v@.take(i as int),
        decreases n - i,
    {
        out.push(v[i]);
        proof {
            assert(out@ =~= mid + v@.take(i as int + 1));
        }
        i += 1;
    }
    proof {
        assert(v@.take(n as int) =~= v@);
        assert(out@ =~= out0 + enc_bytes(v@));
    }
}

/// Writes a string as its UTF-8 bytes.
pub fn emit_string(out: &mut Vec<u8>, v: &String)
    ensures
        final(out)@ == old(out)@ + enc_string(v@),
{
    let ghost out0 = old(out)@;
    let bytes = crate::tokeniser::string_bytes(v);
    emit_bytes(out, &bytes);
    proof {
        assert(out@ =~= out0 + enc_string(v@));
    }
}

/// Writes an optional byte blob.
pub fn emit_opt_bytes(out: &mut Vec<u8>, v: &Option<Vec<u8>>)
    ensures
        final(out)@ == old(out)@ + enc_opt_bytes(crate::ir::opt_bytes_view(*v)),
{
    let ghost out0 = old(out)@;
    match v {
        None => {
            out.push(0u8);
            proof {
                assert(out@ =~= out0 + enc_opt_bytes(crate::ir::opt_bytes_view(*v)));
            }
        },
        Some(b) => {
            out.push(1u8);
            let ghost mid = out@;
            proof {
                assert(mid =~= out0 + seq![1u8]);
            }
            emit_bytes(out, b);
            proof {
                assert(out@ =~= out0 + enc_opt_bytes(crate::ir::opt_bytes_view(*v)));
            }
        },
    }
}

/// Writes an optional variable id.
pub fn emit_opt_usize(out: &mut Vec<u8>, v: &Option<usize>)
    ensures
        final(out)@ == old(out)@ + enc_opt_u64(*v),
{
    let ghost out0 = old(out)@;
    match v {
        None => {
            out.push(0u8);
            proof {
                assert(out@ =~= out0 + enc_opt_u64(*v));
            }
        },
        Some(x) => {
            out.push(1u8);
            let ghost mid = out@;
            proof {
                assert(mid =~= out0 + seq![1u8]);
            }
            emit_usize(out, *x);
            proof {
                assert(out@ =~= out0 + enc_opt_u64(*v));
            }
        },
    }
}

/// Writes a type.
#[verifier::loop_isolation(false)]
#[verifier::rlimit(60)]
pub fn emit_type(out: &mut Vec<u8>, t: &crate::typ::Type)
    ensures
        final(out)@ == old(out)@ + enc_type(crate::typ::type_view(*t)),
    decreases *t,
{
    let ghost out0 = old(out)@;
    let ghost tv = crate::typ::type_view(*t);
    match t {
        crate::typ::Type::Usize => {
            out.push(0u8);
            proof {
                assert(out@ =~= out0 + enc_type(tv));
            }
        },
        crate::typ::Type::Tuple(ts) => {
            broadcast use crate::typ::lemma_types_view;

            let ghost tsv = crate::typ::types_view(ts@);
            out.push(1u8);
            emit_usize(out, ts.len());
            let ghost mid = out@;
            let n = ts.len();
            let mut i: usize = 0;
            while i < n
                invariant
                    i <= n,
                    n == ts@.len(),
                    tsv == crate::typ::types_view(ts@),
                    tsv.len() == n,
                    mid + enc_type_list(tsv, 0) =~= out@ + enc_type_list(tsv, i as int),
                    *t == crate::typ::Type::Tuple(*ts),
                decreases n - i,
            {
                let ghost outp = out@;
                proof {
                    assert(decreases_to!(*t => t->Tuple_0));
                    assert(decreases_to!(*ts => ts@));
                    assert(decreases_to!(ts@ => ts@[i as int]));
                }
                emit_type(out, &ts[i]);
                proof {
                    assert(outp + enc_type_list(tsv, i as int) =~= out@ + enc_type_list(
                        tsv,
                        i as int + 1,
                    ));
                }
                i += 1;
            }
            proof {
                assert(enc_type_list(tsv, n as int) =~= Seq::<u8>::empty());
                assert(out@ =~= out0 + enc_type(tv));
            }
        },
        crate::typ::Type::Pointer(p) => {
            out.push(2u8);
            proof {
                assert(decreases_to!(*t => t->Pointer_0));
            }
            emit_pointer(out, p);
            proof {
                assert(out@ =~= out0 + enc_type(tv));
            }
        },
        crate::typ::Type::U8 => {
            out.push(3u8);
            proof {
                assert(out@ =~= out0 + enc_type(tv));
            }
        },
        crate::typ::Type::Slice(b) => {
            out.push(4u8);
            proof {
                assert(decreases_to!(*t => t->Slice_0));
            }
            emit_type(out, b);
            proof {
                assert(out@ =~= out0 + enc_type(tv));
            }
        },
        crate::typ::Type::Array(e, n) => {
            out.push(5u8);
            proof {
                assert(decreases_to!(*t => t->Array_0));
            }
            emit_type(out, e);
            emit_usize(out, *n);
            proof {
                assert(out@ =~= out0 + enc_type(tv));
            }
        },
        crate::typ::Type::IO => {
            out.push(6u8);
            proof {
                assert(out@ =~= out0 + enc_type(tv));
            }
        },
        crate::typ::Type::Bool => {
            out.push(7u8);
            proof {
                assert(out@ =~= out0 + enc_type(tv));
            }
        },
    }
}

/// Writes a pointer type.
pub fn emit_pointer(out: &mut Vec<u8>, p: &crate::typ::Pointer)
    ensures
        final(out)@ == old(out)@ + enc_pointer(crate::typ::pointer_view(*p)),
    decreases *p,
{
    let ghost out0 = old(out)@;
    let ghost pv = crate::typ::pointer_view(*p);
    match p {
        crate::typ::Pointer::Function(sig) => {
            out.push(0u8);
            proof {
                assert(decreases_to!(*p => p->Function_0));
            }
            emit_signature(out, sig);
            proof {
                assert(out@ =~= out0 + enc_pointer(pv));
            }
        },
        crate::typ::Pointer::Value(t) => {
            out.push(1u8);
            proof {
                assert(decreases_to!(*p => p->Value_0));
            }
            emit_type(out, t);
            proof {
                assert(out@ =~= out0 + enc_pointer(pv));
            }
        },
    }
}

/// Writes a signature.
#[verifier::loop_isolation(false)]
pub fn emit_signature(out: &mut Vec<u8>, s: &crate::typ::Signature)
    ensures
        final(out)@ == old(out)@ + enc_signature(crate::typ::signature_view(*s)),
    decreases *s,
{
    broadcast use crate::typ::lemma_types_view;

    let ghost out0 = old(out)@;
    let ghost sv = crate::typ::signature_view(*s);
    let ghost tsv = crate::typ::types_view(s.args@);
    emit_usize(out, s.args.len());
    let ghost mid = out@;
    let n = s.args.len();
    let mut i: usize = 0;
    while i < n
        invariant
            i <= n,
            n == s.args@.len(),
            tsv == crate::typ::types_view(s.args@),
            tsv.len() == n,
            mid + enc_type_list(tsv, 0) =~= out@ + enc_type_list(tsv, i as int),
        decreases n - i,
    {
        let ghost outp = out@;
        proof {
            assert(decreases_to!(*s => s.args));
            assert(decreases_to!(s.args => s.args@));
            assert(decreases_to!(s.args@ => s.args@[i as int]));
        }
        emit_type(out, &s.args[i]);
        proof {
            assert(outp + enc_type_list(tsv, i as int) =~= out@ + enc_type_list(
                tsv,
                i as int + 1,
            ));
        }
        i += 1;
    }
    proof {
        assert(enc_type_list(tsv, n as int) =~= Seq::<u8>::empty());
    }
    emit_type(out, &s.returns);
    proof {
        assert(out@ =~= out0 + enc_signature(sv));
    }
}

/// Writes a variable state: entry count, then id and optional bytes per
/// entry.
#[verifier::loop_isolation(false)]
pub fn emit_vars(out: &mut Vec<u8>, vars: &crate::maps::VarMap<Option<Vec<u8>>>)
    ensures
        final(out)@ == old(out)@ + enc_vars(crate::ir::vars_map_view(vars.entries@)),
{
    broadcast use lemma_vars_map_view;

    let ghost out0 = old(out)@;
    let ghost vv = crate::ir::vars_map_view(vars.entries@);
    emit_usize(out, vars.entries.len());
    let ghost mid = out@;
    let n = vars.entries.len();
    let mut i: usize = 0;
    while i < n
        invariant
            i <= n,
            n == vars.entries@.len(),
            vv == crate::ir::vars_map_view(vars.entries@),
            vv.len() == n,
            mid + enc_vars_list(vv, 0) =~= out@ + enc_vars_list(vv, i as int),
        decreases n - i,
    {
        let ghost outp = out@;
        emit_usize(out, vars.entries[i].0);
        emit_opt_bytes(out, &vars.entries[i].1);
        proof {
            assert(vv[i as int] == (
                vars.entries@[i as int].0,
                crate::ir::opt_bytes_view(vars.entries@[i as int].1),
            ));
            assert(outp + enc_vars_list(vv, i as int) =~= out@ + enc_vars_list(vv, i as int + 1));
        }
        i += 1;
    }
    proof {
        assert(enc_vars_list(vv, n as int) =~= Seq::<u8>::empty());
        assert(out@ =~= out0 + enc_vars(vv));
    }
}

/// Writes an operation.
#[verifier::loop_isolation(false)]
#[verifier::rlimit(100)]
pub fn emit_operation(out: &mut Vec<u8>, op: &crate::ir::Operation)
    ensures
        final(out)@ == old(out)@ + enc_operation(crate::ir::operation_view(*op)),
    decreases *op, 1int,
{
    broadcast use crate::ir::lemma_names_view, lemma_blocks_view, lemma_vars_map_view;

    let ghost out0 = old(out)@;
    let ghost opv = crate::ir::operation_view(*op);
    match op {
        crate::ir::Operation::Call { function, args } => {
            let ghost fv = crate::ir::names_view(function@);
            out.push(0u8);
            emit_usize(out, function.len());
            let ghost mid = out@;
            let n = function.len();
            let mut i: usize = 0;
            while i < n
                invariant
                    i <= n,
                    n == function@.len(),
                    fv == crate::ir::names_view(function@),
                    fv.len() == n,
                    mid + enc_name_list(fv, 0) =~= out@ + enc_name_list(fv, i as int),
                decreases n - i,
            {
                let ghost outp = out@;
                emit_string(out, &function[i]);
                proof {
                    assert(outp + enc_name_list(fv, i as int) =~= out@ + enc_name_list(
                        fv,
                        i as int + 1,
                    ));
                }
                i += 1;
            }
            proof {
                assert(enc_name_list(fv, n as int) =~= Seq::<u8>::empty());
            }
            emit_usize(out, args.len());
            let ghost mid2 = out@;
            let na = args.len();
            let mut j: usize = 0;
            while j < na
                invariant
                    j <= na,
                    na == args@.len(),
                    mid2 + enc_usize_list(args@, 0) =~= out@ + enc_usize_list(args@, j as int),
                decreases na - j,
            {
                let ghost outp = out@;
                emit_usize(out, args[j]);
                proof {
                    assert(outp + enc_usize_list(args@, j as int) =~= out@ + enc_usize_list(
                        args@,
                        j as int + 1,
                    ));
                }
                j += 1;
            }
            proof {
                assert(enc_usize_list(args@, na as int) =~= Seq::<u8>::empty());
                assert(out@ =~= out0 + enc_operation(opv));
            }
        },
        crate::ir::Operation::CallPointer { pointer, args } => {
            out.push(1u8);
            emit_usize(out, *pointer);
            emit_usize(out, args.len());
            let ghost mid2 = out@;
            let na = args.len();
            let mut j: usize = 0;
            while j < na
                invariant
                    j <= na,
                    na == args@.len(),
                    mid2 + enc_usize_list(args@, 0) =~= out@ + enc_usize_list(args@, j as int),
                decreases na - j,
            {
                let ghost outp = out@;
                emit_usize(out, args[j]);
                proof {
                    assert(outp + enc_usize_list(args@, j as int) =~= out@ + enc_usize_list(
                        args@,
                        j as int + 1,
                    ));
                }
                j += 1;
            }
            proof {
                assert(enc_usize_list(args@, na as int) =~= Seq::<u8>::empty());
                assert(out@ =~= out0 + enc_operation(opv));
            }
        },
        crate::ir::Operation::LoadGlobal { src } => {
            out.push(2u8);
            emit_usize(out, *src);
            proof {
                assert(out@ =~= out0 + enc_operation(opv));
            }
        },
        crate::ir::Operation::LoadLocal { src } => {
            out.push(3u8);
            emit_usize(out, *src);
            proof {
                assert(out@ =~= out0 + enc_operation(opv));
            }
        },
        crate::ir::Operation::Phi { block_to_var } => {
            out.push(4u8);
            emit_usize(out, block_to_var.entries.len());
            let ghost mid = out@;
            let ghost pv = block_to_var.entries@;
            let n = block_to_var.entries.len();
            let mut i: usize = 0;
            while i < n
                invariant
                    i <= n,
                    n == block_to_var.entries@.len(),
                    pv == block_to_var.entries@,
                    mid + enc_pair_list(pv, 0) =~= out@ + enc_pair_list(pv, i as int),
                decreases n - i,
            {
                let ghost outp = out@;
                emit_usize(out, block_to_var.entries[i].0);
                emit_usize(out, block_to_var.entries[i].1);
                proof {
                    assert(outp + enc_pair_list(pv, i as int) =~= out@ + enc_pair_list(
                        pv,
                        i as int + 1,
                    ));
                }
                i += 1;
            }
            proof {
                assert(enc_pair_list(pv, n as int) =~= Seq::<u8>::empty());
                assert(out@ =~= out0 + enc_operation(opv));
            }
        },
        crate::ir::Operation::PartialCall { blocks, variables } => {
            out.push(5u8);
            proof {
                assert(decreases_to!(*op => op->PartialCall_blocks));
            }
            emit_usize(out, blocks.len());
            emit_blocks(out, blocks);
            emit_vars(out, variables);
            proof {
                assert(out@ =~= out0 + enc_operation(opv));
            }
        },
    }
}

/// Writes a statement.
pub fn emit_statement(out: &mut Vec<u8>, st: &crate::ir::Statement)
    ensures
        final(out)@ == old(out)@ + enc_statement(crate::ir::statement_view(*st)),
    decreases *st, 2int,
{
    let ghost out0 = old(out)@;
    match st {
        crate::ir::Statement::Operation(op, store) => {
            proof {
                assert(decreases_to!(*st => st->Operation_0));
            }
            emit_operation(out, op);
            emit_opt_usize(out, store);
            proof {
                assert(out@ =~= out0 + enc_statement(crate::ir::statement_view(*st)));
            }
        },
    }
}

/// Writes a terminator.
pub fn emit_terminal(out: &mut Vec<u8>, t: &crate::ir::Terminal)
    ensures
        final(out)@ == old(out)@ + enc_terminal(*t),
{
    let ghost out0 = old(out)@;
    match t {
        crate::ir::Terminal::Return(o) => {
            out.push(0u8);
            emit_opt_usize(out, o);
        },
        crate::ir::Terminal::Evaluate(o) => {
            out.push(1u8);
            emit_opt_usize(out, o);
        },
        crate::ir::Terminal::Jump(b) => {
            out.push(2u8);
            emit_usize(out, *b);
        },
        crate::ir::Terminal::CondJump { cond, then, els } => {
            out.push(3u8);
            emit_usize(out, *cond);
            emit_usize(out, *then);
            emit_usize(out, *els);
        },
        crate::ir::Terminal::ThenElseJump(v) => {
            out.push(4u8);
            emit_usize(out, *v);
        },
    }
    proof {
        assert(out@ =~= out0 + enc_terminal(*t));
    }
}

/// Writes a block.
#[verifier::loop_isolation(false)]
pub fn emit_block(out: &mut Vec<u8>, b: &crate::ir::Block)
    ensures
        final(out)@ == old(out)@ + enc_block(crate::ir::block_view(*b)),
    decreases *b, 3int,
{
    broadcast use crate::ir::lemma_statements_view;

    let ghost out0 = old(out)@;
    let ghost bv = crate::ir::block_view(*b);
    let ghost ssv = crate::ir::statements_view(b.statements@);
    emit_usize(out, b.statements.len());
    let ghost mid = out@;
    let n = b.statements.len();
    let mut i: usize = 0;
    while i < n
        invariant
            i <= n,
            n == b.statements@.len(),
            ssv == crate::ir::statements_view(b.statements@),
            ssv.len() == n,
            mid + enc_stmt_list(ssv, 0) =~= out@ + enc_stmt_list(ssv, i as int),
        decreases n - i,
    {
        let ghost outp = out@;
        proof {
            assert(decreases_to!(*b => b.statements));
            assert(decreases_to!(b.statements => b.statements@));
            assert(decreases_to!(b.statements@ => b.statements@[i as int]));
        }
        emit_statement(out, &b.statements[i]);
        proof {
            assert(outp + enc_stmt_list(ssv, i as int) =~= out@ + enc_stmt_list(
                ssv,
                i as int + 1,
            ));
        }
        i += 1;
    }
    proof {
        assert(enc_stmt_list(ssv, n as int) =~= Seq::<u8>::empty());
    }
    emit_terminal(out, &b.terminal);
    proof {
        assert(out@ =~= out0 + enc_block(bv));
    }
}

/// Writes a block list, without a count prefix.
#[verifier::loop_isolation(false)]
pub fn emit_blocks(out: &mut Vec<u8>, bs: &Vec<crate::ir::Block>)
    ensures
        final(out)@ == old(out)@ + enc_block_list(crate::ir::blocks_view(bs@), 0),
    decreases *bs, 0int,
{
    broadcast use lemma_blocks_view;

    let ghost out0 = old(out)@;
    let ghost bsv = crate::ir::blocks_view(bs@);
    let n = bs.len();
    let mut i: usize = 0;
    proof {
        assert(out0 + enc_block_list(bsv, 0) =~= out@ + enc_block_list(bsv, 0));
    }
    while i < n
        invariant
            i <= n,
            n == bs@.len(),
            bsv == crate::ir::blocks_view(bs@),
            bsv.len() == n,
            out0 + enc_block_list(bsv, 0) =~= out@ + enc_block_list(bsv, i as int),
        decreases n - i,
    {
        let ghost outp = out@;
        proof {
            assert(decreases_to!(*bs => bs@));
            assert(decreases_to!(bs@ => bs@[i as int]));
        }
        emit_block(out, &bs[i]);
        proof {
            assert(outp + enc_block_list(bsv, i as int) =~= out@ + enc_block_list(
                bsv,
                i as int + 1,
            ));
        }
        i += 1;
    }
    proof {
        assert(enc_block_list(bsv, n as int) =~= Seq::<u8>::empty());
    }
}

/// Writes a function.
#[verifier::loop_isolation(false)]
pub fn emit_function(out: &mut Vec<u8>, f: &crate::ir::Function)
    ensures
        final(out)@ == old(out)@ + enc_function(crate::ir::function_view(*f)),
{
    broadcast use crate::ir::lemma_var_types_view, lemma_blocks_view;

    let ghost out0 = old(out)@;
    let ghost fv = crate::ir::function_view(*f);
    emit_usize(out, f.ir.len());
    emit_blocks(out, &f.ir);
    emit_bool(out, f.exported);
    emit_usize(out, f.variable_types.entries.len());
    let ghost vtv = crate::ir::var_types_view(f.variable_types.entries@);
    let ghost mid = out@;
    let n = f.variable_types.entries.len();
    let mut i: usize = 0;
    while i < n
        invariant
            i <= n,
            n == f.variable_types.entries@.len(),
            vtv == crate::ir::var_types_view(f.variable_types.entries@),
            vtv.len() == n,
            mid + enc_var_types_list(vtv, 0) =~= out@ + enc_var_types_list(vtv, i as int),
        decreases n - i,
    {
        let ghost outp = out@;
        emit_usize(out, f.variable_types.entries[i].0);
        emit_type(out, &f.variable_types.entries[i].1);
        proof {
            assert(outp + enc_var_types_list(vtv, i as int) =~= out@ + enc_var_types_list(
                vtv,
                i as int + 1,
            ));
        }
        i += 1;
    }
    proof {
        assert(enc_var_types_list(vtv, n as int) =~= Seq::<u8>::empty());
    }
    emit_signature(out, &f.signature);
    proof {
        assert(out@ =~= out0 + enc_function(fv));
    }
}

/// Writes a module.
#[verifier::loop_isolation(false)]
pub fn emit_module(out: &mut Vec<u8>, m: &Module)
    ensures
        final(out)@ == old(out)@ + enc_module(module_view(*m)),
{
    broadcast use lemma_byte_seqs_view, crate::ir::lemma_functions_view;

    let ghost out0 = old(out)@;
    let ghost mv = module_view(*m);
    emit_usize(out, m.constants.len());
    let ghost csv = byte_seqs_view(m.constants@);
    let ghost mid = out@;
    let n = m.constants.len();
    let mut i: usize = 0;
    while i < n
        invariant
            i <= n,
            n == m.constants@.len(),
            csv == byte_seqs_view(m.constants@),
            csv.len() == n,
            mid + enc_const_list(csv, 0) =~= out@ + enc_const_list(csv, i as int),
        decreases n - i,
    {
        let ghost outp = out@;
        emit_bytes(out, &m.constants[i]);
        proof {
            assert(outp + enc_const_list(csv, i as int) =~= out@ + enc_const_list(
                csv,
                i as int + 1,
            ));
        }
        i += 1;
    }
    proof {
        assert(enc_const_list(csv, n as int) =~= Seq::<u8>::empty());
    }
    emit_usize(out, m.functions.entries.len());
    let ghost fsv = crate::ir::functions_view(m.functions.entries@);
    let ghost mid2 = out@;
    let nf = m.functions.entries.len();
    let mut j: usize = 0;
    while j < nf
        invariant
            j <= nf,
            nf == m.functions.entries@.len(),
            fsv == crate::ir::functions_view(m.functions.entries@),
            fsv.len() == nf,
            mid2 + enc_function_list(fsv, 0) =~= out@ + enc_function_list(fsv, j as int),
        decreases nf - j,
    {
        let ghost outp = out@;
        emit_string(out, &m.functions.entries[j].0);
        emit_function(out, &m.functions.entries[j].1);
        proof {
            assert(outp + enc_function_list(fsv, j as int) =~= out@ + enc_function_list(
                fsv,
                j as int + 1,
            ));
        }
        j += 1;
    }
    proof {
        assert(enc_function_list(fsv, nf as int) =~= Seq::<u8>::empty());
        assert(out@ =~= out0 + enc_module(mv));
    }
}

/// Writes a run result.
pub fn emit_run_result(out: &mut Vec<u8>, r: &RunResult)
    ensures
        final(out)@ == old(out)@ + enc_run_result(run_result_view(*r)),
    decreases *r,
{
    broadcast use lemma_blocks_view, lemma_vars_map_view;

    let ghost out0 = old(out)@;
    let ghost rv = run_result_view(*r);
    match r {
        RunResult::Concrete(data) => {
            out.push(0u8);
            emit_bytes(out, data);
            proof {
                assert(out@ =~= out0 + enc_run_result(rv));
            }
        },
        RunResult::Partial(blocks, vars) => {
            out.push(1u8);
            emit_usize(out, blocks.len());
            emit_blocks(out, blocks);
            emit_vars(out, vars);
            proof {
                assert(out@ =~= out0 + enc_run_result(rv));
            }
        },
        RunResult::ConditionalPartial { condition, then, els } => {
            out.push(2u8);
            emit_usize(out, condition.0.len());
            emit_blocks(out, &condition.0);
            emit_vars(out, &condition.1);
            proof {
                assert(decreases_to!(*r => r->ConditionalPartial_then));
                assert(decreases_to!(*r => r->ConditionalPartial_els));
            }
            emit_run_result(out, then);
            emit_run_result(out, els);
            proof {
                assert(out@ =~= out0 + enc_run_result(rv));
            }
        },
        RunResult::ThenElseJump(b) => {
            out.push(3u8);
            emit_bool(out, *b);
            proof {
                assert(out@ =~= out0 + enc_run_result(rv));
            }
        },
    }
}

/// Serializes a partially evaluated program: the module, then the run
/// result.
pub fn serialize_program(module: &Module, result: &RunResult) -> (out: Vec<u8>)
    ensures
        out@ == enc_program(module_view(*module), run_result_view(*result)),
{
    let mut out: Vec<u8> = Vec::new();
    emit_module(&mut out, module);
    emit_run_result(&mut out, result);
    proof {
        assert(out@ =~= enc_program(module_view(*module), run_result_view(*result)));
    }
    out
}

// Decoders: each yields the decoded value and the number of bytes
// consumed, or nothing when the input does not parse; consumed counts are
// kept within the input's length.
/// Decodes a machine-word id: a 64-bit number that fits a usize.
pub open spec fn dec_usize(s: Seq<u8>) -> Option<(usize, int)> {
    match dec_u64(s) {
        None => None,
        Some(p) => if p.0 <= usize::MAX {
            Some((p.0 as usize, p.1))
        } else {
            None
        },
    }
}

/// Decodes a flag.
pub open spec fn dec_bool(s: Seq<u8>) -> Option<(bool, int)> {
    if s.len() < 1 {
        None
    } else if s[0] == 1u8 {
        Some((true, 1))
    } else if s[0] == 0u8 {
        Some((false, 1))
    } else {
        None
    }
}

/// Decodes a byte blob.
pub open spec fn dec_bytes(s: Seq<u8>) -> Option<(Seq<u8>, int)> {
    match dec_usize(s) {
        None => None,
        Some(p) => if p.0 + 8 <= s.len() {
            Some((s.subrange(8, 8 + p.0 as int), 8 + p.0 as int))
        } else {
            None
        },
    }
}

/// Decodes a string from UTF-8 bytes.
pub open spec fn dec_string(s: Seq<u8>) -> Option<(Seq<char>, int)> {
    match dec_bytes(s) {
        None => None,
        Some(p) => if vstd::utf8::valid_utf8(p.0) {
            Some((vstd::utf8::decode_utf8(p.0), p.1))
        } else {
            None
        },
    }
}

/// Decodes an optional byte blob.
pub open spec fn dec_opt_bytes(s: Seq<u8>) -> Option<(Option<Seq<u8>>, int)> {
    if s.len() < 1 {
        None
    } else if s[0] == 0u8 {
        Some((None, 1))
    } else if s[0] == 1u8 {
        match dec_bytes(s.skip(1)) {
            None => None,
            Some(p) => Some((Some(p.0), 1 + p.1)),
        }
    } else {
        None
    }
}

/// Decodes an optional variable id.
pub open spec fn dec_opt_usize(s: Seq<u8>) -> Option<(Option<usize>, int)> {
    if s.len() < 1 {
        None
    } else if s[0] == 0u8 {
        Some((None, 1))
    } else if s[0] == 1u8 {
        match dec_usize(s.skip(1)) {
            None => None,
            Some(p) => Some((Some(p.0), 1 + p.1)),
        }
    } else {
        None
    }
}

/// Decodes a type.
pub open spec fn dec_type(s: Seq<u8>) -> Option<(TypeV, int)>
    decreases s.len(), 0int, 0int,
{
    if s.len() < 1 {
        None
    } else {
        let tag = s[0];
        let rest = s.skip(1);
        if tag == 0u8 {
            Some((TypeV::Usize, 1))
        } else if tag == 1u8 {
            match dec_usize(rest) {
                None => None,
                Some(c) => if c.1 == 8 {
                    match dec_type_list(rest.skip(8), c.0 as int) {
                        None => None,
                        Some(p) => Some((TypeV::Tuple(p.0), 9 + p.1)),
                    }
                } else {
                    None
                },
            }
        } else if tag == 2u8 {
            match dec_pointer(rest) {
                None => None,
                Some(p) => Some((TypeV::Pointer(Box::new(p.0)), 1 + p.1)),
            }
        } else if tag == 3u8 {
            Some((TypeV::U8, 1))
        } else if tag == 4u8 {
            match dec_type(rest) {
                None => None,
                Some(p) => Some((TypeV::Slice(Box::new(p.0)), 1 + p.1)),
            }
        } else if tag == 5u8 {
            match dec_type(rest) {
                None => None,
                Some(p) => if 0 <= p.1 <= rest.len() {
                    match dec_usize(rest.skip(p.1)) {
                        None => None,
                        Some(q) => Some((TypeV::Array(Box::new(p.0), q.0), 1 + p.1 + q.1)),
                    }
                } else {
                    None
                },
            }
        } else if tag == 6u8 {
            Some((TypeV::IO, 1))
        } else if tag == 7u8 {
            Some((TypeV::Bool, 1))
        } else {
            None
        }
    }
}

/// Decodes `count` types in sequence.
pub open spec fn dec_type_list(s: Seq<u8>, count: int) -> Option<(Seq<TypeV>, int)>
    decreases s.len(), 1int, count,
{
    if count <= 0 {
        Some((Seq::empty(), 0))
    } else {
        match dec_type(s) {
            None => None,
            Some(p) => if 0 <= p.1 <= s.len() {
                match dec_type_list(s.skip(p.1), count - 1) {
                    None => None,
                    Some(q) => Some((seq![p.0] + q.0, p.1 + q.1)),
                }
            } else {
                None
            },
        }
    }
}

/// Decodes a pointer type.
pub open spec fn dec_pointer(s: Seq<u8>) -> Option<(PointerV, int)>
    decreases s.len(), 0int, 0int,
{
    if s.len() < 1 {
        None
    } else if s[0] == 0u8 {
        match dec_signature(s.skip(1)) {
            None => None,
            Some(p) => Some((PointerV::Function(Box::new(p.0)), 1 + p.1)),
        }
    } else if s[0] == 1u8 {
        match dec_type(s.skip(1)) {
            None => None,
            Some(p) => Some((PointerV::Value(Box::new(p.0)), 1 + p.1)),
        }
    } else {
        None
    }
}

/// Decodes a signature.
pub open spec fn dec_signature(s: Seq<u8>) -> Option<(SignatureV, int)>
    decreases s.len(), 1int, 0int,
{
    match dec_usize(s) {
        None => None,
        Some(c) => if c.1 == 8 && s.len() >= 8 {
            match dec_type_list(s.skip(8), c.0 as int) {
                None => None,
                Some(p) => if 0 <= p.1 <= s.len() - 8 {
                    match dec_type(s.skip(8 + p.1)) {
                        None => None,
                        Some(q) => Some(
                            (
                                SignatureV { args: p.0, returns: Box::new(q.0) },
                                8 + p.1 + q.1,
                            ),
                        ),
                    }
                } else {
                    None
                },
            }
        } else {
            None
        },
    }
}

/// Decodes `count` strings in sequence.
pub open spec fn dec_name_list(s: Seq<u8>, count: int) -> Option<(Seq<Seq<char>>, int)>
    decreases count,
{
    if count <= 0 {
        Some((Seq::empty(), 0))
    } else {
        match dec_string(s) {
            None => None,
            Some(p) => if 0 <= p.1 <= s.len() {
                match dec_name_list(s.skip(p.1), count - 1) {
                    None => None,
                    Some(q) => Some((seq![p.0] + q.0, p.1 + q.1)),
                }
            } else {
                None
            },
        }
    }
}

/// Decodes `count` ids in sequence.
pub open spec fn dec_usize_list(s: Seq<u8>, count: int) -> Option<(Seq<usize>, int)>
    decreases count,
{
    if count <= 0 {
        Some((Seq::empty(), 0))
    } else {
        match dec_usize(s) {
            None => None,
            Some(p) => if 0 <= p.1 <= s.len() {
                match dec_usize_list(s.skip(p.1), count - 1) {
                    None => None,
                    Some(q) => Some((seq![p.0] + q.0, p.1 + q.1)),
                }
            } else {
                None
            },
        }
    }
}

/// Decodes `count` id pairs in sequence.
pub open spec fn dec_pair_list(s: Seq<u8>, count: int) -> Option<(Seq<(usize, usize)>, int)>
    decreases count,
{
    if count <= 0 {
        Some((Seq::empty(), 0))
    } else {
        match dec_usize(s) {
            None => None,
            Some(a) => if a.1 == 8 && 8 <= s.len() {
                match dec_usize(s.skip(8)) {
                    None => None,
                    Some(b) => if b.1 == 8 && 16 <= s.len() {
                        match dec_pair_list(s.skip(16), count - 1) {
                            None => None,
                            Some(q) => Some((seq![(a.0, b.0)] + q.0, 16 + q.1)),
                        }
                    } else {
                        None
                    },
                }
            } else {
                None
            },
        }
    }
}

/// Decodes `count` variable-state entries in sequence.
pub open spec fn dec_vars_list(s: Seq<u8>, count: int) -> Option<(VarsV, int)>
    decreases count,
{
    if count <= 0 {
        Some((Seq::empty(), 0))
    } else {
        match dec_usize(s) {
            None => None,
            Some(a) => if a.1 == 8 && 8 <= s.len() {
                match dec_opt_bytes(s.skip(8)) {
                    None => None,
                    Some(o) => if 0 <= o.1 <= s.len() - 8 {
                        match dec_vars_list(s.skip(8 + o.1), count - 1) {
                            None => None,
                            Some(q) => Some((seq![(a.0, o.0)] + q.0, 8 + o.1 + q.1)),
                        }
                    } else {
                        None
                    },
                }
            } else {
                None
            },
        }
    }
}

/// Decodes a variable state.
pub open spec fn dec_vars(s: Seq<u8>) -> Option<(VarsV, int)> {
    match dec_usize(s) {
        None => None,
        Some(c) => if c.1 == 8 && 8 <= s.len() {
            match dec_vars_list(s.skip(8), c.0 as int) {
                None => None,
                Some(p) => Some((p.0, 8 + p.1)),
            }
        } else {
            None
        },
    }
}

/// Decodes a statically resolved call's payload: names, then argument ids.
pub open spec fn dec_op_call(rest: Seq<u8>) -> Option<(OperationV, int)> {
    match dec_usize(rest) {
        None => None,
        Some(c) => if c.1 == 8 && 8 <= rest.len() {
            match dec_name_list(rest.skip(8), c.0 as int) {
                None => None,
                Some(names) => if 0 <= names.1 <= rest.len() - 8 {
                    match dec_usize(rest.skip(8 + names.1)) {
                        None => None,
                        Some(ac) => if ac.1 == 8 && 8 + names.1 + 8 <= rest.len() {
                            match dec_usize_list(rest.skip(8 + names.1 + 8), ac.0 as int) {
                                None => None,
                                Some(args) => Some(
                                    (
                                        OperationV::Call { function: names.0, args: args.0 },
                                        8 + names.1 + 8 + args.1,
                                    ),
                                ),
                            }
                        } else {
                            None
                        },
                    }
                } else {
                    None
                },
            }
        } else {
            None
        },
    }
}

/// Decodes an indirect call's payload.
pub open spec fn dec_op_call_pointer(rest: Seq<u8>) -> Option<(OperationV, int)> {
    match dec_usize(rest) {
        None => None,
        Some(p) => if p.1 == 8 && 8 <= rest.len() {
            match dec_usize(rest.skip(8)) {
                None => None,
                Some(ac) => if ac.1 == 8 && 16 <= rest.len() {
                    match dec_usize_list(rest.skip(16), ac.0 as int) {
                        None => None,
                        Some(args) => Some(
                            (
                                OperationV::CallPointer { pointer: p.0, args: args.0 },
                                16 + args.1,
                            ),
                        ),
                    }
                } else {
                    None
                },
            }
        } else {
            None
        },
    }
}

/// Decodes a residual call's payload.
pub open spec fn dec_op_partial_call(rest: Seq<u8>) -> Option<(OperationV, int)>
    decreases rest.len(),
{
    match dec_usize(rest) {
        None => None,
        Some(c) => if c.1 == 8 && 8 <= rest.len() {
            match dec_block_list(rest.skip(8), c.0 as int) {
                None => None,
                Some(bs) => if 0 <= bs.1 <= rest.len() - 8 {
                    match dec_vars(rest.skip(8 + bs.1)) {
                        None => None,
                        Some(vs) => Some(
                            (
                                OperationV::PartialCall { blocks: bs.0, variables: vs.0 },
                                8 + bs.1 + vs.1,
                            ),
                        ),
                    }
                } else {
                    None
                },
            }
        } else {
            None
        },
    }
}

/// Decodes an operation.
pub open spec fn dec_operation(s: Seq<u8>) -> Option<(OperationV, int)>
    decreases s.len(), 0int, 0int,
{
    if s.len() < 1 {
        None
    } else {
        let tag = s[0];
        let rest = s.skip(1);
        if tag == 0u8 {
            match dec_op_call(rest) {
                None => None,
                Some(p) => Some((p.0, 1 + p.1)),
            }
        } else if tag == 1u8 {
            match dec_op_call_pointer(rest) {
                None => None,
                Some(p) => Some((p.0, 1 + p.1)),
            }
        } else if tag == 2u8 {
            match dec_usize(rest) {
                None => None,
                Some(p) => Some((OperationV::LoadGlobal { src: p.0 }, 1 + p.1)),
            }
        } else if tag == 3u8 {
            match dec_usize(rest) {
                None => None,
                Some(p) => Some((OperationV::LoadLocal { src: p.0 }, 1 + p.1)),
            }
        } else if tag == 4u8 {
            match dec_usize(rest) {
                None => None,
                Some(c) => if c.1 == 8 && 8 <= rest.len() {
                    match dec_pair_list(rest.skip(8), c.0 as int) {
                        None => None,
                        Some(ps) => Some(
                            (OperationV::Phi { block_to_var: ps.0 }, 1 + 8 + ps.1),
                        ),
                    }
                } else {
                    None
                },
            }
        } else if tag == 5u8 {
            match dec_op_partial_call(rest) {
                None => None,
                Some(p) => Some((p.0, 1 + p.1)),
            }
        } else {
            None
        }
    }
}

/// Decodes a statement.
pub open spec fn dec_statement(s: Seq<u8>) -> Option<(StatementV, int)>
    decreases s.len(), 1int, 0int,
{
    match dec_operation(s) {
        None => None,
        Some(p) => if 0 <= p.1 <= s.len() {
            match dec_opt_usize(s.skip(p.1)) {
                None => None,
                Some(o) => Some((StatementV::Operation(p.0, o.0), p.1 + o.1)),
            }
        } else {
            None
        },
    }
}

/// Decodes `count` statements in sequence.
pub open spec fn dec_stmt_list(s: Seq<u8>, count: int) -> Option<(Seq<StatementV>, int)>
    decreases s.len(), 2int, count,
{
    if count <= 0 {
        Some((Seq::empty(), 0))
    } else {
        match dec_statement(s) {
            None => None,
            Some(p) => if 0 < p.1 <= s.len() {
                match dec_stmt_list(s.skip(p.1), count - 1) {
                    None => None,
                    Some(q) => Some((seq![p.0] + q.0, p.1 + q.1)),
                }
            } else {
                None
            },
        }
    }
}

/// Decodes a terminator.
pub open spec fn dec_terminal(s: Seq<u8>) -> Option<(crate::ir::Terminal, int)> {
    if s.len() < 1 {
        None
    } else {
        let tag = s[0];
        let rest = s.skip(1);
        if tag == 0u8 {
            match dec_opt_usize(rest) {
                None => None,
                Some(o) => Some((crate::ir::Terminal::Return(o.0), 1 + o.1)),
            }
        } else if tag == 1u8 {
            match dec_opt_usize(rest) {
                None => None,
                Some(o) => Some((crate::ir::Terminal::Evaluate(o.0), 1 + o.1)),
            }
        } else if tag == 2u8 {
            match dec_usize(rest) {
                None => None,
                Some(p) => Some((crate::ir::Terminal::Jump(p.0), 1 + p.1)),
            }
        } else if tag == 3u8 {
            match dec_usize(rest) {
                None => None,
                Some(a) => if a.1 == 8 && 8 <= rest.len() {
                    match dec_usize(rest.skip(8)) {
                        None => None,
                        Some(b) => if b.1 == 8 && 16 <= rest.len() {
                            match dec_usize(rest.skip(16)) {
                                None => None,
                                Some(c) => Some(
                                    (
                                        crate::ir::Terminal::CondJump {
                                            cond: a.0,
                                            then: b.0,
                                            els: c.0,
                                        },
                                        1 + 24int,
                                    ),
                                ),
                            }
                        } else {
                            None
                        },
                    }
                } else {
                    None
                },
            }
        } else if tag == 4u8 {
            match dec_usize(rest) {
                None => None,
                Some(p) => Some((crate::ir::Terminal::ThenElseJump(p.0), 1 + p.1)),
            }
        } else {
            None
        }
    }
}

/// Decodes a block.
pub open spec fn dec_block(s: Seq<u8>) -> Option<(BlockV, int)>
    decreases s.len(), 3int, 0int,
{
    match dec_usize(s) {
        None => None,
        Some(c) => if c.1 == 8 && 8 <= s.len() {
            match dec_stmt_list(s.skip(8), c.0 as int) {
                None => None,
                Some(ss) => if 0 <= ss.1 <= s.len() - 8 {
                    match dec_terminal(s.skip(8 + ss.1)) {
                        None => None,
                        Some(t) => Some(
                            (
                                BlockV { statements: ss.0, terminal: t.0 },
                                8 + ss.1 + t.1,
                            ),
                        ),
                    }
                } else {
                    None
                },
            }
        } else {
            None
        },
    }
}

/// Decodes `count` blocks in sequence.
pub open spec fn dec_block_list(s: Seq<u8>, count: int) -> Option<(Seq<BlockV>, int)>
    decreases s.len(), 4int, count,
{
    if count <= 0 {
        Some((Seq::empty(), 0))
    } else {
        match dec_block(s) {
            None => None,
            Some(p) => if 0 < p.1 <= s.len() {
                match dec_block_list(s.skip(p.1), count - 1) {
                    None => None,
                    Some(q) => Some((seq![p.0] + q.0, p.1 + q.1)),
                }
            } else {
                None
            },
        }
    }
}

/// Decodes `count` variable-type entries in sequence.
pub open spec fn dec_var_types_list(s: Seq<u8>, count: int) -> Option<(Seq<(usize, TypeV)>, int)>
    decreases count,
{
    if count <= 0 {
        Some((Seq::empty(), 0))
    } else {
        match dec_usize(s) {
            None => None,
            Some(a) => if a.1 == 8 && 8 <= s.len() {
                match dec_type(s.skip(8)) {
                    None => None,
                    Some(t) => if 0 <= t.1 <= s.len() - 8 {
                        match dec_var_types_list(s.skip(8 + t.1), count - 1) {
                            None => None,
                            Some(q) => Some((seq![(a.0, t.0)] + q.0, 8 + t.1 + q.1)),
                        }
                    } else {
                        None
                    },
                }
            } else {
                None
            },
        }
    }
}

/// Decodes a function.
pub open spec fn dec_function(s: Seq<u8>) -> Option<(FunctionV, int)> {
    match dec_usize(s) {
        None => None,
        Some(bc) => if bc.1 == 8 && 8 <= s.len() {
            match dec_block_list(s.skip(8), bc.0 as int) {
                None => None,
                Some(bs) => if 0 <= bs.1 <= s.len() - 8 {
                    match dec_bool(s.skip(8 + bs.1)) {
                        None => None,
                        Some(e) => if 8 + bs.1 + 1 <= s.len() {
                            match dec_usize(s.skip(8 + bs.1 + 1)) {
                                None => None,
                                Some(vc) => if vc.1 == 8 && 8 + bs.1 + 1 + 8 <= s.len() {
                                    match dec_var_types_list(
                                        s.skip(8 + bs.1 + 1 + 8),
                                        vc.0 as int,
                                    ) {
                                        None => None,
                                        Some(vt) => if 0 <= vt.1 <= s.len() - (8 + bs.1 + 1
                                            + 8) {
                                            match dec_signature(
                                                s.skip(8 + bs.1 + 1 + 8 + vt.1),
                                            ) {
                                                None => None,
                                                Some(sg) => Some(
                                                    (
                                                        FunctionV {
                                                            ir: bs.0,
                                                            exported: e.0,
                                                            variable_types: vt.0,
                                                            signature: sg.0,
                                                        },
                                                        8 + bs.1 + 1 + 8 + vt.1 + sg.1,
                                                    ),
                                                ),
                                            }
                                        } else {
                                            None
                                        },
                                    }
                                } else {
                                    None
                                },
                            }
                        } else {
                            None
                        },
                    }
                } else {
                    None
                },
            }
        } else {
            None
        },
    }
}

/// Decodes `count` constants in sequence.
pub open spec fn dec_const_list(s: Seq<u8>, count: int) -> Option<(Seq<Seq<u8>>, int)>
    decreases count,
{
    if count <= 0 {
        Some((Seq::empty(), 0))
    } else {
        match dec_bytes(s) {
            None => None,
            Some(p) => if 0 <= p.1 <= s.len() {
                match dec_const_list(s.skip(p.1), count - 1) {
                    None => None,
                    Some(q) => Some((seq![p.0] + q.0, p.1 + q.1)),
                }
            } else {
                None
            },
        }
    }
}

/// Decodes `count` named functions in sequence.
pub open spec fn dec_function_list(s: Seq<u8>, count: int) -> Option<(
    Seq<(Seq<char>, FunctionV)>,
    int,
)>
    decreases count,
{
    if count <= 0 {
        Some((Seq::empty(), 0))
    } else {
        match dec_string(s) {
            None => None,
            Some(nm) => if 0 <= nm.1 <= s.len() {
                match dec_function(s.skip(nm.1)) {
                    None => None,
                    Some(f) => if 0 <= f.1 <= s.len() - nm.1 {
                        match dec_function_list(s.skip(nm.1 + f.1), count - 1) {
                            None => None,
                            Some(q) => Some((seq![(nm.0, f.0)] + q.0, nm.1 + f.1 + q.1)),
                        }
                    } else {
                        None
                    },
                }
            } else {
                None
            },
        }
    }
}

/// Decodes a module.
pub open spec fn dec_module(s: Seq<u8>) -> Option<(ModuleV, int)> {
    match dec_usize(s) {
        None => None,
        Some(cc) => if cc.1 == 8 && 8 <= s.len() {
            match dec_const_list(s.skip(8), cc.0 as int) {
                None => None,
                Some(cs) => if 0 <= cs.1 <= s.len() - 8 {
                    match dec_usize(s.skip(8 + cs.1)) {
                        None => None,
                        Some(fc) => if fc.1 == 8 && 8 + cs.1 + 8 <= s.len() {
                            match dec_function_list(s.skip(8 + cs.1 + 8), fc.0 as int) {
                                None => None,
                                Some(fs) => Some(
                                    (
                                        ModuleV { constants: cs.0, functions: fs.0 },
                                        8 + cs.1 + 8 + fs.1,
                                    ),
                                ),
                            }
                        } else {
                            None
                        },
                    }
                } else {
                    None
                },
            }
        } else {
            None
        },
    }
}

/// Decodes a run result.
pub open spec fn dec_run_result(s: Seq<u8>) -> Option<(RunResultV, int)>
    decreases s.len(),
{
    if s.len() < 1 {
        None
    } else {
        let tag = s[0];
        let rest = s.skip(1);
        if tag == 0u8 {
            match dec_bytes(rest) {
                None => None,
                Some(p) => Some((RunResultV::Concrete(p.0), 1 + p.1)),
            }
        } else if tag == 1u8 {
            match dec_usize(rest) {
                None => None,
                Some(c) => if c.1 == 8 && 8 <= rest.len() {
                    match dec_block_list(rest.skip(8), c.0 as int) {
                        None => None,
                        Some(bs) => if 0 <= bs.1 <= rest.len() - 8 {
                            match dec_vars(rest.skip(8 + bs.1)) {
                                None => None,
                                Some(vs) => Some(
                                    (
                                        RunResultV::Partial(bs.0, vs.0),
                                        1 + 8 + bs.1 + vs.1,
                                    ),
                                ),
                            }
                        } else {
                            None
                        },
                    }
                } else {
                    None
                },
            }
        } else if tag == 2u8 {
            match dec_usize(rest) {
                None => None,
                Some(c) => if c.1 == 8 && 8 <= rest.len() {
                    match dec_block_list(rest.skip(8), c.0 as int) {
                        None => None,
                        Some(bs) => if 0 <= bs.1 <= rest.len() - 8 {
                            match dec_vars(rest.skip(8 + bs.1)) {
                                None => None,
                                Some(vs) => if 0 <= vs.1 && 8 + bs.1 + vs.1 <= rest.len() {
                                    match dec_run_result(rest.skip(8 + bs.1 + vs.1)) {
                                        None => None,
                                        Some(tr) => if 0 < tr.1 && 8 + bs.1 + vs.1 + tr.1
                                            <= rest.len() {
                                            match dec_run_result(
                                                rest.skip(8 + bs.1 + vs.1 + tr.1),
                                            ) {
                                                None => None,
                                                Some(er) => Some(
                                                    (
                                                        RunResultV::ConditionalPartial {
                                                            condition: (bs.0, vs.0),
                                                            then: Box::new(tr.0),
                                                            els: Box::new(er.0),
                                                        },
                                                        1 + 8 + bs.1 + vs.1 + tr.1 + er.1,
                                                    ),
                                                ),
                                            }
                                        } else {
                                            None
                                        },
                                    }
                                } else {
                                    None
                                },
                            }
                        } else {
                            None
                        },
                    }
                } else {
                    None
                },
            }
        } else if tag == 3u8 {
            match dec_bool(rest) {
                None => None,
                Some(b) => Some((RunResultV::ThenElseJump(b.0), 1 + b.1)),
            }
        } else {
            None
        }
    }
}

/// Decodes a serialized program: the module, then the run result.
pub open spec fn dec_program(s: Seq<u8>) -> Option<(ModuleV, RunResultV)> {
    match dec_module(s) {
        None => None,
        Some(m) => if 0 <= m.1 <= s.len() {
            match dec_run_result(s.skip(m.1)) {
                None => None,
                Some(r) => Some((m.0, r.0)),
            }
        } else {
            None
        },
    }
}

// Executable decoders: each reads at the cursor and advances it exactly as
// the mathematical decoder says.
/// Reads a machine-word id.
pub fn read_usize(s: &[u8], i: &mut usize) -> (r: Option<usize>)
    requires
        *old(i) <= s@.len(),
    ensures
        ({
            let sr = dec_usize(s@.skip(*old(i) as int));
            match r {
                Some(v) => sr matches Some(p) && p.0 == v && *final(i) == *old(i) + p.1 && *old(i) <= *final(i) <= s@.len(),
                None => sr is None && *final(i) == *old(i),
            }
        }),
{
    proof {
        lemma_usize_fits();
    }
    match read_u64(s, i) {
        None => None,
        Some(v) => if v <= usize::MAX as u64 {
            Some(v as usize)
        } else {
            *i -= 8;
            None
        },
    }
}

/// Reads a flag.
pub fn read_bool(s: &[u8], i: &mut usize) -> (r: Option<bool>)
    requires
        *old(i) <= s@.len(),
    ensures
        ({
            let sr = dec_bool(s@.skip(*old(i) as int));
            match r {
                Some(v) => sr matches Some(p) && p.0 == v && *final(i) == *old(i) + p.1 && *old(i) <= *final(i) <= s@.len(),
                None => sr is None && *final(i) == *old(i),
            }
        }),
{
    if *i >= s.len() {
        return None;
    }
    let b = s[*i];
    proof {
        assert(s@.skip(*old(i) as int)[0] == s@[*old(i) as int]);
    }
    if b == 1u8 {
        *i += 1;
        Some(true)
    } else if b == 0u8 {
        *i += 1;
        Some(false)
    } else {
        None
    }
}

/// Reads a byte blob.
#[verifier::loop_isolation(false)]
pub fn read_bytes(s: &[u8], i: &mut usize) -> (r: Option<Vec<u8>>)
    requires
        *old(i) <= s@.len(),
    ensures
        ({
            let sr = dec_bytes(s@.skip(*old(i) as int));
            match r {
                Some(v) => sr matches Some(p) && p.0 == v@ && *final(i) == *old(i) + p.1 && *old(i) <= *final(i) <= s@.len(),
                None => sr is None,
            }
        }),
{
    let ghost suffix = s@.skip(*old(i) as int);
    let len = match read_usize(s, i) {
        None => {
            return None;
        },
        Some(v) => v,
    };
    if len > s.len() - *i {
        return None;
    }
    proof {
        assert(len + 8 <= suffix.len());
    }
    let mut out: Vec<u8> = Vec::new();
    let start = *i;
    let mut k: usize = 0;
    while k < len
        invariant
            k <= len,
            *i == start,
            start == *old(i) + 8,
            start + len <= s@.len(),
            out@.len() == k,
            forall|j: int| 0 <= j < k ==> out@[j] == s@[start + j],
        decreases len - k,
    {
        out.push(s[start + k]);
        k += 1;
    }
    *i += len;
    proof {
        assert(out@ =~= suffix.subrange(8, 8 + len as int));
    }
    Some(out)
}

/// Reads a string.
pub fn read_string(s: &[u8], i: &mut usize) -> (r: Option<String>)
    requires
        *old(i) <= s@.len(),
    ensures
        ({
            let sr = dec_string(s@.skip(*old(i) as int));
            match r {
                Some(v) => sr matches Some(p) && p.0 == v@ && *final(i) == *old(i) + p.1 && *old(i) <= *final(i) <= s@.len(),
                None => sr is None,
            }
        }),
{
    let bytes = match read_bytes(s, i) {
        None => {
            return None;
        },
        Some(b) => b,
    };
    match bytes_to_string(bytes) {
        Some(st) => {
            proof {
                vstd::utf8::encode_utf8_decode_utf8(st@);
            }
            Some(st)
        },
        None => None,
    }
}

/// Relies on String::from_utf8: it succeeds exactly on valid UTF-8, and the
/// returned string's characters encode back to the given bytes.
#[verifier::external_body]
fn bytes_to_string(v: Vec<u8>) -> (r: Option<String>)
    ensures
        r matches Some(st) ==> vstd::utf8::encode_utf8(st@) == v@,
        vstd::utf8::valid_utf8(v@) <==> r is Some,
{
    match String::from_utf8(v) {
        Ok(st) => Some(st),
        Err(_) => None,
    }
}

/// Reads an optional byte blob.
pub fn read_opt_bytes(s: &[u8], i: &mut usize) -> (r: Option<Option<Vec<u8>>>)
    requires
        *old(i) <= s@.len(),
    ensures
        ({
            let sr = dec_opt_bytes(s@.skip(*old(i) as int));
            match r {
                Some(v) => sr matches Some(p) && p.0 == crate::ir::opt_bytes_view(v) && *final(i) == *old(i) + p.1 && *old(i) <= *final(i) <= s@.len(),
                None => sr is None,
            }
        }),
{
    let ghost suffix = s@.skip(*old(i) as int);
    if *i >= s.len() {
        return None;
    }
    let tag = s[*i];
    proof {
        assert(suffix[0] == s@[*old(i) as int]);
        assert(suffix.skip(1) =~= s@.skip(*old(i) as int + 1));
    }
    if tag == 0u8 {
        *i += 1;
        Some(None)
    } else if tag == 1u8 {
        *i += 1;
        match read_bytes(s, i) {
            None => None,
            Some(b) => Some(Some(b)),
        }
    } else {
        None
    }
}

/// Reads an optional variable id.
pub fn read_opt_usize(s: &[u8], i: &mut usize) -> (r: Option<Option<usize>>)
    requires
        *old(i) <= s@.len(),
    ensures
        ({
            let sr = dec_opt_usize(s@.skip(*old(i) as int));
            match r {
                Some(v) => sr matches Some(p) && p.0 == v && *final(i) == *old(i) + p.1 && *old(i) <= *final(i) <= s@.len(),
                None => sr is None,
            }
        }),
{
    let ghost suffix = s@.skip(*old(i) as int);
    if *i >= s.len() {
        return None;
    }
    let tag = s[*i];
    proof {
        assert(suffix[0] == s@[*old(i) as int]);
        assert(suffix.skip(1) =~= s@.skip(*old(i) as int + 1));
    }
    if tag == 0u8 {
        *i += 1;
        Some(None)
    } else if tag == 1u8 {
        *i += 1;
        match read_usize(s, i) {
            None => None,
            Some(v) => Some(Some(v)),
        }
    } else {
        None
    }
}

/// Reads a type.
#[verifier::rlimit(100)]
#[verifier::loop_isolation(false)]
pub fn read_type(s: &[u8], i: &mut usize) -> (r: Option<crate::typ::Type>)
    requires
        *old(i) <= s@.len(),
    ensures
        ({
            let sr = dec_type(s@.skip(*old(i) as int));
            match r {
                Some(v) => sr matches Some(p) && p.0 == crate::typ::type_view(v) && *final(i)
                    == *old(i) + p.1 && *old(i) <= *final(i) <= s@.len(),
                None => sr is None,
            }
        }),
    decreases s@.len() - *old(i), 0int, 0int,
{
    let ghost suffix = s@.skip(*old(i) as int);
    if *i >= s.len() {
        return None;
    }
    let tag = s[*i];
    proof {
        assert(suffix[0] == s@[*old(i) as int]);
        assert(suffix.skip(1) =~= s@.skip(*old(i) as int + 1));
    }
    *i += 1;
    if tag == 0u8 {
        Some(crate::typ::Type::Usize)
    } else if tag == 1u8 {
        let ghost rest = s@.skip(*old(i) as int + 1);
        let count = match read_usize(s, i) {
            None => {
                return None;
            },
            Some(c) => c,
        };
        let ghost start = *i;
        let mut out: Vec<crate::typ::Type> = Vec::new();
        let mut k: usize = 0;
        proof {
            crate::typ::lemma_types_view(out@);
            assert(crate::typ::types_view(out@) =~= Seq::<TypeV>::empty());
            vstd::seq_lib::lemma_seq_skip_of_skip(s@, *old(i) as int + 1, 8);
            assert(rest.skip(8) =~= s@.skip(*i as int));
            match dec_type_list(s@.skip(*i as int), count as int) {
                Some(q) => {
                    assert(Seq::<TypeV>::empty() + q.0 =~= q.0);
                },
                None => {},
            }
        }
        while k < count
            invariant
                k <= count,
                start <= *i <= s@.len(),
                out@.len() == k,
                dec_type_list(rest.skip(8), count as int) == (match dec_type_list(
                    s@.skip(*i as int),
                    count - k,
                ) {
                    None => None::<(Seq<TypeV>, int)>,
                    Some(q) => Some(
                        (
                            crate::typ::types_view(out@) + q.0,
                            (*i - (*old(i) + 9)) + q.1,
                        ),
                    ),
                }),
                *old(i) + 9 <= *i,
            decreases s@.len() - *i, 1int, count - k,
        {
            broadcast use crate::typ::lemma_types_view;

            let ghost outv0 = crate::typ::types_view(out@);
            let ghost i0 = *i;
            let t = match read_type(s, i) {
                None => {
                    return None;
                },
                Some(t) => t,
            };
            let ghost tv = crate::typ::type_view(t);
            out.push(t);
            proof {
                assert(crate::typ::types_view(out@) =~= outv0.push(tv));
                vstd::seq_lib::lemma_seq_skip_of_skip(s@, i0 as int, (*i - i0) as int);
                assert(s@.skip(i0 as int).skip((*i - i0) as int) =~= s@.skip(*i as int));
                assert(outv0.push(tv) + (match dec_type_list(s@.skip(*i as int), count - k - 1) {
                    None => Seq::<TypeV>::empty(),
                    Some(q) => q.0,
                }) =~= outv0 + (seq![tv] + (match dec_type_list(
                    s@.skip(*i as int),
                    count - k - 1,
                ) {
                    None => Seq::<TypeV>::empty(),
                    Some(q) => q.0,
                })));
            }
            k += 1;
        }
        proof {
            assert(dec_type_list(s@.skip(*i as int), 0) == Some((Seq::<TypeV>::empty(), 0int)));
            assert(crate::typ::types_view(out@) + Seq::<TypeV>::empty() =~= crate::typ::types_view(
                out@,
            ));
        }
        Some(crate::typ::Type::Tuple(out))
    } else if tag == 2u8 {
        match read_pointer(s, i) {
            None => None,
            Some(p) => Some(crate::typ::Type::Pointer(p)),
        }
    } else if tag == 3u8 {
        Some(crate::typ::Type::U8)
    } else if tag == 4u8 {
        match read_type(s, i) {
            None => None,
            Some(t) => Some(crate::typ::Type::Slice(Box::new(t))),
        }
    } else if tag == 5u8 {
        let ghost rest = s@.skip(*old(i) as int + 1);
        let ghost i0 = *i;
        let elem = match read_type(s, i) {
            None => {
                return None;
            },
            Some(t) => t,
        };
        proof {
            vstd::seq_lib::lemma_seq_skip_of_skip(s@, i0 as int, (*i - i0) as int);
            assert(s@.skip(i0 as int).skip((*i - i0) as int) =~= s@.skip(*i as int));
            assert(rest.skip((*i - i0) as int) =~= s@.skip(*i as int));
        }
        let n = match read_usize(s, i) {
            None => {
                return None;
            },
            Some(n) => n,
        };
        Some(crate::typ::Type::Array(Box::new(elem), n))
    } else if tag == 6u8 {
        Some(crate::typ::Type::IO)
    } else if tag == 7u8 {
        Some(crate::typ::Type::Bool)
    } else {
        None
    }
}

/// Reads a pointer type.
pub fn read_pointer(s: &[u8], i: &mut usize) -> (r: Option<crate::typ::Pointer>)
    requires
        *old(i) <= s@.len(),
    ensures
        ({
            let sr = dec_pointer(s@.skip(*old(i) as int));
            match r {
                Some(v) => sr matches Some(p) && p.0 == crate::typ::pointer_view(v) && *final(i)
                    == *old(i) + p.1 && *old(i) <= *final(i) <= s@.len(),
                None => sr is None,
            }
        }),
    decreases s@.len() - *old(i), 0int, 1int,
{
    let ghost suffix = s@.skip(*old(i) as int);
    if *i >= s.len() {
        return None;
    }
    let tag = s[*i];
    proof {
        assert(suffix[0] == s@[*old(i) as int]);
        assert(suffix.skip(1) =~= s@.skip(*old(i) as int + 1));
    }
    if tag == 0u8 {
        *i += 1;
        match read_signature(s, i) {
            None => None,
            Some(sg) => Some(crate::typ::Pointer::Function(Box::new(sg))),
        }
    } else if tag == 1u8 {
        *i += 1;
        match read_type(s, i) {
            None => None,
            Some(t) => Some(crate::typ::Pointer::Value(Box::new(t))),
        }
    } else {
        None
    }
}

/// Reads a signature.
#[verifier::rlimit(100)]
#[verifier::loop_isolation(false)]
pub fn read_signature(s: &[u8], i: &mut usize) -> (r: Option<crate::typ::Signature>)
    requires
        *old(i) <= s@.len(),
    ensures
        ({
            let sr = dec_signature(s@.skip(*old(i) as int));
            match r {
                Some(v) => sr matches Some(p) && p.0 == crate::typ::signature_view(v) && *final(i)
                    == *old(i) + p.1 && *old(i) <= *final(i) <= s@.len(),
                None => sr is None,
            }
        }),
    decreases s@.len() - *old(i), 1int, 0int,
{
    let ghost suffix = s@.skip(*old(i) as int);
    let count = match read_usize(s, i) {
        None => {
            return None;
        },
        Some(c) => c,
    };
    let ghost start = *i;
    let mut out: Vec<crate::typ::Type> = Vec::new();
    let mut k: usize = 0;
    proof {
        crate::typ::lemma_types_view(out@);
        assert(crate::typ::types_view(out@) =~= Seq::<TypeV>::empty());
        vstd::seq_lib::lemma_seq_skip_of_skip(s@, *old(i) as int, 8);
        assert(suffix.skip(8) =~= s@.skip(start as int));
        match dec_type_list(s@.skip(start as int), count as int) {
            Some(q) => {
                assert(Seq::<TypeV>::empty() + q.0 =~= q.0);
            },
            None => {},
        }
    }
    while k < count
        invariant
            k <= count,
            start <= *i <= s@.len(),
            start == *old(i) + 8,
            out@.len() == k,
            dec_type_list(suffix.skip(8), count as int) == (match dec_type_list(
                s@.skip(*i as int),
                count - k,
            ) {
                None => None::<(Seq<TypeV>, int)>,
                Some(q) => Some(
                    (crate::typ::types_view(out@) + q.0, (*i - start) + q.1),
                ),
            }),
        decreases s@.len() - *i, 2int, count - k,
    {
        broadcast use crate::typ::lemma_types_view;

        let ghost outv0 = crate::typ::types_view(out@);
        let ghost i0 = *i;
        let t = match read_type(s, i) {
            None => {
                return None;
            },
            Some(t) => t,
        };
        let ghost tv = crate::typ::type_view(t);
        out.push(t);
        proof {
            assert(crate::typ::types_view(out@) =~= outv0.push(tv));
            vstd::seq_lib::lemma_seq_skip_of_skip(s@, i0 as int, (*i - i0) as int);
            assert(s@.skip(i0 as int).skip((*i - i0) as int) =~= s@.skip(*i as int));
            assert(outv0.push(tv) + (match dec_type_list(s@.skip(*i as int), count - k - 1) {
                None => Seq::<TypeV>::empty(),
                Some(q) => q.0,
            }) =~= outv0 + (seq![tv] + (match dec_type_list(s@.skip(*i as int), count - k - 1) {
                None => Seq::<TypeV>::empty(),
                Some(q) => q.0,
            })));
        }
        k += 1;
    }
    proof {
        assert(dec_type_list(s@.skip(*i as int), 0) == Some((Seq::<TypeV>::empty(), 0int)));
        assert(crate::typ::types_view(out@) + Seq::<TypeV>::empty() =~= crate::typ::types_view(
            out@,
        ));
        vstd::seq_lib::lemma_seq_skip_of_skip(s@, *old(i) as int, (*i - *old(i)) as int);
        assert(s@.skip(*i as int) =~= suffix.skip(*i - *old(i)));
    }
    let ret = match read_type(s, i) {
        None => {
            return None;
        },
        Some(t) => t,
    };
    Some(crate::typ::Signature { args: out, returns: ret })
}


/// Reads `count` strings.
#[verifier::rlimit(100)]
#[verifier::loop_isolation(false)]
fn read_name_vec(s: &[u8], i: &mut usize, count: usize) -> (r: Option<Vec<String>>)
    requires
        *old(i) <= s@.len(),
    ensures
        ({
            let sr = dec_name_list(s@.skip(*old(i) as int), count as int);
            match r {
                Some(v) => sr matches Some(p) && p.0 == crate::ir::names_view(v@) && *final(i)
                    == *old(i) + p.1 && *old(i) <= *final(i) <= s@.len(),
                None => sr is None,
            }
        }),
{
    broadcast use crate::ir::lemma_names_view;

    let ghost start = *i;
    let mut names: Vec<String> = Vec::new();
    let mut k: usize = 0;
    proof {
        assert(crate::ir::names_view(names@) =~= Seq::<Seq<char>>::empty());
        match dec_name_list(s@.skip(start as int), count as int) {
            Some(q) => {
                assert(Seq::<Seq<char>>::empty() + q.0 =~= q.0);
            },
            None => {},
        }
    }
    while k < count
        invariant
            k <= count,
            start <= *i <= s@.len(),
            names@.len() == k,
            dec_name_list(s@.skip(start as int), count as int) == (match dec_name_list(
                s@.skip(*i as int),
                count - k,
            ) {
                None => None::<(Seq<Seq<char>>, int)>,
                Some(q) => Some(
                    (crate::ir::names_view(names@) + q.0, (*i - start) + q.1),
                ),
            }),
        decreases count - k,
    {
        let ghost outv0 = crate::ir::names_view(names@);
        let ghost i0 = *i;
        let nm = match read_string(s, i) {
            None => {
                return None;
            },
            Some(v) => v,
        };
        let ghost nv = nm@;
        names.push(nm);
        proof {
            assert(crate::ir::names_view(names@) =~= outv0.push(nv));
            vstd::seq_lib::lemma_seq_skip_of_skip(s@, i0 as int, (*i - i0) as int);
            assert(s@.skip(i0 as int).skip((*i - i0) as int) =~= s@.skip(*i as int));
            assert(outv0.push(nv) + (match dec_name_list(s@.skip(*i as int), count - k - 1) {
                None => Seq::<Seq<char>>::empty(),
                Some(q) => q.0,
            }) =~= outv0 + (seq![nv] + (match dec_name_list(
                s@.skip(*i as int),
                count - k - 1,
            ) {
                None => Seq::<Seq<char>>::empty(),
                Some(q) => q.0,
            })));
        }
        k += 1;
    }
    proof {
        assert(dec_name_list(s@.skip(*i as int), 0) == Some((Seq::<Seq<char>>::empty(), 0int)));
        assert(crate::ir::names_view(names@) + Seq::<Seq<char>>::empty() =~= crate::ir::names_view(
            names@,
        ));
    }
    Some(names)
}

/// Reads `count` ids.
#[verifier::rlimit(100)]
#[verifier::loop_isolation(false)]
fn read_usize_vec(s: &[u8], i: &mut usize, count: usize) -> (r: Option<Vec<usize>>)
    requires
        *old(i) <= s@.len(),
    ensures
        ({
            let sr = dec_usize_list(s@.skip(*old(i) as int), count as int);
            match r {
                Some(v) => sr matches Some(p) && p.0 == v@ && *final(i) == *old(i) + p.1 && *old(i)
                    <= *final(i) <= s@.len(),
                None => sr is None,
            }
        }),
{
    let ghost start = *i;
    let mut args: Vec<usize> = Vec::new();
    let mut k: usize = 0;
    proof {
        match dec_usize_list(s@.skip(start as int), count as int) {
            Some(q) => {
                assert(Seq::<usize>::empty() + q.0 =~= q.0);
            },
            None => {},
        }
    }
    while k < count
        invariant
            k <= count,
            start <= *i <= s@.len(),
            args@.len() == k,
            dec_usize_list(s@.skip(start as int), count as int) == (match dec_usize_list(
                s@.skip(*i as int),
                count - k,
            ) {
                None => None::<(Seq<usize>, int)>,
                Some(q) => Some((args@ + q.0, (*i - start) + q.1)),
            }),
        decreases count - k,
    {
        let ghost outv0 = args@;
        let ghost i0 = *i;
        let a = match read_usize(s, i) {
            None => {
                return None;
            },
            Some(v) => v,
        };
        args.push(a);
        proof {
            vstd::seq_lib::lemma_seq_skip_of_skip(s@, i0 as int, (*i - i0) as int);
            assert(s@.skip(i0 as int).skip((*i - i0) as int) =~= s@.skip(*i as int));
            assert(outv0.push(a) + (match dec_usize_list(s@.skip(*i as int), count - k - 1) {
                None => Seq::<usize>::empty(),
                Some(q) => q.0,
            }) =~= outv0 + (seq![a] + (match dec_usize_list(s@.skip(*i as int), count - k - 1) {
                None => Seq::<usize>::empty(),
                Some(q) => q.0,
            })));
        }
        k += 1;
    }
    proof {
        assert(dec_usize_list(s@.skip(*i as int), 0) == Some((Seq::<usize>::empty(), 0int)));
        assert(args@ + Seq::<usize>::empty() =~= args@);
    }
    Some(args)
}

/// Reads `count` id pairs.
#[verifier::rlimit(100)]
#[verifier::loop_isolation(false)]
fn read_pair_vec(s: &[u8], i: &mut usize, count: usize) -> (r: Option<Vec<(usize, usize)>>)
    requires
        *old(i) <= s@.len(),
    ensures
        ({
            let sr = dec_pair_list(s@.skip(*old(i) as int), count as int);
            match r {
                Some(v) => sr matches Some(p) && p.0 == v@ && *final(i) == *old(i) + p.1 && *old(i)
                    <= *final(i) <= s@.len(),
                None => sr is None,
            }
        }),
{
    let ghost start = *i;
    let mut entries: Vec<(usize, usize)> = Vec::new();
    let mut k: usize = 0;
    proof {
        match dec_pair_list(s@.skip(start as int), count as int) {
            Some(q) => {
                assert(Seq::<(usize, usize)>::empty() + q.0 =~= q.0);
            },
            None => {},
        }
    }
    while k < count
        invariant
            k <= count,
            start <= *i <= s@.len(),
            entries@.len() == k,
            dec_pair_list(s@.skip(start as int), count as int) == (match dec_pair_list(
                s@.skip(*i as int),
                count - k,
            ) {
                None => None::<(Seq<(usize, usize)>, int)>,
                Some(q) => Some((entries@ + q.0, (*i - start) + q.1)),
            }),
        decreases count - k,
    {
        let ghost outv0 = entries@;
        let ghost i0 = *i;
        let a = match read_usize(s, i) {
            None => {
                return None;
            },
            Some(v) => v,
        };
        proof {
            vstd::seq_lib::lemma_seq_skip_of_skip(s@, i0 as int, 8);
            assert(s@.skip(i0 as int).skip(8) =~= s@.skip(*i as int));
        }
        let b = match read_usize(s, i) {
            None => {
                return None;
            },
            Some(v) => v,
        };
        entries.push((a, b));
        proof {
            vstd::seq_lib::lemma_seq_skip_of_skip(s@, i0 as int, 16);
            assert(s@.skip(i0 as int).skip(16) =~= s@.skip(*i as int));
            assert(outv0.push((a, b)) + (match dec_pair_list(s@.skip(*i as int), count - k - 1) {
                None => Seq::<(usize, usize)>::empty(),
                Some(q) => q.0,
            }) =~= outv0 + (seq![(a, b)] + (match dec_pair_list(
                s@.skip(*i as int),
                count - k - 1,
            ) {
                None => Seq::<(usize, usize)>::empty(),
                Some(q) => q.0,
            })));
        }
        k += 1;
    }
    proof {
        assert(dec_pair_list(s@.skip(*i as int), 0) == Some(
            (Seq::<(usize, usize)>::empty(), 0int),
        ));
        assert(entries@ + Seq::<(usize, usize)>::empty() =~= entries@);
    }
    Some(entries)
}

/// Reads an operation.
/// Reads a statically resolved call's payload.
#[verifier::rlimit(100)]
#[verifier::loop_isolation(false)]
fn read_op_call(s: &[u8], i: &mut usize) -> (r: Option<crate::ir::Operation>)
    requires
        *old(i) <= s@.len(),
    ensures
        ({
            let sr = dec_op_call(s@.skip(*old(i) as int));
            match r {
                Some(v) => sr matches Some(p) && p.0 == crate::ir::operation_view(v) && *final(i)
                    == *old(i) + p.1 && *old(i) <= *final(i) <= s@.len(),
                None => sr is None,
            }
        }),
{
    broadcast use crate::ir::lemma_names_view;

    let ghost rest = s@.skip(*old(i) as int);
    let count = match read_usize(s, i) {
        None => {
            return None;
        },
        Some(c) => c,
    };
    proof {
        vstd::seq_lib::lemma_seq_skip_of_skip(s@, *old(i) as int, 8);
        assert(rest.skip(8) =~= s@.skip(*i as int));
    }
    let names = match read_name_vec(s, i, count) {
        None => {
            return None;
        },
        Some(v) => v,
    };
    let ghost mid = *i;
    proof {
        vstd::seq_lib::lemma_seq_skip_of_skip(s@, *old(i) as int, (mid - *old(i)) as int);
        assert(rest.skip((mid - *old(i)) as int) =~= s@.skip(mid as int));
    }
    let acount = match read_usize(s, i) {
        None => {
            return None;
        },
        Some(c) => c,
    };
    proof {
        vstd::seq_lib::lemma_seq_skip_of_skip(s@, mid as int, 8);
        assert(s@.skip(mid as int).skip(8) =~= s@.skip(*i as int));
        vstd::seq_lib::lemma_seq_skip_of_skip(s@, *old(i) as int, (mid - *old(i)) as int + 8);
        assert(rest.skip((mid - *old(i)) as int + 8) =~= s@.skip(*i as int));
    }
    let args = match read_usize_vec(s, i, acount) {
        None => {
            return None;
        },
        Some(v) => v,
    };
    Some(crate::ir::Operation::Call { function: names, args })
}

/// Reads an indirect call's payload.
#[verifier::rlimit(100)]
#[verifier::loop_isolation(false)]
fn read_op_call_pointer(s: &[u8], i: &mut usize) -> (r: Option<crate::ir::Operation>)
    requires
        *old(i) <= s@.len(),
    ensures
        ({
            let sr = dec_op_call_pointer(s@.skip(*old(i) as int));
            match r {
                Some(v) => sr matches Some(p) && p.0 == crate::ir::operation_view(v) && *final(i)
                    == *old(i) + p.1 && *old(i) <= *final(i) <= s@.len(),
                None => sr is None,
            }
        }),
{
    let ghost rest = s@.skip(*old(i) as int);
    let p = match read_usize(s, i) {
        None => {
            return None;
        },
        Some(v) => v,
    };
    let ghost mid = *i;
    proof {
        vstd::seq_lib::lemma_seq_skip_of_skip(s@, *old(i) as int, 8);
        assert(rest.skip(8) =~= s@.skip(mid as int));
    }
    let acount = match read_usize(s, i) {
        None => {
            return None;
        },
        Some(c) => c,
    };
    proof {
        vstd::seq_lib::lemma_seq_skip_of_skip(s@, mid as int, 8);
        assert(s@.skip(mid as int).skip(8) =~= s@.skip(*i as int));
        vstd::seq_lib::lemma_seq_skip_of_skip(s@, *old(i) as int, 16);
        assert(rest.skip(16) =~= s@.skip(*i as int));
    }
    let args = match read_usize_vec(s, i, acount) {
        None => {
            return None;
        },
        Some(v) => v,
    };
    Some(crate::ir::Operation::CallPointer { pointer: p, args })
}

/// Reads a residual call's payload.
#[verifier::rlimit(100)]
#[verifier::loop_isolation(false)]
fn read_op_partial_call(s: &[u8], i: &mut usize) -> (r: Option<crate::ir::Operation>)
    requires
        *old(i) <= s@.len(),
    ensures
        ({
            let sr = dec_op_partial_call(s@.skip(*old(i) as int));
            match r {
                Some(v) => sr matches Some(p) && p.0 == crate::ir::operation_view(v) && *final(i)
                    == *old(i) + p.1 && *old(i) <= *final(i) <= s@.len(),
                None => sr is None,
            }
        }),
    decreases s@.len() - *old(i), 0int, 0int,
{
    broadcast use lemma_blocks_view, lemma_vars_map_view;

    let ghost rest = s@.skip(*old(i) as int);
    let count = match read_usize(s, i) {
        None => {
            return None;
        },
        Some(c) => c,
    };
    let ghost start = *i;
    proof {
        vstd::seq_lib::lemma_seq_skip_of_skip(s@, *old(i) as int, 8);
        assert(rest.skip(8) =~= s@.skip(start as int));
    }
    let blocks = match read_block_list(s, i, count) {
        None => {
            return None;
        },
        Some(b) => b,
    };
    proof {
        vstd::seq_lib::lemma_seq_skip_of_skip(s@, *old(i) as int, (*i - *old(i)) as int);
        assert(rest.skip((*i - *old(i)) as int) =~= s@.skip(*i as int));
    }
    let variables = match read_vars(s, i) {
        None => {
            return None;
        },
        Some(v) => v,
    };
    Some(crate::ir::Operation::PartialCall { blocks, variables })
}

/// Reads an operation.
#[verifier::rlimit(100)]
#[verifier::loop_isolation(false)]
pub fn read_operation(s: &[u8], i: &mut usize) -> (r: Option<crate::ir::Operation>)
    requires
        *old(i) <= s@.len(),
    ensures
        ({
            let sr = dec_operation(s@.skip(*old(i) as int));
            match r {
                Some(v) => sr matches Some(p) && p.0 == crate::ir::operation_view(v) && *final(i)
                    == *old(i) + p.1 && *old(i) <= *final(i) <= s@.len(),
                None => sr is None,
            }
        }),
    decreases s@.len() - *old(i), 0int, 0int,
{
    let ghost suffix = s@.skip(*old(i) as int);
    if *i >= s.len() {
        return None;
    }
    let tag = s[*i];
    proof {
        assert(suffix[0] == s@[*old(i) as int]);
        assert(suffix.skip(1) =~= s@.skip(*old(i) as int + 1));
    }
    *i += 1;
    if tag == 0u8 {
        read_op_call(s, i)
    } else if tag == 1u8 {
        read_op_call_pointer(s, i)
    } else if tag == 2u8 {
        match read_usize(s, i) {
            None => None,
            Some(v) => Some(crate::ir::Operation::LoadGlobal { src: v }),
        }
    } else if tag == 3u8 {
        match read_usize(s, i) {
            None => None,
            Some(v) => Some(crate::ir::Operation::LoadLocal { src: v }),
        }
    } else if tag == 4u8 {
        let ghost rest = s@.skip(*old(i) as int + 1);
        let count = match read_usize(s, i) {
            None => {
                return None;
            },
            Some(c) => c,
        };
        proof {
            vstd::seq_lib::lemma_seq_skip_of_skip(s@, *old(i) as int + 1, 8);
            assert(rest.skip(8) =~= s@.skip(*i as int));
        }
        let entries = match read_pair_vec(s, i, count) {
            None => {
                return None;
            },
            Some(v) => v,
        };
        Some(
            crate::ir::Operation::Phi { block_to_var: crate::maps::VarMap { entries } },
        )
    } else if tag == 5u8 {
        read_op_partial_call(s, i)
    } else {
        None
    }
}

/// Reads a variable state.
#[verifier::rlimit(100)]
#[verifier::loop_isolation(false)]
pub fn read_vars(s: &[u8], i: &mut usize) -> (r: Option<crate::maps::VarMap<Option<Vec<u8>>>>)
    requires
        *old(i) <= s@.len(),
    ensures
        ({
            let sr = dec_vars(s@.skip(*old(i) as int));
            match r {
                Some(v) => sr matches Some(p) && p.0 == crate::ir::vars_map_view(v.entries@)
                    && *final(i) == *old(i) + p.1 && *old(i) <= *final(i) <= s@.len(),
                None => sr is None,
            }
        }),
{
    broadcast use lemma_vars_map_view;

    let ghost suffix = s@.skip(*old(i) as int);
    let count = match read_usize(s, i) {
        None => {
            return None;
        },
        Some(c) => c,
    };
    let ghost start = *i;
    proof {
        vstd::seq_lib::lemma_seq_skip_of_skip(s@, *old(i) as int, 8);
        assert(suffix.skip(8) =~= s@.skip(start as int));
    }
    let mut entries: Vec<(usize, Option<Vec<u8>>)> = Vec::new();
    let mut k: usize = 0;
    proof {
        assert(crate::ir::vars_map_view(entries@) =~= Seq::<(usize, Option<Seq<u8>>)>::empty());
        match dec_vars_list(s@.skip(start as int), count as int) {
            Some(q) => {
                assert(Seq::<(usize, Option<Seq<u8>>)>::empty() + q.0 =~= q.0);
            },
            None => {},
        }
    }
    while k < count
        invariant
            k <= count,
            start <= *i <= s@.len(),
            entries@.len() == k,
            dec_vars_list(s@.skip(start as int), count as int) == (match dec_vars_list(
                s@.skip(*i as int),
                count - k,
            ) {
                None => None::<(VarsV, int)>,
                Some(q) => Some(
                    (crate::ir::vars_map_view(entries@) + q.0, (*i - start) + q.1),
                ),
            }),
        decreases count - k,
    {
        let ghost outv0 = crate::ir::vars_map_view(entries@);
        let ghost i0 = *i;
        let key = match read_usize(s, i) {
            None => {
                return None;
            },
            Some(v) => v,
        };
        proof {
            vstd::seq_lib::lemma_seq_skip_of_skip(s@, i0 as int, 8);
            assert(s@.skip(i0 as int).skip(8) =~= s@.skip(*i as int));
        }
        let value = match read_opt_bytes(s, i) {
            None => {
                return None;
            },
            Some(v) => v,
        };
        let ghost vv = crate::ir::opt_bytes_view(value);
        entries.push((key, value));
        proof {
            assert(crate::ir::vars_map_view(entries@) =~= outv0.push((key, vv)));
            vstd::seq_lib::lemma_seq_skip_of_skip(s@, i0 as int, (*i - i0) as int);
            assert(s@.skip(i0 as int).skip((*i - i0) as int) =~= s@.skip(*i as int));
            assert(outv0.push((key, vv)) + (match dec_vars_list(
                s@.skip(*i as int),
                count - k - 1,
            ) {
                None => Seq::<(usize, Option<Seq<u8>>)>::empty(),
                Some(q) => q.0,
            }) =~= outv0 + (seq![(key, vv)] + (match dec_vars_list(
                s@.skip(*i as int),
                count - k - 1,
            ) {
                None => Seq::<(usize, Option<Seq<u8>>)>::empty(),
                Some(q) => q.0,
            })));
        }
        k += 1;
    }
    proof {
        assert(dec_vars_list(s@.skip(*i as int), 0) == Some(
            (Seq::<(usize, Option<Seq<u8>>)>::empty(), 0int),
        ));
        assert(crate::ir::vars_map_view(entries@) + Seq::<(usize, Option<Seq<u8>>)>::empty()
            =~= crate::ir::vars_map_view(entries@));
    }
    Some(crate::maps::VarMap { entries })
}

/// Reads a statement.
pub fn read_statement(s: &[u8], i: &mut usize) -> (r: Option<crate::ir::Statement>)
    requires
        *old(i) <= s@.len(),
    ensures
        ({
            let sr = dec_statement(s@.skip(*old(i) as int));
            match r {
                Some(v) => sr matches Some(p) && p.0 == crate::ir::statement_view(v) && *final(i)
                    == *old(i) + p.1 && *old(i) <= *final(i) <= s@.len(),
                None => sr is None,
            }
        }),
    decreases s@.len() - *old(i), 1int, 0int,
{
    let ghost i0 = *i;
    let op = match read_operation(s, i) {
        None => {
            return None;
        },
        Some(v) => v,
    };
    proof {
        vstd::seq_lib::lemma_seq_skip_of_skip(s@, i0 as int, (*i - i0) as int);
        assert(s@.skip(i0 as int).skip((*i - i0) as int) =~= s@.skip(*i as int));
    }
    let store = match read_opt_usize(s, i) {
        None => {
            return None;
        },
        Some(v) => v,
    };
    Some(crate::ir::Statement::Operation(op, store))
}

/// Reads a terminator.
pub fn read_terminal(s: &[u8], i: &mut usize) -> (r: Option<crate::ir::Terminal>)
    requires
        *old(i) <= s@.len(),
    ensures
        ({
            let sr = dec_terminal(s@.skip(*old(i) as int));
            match r {
                Some(v) => sr matches Some(p) && p.0 == v && *final(i) == *old(i) + p.1 && *old(i)
                    <= *final(i) <= s@.len(),
                None => sr is None,
            }
        }),
{
    let ghost suffix = s@.skip(*old(i) as int);
    if *i >= s.len() {
        return None;
    }
    let tag = s[*i];
    proof {
        assert(suffix[0] == s@[*old(i) as int]);
        assert(suffix.skip(1) =~= s@.skip(*old(i) as int + 1));
    }
    *i += 1;
    let ghost rest = s@.skip(*old(i) as int + 1);
    if tag == 0u8 {
        match read_opt_usize(s, i) {
            None => None,
            Some(o) => Some(crate::ir::Terminal::Return(o)),
        }
    } else if tag == 1u8 {
        match read_opt_usize(s, i) {
            None => None,
            Some(o) => Some(crate::ir::Terminal::Evaluate(o)),
        }
    } else if tag == 2u8 {
        match read_usize(s, i) {
            None => None,
            Some(v) => Some(crate::ir::Terminal::Jump(v)),
        }
    } else if tag == 3u8 {
        let ghost m0 = *i;
        let cond = match read_usize(s, i) {
            None => {
                return None;
            },
            Some(v) => v,
        };
        proof {
            vstd::seq_lib::lemma_seq_skip_of_skip(s@, m0 as int, 8);
            assert(s@.skip(m0 as int).skip(8) =~= s@.skip(*i as int));
        }
        let ghost m1 = *i;
        let then_target = match read_usize(s, i) {
            None => {
                return None;
            },
            Some(v) => v,
        };
        proof {
            vstd::seq_lib::lemma_seq_skip_of_skip(s@, m0 as int, 16);
            assert(s@.skip(m0 as int).skip(16) =~= s@.skip(*i as int));
        }
        let els_target = match read_usize(s, i) {
            None => {
                return None;
            },
            Some(v) => v,
        };
        Some(
            crate::ir::Terminal::CondJump { cond, then: then_target, els: els_target },
        )
    } else if tag == 4u8 {
        match read_usize(s, i) {
            None => None,
            Some(v) => Some(crate::ir::Terminal::ThenElseJump(v)),
        }
    } else {
        None
    }
}

/// Reads a block.
#[verifier::rlimit(100)]
#[verifier::loop_isolation(false)]
pub fn read_block(s: &[u8], i: &mut usize) -> (r: Option<crate::ir::Block>)
    requires
        *old(i) <= s@.len(),
    ensures
        ({
            let sr = dec_block(s@.skip(*old(i) as int));
            match r {
                Some(v) => sr matches Some(p) && p.0 == crate::ir::block_view(v) && *final(i)
                    == *old(i) + p.1 && *old(i) <= *final(i) <= s@.len(),
                None => sr is None,
            }
        }),
    decreases s@.len() - *old(i), 2int, 0int,
{
    broadcast use crate::ir::lemma_statements_view;

    let ghost suffix = s@.skip(*old(i) as int);
    let count = match read_usize(s, i) {
        None => {
            return None;
        },
        Some(c) => c,
    };
    let ghost start = *i;
    proof {
        vstd::seq_lib::lemma_seq_skip_of_skip(s@, *old(i) as int, 8);
        assert(suffix.skip(8) =~= s@.skip(start as int));
    }
    let mut stmts: Vec<crate::ir::Statement> = Vec::new();
    let mut k: usize = 0;
    proof {
        assert(crate::ir::statements_view(stmts@) =~= Seq::<crate::ir::StatementV>::empty());
        match dec_stmt_list(s@.skip(start as int), count as int) {
            Some(q) => {
                assert(Seq::<crate::ir::StatementV>::empty() + q.0 =~= q.0);
            },
            None => {},
        }
    }
    while k < count
        invariant
            k <= count,
            start <= *i <= s@.len(),
            stmts@.len() == k,
            dec_stmt_list(s@.skip(start as int), count as int) == (match dec_stmt_list(
                s@.skip(*i as int),
                count - k,
            ) {
                None => None::<(Seq<crate::ir::StatementV>, int)>,
                Some(q) => Some(
                    (crate::ir::statements_view(stmts@) + q.0, (*i - start) + q.1),
                ),
            }),
        decreases count - k,
    {
        let ghost outv0 = crate::ir::statements_view(stmts@);
        let i_before = *i;
        let ghost i0 = *i;
        let st = match read_statement(s, i) {
            None => {
                return None;
            },
            Some(v) => v,
        };
        if *i == i_before {
            // A statement encoding always consumes at least one byte; an
            // empty parse cannot arise from a well-formed stream.
            return None;
        }
        let ghost sv = crate::ir::statement_view(st);
        stmts.push(st);
        proof {
            assert(crate::ir::statements_view(stmts@) =~= outv0.push(sv));
            vstd::seq_lib::lemma_seq_skip_of_skip(s@, i0 as int, (*i - i0) as int);
            assert(s@.skip(i0 as int).skip((*i - i0) as int) =~= s@.skip(*i as int));
            assert(outv0.push(sv) + (match dec_stmt_list(s@.skip(*i as int), count - k - 1) {
                None => Seq::<crate::ir::StatementV>::empty(),
                Some(q) => q.0,
            }) =~= outv0 + (seq![sv] + (match dec_stmt_list(
                s@.skip(*i as int),
                count - k - 1,
            ) {
                None => Seq::<crate::ir::StatementV>::empty(),
                Some(q) => q.0,
            })));
        }
        k += 1;
    }
    proof {
        assert(dec_stmt_list(s@.skip(*i as int), 0) == Some(
            (Seq::<crate::ir::StatementV>::empty(), 0int),
        ));
        assert(crate::ir::statements_view(stmts@) + Seq::<crate::ir::StatementV>::empty()
            =~= crate::ir::statements_view(stmts@));
    }
    proof {
        vstd::seq_lib::lemma_seq_skip_of_skip(s@, *old(i) as int, (*i - *old(i)) as int);
        assert(suffix.skip((*i - *old(i)) as int) =~= s@.skip(*i as int));
    }
    let term = match read_terminal(s, i) {
        None => {
            return None;
        },
        Some(t) => t,
    };
    Some(crate::ir::Block { statements: stmts, terminal: term })
}

/// Reads `count` blocks.
#[verifier::rlimit(100)]
#[verifier::loop_isolation(false)]
pub fn read_block_list(s: &[u8], i: &mut usize, count: usize) -> (r: Option<
    Vec<crate::ir::Block>,
>)
    requires
        *old(i) <= s@.len(),
    ensures
        ({
            let sr = dec_block_list(s@.skip(*old(i) as int), count as int);
            match r {
                Some(v) => sr matches Some(p) && p.0 == crate::ir::blocks_view(v@) && *final(i)
                    == *old(i) + p.1 && *old(i) <= *final(i) <= s@.len(),
                None => sr is None,
            }
        }),
    decreases s@.len() - *old(i), 3int, 0int,
{
    broadcast use lemma_blocks_view;

    let ghost start = *i;
    let mut out: Vec<crate::ir::Block> = Vec::new();
    let mut k: usize = 0;
    proof {
        assert(crate::ir::blocks_view(out@) =~= Seq::<BlockV>::empty());
        match dec_block_list(s@.skip(start as int), count as int) {
            Some(q) => {
                assert(Seq::<BlockV>::empty() + q.0 =~= q.0);
            },
            None => {},
        }
    }
    while k < count
        invariant
            k <= count,
            start <= *i <= s@.len(),
            out@.len() == k,
            dec_block_list(s@.skip(start as int), count as int) == (match dec_block_list(
                s@.skip(*i as int),
                count - k,
            ) {
                None => None::<(Seq<BlockV>, int)>,
                Some(q) => Some(
                    (crate::ir::blocks_view(out@) + q.0, (*i - start) + q.1),
                ),
            }),
        decreases count - k,
    {
        let ghost outv0 = crate::ir::blocks_view(out@);
        let i_before = *i;
        let ghost i0 = *i;
        let b = match read_block(s, i) {
            None => {
                return None;
            },
            Some(v) => v,
        };
        if *i == i_before {
            // A block encoding always consumes at least one byte.
            return None;
        }
        let ghost bv = crate::ir::block_view(b);
        out.push(b);
        proof {
            assert(crate::ir::blocks_view(out@) =~= outv0.push(bv));
            vstd::seq_lib::lemma_seq_skip_of_skip(s@, i0 as int, (*i - i0) as int);
            assert(s@.skip(i0 as int).skip((*i - i0) as int) =~= s@.skip(*i as int));
            assert(outv0.push(bv) + (match dec_block_list(s@.skip(*i as int), count - k - 1) {
                None => Seq::<BlockV>::empty(),
                Some(q) => q.0,
            }) =~= outv0 + (seq![bv] + (match dec_block_list(
                s@.skip(*i as int),
                count - k - 1,
            ) {
                None => Seq::<BlockV>::empty(),
                Some(q) => q.0,
            })));
        }
        k += 1;
    }
    proof {
        assert(dec_block_list(s@.skip(*i as int), 0) == Some((Seq::<BlockV>::empty(), 0int)));
        assert(crate::ir::blocks_view(out@) + Seq::<BlockV>::empty() =~= crate::ir::blocks_view(
            out@,
        ));
    }
    Some(out)
}

/// Reads `count` variable-type entries.
#[verifier::rlimit(100)]
#[verifier::loop_isolation(false)]
fn read_var_types_vec(s: &[u8], i: &mut usize, count: usize) -> (r: Option<
    Vec<(usize, crate::typ::Type)>,
>)
    requires
        *old(i) <= s@.len(),
    ensures
        ({
            let sr = dec_var_types_list(s@.skip(*old(i) as int), count as int);
            match r {
                Some(v) => sr matches Some(p) && p.0 == crate::ir::var_types_view(v@) && *final(i)
                    == *old(i) + p.1 && *old(i) <= *final(i) <= s@.len(),
                None => sr is None,
            }
        }),
{
    broadcast use crate::ir::lemma_var_types_view;

    let ghost start = *i;
    let mut entries: Vec<(usize, crate::typ::Type)> = Vec::new();
    let mut k: usize = 0;
    proof {
        assert(crate::ir::var_types_view(entries@) =~= Seq::<(usize, TypeV)>::empty());
        match dec_var_types_list(s@.skip(start as int), count as int) {
            Some(q) => {
                assert(Seq::<(usize, TypeV)>::empty() + q.0 =~= q.0);
            },
            None => {},
        }
    }
    while k < count
        invariant
            k <= count,
            start <= *i <= s@.len(),
            entries@.len() == k,
            dec_var_types_list(s@.skip(start as int), count as int) == (match dec_var_types_list(
                s@.skip(*i as int),
                count - k,
            ) {
                None => None::<(Seq<(usize, TypeV)>, int)>,
                Some(q) => Some(
                    (crate::ir::var_types_view(entries@) + q.0, (*i - start) + q.1),
                ),
            }),
        decreases count - k,
    {
        let ghost outv0 = crate::ir::var_types_view(entries@);
        let ghost i0 = *i;
        let key = match read_usize(s, i) {
            None => {
                return None;
            },
            Some(v) => v,
        };
        proof {
            vstd::seq_lib::lemma_seq_skip_of_skip(s@, i0 as int, 8);
            assert(s@.skip(i0 as int).skip(8) =~= s@.skip(*i as int));
        }
        let t = match read_type(s, i) {
            None => {
                return None;
            },
            Some(v) => v,
        };
        let ghost tv = crate::typ::type_view(t);
        entries.push((key, t));
        proof {
            assert(crate::ir::var_types_view(entries@) =~= outv0.push((key, tv)));
            vstd::seq_lib::lemma_seq_skip_of_skip(s@, i0 as int, (*i - i0) as int);
            assert(s@.skip(i0 as int).skip((*i - i0) as int) =~= s@.skip(*i as int));
            assert(outv0.push((key, tv)) + (match dec_var_types_list(
                s@.skip(*i as int),
                count - k - 1,
            ) {
                None => Seq::<(usize, TypeV)>::empty(),
                Some(q) => q.0,
            }) =~= outv0 + (seq![(key, tv)] + (match dec_var_types_list(
                s@.skip(*i as int),
                count - k - 1,
            ) {
                None => Seq::<(usize, TypeV)>::empty(),
                Some(q) => q.0,
            })));
        }
        k += 1;
    }
    proof {
        assert(dec_var_types_list(s@.skip(*i as int), 0) == Some(
            (Seq::<(usize, TypeV)>::empty(), 0int),
        ));
        assert(crate::ir::var_types_view(entries@) + Seq::<(usize, TypeV)>::empty()
            =~= crate::ir::var_types_view(entries@));
    }
    Some(entries)
}

/// Reads a function.
#[verifier::rlimit(100)]
#[verifier::loop_isolation(false)]
pub fn read_function(s: &[u8], i: &mut usize) -> (r: Option<crate::ir::Function>)
    requires
        *old(i) <= s@.len(),
    ensures
        ({
            let sr = dec_function(s@.skip(*old(i) as int));
            match r {
                Some(v) => sr matches Some(p) && p.0 == crate::ir::function_view(v) && *final(i)
                    == *old(i) + p.1 && *old(i) <= *final(i) <= s@.len(),
                None => sr is None,
            }
        }),
{
    broadcast use lemma_blocks_view, crate::ir::lemma_var_types_view;

    let ghost suffix = s@.skip(*old(i) as int);
    let bc = match read_usize(s, i) {
        None => {
            return None;
        },
        Some(c) => c,
    };
    let ghost start = *i;
    proof {
        vstd::seq_lib::lemma_seq_skip_of_skip(s@, *old(i) as int, 8);
        assert(suffix.skip(8) =~= s@.skip(start as int));
    }
    let blocks = match read_block_list(s, i, bc) {
        None => {
            return None;
        },
        Some(b) => b,
    };
    let ghost m1 = *i;
    proof {
        vstd::seq_lib::lemma_seq_skip_of_skip(s@, *old(i) as int, (m1 - *old(i)) as int);
        assert(suffix.skip((m1 - *old(i)) as int) =~= s@.skip(m1 as int));
    }
    let exported = match read_bool(s, i) {
        None => {
            return None;
        },
        Some(b) => b,
    };
    let ghost m2 = *i;
    proof {
        vstd::seq_lib::lemma_seq_skip_of_skip(s@, *old(i) as int, (m2 - *old(i)) as int);
        assert(suffix.skip((m2 - *old(i)) as int) =~= s@.skip(m2 as int));
    }
    let vc = match read_usize(s, i) {
        None => {
            return None;
        },
        Some(c) => c,
    };
    let ghost m3 = *i;
    proof {
        vstd::seq_lib::lemma_seq_skip_of_skip(s@, *old(i) as int, (m3 - *old(i)) as int);
        assert(suffix.skip((m3 - *old(i)) as int) =~= s@.skip(m3 as int));
    }
    let vt = match read_var_types_vec(s, i, vc) {
        None => {
            return None;
        },
        Some(v) => v,
    };
    let ghost m4 = *i;
    proof {
        vstd::seq_lib::lemma_seq_skip_of_skip(s@, *old(i) as int, (m4 - *old(i)) as int);
        assert(suffix.skip((m4 - *old(i)) as int) =~= s@.skip(m4 as int));
    }
    let signature = match read_signature(s, i) {
        None => {
            return None;
        },
        Some(v) => v,
    };
    Some(
        crate::ir::Function {
            ir: blocks,
            exported,
            variable_types: crate::maps::VarMap { entries: vt },
            signature,
        },
    )
}

/// Reads `count` constants.
#[verifier::rlimit(100)]
#[verifier::loop_isolation(false)]
fn read_const_vec(s: &[u8], i: &mut usize, count: usize) -> (r: Option<Vec<Vec<u8>>>)
    requires
        *old(i) <= s@.len(),
    ensures
        ({
            let sr = dec_const_list(s@.skip(*old(i) as int), count as int);
            match r {
                Some(v) => sr matches Some(p) && p.0 == byte_seqs_view(v@) && *final(i) == *old(i)
                    + p.1 && *old(i) <= *final(i) <= s@.len(),
                None => sr is None,
            }
        }),
{
    broadcast use lemma_byte_seqs_view;

    let ghost start = *i;
    let mut constants: Vec<Vec<u8>> = Vec::new();
    let mut k: usize = 0;
    proof {
        assert(byte_seqs_view(constants@) =~= Seq::<Seq<u8>>::empty());
        match dec_const_list(s@.skip(start as int), count as int) {
            Some(q) => {
                assert(Seq::<Seq<u8>>::empty() + q.0 =~= q.0);
            },
            None => {},
        }
    }
    while k < count
        invariant
            k <= count,
            start <= *i <= s@.len(),
            constants@.len() == k,
            dec_const_list(s@.skip(start as int), count as int) == (match dec_const_list(
                s@.skip(*i as int),
                count - k,
            ) {
                None => None::<(Seq<Seq<u8>>, int)>,
                Some(q) => Some(
                    (byte_seqs_view(constants@) + q.0, (*i - start) + q.1),
                ),
            }),
        decreases count - k,
    {
        let ghost outv0 = byte_seqs_view(constants@);
        let ghost i0 = *i;
        let c = match read_bytes(s, i) {
            None => {
                return None;
            },
            Some(v) => v,
        };
        let ghost cv = c@;
        constants.push(c);
        proof {
            assert(byte_seqs_view(constants@) =~= outv0.push(cv));
            vstd::seq_lib::lemma_seq_skip_of_skip(s@, i0 as int, (*i - i0) as int);
            assert(s@.skip(i0 as int).skip((*i - i0) as int) =~= s@.skip(*i as int));
            assert(outv0.push(cv) + (match dec_const_list(s@.skip(*i as int), count - k - 1) {
                None => Seq::<Seq<u8>>::empty(),
                Some(q) => q.0,
            }) =~= outv0 + (seq![cv] + (match dec_const_list(s@.skip(*i as int), count - k - 1) {
                None => Seq::<Seq<u8>>::empty(),
                Some(q) => q.0,
            })));
        }
        k += 1;
    }
    proof {
        assert(dec_const_list(s@.skip(*i as int), 0) == Some((Seq::<Seq<u8>>::empty(), 0int)));
        assert(byte_seqs_view(constants@) + Seq::<Seq<u8>>::empty() =~= byte_seqs_view(
            constants@,
        ));
    }
    Some(constants)
}

/// Reads `count` named functions.
#[verifier::rlimit(100)]
#[verifier::loop_isolation(false)]
fn read_function_vec(s: &[u8], i: &mut usize, count: usize) -> (r: Option<
    Vec<(String, crate::ir::Function)>,
>)
    requires
        *old(i) <= s@.len(),
    ensures
        ({
            let sr = dec_function_list(s@.skip(*old(i) as int), count as int);
            match r {
                Some(v) => sr matches Some(p) && p.0 == crate::ir::functions_view(v@) && *final(i)
                    == *old(i) + p.1 && *old(i) <= *final(i) <= s@.len(),
                None => sr is None,
            }
        }),
{
    broadcast use crate::ir::lemma_functions_view;

    let ghost start = *i;
    let mut entries: Vec<(String, crate::ir::Function)> = Vec::new();
    let mut j: usize = 0;
    proof {
        assert(crate::ir::functions_view(entries@) =~= Seq::<(Seq<char>, FunctionV)>::empty());
        match dec_function_list(s@.skip(start as int), count as int) {
            Some(q) => {
                assert(Seq::<(Seq<char>, FunctionV)>::empty() + q.0 =~= q.0);
            },
            None => {},
        }
    }
    while j < count
        invariant
            j <= count,
            start <= *i <= s@.len(),
            entries@.len() == j,
            dec_function_list(s@.skip(start as int), count as int) == (match dec_function_list(
                s@.skip(*i as int),
                count - j,
            ) {
                None => None::<(Seq<(Seq<char>, FunctionV)>, int)>,
                Some(q) => Some(
                    (crate::ir::functions_view(entries@) + q.0, (*i - start) + q.1),
                ),
            }),
        decreases count - j,
    {
        let ghost outv0 = crate::ir::functions_view(entries@);
        let ghost i0 = *i;
        let name = match read_string(s, i) {
            None => {
                return None;
            },
            Some(v) => v,
        };
        proof {
            vstd::seq_lib::lemma_seq_skip_of_skip(s@, i0 as int, (*i - i0) as int);
            assert(s@.skip(i0 as int).skip((*i - i0) as int) =~= s@.skip(*i as int));
        }
        let f = match read_function(s, i) {
            None => {
                return None;
            },
            Some(v) => v,
        };
        let ghost nv = name@;
        let ghost fv = crate::ir::function_view(f);
        entries.push((name, f));
        proof {
            assert(crate::ir::functions_view(entries@) =~= outv0.push((nv, fv)));
            vstd::seq_lib::lemma_seq_skip_of_skip(s@, i0 as int, (*i - i0) as int);
            assert(s@.skip(i0 as int).skip((*i - i0) as int) =~= s@.skip(*i as int));
            assert(outv0.push((nv, fv)) + (match dec_function_list(
                s@.skip(*i as int),
                count - j - 1,
            ) {
                None => Seq::<(Seq<char>, FunctionV)>::empty(),
                Some(q) => q.0,
            }) =~= outv0 + (seq![(nv, fv)] + (match dec_function_list(
                s@.skip(*i as int),
                count - j - 1,
            ) {
                None => Seq::<(Seq<char>, FunctionV)>::empty(),
                Some(q) => q.0,
            })));
        }
        j += 1;
    }
    proof {
        assert(dec_function_list(s@.skip(*i as int), 0) == Some(
            (Seq::<(Seq<char>, FunctionV)>::empty(), 0int),
        ));
        assert(crate::ir::functions_view(entries@) + Seq::<(Seq<char>, FunctionV)>::empty()
            =~= crate::ir::functions_view(entries@));
    }
    Some(entries)
}

/// Reads a module.
#[verifier::rlimit(100)]
#[verifier::loop_isolation(false)]
pub fn read_module(s: &[u8], i: &mut usize) -> (r: Option<Module>)
    requires
        *old(i) <= s@.len(),
    ensures
        ({
            let sr = dec_module(s@.skip(*old(i) as int));
            match r {
                Some(v) => sr matches Some(p) && p.0 == module_view(v) && *final(i) == *old(i)
                    + p.1 && *old(i) <= *final(i) <= s@.len(),
                None => sr is None,
            }
        }),
{
    let ghost suffix = s@.skip(*old(i) as int);
    let cc = match read_usize(s, i) {
        None => {
            return None;
        },
        Some(c) => c,
    };
    let ghost start = *i;
    proof {
        vstd::seq_lib::lemma_seq_skip_of_skip(s@, *old(i) as int, 8);
        assert(suffix.skip(8) =~= s@.skip(start as int));
    }
    let constants = match read_const_vec(s, i, cc) {
        None => {
            return None;
        },
        Some(v) => v,
    };
    let ghost m1 = *i;
    proof {
        vstd::seq_lib::lemma_seq_skip_of_skip(s@, *old(i) as int, (m1 - *old(i)) as int);
        assert(suffix.skip((m1 - *old(i)) as int) =~= s@.skip(m1 as int));
    }
    let fc = match read_usize(s, i) {
        None => {
            return None;
        },
        Some(c) => c,
    };
    proof {
        vstd::seq_lib::lemma_seq_skip_of_skip(s@, m1 as int, 8);
        assert(s@.skip(m1 as int).skip(8) =~= s@.skip(*i as int));
        vstd::seq_lib::lemma_seq_skip_of_skip(s@, *old(i) as int, (*i - *old(i)) as int);
        assert(suffix.skip((*i - *old(i)) as int) =~= s@.skip(*i as int));
    }
    let entries = match read_function_vec(s, i, fc) {
        None => {
            return None;
        },
        Some(v) => v,
    };
    Some(Module { constants, functions: crate::maps::NameMap { entries } })
}

/// Reads a run result.
#[verifier::rlimit(100)]
#[verifier::loop_isolation(false)]
pub fn read_run_result(s: &[u8], i: &mut usize) -> (r: Option<RunResult>)
    requires
        *old(i) <= s@.len(),
    ensures
        ({
            let sr = dec_run_result(s@.skip(*old(i) as int));
            match r {
                Some(v) => sr matches Some(p) && p.0 == run_result_view(v) && *final(i) == *old(i)
                    + p.1 && *old(i) <= *final(i) <= s@.len(),
                None => sr is None,
            }
        }),
    decreases s@.len() - *old(i),
{
    broadcast use lemma_blocks_view, lemma_vars_map_view;

    let ghost suffix = s@.skip(*old(i) as int);
    if *i >= s.len() {
        return None;
    }
    let tag = s[*i];
    proof {
        assert(suffix[0] == s@[*old(i) as int]);
        assert(suffix.skip(1) =~= s@.skip(*old(i) as int + 1));
    }
    *i += 1;
    let ghost rest = s@.skip(*old(i) as int + 1);
    if tag == 0u8 {
        match read_bytes(s, i) {
            None => None,
            Some(b) => Some(RunResult::Concrete(b)),
        }
    } else if tag == 1u8 {
        let c = match read_usize(s, i) {
            None => {
                return None;
            },
            Some(c) => c,
        };
        let ghost start = *i;
        proof {
            vstd::seq_lib::lemma_seq_skip_of_skip(s@, *old(i) as int + 1, 8);
            assert(rest.skip(8) =~= s@.skip(start as int));
        }
        let blocks = match read_block_list(s, i, c) {
            None => {
                return None;
            },
            Some(b) => b,
        };
        proof {
            vstd::seq_lib::lemma_seq_skip_of_skip(s@, start as int, (*i - start) as int);
            assert(s@.skip(start as int).skip((*i - start) as int) =~= s@.skip(*i as int));
            vstd::seq_lib::lemma_seq_skip_of_skip(rest, 8, (*i - start) as int);
            assert(rest.skip(8 + (*i - start) as int) =~= s@.skip(*i as int));
        }
        let vars = match read_vars(s, i) {
            None => {
                return None;
            },
            Some(v) => v,
        };
        Some(RunResult::Partial(blocks, vars))
    } else if tag == 2u8 {
        let c = match read_usize(s, i) {
            None => {
                return None;
            },
            Some(c) => c,
        };
        let ghost start = *i;
        proof {
            vstd::seq_lib::lemma_seq_skip_of_skip(s@, *old(i) as int + 1, 8);
            assert(rest.skip(8) =~= s@.skip(start as int));
        }
        let blocks = match read_block_list(s, i, c) {
            None => {
                return None;
            },
            Some(b) => b,
        };
        proof {
            vstd::seq_lib::lemma_seq_skip_of_skip(s@, start as int, (*i - start) as int);
            assert(s@.skip(start as int).skip((*i - start) as int) =~= s@.skip(*i as int));
            vstd::seq_lib::lemma_seq_skip_of_skip(rest, 8, (*i - start) as int);
            assert(rest.skip(8 + (*i - start) as int) =~= s@.skip(*i as int));
        }
        let vars = match read_vars(s, i) {
            None => {
                return None;
            },
            Some(v) => v,
        };
        proof {
            vstd::seq_lib::lemma_seq_skip_of_skip(s@, *old(i) as int + 1, (*i - (*old(i)
                + 1)) as int);
            assert(rest.skip((*i - (*old(i) + 1)) as int) =~= s@.skip(*i as int));
        }
        let i_before = *i;
        let then_result = match read_run_result(s, i) {
            None => {
                return None;
            },
            Some(v) => v,
        };
        if *i == i_before {
            // A run-result encoding always consumes at least one byte.
            return None;
        }
        proof {
            vstd::seq_lib::lemma_seq_skip_of_skip(s@, *old(i) as int + 1, (*i - (*old(i)
                + 1)) as int);
            assert(rest.skip((*i - (*old(i) + 1)) as int) =~= s@.skip(*i as int));
        }
        let else_result = match read_run_result(s, i) {
            None => {
                return None;
            },
            Some(v) => v,
        };
        Some(
            RunResult::ConditionalPartial {
                condition: (blocks, vars),
                then: Box::new(then_result),
                els: Box::new(else_result),
            },
        )
    } else if tag == 3u8 {
        match read_bool(s, i) {
            None => None,
            Some(b) => Some(RunResult::ThenElseJump(b)),
        }
    } else {
        None
    }
}

/// Deserializes a program: the module, then the run result.
pub fn deserialize_program(s: &[u8]) -> (r: Option<(Module, RunResult)>)
    ensures
        ({
            let sr = dec_program(s@);
            match r {
                Some(p) => sr matches Some(q) && q.0 == module_view(p.0) && q.1 == run_result_view(
                    p.1,
                ),
                None => sr is None,
            }
        }),
{
    let mut i: usize = 0;
    proof {
        assert(s@.skip(0) =~= s@);
    }
    let m = match read_module(s, &mut i) {
        None => {
            return None;
        },
        Some(v) => v,
    };
    let r = match read_run_result(s, &mut i) {
        None => {
            return None;
        },
        Some(v) => v,
    };
    Some((m, r))
}

} // verus!
