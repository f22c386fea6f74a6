//! The intermediate representation: modules, functions, basic blocks,
//! statements, operations and terminators, together with the lowerer that
//! builds IR from parsed expressions and a printer for debugging.
//!
//! Each executable type has a mathematical view (`ModuleV`, `BlockV`, ...) in
//! which vectors become sequences and strings become character sequences;
//! contracts are phrased over those views.

use vstd::prelude::*;
use vstd::string::StringExecFns;

use crate::expression_parser::{Expr, InfoExpr};
use crate::maps::{assoc_get, assoc_insert, NameMap, VarMap};
use crate::typ::{signature_view, type_view, Signature, SignatureV, Type, TypeV};

verus! {

/// A lowering failure, with the source index it happened at.
#[derive(Debug)]
pub struct IRErrorInfo {
    pub idx: usize,
    pub error: IRError,
}

/// The ways lowering can fail.
#[derive(Debug)]
pub enum IRError {
    SymbolUndefined(String),
    SymbolNotCallable(String),
    SymbolNotIndexable(String),
    ExpressionNotCallable(Type),
    TypeMismatch { got: Type, expected: Type },
    ExtraArgument,
    NotStorable(String),
    MissingElseBlock,
}

/// A module: an append-only pool of constant byte blobs addressed by index,
/// and the functions by name.
#[derive(Debug)]
pub struct Module {
    pub constants: Vec<Vec<u8>>,
    pub functions: NameMap<Function>,
}

/// A function: its basic blocks (block 0 is the entry), an exported flag, the
/// type of each variable id, and its signature.
#[derive(Debug)]
pub struct Function {
    pub ir: Vec<Block>,
    pub exported: bool,
    pub variable_types: VarMap<Type>,
    pub signature: Signature,
}

/// A statement: an operation and an optional destination variable id.
#[derive(Debug)]
pub enum Statement {
    Operation(Operation, Option<usize>),
}

/// One operation of the IR.
#[derive(Debug)]
pub enum Operation {
    /// Call the function named by a dotted path, with argument variable ids.
    Call { function: Vec<String>, args: Vec<usize> },
    /// Call through a function-pointer variable.
    CallPointer { pointer: usize, args: Vec<usize> },
    /// Load the constant at module index `src`.
    LoadGlobal { src: usize },
    /// Copy variable `src`.
    LoadLocal { src: usize },
    /// Take the value of the variable mapped from the predecessor block that
    /// control arrived from.
    Phi { block_to_var: VarMap<usize> },
    /// A residualized callee kept by the partial evaluator: the callee's
    /// residual blocks and its variable state.
    PartialCall { blocks: Vec<Block>, variables: VarMap<Option<Vec<u8>>> },
}

/// A declaration in scope during lowering.
#[derive(Debug)]
pub enum Declaration {
    Module(NameMap<Declaration>),
    Function(Signature),
    Variable(usize),
}

/// The control-flow transfer at the end of a block.
#[derive(Debug, Clone, Copy, PartialEq, Eq, Structural)]
pub enum Terminal {
    Return(Option<usize>),
    Evaluate(Option<usize>),
    Jump(usize),
    CondJump { cond: usize, then: usize, els: usize },
    ThenElseJump(usize),
}

/// A straight-line sequence of statements ending in one terminator.
#[derive(Debug)]
pub struct Block {
    pub statements: Vec<Statement>,
    pub terminal: Terminal,
}

// Views.
/// The view of a variable state: ids mapped to known bytes or marked unknown.
pub type VarsV = Seq<(usize, Option<Seq<u8>>)>;

/// The mathematical view of an `Operation`.
pub enum OperationV {
    Call { function: Seq<Seq<char>>, args: Seq<usize> },
    CallPointer { pointer: usize, args: Seq<usize> },
    LoadGlobal { src: usize },
    LoadLocal { src: usize },
    Phi { block_to_var: Seq<(usize, usize)> },
    PartialCall { blocks: Seq<BlockV>, variables: VarsV },
}

/// The mathematical view of a `Statement`.
pub enum StatementV {
    Operation(OperationV, Option<usize>),
}

/// The mathematical view of a `Block`.
pub struct BlockV {
    pub statements: Seq<StatementV>,
    pub terminal: Terminal,
}

/// The mathematical view of a `Function`.
pub struct FunctionV {
    pub ir: Seq<BlockV>,
    pub exported: bool,
    pub variable_types: Seq<(usize, TypeV)>,
    pub signature: SignatureV,
}

/// The mathematical view of a `Module`.
pub struct ModuleV {
    pub constants: Seq<Seq<u8>>,
    pub functions: Seq<(Seq<char>, FunctionV)>,
}

/// The mathematical view of a `Declaration`.
pub enum DeclarationV {
    Module(Seq<(Seq<char>, DeclarationV)>),
    Function(SignatureV),
    Variable(usize),
}

pub open spec fn bytes_view(v: Vec<u8>) -> Seq<u8> {
    v@
}

pub open spec fn opt_bytes_view(v: Option<Vec<u8>>) -> Option<Seq<u8>> {
    match v {
        Some(b) => Some(b@),
        None => None,
    }
}

pub open spec fn byte_seqs_view(s: Seq<Vec<u8>>) -> Seq<Seq<u8>>
    decreases s,
{
    if s.len() == 0 {
        Seq::empty()
    } else {
        seq![s[0]@] + byte_seqs_view(s.drop_first())
    }
}

/// How `byte_seqs_view` relates to indexing.
pub broadcast proof fn lemma_byte_seqs_view(s: Seq<Vec<u8>>)
    ensures
        (#[trigger] byte_seqs_view(s)).len() == s.len(),
        forall|i: int| 0 <= i < s.len() ==> #[trigger] byte_seqs_view(s)[i] == s[i]@,
    decreases s.len(),
{
    if s.len() > 0 {
        lemma_byte_seqs_view(s.drop_first());
        assert forall|i: int| 0 <= i < s.len() implies #[trigger] byte_seqs_view(s)[i]
            == s[i]@ by {
            if i > 0 {
                assert(byte_seqs_view(s)[i] == byte_seqs_view(s.drop_first())[i - 1]);
            }
        }
    }
}

pub open spec fn names_view(s: Seq<String>) -> Seq<Seq<char>>
    decreases s,
{
    if s.len() == 0 {
        Seq::empty()
    } else {
        seq![s[0]@] + names_view(s.drop_first())
    }
}

/// How `names_view` relates to indexing.
pub broadcast proof fn lemma_names_view(s: Seq<String>)
    ensures
        (#[trigger] names_view(s)).len() == s.len(),
        forall|i: int| 0 <= i < s.len() ==> #[trigger] names_view(s)[i] == s[i]@,
    decreases s.len(),
{
    if s.len() > 0 {
        lemma_names_view(s.drop_first());
        assert forall|i: int| 0 <= i < s.len() implies #[trigger] names_view(s)[i] == s[i]@ by {
            if i > 0 {
                assert(names_view(s)[i] == names_view(s.drop_first())[i - 1]);
            }
        }
    }
}

pub open spec fn vars_map_view(s: Seq<(usize, Option<Vec<u8>>)>) -> VarsV
    decreases s,
{
    if s.len() == 0 {
        Seq::empty()
    } else {
        seq![(s[0].0, opt_bytes_view(s[0].1))] + vars_map_view(s.drop_first())
    }
}

/// How `vars_map_view` relates to indexing.
pub broadcast proof fn lemma_vars_map_view(s: Seq<(usize, Option<Vec<u8>>)>)
    ensures
        (#[trigger] vars_map_view(s)).len() == s.len(),
        forall|i: int|
            0 <= i < s.len() ==> #[trigger] vars_map_view(s)[i] == (
            s[i].0,
            opt_bytes_view(s[i].1),
            ),
    decreases s.len(),
{
    if s.len() > 0 {
        lemma_vars_map_view(s.drop_first());
        assert forall|i: int| 0 <= i < s.len() implies #[trigger] vars_map_view(s)[i] == (
        s[i].0,
        opt_bytes_view(s[i].1),
        ) by {
            if i > 0 {
                assert(vars_map_view(s)[i] == vars_map_view(s.drop_first())[i - 1]);
            }
        }
    }
}

pub open spec fn operation_view(op: Operation) -> OperationV
    decreases op,
{
    match op {
        Operation::Call { function, args } => OperationV::Call {
            function: names_view(function@),
            args: args@,
        },
        Operation::CallPointer { pointer, args } => OperationV::CallPointer {
            pointer,
            args: args@,
        },
        Operation::LoadGlobal { src } => OperationV::LoadGlobal { src },
        Operation::LoadLocal { src } => OperationV::LoadLocal { src },
        Operation::Phi { block_to_var } => OperationV::Phi { block_to_var: block_to_var.entries@ },
        Operation::PartialCall { blocks, variables } => OperationV::PartialCall {
            blocks: blocks_view(blocks@),
            variables: vars_map_view(variables.entries@),
        },
    }
}

pub open spec fn statement_view(s: Statement) -> StatementV
    decreases s,
{
    match s {
        Statement::Operation(op, store) => StatementV::Operation(operation_view(op), store),
    }
}

pub open spec fn statements_view(s: Seq<Statement>) -> Seq<StatementV>
    decreases s,
{
    if s.len() == 0 {
        Seq::empty()
    } else {
        seq![statement_view(s[0])] + statements_view(s.drop_first())
    }
}

/// How `statements_view` relates to indexing.
pub broadcast proof fn lemma_statements_view(s: Seq<Statement>)
    ensures
        (#[trigger] statements_view(s)).len() == s.len(),
        forall|i: int|
            0 <= i < s.len() ==> #[trigger] statements_view(s)[i] == statement_view(s[i]),
    decreases s.len(),
{
    if s.len() > 0 {
        lemma_statements_view(s.drop_first());
        assert forall|i: int| 0 <= i < s.len() implies #[trigger] statements_view(s)[i]
            == statement_view(s[i]) by {
            if i > 0 {
                assert(statements_view(s)[i] == statements_view(s.drop_first())[i - 1]);
            }
        }
    }
}

pub open spec fn block_view(b: Block) -> BlockV
    decreases b,
{
    BlockV { statements: statements_view(b.statements@), terminal: b.terminal }
}

pub open spec fn blocks_view(s: Seq<Block>) -> Seq<BlockV>
    decreases s,
{
    if s.len() == 0 {
        Seq::empty()
    } else {
        seq![block_view(s[0])] + blocks_view(s.drop_first())
    }
}

/// How `blocks_view` relates to indexing.
pub broadcast proof fn lemma_blocks_view(s: Seq<Block>)
    ensures
        (#[trigger] blocks_view(s)).len() == s.len(),
        forall|i: int| 0 <= i < s.len() ==> #[trigger] blocks_view(s)[i] == block_view(s[i]),
    decreases s.len(),
{
    if s.len() > 0 {
        lemma_blocks_view(s.drop_first());
        assert forall|i: int| 0 <= i < s.len() implies #[trigger] blocks_view(s)[i] == block_view(
            s[i],
        ) by {
            if i > 0 {
                assert(blocks_view(s)[i] == blocks_view(s.drop_first())[i - 1]);
            }
        }
    }
}

pub open spec fn var_types_view(s: Seq<(usize, Type)>) -> Seq<(usize, TypeV)>
    decreases s,
{
    if s.len() == 0 {
        Seq::empty()
    } else {
        seq![(s[0].0, type_view(s[0].1))] + var_types_view(s.drop_first())
    }
}

/// How `var_types_view` relates to indexing.
pub broadcast proof fn lemma_var_types_view(s: Seq<(usize, Type)>)
    ensures
        (#[trigger] var_types_view(s)).len() == s.len(),
        forall|i: int|
            0 <= i < s.len() ==> #[trigger] var_types_view(s)[i] == (s[i].0, type_view(s[i].1)),
    decreases s.len(),
{
    if s.len() > 0 {
        lemma_var_types_view(s.drop_first());
        assert forall|i: int| 0 <= i < s.len() implies #[trigger] var_types_view(s)[i] == (
        s[i].0,
        type_view(s[i].1),
        ) by {
            if i > 0 {
                assert(var_types_view(s)[i] == var_types_view(s.drop_first())[i - 1]);
            }
        }
    }
}

pub open spec fn function_view(f: Function) -> FunctionV
    decreases f,
{
    FunctionV {
        ir: blocks_view(f.ir@),
        exported: f.exported,
        variable_types: var_types_view(f.variable_types.entries@),
        signature: signature_view(f.signature),
    }
}

pub open spec fn functions_view(s: Seq<(String, Function)>) -> Seq<(Seq<char>, FunctionV)>
    decreases s,
{
    if s.len() == 0 {
        Seq::empty()
    } else {
        seq![(s[0].0@, function_view(s[0].1))] + functions_view(s.drop_first())
    }
}

/// How `functions_view` relates to indexing.
pub broadcast proof fn lemma_functions_view(s: Seq<(String, Function)>)
    ensures
        (#[trigger] functions_view(s)).len() == s.len(),
        forall|i: int|
            0 <= i < s.len() ==> #[trigger] functions_view(s)[i] == (
            s[i].0@,
            function_view(s[i].1),
            ),
    decreases s.len(),
{
    if s.len() > 0 {
        lemma_functions_view(s.drop_first());
        assert forall|i: int| 0 <= i < s.len() implies #[trigger] functions_view(s)[i] == (
        s[i].0@,
        function_view(s[i].1),
        ) by {
            if i > 0 {
                assert(functions_view(s)[i] == functions_view(s.drop_first())[i - 1]);
            }
        }
    }
}

pub open spec fn module_view(m: Module) -> ModuleV {
    ModuleV { constants: byte_seqs_view(m.constants@), functions: functions_view(
        m.functions.entries@,
    ) }
}

/// The value stored under `key` in a view-level association sequence keyed by
/// character sequences.
pub open spec fn kassoc_get<V>(s: Seq<(Seq<char>, V)>, key: Seq<char>) -> Option<V>
    decreases s.len(),
{
    if s.len() == 0 {
        None
    } else if s[0].0 == key {
        Some(s[0].1)
    } else {
        kassoc_get(s.drop_first(), key)
    }
}

/// Looking a name up in a `NameMap<Function>` matches looking it up in the
/// view.
pub proof fn lemma_functions_get_bridge(s: Seq<(String, Function)>, key: Seq<char>)
    ensures
        kassoc_get(functions_view(s), key) == match crate::maps::nassoc_get(s, key) {
            Some(f) => Some(function_view(f)),
            None => None::<FunctionV>,
        },
    decreases s.len(),
{
    broadcast use lemma_functions_view;

    if s.len() == 0 {
    } else {
        lemma_functions_get_bridge(s.drop_first(), key);
        assert(functions_view(s).drop_first() =~= functions_view(s.drop_first()));
    }
}

/// Looking a variable up in a `VarMap<Option<Vec<u8>>>` matches looking it up
/// in the view.
pub proof fn lemma_vars_get_bridge(s: Seq<(usize, Option<Vec<u8>>)>, key: usize)
    ensures
        assoc_get(vars_map_view(s), key) == match assoc_get(s, key) {
            Some(v) => Some(opt_bytes_view(v)),
            None => None::<Option<Seq<u8>>>,
        },
    decreases s.len(),
{
    broadcast use lemma_vars_map_view;

    if s.len() == 0 {
    } else {
        lemma_vars_get_bridge(s.drop_first(), key);
        assert(vars_map_view(s).drop_first() =~= vars_map_view(s.drop_first()));
    }
}

/// Inserting into a `VarMap<Option<Vec<u8>>>` matches inserting into the
/// view.
pub proof fn lemma_vars_insert_bridge(
    s: Seq<(usize, Option<Vec<u8>>)>,
    key: usize,
    value: Option<Vec<u8>>,
)
    ensures
        vars_map_view(crate::maps::assoc_insert(s, key, value)) == crate::maps::assoc_insert(
            vars_map_view(s),
            key,
            opt_bytes_view(value),
        ),
    decreases s.len(),
{
    broadcast use lemma_vars_map_view;

    if s.len() == 0 {
        assert(vars_map_view(crate::maps::assoc_insert(s, key, value)) =~= crate::maps::assoc_insert(
            vars_map_view(s),
            key,
            opt_bytes_view(value),
        ));
    } else if s[0].0 == key {
        let t = crate::maps::assoc_insert(s, key, value);
        assert(t == seq![(key, value)] + s.drop_first());
        assert(t.drop_first() =~= s.drop_first());
        assert(vars_map_view(t).drop_first() =~= vars_map_view(t.drop_first()));
        assert(vars_map_view(s).drop_first() =~= vars_map_view(s.drop_first()));
        assert(vars_map_view(crate::maps::assoc_insert(s, key, value)) =~= crate::maps::assoc_insert(
            vars_map_view(s),
            key,
            opt_bytes_view(value),
        ));
    } else {
        lemma_vars_insert_bridge(s.drop_first(), key, value);
        let t = crate::maps::assoc_insert(s, key, value);
        assert(t == seq![s[0]] + crate::maps::assoc_insert(s.drop_first(), key, value));
        assert(t.drop_first() =~= crate::maps::assoc_insert(s.drop_first(), key, value));
        assert(vars_map_view(t).drop_first() =~= vars_map_view(t.drop_first()));
        assert(vars_map_view(s).drop_first() =~= vars_map_view(s.drop_first()));
        assert(vars_map_view(s)[0] == (s[0].0, opt_bytes_view(s[0].1)));
        assert(vars_map_view(s)[0].0 != key);
        assert(vars_map_view(crate::maps::assoc_insert(s, key, value)) =~= crate::maps::assoc_insert(
            vars_map_view(s),
            key,
            opt_bytes_view(value),
        ));
    }
}

// Deep copies with view-preserving contracts.
/// Copies a byte vector.
pub fn copy_bytes(v: &Vec<u8>) -> (r: Vec<u8>)
    ensures
        r@ == v@,
{
    let mut out: Vec<u8> = Vec::new();
    let n = v.len();
    let mut i: usize = 0;
    while i < n
        invariant
            n == v@.len(),
            i <= n,
            out@.len() == i,
            forall|j: int| 0 <= j < i ==> out@[j] == v@[j],
        decreases n - i,
    {
        out.push(v[i]);
        i += 1;
    }
    proof {
        assert(out@ =~= v@);
    }
    out
}

/// Copies an optional byte vector.
pub fn copy_opt_bytes(v: &Option<Vec<u8>>) -> (r: Option<Vec<u8>>)
    ensures
        opt_bytes_view(r) == opt_bytes_view(*v),
{
    match v {
        Some(b) => Some(copy_bytes(b)),
        None => None,
    }
}

/// Copies a variable state map.
pub fn copy_vars(m: &VarMap<Option<Vec<u8>>>) -> (r: VarMap<Option<Vec<u8>>>)
    ensures
        vars_map_view(r.entries@) == vars_map_view(m.entries@),
        r.entries@.len() == m.entries@.len(),
        forall|j: int| 0 <= j < m.entries@.len() ==> r.entries@[j].0 == m.entries@[j].0,
        m.wf() ==> r.wf(),
{
    broadcast use lemma_vars_map_view;

    let mut out: Vec<(usize, Option<Vec<u8>>)> = Vec::new();
    let n = m.entries.len();
    let mut i: usize = 0;
    while i < n
        invariant
            n == m.entries@.len(),
            i <= n,
            out@.len() == i,
            forall|j: int| 0 <= j < i ==> (#[trigger] out@[j]).0 == m.entries@[j].0,
            forall|j: int|
                0 <= j < i ==> opt_bytes_view(#[trigger] out@[j].1) == opt_bytes_view(
                    m.entries@[j].1,
                ),
        decreases n - i,
    {
        let key = m.entries[i].0;
        let value = copy_opt_bytes(&m.entries[i].1);
        out.push((key, value));
        i += 1;
    }
    proof {
        assert(vars_map_view(out@) =~= vars_map_view(m.entries@));
    }
    VarMap { entries: out }
}

/// Copies an operation.
pub fn copy_operation(op: &Operation) -> (r: Operation)
    ensures
        operation_view(r) == operation_view(*op),
    decreases *op,
{
    broadcast use {lemma_names_view, lemma_blocks_view, lemma_vars_map_view};

    match op {
        Operation::Call { function, args } => {
            let mut names: Vec<String> = Vec::new();
            let n = function.len();
            let mut i: usize = 0;
            while i < n
                invariant
                    n == function@.len(),
                    i <= n,
                    names@.len() == i,
                    forall|j: int| 0 <= j < i ==> (#[trigger] names@[j])@ == function@[j]@,
                decreases n - i,
            {
                let s = function[i].clone();
                names.push(s);
                i += 1;
            }
            proof {
                assert(names_view(names@) =~= names_view(function@));
            }
            Operation::Call { function: names, args: copy_usizes(args) }
        },
        Operation::CallPointer { pointer, args } => Operation::CallPointer {
            pointer: *pointer,
            args: copy_usizes(args),
        },
        Operation::LoadGlobal { src } => Operation::LoadGlobal { src: *src },
        Operation::LoadLocal { src } => Operation::LoadLocal { src: *src },
        Operation::Phi { block_to_var } => {
            let mut entries: Vec<(usize, usize)> = Vec::new();
            let n = block_to_var.entries.len();
            let mut i: usize = 0;
            while i < n
                invariant
                    n == block_to_var.entries@.len(),
                    i <= n,
                    entries@.len() == i,
                    forall|j: int| 0 <= j < i ==> entries@[j] == block_to_var.entries@[j],
                decreases n - i,
            {
                entries.push(block_to_var.entries[i]);
                i += 1;
            }
            proof {
                assert(entries@ =~= block_to_var.entries@);
            }
            Operation::Phi { block_to_var: VarMap { entries } }
        },
        Operation::PartialCall { blocks, variables } => {
            proof {
                assert(decreases_to!(*op => op->PartialCall_blocks));
            }
            let bs = copy_blocks(blocks);
            let vs = copy_vars(variables);
            Operation::PartialCall { blocks: bs, variables: vs }
        },
    }
}

/// Copies a vector of variable ids.
pub fn copy_usizes(v: &Vec<usize>) -> (r: Vec<usize>)
    ensures
        r@ == v@,
{
    let mut out: Vec<usize> = Vec::new();
    let n = v.len();
    let mut i: usize = 0;
    while i < n
        invariant
            n == v@.len(),
            i <= n,
            out@.len() == i,
            forall|j: int| 0 <= j < i ==> out@[j] == v@[j],
        decreases n - i,
    {
        out.push(v[i]);
        i += 1;
    }
    proof {
        assert(out@ =~= v@);
    }
    out
}

/// Copies a statement.
pub fn copy_statement(s: &Statement) -> (r: Statement)
    ensures
        statement_view(r) == statement_view(*s),
    decreases *s,
{
    match s {
        Statement::Operation(op, store) => {
            proof {
                assert(decreases_to!(*s => s->Operation_0));
            }
            Statement::Operation(copy_operation(op), *store)
        },
    }
}

/// Copies a block.
pub fn copy_block(b: &Block) -> (r: Block)
    ensures
        block_view(r) == block_view(*b),
    decreases *b,
{
    broadcast use lemma_statements_view;

    let mut stmts: Vec<Statement> = Vec::new();
    let n = b.statements.len();
    let mut i: usize = 0;
    while i < n
        invariant
            n == b.statements@.len(),
            i <= n,
            stmts@.len() == i,
            forall|j: int|
                0 <= j < i ==> statement_view(#[trigger] stmts@[j]) == statement_view(
                    b.statements@[j],
                ),
        decreases n - i,
    {
        proof {
            assert(decreases_to!(*b => b.statements));
            assert(decreases_to!(b.statements => b.statements@));
            assert(decreases_to!(b.statements@ => b.statements@[i as int]));
        }
        let s = copy_statement(&b.statements[i]);
        stmts.push(s);
        i += 1;
    }
    proof {
        assert(statements_view(stmts@) =~= statements_view(b.statements@));
    }
    Block { statements: stmts, terminal: b.terminal }
}

/// Copies a block list.
pub fn copy_blocks(bs: &Vec<Block>) -> (r: Vec<Block>)
    ensures
        blocks_view(r@) == blocks_view(bs@),
    decreases *bs,
{
    broadcast use lemma_blocks_view;

    let mut out: Vec<Block> = Vec::new();
    let n = bs.len();
    let mut i: usize = 0;
    while i < n
        invariant
            n == bs@.len(),
            i <= n,
            out@.len() == i,
            forall|j: int|
                0 <= j < i ==> block_view(#[trigger] out@[j]) == block_view(bs@[j]),
        decreases n - i,
    {
        proof {
            assert(decreases_to!(*bs => bs@));
            assert(decreases_to!(bs@ => bs@[i as int]));
        }
        let b = copy_block(&bs[i]);
        out.push(b);
        i += 1;
    }
    proof {
        assert(blocks_view(out@) =~= blocks_view(bs@));
    }
    out
}

/// The view of a list of optional byte vectors.
pub open spec fn opt_byte_seqs_view(s: Seq<Option<Vec<u8>>>) -> Seq<Option<Seq<u8>>>
    decreases s,
{
    if s.len() == 0 {
        Seq::empty()
    } else {
        seq![opt_bytes_view(s[0])] + opt_byte_seqs_view(s.drop_first())
    }
}

/// How `opt_byte_seqs_view` relates to indexing.
pub broadcast proof fn lemma_opt_byte_seqs_view(s: Seq<Option<Vec<u8>>>)
    ensures
        (#[trigger] opt_byte_seqs_view(s)).len() == s.len(),
        forall|i: int|
            0 <= i < s.len() ==> #[trigger] opt_byte_seqs_view(s)[i] == opt_bytes_view(s[i]),
    decreases s.len(),
{
    if s.len() > 0 {
        lemma_opt_byte_seqs_view(s.drop_first());
        assert forall|i: int| 0 <= i < s.len() implies #[trigger] opt_byte_seqs_view(s)[i]
            == opt_bytes_view(s[i]) by {
            if i > 0 {
                assert(opt_byte_seqs_view(s)[i] == opt_byte_seqs_view(s.drop_first())[i - 1]);
            }
        }
    }
}

/// Copies a variable-type table.
pub fn copy_var_types(m: &VarMap<Type>) -> (r: VarMap<Type>)
    ensures
        var_types_view(r.entries@) == var_types_view(m.entries@),
        r.entries@.len() == m.entries@.len(),
        m.wf() ==> r.wf(),
{
    broadcast use lemma_var_types_view;

    let mut out: Vec<(usize, Type)> = Vec::new();
    let n = m.entries.len();
    let mut i: usize = 0;
    while i < n
        invariant
            n == m.entries@.len(),
            i <= n,
            out@.len() == i,
            forall|j: int| 0 <= j < i ==> (#[trigger] out@[j]).0 == m.entries@[j].0,
            forall|j: int|
                0 <= j < i ==> type_view(#[trigger] out@[j].1) == type_view(m.entries@[j].1),
        decreases n - i,
    {
        let key = m.entries[i].0;
        let value = crate::typ::copy_type(&m.entries[i].1);
        out.push((key, value));
        i += 1;
    }
    proof {
        assert(var_types_view(out@) =~= var_types_view(m.entries@));
    }
    VarMap { entries: out }
}

/// Copies a function.
pub fn copy_function(f: &Function) -> (r: Function)
    ensures
        function_view(r) == function_view(*f),
{
    let ir = copy_blocks(&f.ir);
    let variable_types = copy_var_types(&f.variable_types);
    let signature = crate::typ::copy_signature(&f.signature);
    Function { ir, exported: f.exported, variable_types, signature }
}

/// The mathematical view of an `IRError`.
pub enum IRErrorV {
    SymbolUndefined(Seq<char>),
    SymbolNotCallable(Seq<char>),
    SymbolNotIndexable(Seq<char>),
    ExpressionNotCallable(TypeV),
    TypeMismatch { got: TypeV, expected: TypeV },
    ExtraArgument,
    NotStorable(Seq<char>),
    MissingElseBlock,
}

/// The mathematical view of an `IRErrorInfo`.
pub struct IRErrorInfoV {
    pub idx: usize,
    pub error: IRErrorV,
}

pub open spec fn ir_error_view(e: IRError) -> IRErrorV {
    match e {
        IRError::SymbolUndefined(s) => IRErrorV::SymbolUndefined(s@),
        IRError::SymbolNotCallable(s) => IRErrorV::SymbolNotCallable(s@),
        IRError::SymbolNotIndexable(s) => IRErrorV::SymbolNotIndexable(s@),
        IRError::ExpressionNotCallable(t) => IRErrorV::ExpressionNotCallable(type_view(t)),
        IRError::TypeMismatch { got, expected } => IRErrorV::TypeMismatch {
            got: type_view(got),
            expected: type_view(expected),
        },
        IRError::ExtraArgument => IRErrorV::ExtraArgument,
        IRError::NotStorable(s) => IRErrorV::NotStorable(s@),
        IRError::MissingElseBlock => IRErrorV::MissingElseBlock,
    }
}

pub open spec fn ir_error_info_view(e: IRErrorInfo) -> IRErrorInfoV {
    IRErrorInfoV { idx: e.idx, error: ir_error_view(e.error) }
}

/// The mathematical view of a declaration scope.
pub open spec fn declaration_view(d: Declaration) -> DeclarationV
    decreases d,
{
    match d {
        Declaration::Module(m) => DeclarationV::Module(declarations_view(m.entries@)),
        Declaration::Function(sig) => DeclarationV::Function(signature_view(sig)),
        Declaration::Variable(v) => DeclarationV::Variable(v),
    }
}

pub open spec fn declarations_view(s: Seq<(String, Declaration)>) -> Seq<
    (Seq<char>, DeclarationV),
>
    decreases s,
{
    if s.len() == 0 {
        Seq::empty()
    } else {
        seq![(s[0].0@, declaration_view(s[0].1))] + declarations_view(s.drop_first())
    }
}

/// How `declarations_view` relates to indexing.
pub broadcast proof fn lemma_declarations_view(s: Seq<(String, Declaration)>)
    ensures
        (#[trigger] declarations_view(s)).len() == s.len(),
        forall|i: int|
            0 <= i < s.len() ==> #[trigger] declarations_view(s)[i] == (
            s[i].0@,
            declaration_view(s[i].1),
            ),
    decreases s.len(),
{
    if s.len() > 0 {
        lemma_declarations_view(s.drop_first());
        assert forall|i: int| 0 <= i < s.len() implies #[trigger] declarations_view(s)[i] == (
        s[i].0@,
        declaration_view(s[i].1),
        ) by {
            if i > 0 {
                assert(declarations_view(s)[i] == declarations_view(s.drop_first())[i - 1]);
            }
        }
    }
}

/// Looking a name up in a `NameMap<Declaration>` matches looking it up in
/// the view.
pub proof fn lemma_declarations_get_bridge(s: Seq<(String, Declaration)>, key: Seq<char>)
    ensures
        kassoc_get(declarations_view(s), key) == match crate::maps::nassoc_get(s, key) {
            Some(d) => Some(declaration_view(d)),
            None => None::<DeclarationV>,
        },
    decreases s.len(),
{
    broadcast use lemma_declarations_view;

    if s.len() == 0 {
    } else {
        lemma_declarations_get_bridge(s.drop_first(), key);
        assert(declarations_view(s).drop_first() =~= declarations_view(s.drop_first()));
    }
}

/// What mangling a callee path yields: the dotted name segments appended to
/// `list`, when the callee is a name or a name indexed by string literals.
pub open spec fn spec_mangle_name(
    list: Seq<Seq<char>>,
    e: crate::expression_parser::InfoExprV,
) -> (Seq<Seq<char>>, bool)
    decreases e,
{
    match e.expr {
        crate::expression_parser::ExprV::Var(name) => (list.push(name), true),
        crate::expression_parser::ExprV::Index(left, right) => {
            let after_left = spec_mangle_name(list, *left).0;
            match right.expr {
                crate::expression_parser::ExprV::Literal(
                    crate::tokeniser::LiteralV::Str(name),
                ) => (after_left.push(name), true),
                _ => (after_left, false),
            }
        },
        _ => (list, false),
    }
}

/// Appends the dotted segments of a callee path to `list`; true when the
/// callee has the shape of a name or a name indexed by string literals.
pub fn mangle_name(list: &mut Vec<String>, expr: &crate::expression_parser::InfoExpr) -> (r:
    bool)
    ensures
        ({
            let sm = spec_mangle_name(
                names_view(old(list)@),
                crate::expression_parser::info_expr_view(*expr),
            );
            names_view(final(list)@) == sm.0 && r == sm.1
        }),
    decreases *expr,
{
    broadcast use lemma_names_view;

    let ghost ev = crate::expression_parser::info_expr_view(*expr);
    match &expr.expr {
        crate::expression_parser::Expr::Var(name) => {
            proof {
                assert(ev.expr == crate::expression_parser::ExprV::Var(name@));
            }
            let ghost before = names_view(list@);
            let copied = name.clone();
            list.push(copied);
            proof {
                assert(names_view(list@) =~= before.push(name@));
            }
            true
        },
        crate::expression_parser::Expr::Index(left, right) => {
            proof {
                assert(decreases_to!(*expr => expr.expr));
                assert(decreases_to!(expr.expr => expr.expr->Index_0));
                assert(ev.expr == crate::expression_parser::ExprV::Index(
                    Box::new(crate::expression_parser::info_expr_view(**left)),
                    Box::new(crate::expression_parser::info_expr_view(**right)),
                ));
            }
            let _unused = mangle_name(list, &**left);
            match &right.expr {
                crate::expression_parser::Expr::Literal(
                    crate::tokeniser::Literal::String(name),
                ) => {
                    proof {
                        assert(crate::expression_parser::info_expr_view(**right).expr
                            == crate::expression_parser::ExprV::Literal(
                            crate::tokeniser::LiteralV::Str(name@),
                        ));
                    }
                    let ghost before = names_view(list@);
                    let copied = name.clone();
                    list.push(copied);
                    proof {
                        assert(names_view(list@) =~= before.push(name@));
                    }
                    true
                },
                _ => false,
            }
        },
        _ => false,
    }
}

/// What resolving a dotted name path in nested scopes yields.
pub open spec fn spec_get_declaration(
    names: Seq<Seq<char>>,
    decls: Seq<(Seq<char>, DeclarationV)>,
    idx: usize,
) -> Result<DeclarationV, IRErrorInfoV>
    decreases names.len(),
{
    if names.len() == 0 {
        Err(IRErrorInfoV { idx, error: IRErrorV::SymbolUndefined(Seq::empty()) })
    } else {
        match kassoc_get(decls, names[0]) {
            None => Err(IRErrorInfoV { idx, error: IRErrorV::SymbolUndefined(names[0]) }),
            Some(decl) => if names.len() > 1 {
                match decl {
                    DeclarationV::Module(m) => spec_get_declaration(names.drop_first(), m, idx),
                    _ => Err(
                        IRErrorInfoV { idx, error: IRErrorV::SymbolNotIndexable(names[0]) },
                    ),
                }
            } else {
                Ok(decl)
            },
        }
    }
}

/// Resolves a dotted name path against the declaration scope: each segment
/// but the last must name a module. An empty path is reported as an
/// undefined symbol rather than aborting.
pub fn get_declaration<'a>(
    names: &[String],
    declarations: &'a NameMap<Declaration>,
    idx: usize,
) -> (r: Result<&'a Declaration, IRErrorInfo>)
    ensures
        ({
            let sr = spec_get_declaration(
                names_view(names@),
                declarations_view(declarations.entries@),
                idx,
            );
            match r {
                Ok(d) => sr matches Ok(dv) && dv == declaration_view(*d),
                Err(e) => sr matches Err(ev) && ev == ir_error_info_view(e),
            }
        }),
{
    proof {
        assert(names_view(names@).skip(0) =~= names_view(names@));
    }
    get_declaration_from(names, 0, declarations, idx)
}

/// Resolves the path segments from `k` on.
fn get_declaration_from<'a>(
    names: &[String],
    k: usize,
    declarations: &'a NameMap<Declaration>,
    idx: usize,
) -> (r: Result<&'a Declaration, IRErrorInfo>)
    requires
        k <= names@.len(),
    ensures
        ({
            let sr = spec_get_declaration(
                names_view(names@).skip(k as int),
                declarations_view(declarations.entries@),
                idx,
            );
            match r {
                Ok(d) => sr matches Ok(dv) && dv == declaration_view(*d),
                Err(e) => sr matches Err(ev) && ev == ir_error_info_view(e),
            }
        }),
    decreases names@.len() - k,
{
    broadcast use lemma_names_view;

    let ghost rest = names_view(names@).skip(k as int);
    if k >= names.len() {
        proof {
            assert(rest.len() == 0);
        }
        return Err(
            IRErrorInfo { idx, error: IRError::SymbolUndefined(String::new()) },
        );
    }
    proof {
        assert(rest[0] == names_view(names@)[k as int]);
        lemma_declarations_get_bridge(declarations.entries@, names@[k as int]@);
    }
    match declarations.get(&names[k]) {
        None => Err(IRErrorInfo { idx, error: IRError::SymbolUndefined(names[k].clone()) }),
        Some(decl) => {
            if k + 1 < names.len() {
                match decl {
                    Declaration::Module(m) => {
                        proof {
                            assert(rest.drop_first() =~= names_view(names@).skip(k as int + 1));
                        }
                        get_declaration_from(names, k + 1, m, idx)
                    },
                    _ => Err(
                        IRErrorInfo {
                            idx,
                            error: IRError::SymbolNotIndexable(names[k].clone()),
                        },
                    ),
                }
            } else {
                Ok(decl)
            }
        },
    }
}

/// One constant pool extends another.
pub open spec fn bytes_prefix(a: Seq<Seq<u8>>, b: Seq<Seq<u8>>) -> bool {
    a.len() <= b.len() && b.subrange(0, a.len() as int) == a
}

/// Pool extension is transitive.
pub proof fn lemma_bytes_prefix_trans(a: Seq<Seq<u8>>, b: Seq<Seq<u8>>, c: Seq<Seq<u8>>)
    requires
        bytes_prefix(a, b),
        bytes_prefix(b, c),
    ensures
        bytes_prefix(a, c),
{
    assert(c.subrange(0, a.len() as int) =~= c.subrange(0, b.len() as int).subrange(
        0,
        a.len() as int,
    ));
}

/// Appends a statement to block `b` of the function.
fn push_statement(f: &mut Function, b: usize, s: Statement)
    requires
        b < old(f).ir@.len(),
    ensures
        final(f).ir@.len() == old(f).ir@.len(),
        blocks_view(final(f).ir@) == blocks_view(old(f).ir@).update(
            b as int,
            BlockV {
                statements: blocks_view(old(f).ir@)[b as int].statements.push(statement_view(s)),
                terminal: old(f).ir@[b as int].terminal,
            },
        ),
        final(f).exported == old(f).exported,
        final(f).variable_types == old(f).variable_types,
        final(f).signature == old(f).signature,
{
    broadcast use lemma_blocks_view, lemma_statements_view;

    let ghost sv = statement_view(s);
    let blk = &mut f.ir[b];
    let ghost old_stmts = statements_view(blk.statements@);
    let ghost old_term = blk.terminal;
    proof {
        assert(block_view(old(f).ir@[b as int]) == BlockV {
            statements: old_stmts,
            terminal: old_term,
        });
    }
    blk.statements.push(s);
    proof {
        assert(statements_view(blk.statements@) =~= old_stmts.push(sv));
        assert(block_view(*blk) == BlockV { statements: old_stmts.push(sv), terminal: old_term });
        assert(blocks_view(f.ir@) =~= blocks_view(old(f).ir@).update(
            b as int,
            BlockV { statements: old_stmts.push(sv), terminal: old_term },
        ));
    }
}

/// Replaces the terminator of block `b` of the function.
fn set_terminal(f: &mut Function, b: usize, t: Terminal)
    requires
        b < old(f).ir@.len(),
    ensures
        final(f).ir@.len() == old(f).ir@.len(),
        blocks_view(final(f).ir@) == blocks_view(old(f).ir@).update(
            b as int,
            BlockV {
                statements: blocks_view(old(f).ir@)[b as int].statements,
                terminal: t,
            },
        ),
        final(f).exported == old(f).exported,
        final(f).variable_types == old(f).variable_types,
        final(f).signature == old(f).signature,
{
    broadcast use lemma_blocks_view;

    let blk = &mut f.ir[b];
    let ghost old_stmts = statements_view(blk.statements@);
    proof {
        assert(block_view(old(f).ir@[b as int]).statements == old_stmts);
    }
    blk.terminal = t;
    proof {
        assert(block_view(*blk) == BlockV { statements: old_stmts, terminal: t });
        assert(blocks_view(f.ir@) =~= blocks_view(old(f).ir@).update(
            b as int,
            BlockV { statements: old_stmts, terminal: t },
        ));
    }
}

/// Appends a block to the function.
fn push_block(f: &mut Function, blk: Block)
    ensures
        final(f).ir@.len() == old(f).ir@.len() + 1,
        blocks_view(final(f).ir@) == blocks_view(old(f).ir@).push(block_view(blk)),
        final(f).exported == old(f).exported,
        final(f).variable_types == old(f).variable_types,
        final(f).signature == old(f).signature,
{
    broadcast use lemma_blocks_view;

    let ghost bv = block_view(blk);
    f.ir.push(blk);
    proof {
        assert(blocks_view(f.ir@) =~= blocks_view(old(f).ir@).push(bv));
    }
}

/// Appends a constant blob to the module's pool.
fn push_constant(m: &mut Module, data: Vec<u8>)
    ensures
        final(m).constants@.len() == old(m).constants@.len() + 1,
        byte_seqs_view(final(m).constants@) == byte_seqs_view(old(m).constants@).push(data@),
        bytes_prefix(byte_seqs_view(old(m).constants@), byte_seqs_view(final(m).constants@)),
        final(m).functions == old(m).functions,
{
    broadcast use lemma_byte_seqs_view;

    let ghost dv = data@;
    m.constants.push(data);
    proof {
        assert(byte_seqs_view(m.constants@) =~= byte_seqs_view(old(m).constants@).push(dv));
        assert(byte_seqs_view(m.constants@).subrange(
            0,
            old(m).constants@.len() as int,
        ) =~= byte_seqs_view(old(m).constants@));
    }
}

/// Lowers one expression into the function's IR.
///
/// `*block` is the current block (it moves when an `if` splits the control
/// flow), `store` the optional destination variable id, `declarations` the
/// outer scope and `locals` the block-local names. Fresh variable ids are
/// allocated densely as the size of the variable-type table.
///
/// The contract is exact: the result and every effect on the function's
/// blocks and variable types, the block cursor, the module's constant pool
/// and the local scope equal the mathematical lowering `spec_to_ir`; the
/// module's functions are untouched, the constant pool only grows, and the
/// signature and exported flag are preserved. Where the original machine
/// aborted on an internal bookkeeping violation (a variable with no
/// recorded type), an empty `NotStorable` error is reported; a bare path
/// expression is reported the same way.
#[verifier::rlimit(100)]
#[verifier::spinoff_prover]
#[verifier::loop_isolation(false)]
pub fn to_ir(
    function: &mut Function,
    block: &mut usize,
    module: &mut Module,
    expr: InfoExpr,
    store: Option<usize>,
    declarations: &NameMap<Declaration>,
    locals: &mut NameMap<Declaration>,
) -> (r: Result<(), IRErrorInfo>)
    requires
        *old(block) < old(function).ir@.len(),
    ensures
        final(module).functions == old(module).functions,
        bytes_prefix(
            byte_seqs_view(old(module).constants@),
            byte_seqs_view(final(module).constants@),
        ),
        final(function).exported == old(function).exported,
        final(function).signature == old(function).signature,
        old(function).ir@.len() <= final(function).ir@.len(),
        *final(block) < final(function).ir@.len(),
        ({
            let st0 = LowerStateV {
                fir: blocks_view(old(function).ir@),
                vt: var_types_view(old(function).variable_types.entries@),
                block: *old(block),
                constants: byte_seqs_view(old(module).constants@),
                locals: declarations_view(old(locals).entries@),
            };
            let sr = spec_to_ir(
                st0,
                crate::expression_parser::info_expr_view(expr),
                store,
                declarations_view(declarations.entries@),
            );
            match r {
                Ok(_) => sr matches Ok(stf) && stf.fir == blocks_view(final(function).ir@)
                    && stf.vt == var_types_view(final(function).variable_types.entries@)
                    && stf.block == *final(block) && stf.constants == byte_seqs_view(
                    final(module).constants@,
                ) && stf.locals == declarations_view(final(locals).entries@),
                Err(e) => sr matches Err(errv) && errv == ir_error_info_view(e),
            }
        }),
    decreases expr,
{
    broadcast use
        lemma_blocks_view,
        lemma_var_types_view,
        lemma_byte_seqs_view,
        lemma_declarations_view,
        lemma_statements_view,
        lemma_names_view,
        crate::expression_parser::lemma_exprs_view;

    let ghost expr0 = expr;
    let ghost ev = crate::expression_parser::info_expr_view(expr);
    let ghost declsv = declarations_view(declarations.entries@);
    let ghost st0 = LowerStateV {
        fir: blocks_view(function.ir@),
        vt: var_types_view(function.variable_types.entries@),
        block: *block,
        constants: byte_seqs_view(module.constants@),
        locals: declarations_view(locals.entries@),
    };
    let expr_idx = expr.idx;
    let ghost c0 = byte_seqs_view(module.constants@);
    proof {
        assert(bytes_prefix(c0, c0)) by {
            assert(c0.subrange(0, c0.len() as int) =~= c0);
        }
    }
    match expr.expr {
        Expr::Literal(lit) => {
            proof {
                assert(ev.expr == crate::expression_parser::ExprV::Literal(
                    crate::tokeniser::literal_view(lit),
                ));
            }
            if let Some(st) = store {
                let (typ, value): (Type, Vec<u8>) = match lit {
                    crate::tokeniser::Literal::String(text) => {
                        let bytes = crate::tokeniser::string_bytes(&text);
                        (Type::Slice(Box::new(Type::U8)), bytes)
                    },
                    crate::tokeniser::Literal::Number(n) => {
                        let mut v: Vec<u8> = Vec::new();
                        v.push(n);
                        proof {
                            assert(v@ =~= seq![n]);
                        }
                        (Type::U8, v)
                    },
                };
                proof {
                    assert(type_view(Type::U8) == TypeV::U8);
                    assert(type_view(Type::Slice(Box::new(Type::U8)))
                        == crate::typ::string_slice_view());
                    lemma_var_types_insert_bridge(function.variable_types.entries@, st, typ);
                }
                function.variable_types.insert(st, typ);
                let src = module.constants.len();
                push_statement(
                    function,
                    *block,
                    Statement::Operation(Operation::LoadGlobal { src }, Some(st)),
                );
                push_constant(module, value);
            }
            Ok(())
        },
        Expr::Let(name, value_expr) => {
            proof {
                assert(ev.expr == crate::expression_parser::ExprV::Let(
                    name@,
                    Box::new(crate::expression_parser::info_expr_view(*value_expr)),
                ));
            }
            let value_var = function.variable_types.len();
            proof {
                assert(decreases_to!(expr0 => expr0.expr));
                assert(decreases_to!(expr0.expr => expr0.expr->Let_1));
            }
            let sub = to_ir(
                function,
                block,
                module,
                *value_expr,
                Some(value_var),
                declarations,
                locals,
            );
            match sub {
                Err(e) => {
                    return Err(e);
                },
                Ok(_) => {},
            }
            proof {
                lemma_declarations_insert_bridge(
                    locals.entries@,
                    name,
                    Declaration::Variable(value_var),
                );
            }
            locals.insert(name, Declaration::Variable(value_var));
            if let Some(st) = store {
                push_statement(
                    function,
                    *block,
                    Statement::Operation(Operation::LoadLocal { src: value_var }, Some(st)),
                );
            }
            Ok(())
        },
        Expr::Block(statements, returning) => {
            let ghost stmtsv = crate::expression_parser::exprs_view(statements@);
            proof {
                assert(ev.expr == crate::expression_parser::ExprV::Block(stmtsv, returning));
            }
            let len = statements.len();
            let ghost stmts0 = statements@;
            let mut statements = statements;
            let mut i: usize = 0;
            while statements.len() > 0
                invariant
                    i + statements@.len() == len,
                    len == stmts0.len(),
                    statements@ == stmts0.skip(i as int),
                    *block < function.ir@.len(),
                    module.functions == old(module).functions,
                    bytes_prefix(c0, byte_seqs_view(module.constants@)),
                    function.exported == old(function).exported,
                    function.signature == old(function).signature,
                    old(function).ir@.len() <= function.ir@.len(),
                    spec_to_ir_stmts(st0, stmtsv, 0, store, returning, declsv)
                        == spec_to_ir_stmts(
                        LowerStateV {
                            fir: blocks_view(function.ir@),
                            vt: var_types_view(function.variable_types.entries@),
                            block: *block,
                            constants: byte_seqs_view(module.constants@),
                            locals: declarations_view(locals.entries@),
                        },
                        stmtsv,
                        i as int,
                        store,
                        returning,
                        declsv,
                    ),
                decreases statements@.len(),
            {
                let ghost cpre = byte_seqs_view(module.constants@);
                let stmt = statements.remove(0);
                proof {
                    assert(stmt == stmts0[i as int]);
                    assert(statements@ =~= stmts0.skip(i as int + 1));
                    assert(stmtsv[i as int] == crate::expression_parser::info_expr_view(
                        stmts0[i as int],
                    ));
                    assert(decreases_to!(expr0 => expr0.expr));
                    assert(decreases_to!(expr0.expr => expr0.expr->Block_0));
                    assert(decreases_to!(expr0.expr->Block_0 => expr0.expr->Block_0@));
                    assert(decreases_to!(expr0.expr->Block_0@ => expr0.expr->Block_0@[i as int]));
                }
                let this_store: Option<usize> = if i + 1 == len && returning {
                    store
                } else {
                    None
                };
                let sub = to_ir(function, block, module, stmt, this_store, declarations, locals);
                proof {
                    lemma_bytes_prefix_trans(c0, cpre, byte_seqs_view(module.constants@));
                }
                match sub {
                    Err(e) => {
                        return Err(e);
                    },
                    Ok(_) => {},
                }
                i += 1;
            }
            if (len == 0 || !returning) && store.is_some() {
                let ghost cpre = byte_seqs_view(module.constants@);
                let src = module.constants.len();
                if let Some(st) = store {
                    let unit_ty = Type::Tuple(Vec::new());
                    proof {
                        lemma_var_types_insert_bridge(
                            function.variable_types.entries@,
                            st,
                            unit_ty,
                        );
                        assert(type_view(unit_ty) == crate::typ::unit_type_view()) by {
                            assert(crate::typ::types_view(Seq::<Type>::empty()) =~= Seq::<
                                TypeV,
                            >::empty());
                        }
                    }
                    push_statement(
                        function,
                        *block,
                        Statement::Operation(Operation::LoadGlobal { src }, store),
                    );
                    push_constant(module, Vec::new());
                    function.variable_types.insert(st, unit_ty);
                }
                proof {
                    lemma_bytes_prefix_trans(c0, cpre, byte_seqs_view(module.constants@));
                }
            }
            Ok(())
        },
        Expr::Return(value_expr) => {
            match value_expr {
                Some(ve) => {
                    proof {
                        assert(ev.expr == crate::expression_parser::ExprV::Return(
                            Some(Box::new(crate::expression_parser::info_expr_view(*ve))),
                        ));
                    }
                    let return_var = function.variable_types.len();
                    proof {
                        assert(decreases_to!(expr0 => expr0.expr));
                        assert(decreases_to!(expr0.expr => expr0.expr->Return_0));
                        assert(decreases_to!(expr0.expr->Return_0
                            => expr0.expr->Return_0->Some_0));
                    }
                    let sub = to_ir(
                        function,
                        block,
                        module,
                        *ve,
                        Some(return_var),
                        declarations,
                        locals,
                    );
                    match sub {
                        Err(e) => {
                            return Err(e);
                        },
                        Ok(_) => {},
                    }
                    set_terminal(function, *block, Terminal::Return(Some(return_var)));
                },
                None => {
                    proof {
                        assert(ev.expr == crate::expression_parser::ExprV::Return(None));
                    }
                    set_terminal(function, *block, Terminal::Return(None));
                },
            }
            Ok(())
        },
        Expr::Call(callee, args) => {
            let ghost argsv = crate::expression_parser::exprs_view(args@);
            proof {
                assert(ev.expr == crate::expression_parser::ExprV::Call(
                    Box::new(crate::expression_parser::info_expr_view(*callee)),
                    argsv,
                ));
            }
            let mut name: Vec<String> = Vec::new();
            let callee = *callee;
            let ghost calleev = crate::expression_parser::info_expr_view(callee);
            let mut arg_indexes: Vec<usize> = Vec::new();
            let nargs = args.len();
            let ghost args0 = args@;
            let mut args = args;
            let mut k: usize = 0;
            while args.len() > 0
                invariant
                    k + args@.len() == nargs,
                    nargs == args0.len(),
                    args@ == args0.skip(k as int),
                    arg_indexes@.len() == k,
                    *block < function.ir@.len(),
                    module.functions == old(module).functions,
                    bytes_prefix(c0, byte_seqs_view(module.constants@)),
                    function.exported == old(function).exported,
                    function.signature == old(function).signature,
                    old(function).ir@.len() <= function.ir@.len(),
                    spec_to_ir_args(st0, argsv, 0, Seq::empty(), declsv) == spec_to_ir_args(
                        LowerStateV {
                            fir: blocks_view(function.ir@),
                            vt: var_types_view(function.variable_types.entries@),
                            block: *block,
                            constants: byte_seqs_view(module.constants@),
                            locals: declarations_view(locals.entries@),
                        },
                        argsv,
                        k as int,
                        arg_indexes@,
                        declsv,
                    ),
                decreases args@.len(),
            {
                let ghost cpre = byte_seqs_view(module.constants@);
                let arg = args.remove(0);
                proof {
                    assert(arg == args0[k as int]);
                    assert(args@ =~= args0.skip(k as int + 1));
                    assert(argsv[k as int] == crate::expression_parser::info_expr_view(
                        args0[k as int],
                    ));
                    assert(decreases_to!(expr0 => expr0.expr));
                    assert(decreases_to!(expr0.expr => expr0.expr->Call_1));
                    assert(decreases_to!(expr0.expr->Call_1 => expr0.expr->Call_1@));
                    assert(decreases_to!(expr0.expr->Call_1@ => expr0.expr->Call_1@[k as int]));
                }
                let i = function.variable_types.len();
                let sub = to_ir(function, block, module, arg, Some(i), declarations, locals);
                proof {
                    lemma_bytes_prefix_trans(c0, cpre, byte_seqs_view(module.constants@));
                }
                match sub {
                    Err(e) => {
                        return Err(e);
                    },
                    Ok(_) => {},
                }
                let ghost idx0 = arg_indexes@;
                arg_indexes.push(i);
                proof {
                    assert(arg_indexes@ =~= idx0.push(i));
                }
                k += 1;
            }
            proof {
                assert(names_view(name@) =~= Seq::<Seq<char>>::empty());
            }
            if mangle_name(&mut name, &callee) {
                let ghost path = names_view(name@);
                let decl = match get_declaration(name.as_slice(), declarations, callee.idx) {
                    Ok(d) => d,
                    Err(e) => {
                        return Err(e);
                    },
                };
                let sig = match decl {
                    Declaration::Function(sig) => sig,
                    _ => {
                        let last_name = if name.len() > 0 {
                            name[name.len() - 1].clone()
                        } else {
                            String::new()
                        };
                        proof {
                            lemma_names_view(name@);
                            if name@.len() > 0 {
                                assert(path[path.len() - 1] == name@[name@.len() - 1]@);
                            }
                        }
                        return Err(
                            IRErrorInfo {
                                idx: callee.idx,
                                error: IRError::SymbolNotCallable(last_name),
                            },
                        );
                    },
                };
                let ghost sigv = crate::typ::signature_view(*sig);
                proof {
                    crate::typ::lemma_types_view(sig.args@);
                }
                let mut ai: usize = 0;
                let nidx = arg_indexes.len();
                while ai < nidx
                    invariant
                        ai <= nidx,
                        nidx == arg_indexes@.len(),
                        sigv == crate::typ::signature_view(*sig),
                        spec_check_args(
                            var_types_view(function.variable_types.entries@),
                            arg_indexes@,
                            sigv.args,
                            0,
                            callee.idx,
                            expr_idx,
                        ) == spec_check_args(
                            var_types_view(function.variable_types.entries@),
                            arg_indexes@,
                            sigv.args,
                            ai as int,
                            callee.idx,
                            expr_idx,
                        ),
                    decreases nidx - ai,
                {
                    let type_index = arg_indexes[ai];
                    proof {
                        lemma_var_types_get_bridge(function.variable_types.entries@, type_index);
                    }
                    if ai < sig.args.len() {
                        let expected = &sig.args[ai];
                        proof {
                            assert(sigv.args[ai as int] == type_view(sig.args@[ai as int]));
                        }
                        match function.variable_types.get(type_index) {
                            Some(got) => {
                                if !crate::typ::type_eq(got, expected) {
                                    let got_copy = crate::typ::copy_type(got);
                                    let expected_copy = crate::typ::copy_type(expected);
                                    return Err(
                                        IRErrorInfo {
                                            idx: callee.idx,
                                            error: IRError::TypeMismatch {
                                                got: got_copy,
                                                expected: expected_copy,
                                            },
                                        },
                                    );
                                }
                            },
                            None => {
                                return Err(
                                    IRErrorInfo {
                                        idx: callee.idx,
                                        error: IRError::NotStorable(String::new()),
                                    },
                                );
                            },
                        }
                    } else {
                        return Err(
                            IRErrorInfo { idx: expr_idx, error: IRError::ExtraArgument },
                        );
                    }
                    ai += 1;
                }
                if let Some(st) = store {
                    let ret_copy = crate::typ::copy_type(&sig.returns);
                    proof {
                        lemma_var_types_insert_bridge(
                            function.variable_types.entries@,
                            st,
                            ret_copy,
                        );
                    }
                    function.variable_types.insert(st, ret_copy);
                    push_statement(
                        function,
                        *block,
                        Statement::Operation(
                            Operation::Call { function: name, args: arg_indexes },
                            Some(st),
                        ),
                    );
                } else {
                    push_statement(
                        function,
                        *block,
                        Statement::Operation(
                            Operation::Call { function: name, args: arg_indexes },
                            None,
                        ),
                    );
                }
            }
            Ok(())
        },
        Expr::Var(name) => {
            proof {
                assert(ev.expr == crate::expression_parser::ExprV::Var(name@));
            }
            if let Some(st) = store {
                proof {
                    lemma_declarations_get_bridge(locals.entries@, name@);
                    lemma_declarations_get_bridge(declarations.entries@, name@);
                }
                let found: Option<&Declaration> = match locals.get(&name) {
                    Some(d) => Some(d),
                    None => declarations.get(&name),
                };
                let src: usize = match found {
                    None => {
                        return Err(
                            IRErrorInfo { idx: expr_idx, error: IRError::SymbolUndefined(name) },
                        );
                    },
                    Some(Declaration::Variable(v)) => {
                        let v = *v;
                        proof {
                            lemma_var_types_get_bridge(function.variable_types.entries@, v);
                        }
                        let typ_copy = match function.variable_types.get(v) {
                            Some(t) => crate::typ::copy_type(t),
                            None => {
                                return Err(
                                    IRErrorInfo {
                                        idx: expr_idx,
                                        error: IRError::NotStorable(String::new()),
                                    },
                                );
                            },
                        };
                        proof {
                            lemma_var_types_insert_bridge(
                                function.variable_types.entries@,
                                st,
                                typ_copy,
                            );
                        }
                        function.variable_types.insert(st, typ_copy);
                        v
                    },
                    Some(_) => {
                        return Err(
                            IRErrorInfo { idx: expr_idx, error: IRError::NotStorable(name) },
                        );
                    },
                };
                push_statement(
                    function,
                    *block,
                    Statement::Operation(Operation::LoadLocal { src }, Some(st)),
                );
            }
            Ok(())
        },
        Expr::If { cond, then_branch, else_branch } => {
            proof {
                assert(ev.expr == (crate::expression_parser::ExprV::If {
                    cond: Box::new(crate::expression_parser::info_expr_view(*cond)),
                    then_branch: Box::new(
                        crate::expression_parser::info_expr_view(*then_branch),
                    ),
                    else_branch: match else_branch {
                        Some(ref b) => Some(
                            Box::new(crate::expression_parser::info_expr_view(**b)),
                        ),
                        None => None,
                    },
                }));
            }
            let cond_var = function.variable_types.len();
            proof {
                assert(decreases_to!(expr0 => expr0.expr));
                assert(decreases_to!(expr0.expr => expr0.expr->If_cond));
            }
            let sub = to_ir(function, block, module, *cond, Some(cond_var), declarations, locals);
            match sub {
                Err(e) => {
                    return Err(e);
                },
                Ok(_) => {},
            }
            let ghost c1 = byte_seqs_view(module.constants@);
            let outer = *block;
            let has_else = else_branch.is_some();
            // The join block is created first, with the entry block's old
            // terminator, so each branch's placeholder jump can target it
            // even when the branch itself adds blocks.
            let old_terminal = function.ir[*block].terminal;
            let join = function.ir.len();
            push_block(function, Block { statements: Vec::new(), terminal: old_terminal });
            let then_block_n = function.ir.len();
            push_block(
                function,
                Block { statements: Vec::new(), terminal: Terminal::Jump(join) },
            );
            proof {
                assert(statements_view(Seq::<Statement>::empty()) =~= Seq::<StatementV>::empty());
            }
            let mut then_block_n_mut = then_block_n;
            let then_block_var = function.variable_types.len();
            proof {
                assert(decreases_to!(expr0.expr => expr0.expr->If_then_branch));
            }
            let sub = to_ir(
                function,
                &mut then_block_n_mut,
                module,
                *then_branch,
                Some(then_block_var),
                declarations,
                locals,
            );
            proof {
                lemma_bytes_prefix_trans(c0, c1, byte_seqs_view(module.constants@));
            }
            match sub {
                Err(e) => {
                    return Err(e);
                },
                Ok(_) => {},
            }
            let ghost c2 = byte_seqs_view(module.constants@);
            let else_block: Option<(usize, usize)> = match else_branch {
                Some(els_expr) => {
                    let else_block_n = function.ir.len();
                    push_block(
                        function,
                        Block { statements: Vec::new(), terminal: Terminal::Jump(join) },
                    );
                    proof {
                        assert(statements_view(Seq::<Statement>::empty()) =~= Seq::<
                            StatementV,
                        >::empty());
                    }
                    let mut else_block_n_mut = else_block_n;
                    let else_block_var = function.variable_types.len();
                    proof {
                        assert(decreases_to!(expr0.expr => expr0.expr->If_else_branch));
                        assert(decreases_to!(expr0.expr->If_else_branch
                            => expr0.expr->If_else_branch->Some_0));
                    }
                    let sub = to_ir(
                        function,
                        &mut else_block_n_mut,
                        module,
                        *els_expr,
                        Some(else_block_var),
                        declarations,
                        locals,
                    );
                    proof {
                        lemma_bytes_prefix_trans(c0, c2, byte_seqs_view(module.constants@));
                    }
                    match sub {
                        Err(e) => {
                            return Err(e);
                        },
                        Ok(_) => {},
                    }
                    Some((else_block_n, else_block_var))
                },
                None => None,
            };
            let ghost c3 = byte_seqs_view(module.constants@);
            proof {
                if has_else {
                    lemma_bytes_prefix_trans(c0, c2, c3);
                }
            }
            let els_target = match else_block {
                Some(eb) => eb.0,
                None => join,
            };
            set_terminal(
                function,
                outer,
                Terminal::CondJump { cond: cond_var, then: then_block_n, els: els_target },
            );
            *block = join;
            if let Some(st) = store {
                match else_block {
                    Some(eb) => {
                        let mut block_to_var: VarMap<usize> = VarMap::new();
                        block_to_var.insert(eb.0, eb.1);
                        block_to_var.insert(then_block_n, then_block_var);
                        proof {
                            assert(block_to_var.entries@ == assoc_insert(
                                assoc_insert(Seq::<(usize, usize)>::empty(), eb.0, eb.1),
                                then_block_n,
                                then_block_var,
                            ));
                        }
                        push_statement(
                            function,
                            *block,
                            Statement::Operation(Operation::Phi { block_to_var }, Some(st)),
                        );
                        proof {
                            lemma_var_types_get_bridge(
                                function.variable_types.entries@,
                                then_block_var,
                            );
                        }
                        let typ_copy = match function.variable_types.get(then_block_var) {
                            Some(t) => crate::typ::copy_type(t),
                            None => {
                                return Err(
                                    IRErrorInfo {
                                        idx: expr_idx,
                                        error: IRError::NotStorable(String::new()),
                                    },
                                );
                            },
                        };
                        proof {
                            lemma_var_types_insert_bridge(
                                function.variable_types.entries@,
                                st,
                                typ_copy,
                            );
                        }
                        function.variable_types.insert(st, typ_copy);
                    },
                    None => {
                        return Err(
                            IRErrorInfo { idx: expr_idx, error: IRError::MissingElseBlock },
                        );
                    },
                }
            }
            Ok(())
        },
        Expr::Index(_, _) => Err(
            IRErrorInfo { idx: expr_idx, error: IRError::NotStorable(String::new()) },
        ),
    }
}

/// The entry sequence after storing `value` under `key` in a view-level
/// association sequence keyed by character sequences.
pub open spec fn kassoc_insert<V>(
    s: Seq<(Seq<char>, V)>,
    key: Seq<char>,
    value: V,
) -> Seq<(Seq<char>, V)>
    decreases s.len(),
{
    if s.len() == 0 {
        seq![(key, value)]
    } else if s[0].0 == key {
        seq![(key, value)] + s.drop_first()
    } else {
        seq![s[0]] + kassoc_insert(s.drop_first(), key, value)
    }
}

/// Inserting into a `NameMap<Declaration>` matches inserting into the view.
pub proof fn lemma_declarations_insert_bridge(
    s: Seq<(String, Declaration)>,
    name: String,
    value: Declaration,
)
    ensures
        declarations_view(crate::maps::nassoc_insert(s, name, name@, value)) == kassoc_insert(
            declarations_view(s),
            name@,
            declaration_view(value),
        ),
    decreases s.len(),
{
    broadcast use lemma_declarations_view;

    if s.len() == 0 {
        assert(declarations_view(crate::maps::nassoc_insert(s, name, name@, value))
            =~= kassoc_insert(declarations_view(s), name@, declaration_view(value)));
    } else if s[0].0@ == name@ {
        let t = crate::maps::nassoc_insert(s, name, name@, value);
        assert(t == seq![(name, value)] + s.drop_first());
        assert(t.drop_first() =~= s.drop_first());
        assert(declarations_view(t).drop_first() =~= declarations_view(t.drop_first()));
        assert(declarations_view(s).drop_first() =~= declarations_view(s.drop_first()));
        assert(declarations_view(crate::maps::nassoc_insert(s, name, name@, value))
            =~= kassoc_insert(declarations_view(s), name@, declaration_view(value)));
    } else {
        lemma_declarations_insert_bridge(s.drop_first(), name, value);
        let t = crate::maps::nassoc_insert(s, name, name@, value);
        assert(t == seq![s[0]] + crate::maps::nassoc_insert(s.drop_first(), name, name@, value));
        assert(t.drop_first() =~= crate::maps::nassoc_insert(s.drop_first(), name, name@, value));
        assert(declarations_view(t).drop_first() =~= declarations_view(t.drop_first()));
        assert(declarations_view(s).drop_first() =~= declarations_view(s.drop_first()));
        assert(declarations_view(s)[0] == (s[0].0@, declaration_view(s[0].1)));
        assert(declarations_view(s)[0].0 != name@);
        assert(declarations_view(crate::maps::nassoc_insert(s, name, name@, value))
            =~= kassoc_insert(declarations_view(s), name@, declaration_view(value)));
    }
}

/// Looking a variable's type up in a `VarMap<Type>` matches looking it up
/// in the view.
pub proof fn lemma_var_types_get_bridge(s: Seq<(usize, Type)>, key: usize)
    ensures
        assoc_get(var_types_view(s), key) == match assoc_get(s, key) {
            Some(t) => Some(type_view(t)),
            None => None::<TypeV>,
        },
    decreases s.len(),
{
    broadcast use lemma_var_types_view;

    if s.len() == 0 {
    } else {
        lemma_var_types_get_bridge(s.drop_first(), key);
        assert(var_types_view(s).drop_first() =~= var_types_view(s.drop_first()));
    }
}

/// Inserting a variable's type into a `VarMap<Type>` matches inserting into
/// the view.
pub proof fn lemma_var_types_insert_bridge(s: Seq<(usize, Type)>, key: usize, value: Type)
    ensures
        var_types_view(crate::maps::assoc_insert(s, key, value)) == crate::maps::assoc_insert(
            var_types_view(s),
            key,
            type_view(value),
        ),
    decreases s.len(),
{
    broadcast use lemma_var_types_view;

    if s.len() == 0 {
        assert(var_types_view(crate::maps::assoc_insert(s, key, value))
            =~= crate::maps::assoc_insert(var_types_view(s), key, type_view(value)));
    } else if s[0].0 == key {
        let t = crate::maps::assoc_insert(s, key, value);
        assert(t == seq![(key, value)] + s.drop_first());
        assert(t.drop_first() =~= s.drop_first());
        assert(var_types_view(t).drop_first() =~= var_types_view(t.drop_first()));
        assert(var_types_view(s).drop_first() =~= var_types_view(s.drop_first()));
        assert(var_types_view(crate::maps::assoc_insert(s, key, value))
            =~= crate::maps::assoc_insert(var_types_view(s), key, type_view(value)));
    } else {
        lemma_var_types_insert_bridge(s.drop_first(), key, value);
        let t = crate::maps::assoc_insert(s, key, value);
        assert(t == seq![s[0]] + crate::maps::assoc_insert(s.drop_first(), key, value));
        assert(t.drop_first() =~= crate::maps::assoc_insert(s.drop_first(), key, value));
        assert(var_types_view(t).drop_first() =~= var_types_view(t.drop_first()));
        assert(var_types_view(s).drop_first() =~= var_types_view(s.drop_first()));
        assert(var_types_view(s)[0] == (s[0].0, type_view(s[0].1)));
        assert(var_types_view(s)[0].0 != key);
        assert(var_types_view(crate::maps::assoc_insert(s, key, value))
            =~= crate::maps::assoc_insert(var_types_view(s), key, type_view(value)));
    }
}

// The lowering mirror: the exact mathematical description of `to_ir`, over
// the views of the function, module and scopes.
/// The state the lowerer threads: the function's blocks and variable types,
/// the current block, the module's constant pool, and the local scope.
pub struct LowerStateV {
    pub fir: Seq<BlockV>,
    pub vt: Seq<(usize, TypeV)>,
    pub block: usize,
    pub constants: Seq<Seq<u8>>,
    pub locals: Seq<(Seq<char>, DeclarationV)>,
}

/// Block `b` with one statement appended.
pub open spec fn fir_push(fir: Seq<BlockV>, b: usize, sv: StatementV) -> Seq<BlockV> {
    fir.update(
        b as int,
        BlockV {
            statements: fir[b as int].statements.push(sv),
            terminal: fir[b as int].terminal,
        },
    )
}

/// Block `b` with its terminator replaced.
pub open spec fn fir_set_term(fir: Seq<BlockV>, b: usize, t: Terminal) -> Seq<BlockV> {
    fir.update(b as int, BlockV { statements: fir[b as int].statements, terminal: t })
}

/// The type and constant bytes a literal lowers to.
pub open spec fn spec_literal_lowering(l: crate::tokeniser::LiteralV) -> (TypeV, Seq<u8>) {
    match l {
        crate::tokeniser::LiteralV::Str(text) => (
            crate::typ::string_slice_view(),
            vstd::utf8::encode_utf8(text),
        ),
        crate::tokeniser::LiteralV::Num(n) => (TypeV::U8, seq![n]),
    }
}

/// The first argument-type mismatch, extra argument, or missing recorded
/// type among the call's arguments, if any.
pub open spec fn spec_check_args(
    vt: Seq<(usize, TypeV)>,
    arg_indexes: Seq<usize>,
    sig_args: Seq<TypeV>,
    i: int,
    callee_idx: usize,
    expr_idx: usize,
) -> Option<IRErrorInfoV>
    decreases arg_indexes.len() - i,
{
    if i < 0 || i >= arg_indexes.len() {
        None
    } else if i < sig_args.len() {
        match assoc_get(vt, arg_indexes[i]) {
            Some(got) => if got != sig_args[i] {
                Some(
                    IRErrorInfoV {
                        idx: callee_idx,
                        error: IRErrorV::TypeMismatch { got, expected: sig_args[i] },
                    },
                )
            } else {
                spec_check_args(vt, arg_indexes, sig_args, i + 1, callee_idx, expr_idx)
            },
            None => Some(
                IRErrorInfoV { idx: callee_idx, error: IRErrorV::NotStorable(Seq::empty()) },
            ),
        }
    } else {
        Some(IRErrorInfoV { idx: expr_idx, error: IRErrorV::ExtraArgument })
    }
}

/// What lowering one expression does to the state: the mirror of `to_ir`.
pub open spec fn spec_to_ir(
    st: LowerStateV,
    e: crate::expression_parser::InfoExprV,
    store: Option<usize>,
    decls: Seq<(Seq<char>, DeclarationV)>,
) -> Result<LowerStateV, IRErrorInfoV>
    decreases e, 0int, 0int,
{
    match e.expr {
        crate::expression_parser::ExprV::Literal(l) => match store {
            None => Ok(st),
            Some(s) => {
                let tv = spec_literal_lowering(l);
                Ok(
                    LowerStateV {
                        fir: fir_push(
                            st.fir,
                            st.block,
                            StatementV::Operation(
                                OperationV::LoadGlobal { src: st.constants.len() as usize },
                                Some(s),
                            ),
                        ),
                        vt: assoc_insert(st.vt, s, tv.0),
                        block: st.block,
                        constants: st.constants.push(tv.1),
                        locals: st.locals,
                    },
                )
            },
        },
        crate::expression_parser::ExprV::Let(name, value) => {
            let v = st.vt.len() as usize;
            match spec_to_ir(st, *value, Some(v), decls) {
                Err(err) => Err(err),
                Ok(st1) => {
                    let st2 = LowerStateV {
                        locals: kassoc_insert(st1.locals, name, DeclarationV::Variable(v)),
                        ..st1
                    };
                    match store {
                        Some(s) => Ok(
                            LowerStateV {
                                fir: fir_push(
                                    st2.fir,
                                    st2.block,
                                    StatementV::Operation(
                                        OperationV::LoadLocal { src: v },
                                        Some(s),
                                    ),
                                ),
                                ..st2
                            },
                        ),
                        None => Ok(st2),
                    }
                },
            }
        },
        crate::expression_parser::ExprV::Block(stmts, returning) => {
            match spec_to_ir_stmts(st, stmts, 0, store, returning, decls) {
                Err(err) => Err(err),
                Ok(st1) => {
                    if (stmts.len() == 0 || !returning) && store is Some {
                        Ok(
                            LowerStateV {
                                fir: fir_push(
                                    st1.fir,
                                    st1.block,
                                    StatementV::Operation(
                                        OperationV::LoadGlobal {
                                            src: st1.constants.len() as usize,
                                        },
                                        store,
                                    ),
                                ),
                                vt: assoc_insert(st1.vt, store->0, crate::typ::unit_type_view()),
                                block: st1.block,
                                constants: st1.constants.push(Seq::empty()),
                                locals: st1.locals,
                            },
                        )
                    } else {
                        Ok(st1)
                    }
                },
            }
        },
        crate::expression_parser::ExprV::Return(value) => match value {
            Some(ve) => {
                let rv = st.vt.len() as usize;
                match spec_to_ir(st, *ve, Some(rv), decls) {
                    Err(err) => Err(err),
                    Ok(st1) => Ok(
                        LowerStateV {
                            fir: fir_set_term(st1.fir, st1.block, Terminal::Return(Some(rv))),
                            ..st1
                        },
                    ),
                }
            },
            None => Ok(
                LowerStateV {
                    fir: fir_set_term(st.fir, st.block, Terminal::Return(None)),
                    ..st
                },
            ),
        },
        crate::expression_parser::ExprV::Call(callee, args) => {
            match spec_to_ir_args(st, args, 0, Seq::empty(), decls) {
                Err(err) => Err(err),
                Ok(r1) => {
                    let st1 = r1.0;
                    let arg_indexes = r1.1;
                    let mangled = spec_mangle_name(Seq::empty(), *callee);
                    if !mangled.1 {
                        // A callee that is not a dotted name path is
                        // dropped, as the original machine dropped it.
                        Ok(st1)
                    } else {
                        let path = mangled.0;
                        match spec_get_declaration(path, decls, callee.idx) {
                            Err(err) => Err(err),
                            Ok(DeclarationV::Function(sig)) => {
                                match spec_check_args(
                                    st1.vt,
                                    arg_indexes,
                                    sig.args,
                                    0,
                                    callee.idx,
                                    e.idx,
                                ) {
                                    Some(err) => Err(err),
                                    None => {
                                        let call_stmt = StatementV::Operation(
                                            OperationV::Call {
                                                function: path,
                                                args: arg_indexes,
                                            },
                                            store,
                                        );
                                        match store {
                                            Some(s) => Ok(
                                                LowerStateV {
                                                    fir: fir_push(st1.fir, st1.block, call_stmt),
                                                    vt: assoc_insert(st1.vt, s, *sig.returns),
                                                    ..st1
                                                },
                                            ),
                                            None => Ok(
                                                LowerStateV {
                                                    fir: fir_push(st1.fir, st1.block, call_stmt),
                                                    ..st1
                                                },
                                            ),
                                        }
                                    },
                                }
                            },
                            Ok(_) => Err(
                                IRErrorInfoV {
                                    idx: callee.idx,
                                    error: IRErrorV::SymbolNotCallable(
                                        if path.len() > 0 {
                                            path.last()
                                        } else {
                                            Seq::empty()
                                        },
                                    ),
                                },
                            ),
                        }
                    }
                },
            }
        },
        crate::expression_parser::ExprV::Var(name) => match store {
            None => Ok(st),
            Some(s) => {
                let found = match kassoc_get(st.locals, name) {
                    Some(d) => Some(d),
                    None => kassoc_get(decls, name),
                };
                match found {
                    None => Err(
                        IRErrorInfoV { idx: e.idx, error: IRErrorV::SymbolUndefined(name) },
                    ),
                    Some(DeclarationV::Variable(v)) => match assoc_get(st.vt, v) {
                        Some(tv) => Ok(
                            LowerStateV {
                                fir: fir_push(
                                    st.fir,
                                    st.block,
                                    StatementV::Operation(
                                        OperationV::LoadLocal { src: v },
                                        Some(s),
                                    ),
                                ),
                                vt: assoc_insert(st.vt, s, tv),
                                ..st
                            },
                        ),
                        None => Err(
                            IRErrorInfoV {
                                idx: e.idx,
                                error: IRErrorV::NotStorable(Seq::empty()),
                            },
                        ),
                    },
                    Some(_) => Err(
                        IRErrorInfoV { idx: e.idx, error: IRErrorV::NotStorable(name) },
                    ),
                }
            },
        },
        crate::expression_parser::ExprV::If { cond, then_branch, else_branch } => {
            let cv = st.vt.len() as usize;
            match spec_to_ir(st, *cond, Some(cv), decls) {
                Err(err) => Err(err),
                Ok(st1) => {
                    let outer = st1.block;
                    let has_else = else_branch is Some;
                    let old_terminal = st1.fir[outer as int].terminal;
                    // The join block is created first, so each branch's
                    // placeholder jump targets it even when the branch
                    // itself adds blocks.
                    let join = st1.fir.len() as usize;
                    let st2 = LowerStateV {
                        fir: st1.fir.push(
                            BlockV { statements: Seq::empty(), terminal: old_terminal },
                        ),
                        ..st1
                    };
                    let tb = st2.fir.len() as usize;
                    let st3 = LowerStateV {
                        fir: st2.fir.push(
                            BlockV {
                                statements: Seq::empty(),
                                terminal: Terminal::Jump(join),
                            },
                        ),
                        ..st2
                    };
                    let tv_var = st3.vt.len() as usize;
                    match spec_to_ir(
                        LowerStateV { block: tb, ..st3 },
                        *then_branch,
                        Some(tv_var),
                        decls,
                    ) {
                        Err(err) => Err(err),
                        Ok(st4p) => {
                            let st4 = LowerStateV { block: outer, ..st4p };
                            let after_else: Result<
                                (LowerStateV, usize, usize),
                                IRErrorInfoV,
                            > = match else_branch {
                                Some(ee) => {
                                    let eb = st4.fir.len() as usize;
                                    let st5 = LowerStateV {
                                        fir: st4.fir.push(
                                            BlockV {
                                                statements: Seq::empty(),
                                                terminal: Terminal::Jump(join),
                                            },
                                        ),
                                        ..st4
                                    };
                                    let ev_var = st5.vt.len() as usize;
                                    match spec_to_ir(
                                        LowerStateV { block: eb, ..st5 },
                                        *ee,
                                        Some(ev_var),
                                        decls,
                                    ) {
                                        Err(err) => Err(err),
                                        Ok(st6p) => Ok(
                                            (LowerStateV { block: outer, ..st6p }, eb, ev_var),
                                        ),
                                    }
                                },
                                None => Ok((st4, 0usize, 0usize)),
                            };
                            match after_else {
                                Err(err) => Err(err),
                                Ok(r5) => {
                                    let st5 = r5.0;
                                    let eb = r5.1;
                                    let ev_var = r5.2;
                                    let els_target = if has_else {
                                        eb
                                    } else {
                                        join
                                    };
                                    let st7 = LowerStateV {
                                        fir: fir_set_term(
                                            st5.fir,
                                            outer,
                                            Terminal::CondJump {
                                                cond: cv,
                                                then: tb,
                                                els: els_target,
                                            },
                                        ),
                                        block: join,
                                        ..st5
                                    };
                                    match store {
                                        None => Ok(st7),
                                        Some(s) => if has_else {
                                            let phi_entries = assoc_insert(
                                                assoc_insert(
                                                    Seq::<(usize, usize)>::empty(),
                                                    eb,
                                                    ev_var,
                                                ),
                                                tb,
                                                tv_var,
                                            );
                                            let st8 = LowerStateV {
                                                fir: fir_push(
                                                    st7.fir,
                                                    join,
                                                    StatementV::Operation(
                                                        OperationV::Phi {
                                                            block_to_var: phi_entries,
                                                        },
                                                        Some(s),
                                                    ),
                                                ),
                                                ..st7
                                            };
                                            match assoc_get(st8.vt, tv_var) {
                                                Some(tv) => Ok(
                                                    LowerStateV {
                                                        vt: assoc_insert(st8.vt, s, tv),
                                                        ..st8
                                                    },
                                                ),
                                                None => Err(
                                                    IRErrorInfoV {
                                                        idx: e.idx,
                                                        error: IRErrorV::NotStorable(
                                                            Seq::empty(),
                                                        ),
                                                    },
                                                ),
                                            }
                                        } else {
                                            Err(
                                                IRErrorInfoV {
                                                    idx: e.idx,
                                                    error: IRErrorV::MissingElseBlock,
                                                },
                                            )
                                        },
                                    }
                                },
                            }
                        },
                    }
                },
            }
        },
        crate::expression_parser::ExprV::Index(_, _) => Err(
            IRErrorInfoV { idx: e.idx, error: IRErrorV::NotStorable(Seq::empty()) },
        ),
        crate::expression_parser::ExprV::Return(_) => Err(
            IRErrorInfoV { idx: e.idx, error: IRErrorV::NotStorable(Seq::empty()) },
        ),
    }
}

/// Lowers a block's statements from index `i` on: every statement but the
/// last is discarded, the last receives the outer store when the block
/// returns its value.
pub open spec fn spec_to_ir_stmts(
    st: LowerStateV,
    stmts: Seq<crate::expression_parser::InfoExprV>,
    i: int,
    store: Option<usize>,
    returning: bool,
    decls: Seq<(Seq<char>, DeclarationV)>,
) -> Result<LowerStateV, IRErrorInfoV>
    decreases stmts, 1int, stmts.len() - i,
{
    if i < 0 || i >= stmts.len() {
        Ok(st)
    } else {
        let this_store: Option<usize> = if i + 1 == stmts.len() && returning {
            store
        } else {
            None
        };
        match spec_to_ir(st, stmts[i], this_store, decls) {
            Err(err) => Err(err),
            Ok(st1) => spec_to_ir_stmts(st1, stmts, i + 1, store, returning, decls),
        }
    }
}

/// Lowers a call's arguments from index `i` on, each into a fresh dense
/// variable id, collecting the ids.
pub open spec fn spec_to_ir_args(
    st: LowerStateV,
    args: Seq<crate::expression_parser::InfoExprV>,
    i: int,
    acc: Seq<usize>,
    decls: Seq<(Seq<char>, DeclarationV)>,
) -> Result<(LowerStateV, Seq<usize>), IRErrorInfoV>
    decreases args, 1int, args.len() - i,
{
    if i < 0 || i >= args.len() {
        Ok((st, acc))
    } else {
        let v = st.vt.len() as usize;
        match spec_to_ir(st, args[i], Some(v), decls) {
            Err(err) => Err(err),
            Ok(st1) => spec_to_ir_args(st1, args, i + 1, acc.push(v), decls),
        }
    }
}

/// Inserting into a `NameMap<Function>` matches inserting into the view.
pub proof fn lemma_functions_insert_bridge(
    s: Seq<(String, Function)>,
    name: String,
    value: Function,
)
    ensures
        functions_view(crate::maps::nassoc_insert(s, name, name@, value)) == kassoc_insert(
            functions_view(s),
            name@,
            function_view(value),
        ),
    decreases s.len(),
{
    broadcast use lemma_functions_view;

    if s.len() == 0 {
        assert(functions_view(crate::maps::nassoc_insert(s, name, name@, value))
            =~= kassoc_insert(functions_view(s), name@, function_view(value)));
    } else if s[0].0@ == name@ {
        let t = crate::maps::nassoc_insert(s, name, name@, value);
        assert(t == seq![(name, value)] + s.drop_first());
        assert(t.drop_first() =~= s.drop_first());
        assert(functions_view(t).drop_first() =~= functions_view(t.drop_first()));
        assert(functions_view(s).drop_first() =~= functions_view(s.drop_first()));
        assert(functions_view(crate::maps::nassoc_insert(s, name, name@, value))
            =~= kassoc_insert(functions_view(s), name@, function_view(value)));
    } else {
        lemma_functions_insert_bridge(s.drop_first(), name, value);
        let t = crate::maps::nassoc_insert(s, name, name@, value);
        assert(t == seq![s[0]] + crate::maps::nassoc_insert(s.drop_first(), name, name@, value));
        assert(t.drop_first() =~= crate::maps::nassoc_insert(s.drop_first(), name, name@, value));
        assert(functions_view(t).drop_first() =~= functions_view(t.drop_first()));
        assert(functions_view(s).drop_first() =~= functions_view(s.drop_first()));
        assert(functions_view(s)[0] == (s[0].0@, function_view(s[0].1)));
        assert(functions_view(s)[0].0 != name@);
        assert(functions_view(crate::maps::nassoc_insert(s, name, name@, value))
            =~= kassoc_insert(functions_view(s), name@, function_view(value)));
    }
}


/// One tab per indentation level.
pub open spec fn spec_tabs(n: int) -> Seq<char>
    decreases n,
{
    if n <= 0 {
        Seq::empty()
    } else {
        spec_tabs(n - 1) + seq!['\t']
    }
}

/// The printed argument list of a call, decimal and comma-separated.
pub open spec fn spec_ir_args(args: Seq<usize>, i: int) -> Seq<char>
    decreases args.len() - i,
{
    if i < 0 || i >= args.len() {
        Seq::empty()
    } else {
        (if i > 0 {
            ", "@
        } else {
            Seq::<char>::empty()
        }) + crate::numfmt::dec_digits(args[i] as int) + spec_ir_args(args, i + 1)
    }
}

/// The printed entries of a phi, `block: var` pairs in stored order.
pub open spec fn spec_ir_phi(entries: Seq<(usize, usize)>, i: int) -> Seq<char>
    decreases entries.len() - i,
{
    if i < 0 || i >= entries.len() {
        Seq::empty()
    } else {
        (if i > 0 {
            ", "@
        } else {
            Seq::<char>::empty()
        }) + crate::numfmt::dec_digits(entries[i].0 as int) + ": "@ + crate::numfmt::dec_digits(
            entries[i].1 as int,
        ) + spec_ir_phi(entries, i + 1)
    }
}

/// A constant's bytes printed one character per byte.
pub open spec fn spec_bytes_text(bs: Seq<u8>, i: int) -> Seq<char>
    decreases bs.len() - i,
{
    if i < 0 || i >= bs.len() {
        Seq::empty()
    } else {
        seq![bs[i] as char] + spec_bytes_text(bs, i + 1)
    }
}

/// The printed form of one operation.
pub open spec fn spec_ir_op(op: OperationV, constants: Seq<Seq<u8>>) -> Seq<char> {
    match op {
        OperationV::Call { function, args } => "call \""@ + crate::compiler::spec_join_names(
            function,
            0,
        ) + "\"["@ + spec_ir_args(args, 0) + seq![']'],
        OperationV::CallPointer { pointer, args } => "call pointer $"@ + crate::numfmt::dec_digits(
            pointer as int,
        ) + seq!['['] + spec_ir_args(args, 0) + seq![']'],
        OperationV::LoadGlobal { src } => "global \""@ + (if src < constants.len() {
            spec_bytes_text(constants[src as int], 0)
        } else {
            Seq::<char>::empty()
        }) + seq!['"'],
        OperationV::LoadLocal { src } => seq!['$'] + crate::numfmt::dec_digits(src as int),
        OperationV::Phi { block_to_var } => "phi {"@ + spec_ir_phi(block_to_var, 0) + seq!['}'],
        OperationV::PartialCall { blocks: _, variables: _ } => "partial call"@,
    }
}

/// The printed form of one statement: its destination, if any, then its
/// operation, on an indented line of its own.
pub open spec fn spec_ir_stmt(st: StatementV, constants: Seq<Seq<u8>>, ind: int) -> Seq<char> {
    match st {
        StatementV::Operation(op, store) => spec_tabs(ind + 1) + (match store {
            Some(s) => seq!['$'] + crate::numfmt::dec_digits(s as int) + " = "@,
            None => Seq::<char>::empty(),
        }) + spec_ir_op(op, constants) + seq!['\n'],
    }
}

/// The printed statements of a block from index `i` on.
pub open spec fn spec_ir_stmts(
    stmts: Seq<StatementV>,
    constants: Seq<Seq<u8>>,
    ind: int,
    i: int,
) -> Seq<char>
    decreases stmts.len() - i,
{
    if i < 0 || i >= stmts.len() {
        Seq::empty()
    } else {
        spec_ir_stmt(stmts[i], constants, ind) + spec_ir_stmts(stmts, constants, ind, i + 1)
    }
}

/// The printed form of a terminator.
pub open spec fn spec_ir_terminal(t: Terminal) -> Seq<char> {
    match t {
        Terminal::CondJump { cond, then, els } => "if $"@ + crate::numfmt::dec_digits(cond as int)
            + " then "@ + crate::numfmt::dec_digits(then as int) + " else "@
            + crate::numfmt::dec_digits(els as int),
        Terminal::Jump(target) => "jump "@ + crate::numfmt::dec_digits(target as int),
        Terminal::Return(r) => "return "@ + (match r {
            Some(v) => seq!['$'] + crate::numfmt::dec_digits(v as int),
            None => "void"@,
        }),
        Terminal::Evaluate(r) => "evaluate "@ + (match r {
            Some(v) => seq!['$'] + crate::numfmt::dec_digits(v as int),
            None => "void"@,
        }),
        Terminal::ThenElseJump(v) => "then else jump "@ + crate::numfmt::dec_digits(v as int),
    }
}

/// The printed text of the blocks from index `i` on: each block's number,
/// its statements and its terminator, indented by `ind` tabs.
pub open spec fn spec_ir_text(
    blocks: Seq<BlockV>,
    constants: Seq<Seq<u8>>,
    ind: int,
    i: int,
) -> Seq<char>
    decreases blocks.len() - i,
{
    if i < 0 || i >= blocks.len() {
        Seq::empty()
    } else {
        spec_tabs(ind) + crate::numfmt::dec_digits(i) + ":\n"@ + spec_ir_stmts(
            blocks[i].statements,
            constants,
            ind,
            0,
        ) + spec_tabs(ind + 1) + spec_ir_terminal(blocks[i].terminal) + seq!['\n']
            + spec_ir_text(blocks, constants, ind, i + 1)
    }
}

/// Appends `n` tabs.
#[verifier::loop_isolation(false)]
fn push_tabs(out: &mut String, n: usize)
    ensures
        final(out)@ == old(out)@ + spec_tabs(n as int),
{
    let ghost out0 = old(out)@;
    let mut i: usize = 0;
    while i < n
        invariant
            i <= n,
            out@ == out0 + spec_tabs(i as int),
        decreases n - i,
    {
        crate::tokeniser::push_char(out, '\t');
        i += 1;
    }
}

/// Appends a decimal number.
fn push_usize(out: &mut String, v: usize)
    ensures
        final(out)@ == old(out)@ + crate::numfmt::dec_digits(v as int),
{
    let t = crate::numfmt::usize_to_string(v);
    out.append(t.as_str());
}

/// Appends the comma-separated decimal argument list.
#[verifier::loop_isolation(false)]
fn push_args(out: &mut String, args: &Vec<usize>)
    ensures
        final(out)@ == old(out)@ + spec_ir_args(args@, 0),
{
    let ghost out0 = old(out)@;
    let n = args.len();
    let mut i: usize = 0;
    while i < n
        invariant
            i <= n,
            n == args@.len(),
            out0 + spec_ir_args(args@, 0) =~= out@ + spec_ir_args(args@, i as int),
        decreases n - i,
    {
        let ghost outp = out@;
        if i > 0 {
            out.append(", ");
        }
        push_usize(out, args[i]);
        proof {
            assert(spec_ir_args(args@, i as int) =~= (if i > 0 {
                ", "@
            } else {
                Seq::<char>::empty()
            }) + crate::numfmt::dec_digits(args@[i as int] as int) + spec_ir_args(
                args@,
                i as int + 1,
            ));
            assert(out0 + spec_ir_args(args@, 0) =~= out@ + spec_ir_args(args@, i as int + 1));
        }
        i += 1;
    }
}

/// Appends the phi entries as `block: var` pairs.
#[verifier::loop_isolation(false)]
fn push_phi(out: &mut String, entries: &Vec<(usize, usize)>)
    ensures
        final(out)@ == old(out)@ + spec_ir_phi(entries@, 0),
{
    let ghost out0 = old(out)@;
    let n = entries.len();
    let mut i: usize = 0;
    while i < n
        invariant
            i <= n,
            n == entries@.len(),
            out0 + spec_ir_phi(entries@, 0) =~= out@ + spec_ir_phi(entries@, i as int),
        decreases n - i,
    {
        if i > 0 {
            out.append(", ");
        }
        push_usize(out, entries[i].0);
        out.append(": ");
        push_usize(out, entries[i].1);
        proof {
            assert(spec_ir_phi(entries@, i as int) =~= (if i > 0 {
                ", "@
            } else {
                Seq::<char>::empty()
            }) + crate::numfmt::dec_digits(entries@[i as int].0 as int) + ": "@
                + crate::numfmt::dec_digits(entries@[i as int].1 as int) + spec_ir_phi(
                entries@,
                i as int + 1,
            ));
            assert(out0 + spec_ir_phi(entries@, 0) =~= out@ + spec_ir_phi(entries@, i as int + 1));
        }
        i += 1;
    }
}

/// Appends a constant's bytes, one character per byte.
#[verifier::loop_isolation(false)]
fn push_bytes_text(out: &mut String, bs: &Vec<u8>)
    ensures
        final(out)@ == old(out)@ + spec_bytes_text(bs@, 0),
{
    let ghost out0 = old(out)@;
    let n = bs.len();
    let mut i: usize = 0;
    while i < n
        invariant
            i <= n,
            n == bs@.len(),
            out0 + spec_bytes_text(bs@, 0) =~= out@ + spec_bytes_text(bs@, i as int),
        decreases n - i,
    {
        crate::tokeniser::push_char(out, bs[i] as char);
        proof {
            assert(spec_bytes_text(bs@, i as int) =~= seq![bs@[i as int] as char]
                + spec_bytes_text(bs@, i as int + 1));
            assert(out0 + spec_bytes_text(bs@, 0) =~= out@ + spec_bytes_text(bs@, i as int + 1));
        }
        i += 1;
    }
}

/// Appends the printed form of one operation.
fn push_op(out: &mut String, op: &Operation, module: &Module)
    ensures
        final(out)@ == old(out)@ + spec_ir_op(
            operation_view(*op),
            byte_seqs_view(module.constants@),
        ),
{
    broadcast use lemma_byte_seqs_view;

    match op {
        Operation::Call { function, args } => {
            out.append("call \"");
            let joined = crate::compiler::join_names(function);
            out.append(joined.as_str());
            out.append("\"[");
            push_args(out, args);
            crate::tokeniser::push_char(out, ']');
        },
        Operation::CallPointer { pointer, args } => {
            out.append("call pointer $");
            push_usize(out, *pointer);
            crate::tokeniser::push_char(out, '[');
            push_args(out, args);
            crate::tokeniser::push_char(out, ']');
        },
        Operation::LoadGlobal { src } => {
            out.append("global \"");
            if *src < module.constants.len() {
                push_bytes_text(out, &module.constants[*src]);
            }
            crate::tokeniser::push_char(out, '"');
        },
        Operation::LoadLocal { src } => {
            crate::tokeniser::push_char(out, '$');
            push_usize(out, *src);
        },
        Operation::Phi { block_to_var } => {
            out.append("phi {");
            push_phi(out, &block_to_var.entries);
            crate::tokeniser::push_char(out, '}');
        },
        Operation::PartialCall { blocks: _, variables: _ } => {
            out.append("partial call");
        },
    }
}

/// Appends the printed form of a terminator.
fn push_terminal(out: &mut String, t: &Terminal)
    ensures
        final(out)@ == old(out)@ + spec_ir_terminal(*t),
{
    match t {
        Terminal::CondJump { cond, then, els } => {
            out.append("if $");
            push_usize(out, *cond);
            out.append(" then ");
            push_usize(out, *then);
            out.append(" else ");
            push_usize(out, *els);
        },
        Terminal::Jump(target) => {
            out.append("jump ");
            push_usize(out, *target);
        },
        Terminal::Return(r) => {
            out.append("return ");
            match r {
                Some(v) => {
                    crate::tokeniser::push_char(out, '$');
                    push_usize(out, *v);
                },
                None => {
                    out.append("void");
                },
            }
        },
        Terminal::Evaluate(r) => {
            out.append("evaluate ");
            match r {
                Some(v) => {
                    crate::tokeniser::push_char(out, '$');
                    push_usize(out, *v);
                },
                None => {
                    out.append("void");
                },
            }
        },
        Terminal::ThenElseJump(v) => {
            out.append("then else jump ");
            push_usize(out, *v);
        },
    }
}

/// Appends one printed statement line: `indentation + 1` tabs, the
/// destination if any, the operation, and a newline.
#[verifier::loop_isolation(false)]
#[verifier::rlimit(100)]
fn push_stmt(out: &mut String, st: &Statement, module: &Module, indentation: usize)
    requires
        indentation < usize::MAX,
    ensures
        final(out)@ == old(out)@ + spec_ir_stmt(
            statement_view(*st),
            byte_seqs_view(module.constants@),
            indentation as int,
        ),
{
    let ghost outp = old(out)@;
    let ghost csv = byte_seqs_view(module.constants@);
    push_tabs(out, indentation);
    crate::tokeniser::push_char(out, '\t');
    proof {
        assert(out@ =~= outp + spec_tabs(indentation as int + 1));
    }
    match st {
        Statement::Operation(op, store) => {
            if let Some(dest) = store {
                crate::tokeniser::push_char(out, '$');
                push_usize(out, *dest);
                out.append(" = ");
            }
            push_op(out, op, module);
        },
    }
    crate::tokeniser::push_char(out, '\n');
    proof {
        assert(out@ =~= outp + spec_ir_stmt(statement_view(*st), csv, indentation as int));
    }
}

/// Appends one printed block: its number line, its statements and its
/// terminator line.
#[verifier::loop_isolation(false)]
#[verifier::rlimit(100)]
fn push_block_text(out: &mut String, block: &Block, idx: usize, module: &Module, indentation: usize)
    requires
        indentation < usize::MAX,
    ensures
        final(out)@ == old(out)@ + spec_tabs(indentation as int) + crate::numfmt::dec_digits(
            idx as int,
        ) + ":\n"@ + spec_ir_stmts(
            statements_view(block.statements@),
            byte_seqs_view(module.constants@),
            indentation as int,
            0,
        ) + spec_tabs(indentation as int + 1) + spec_ir_terminal(block.terminal) + seq!['\n'],
{
    broadcast use lemma_statements_view;

    let ghost outb = old(out)@;
    let ghost csv = byte_seqs_view(module.constants@);
    let ghost sv = statements_view(block.statements@);
    push_tabs(out, indentation);
    push_usize(out, idx);
    out.append(":\n");
    let ghost head = outb + spec_tabs(indentation as int) + crate::numfmt::dec_digits(idx as int)
        + ":\n"@;
    proof {
        assert(out@ =~= head);
    }
    let ns = block.statements.len();
    let mut j: usize = 0;
    while j < ns
        invariant
            j <= ns,
            ns == block.statements@.len(),
            sv.len() == ns,
            head + spec_ir_stmts(sv, csv, indentation as int, 0) =~= out@ + spec_ir_stmts(
                sv,
                csv,
                indentation as int,
                j as int,
            ),
        decreases ns - j,
    {
        let ghost stv = sv[j as int];
        proof {
            assert(stv == statement_view(block.statements@[j as int]));
        }
        push_stmt(out, &block.statements[j], module, indentation);
        proof {
            assert(spec_ir_stmts(sv, csv, indentation as int, j as int) =~= spec_ir_stmt(
                stv,
                csv,
                indentation as int,
            ) + spec_ir_stmts(sv, csv, indentation as int, j as int + 1));
            assert(head + spec_ir_stmts(sv, csv, indentation as int, 0) =~= out@ + spec_ir_stmts(
                sv,
                csv,
                indentation as int,
                j as int + 1,
            ));
        }
        j += 1;
    }
    let ghost outt = out@;
    push_tabs(out, indentation);
    crate::tokeniser::push_char(out, '\t');
    proof {
        assert(out@ =~= outt + spec_tabs(indentation as int + 1));
    }
    push_terminal(out, &block.terminal);
    crate::tokeniser::push_char(out, '\n');
    proof {
        assert(out@ =~= outb + spec_tabs(indentation as int) + crate::numfmt::dec_digits(
            idx as int,
        ) + ":\n"@ + spec_ir_stmts(sv, csv, indentation as int, 0) + spec_tabs(
            indentation as int + 1,
        ) + spec_ir_terminal(block.terminal) + seq!['\n']);
    }
}

/// Prints the blocks for debugging, exactly as `spec_ir_text` says: each
/// block under its number, its statements and terminator one per line,
/// indented by `indentation` tabs. The variable bindings do not affect the
/// text. A constant is printed one character per byte, and an out-of-range
/// constant index prints an empty string, where eager indexing would fail
/// instead.
#[verifier::loop_isolation(false)]
#[verifier::rlimit(100)]
pub fn to_string(
    module: &Module,
    blocks: &Vec<Block>,
    vars: &crate::maps::VarMap<Option<Vec<u8>>>,
    indentation: usize,
) -> (r: String)
    requires
        indentation < usize::MAX,
    ensures
        r@ == spec_ir_text(
            blocks_view(blocks@),
            byte_seqs_view(module.constants@),
            indentation as int,
            0,
        ),
{
    broadcast use lemma_blocks_view;

    let _ = vars;
    let ghost bv = blocks_view(blocks@);
    let ghost csv = byte_seqs_view(module.constants@);
    let mut out = String::new();
    let n = blocks.len();
    let mut i: usize = 0;
    while i < n
        invariant
            i <= n,
            n == blocks@.len(),
            bv.len() == n,
            spec_ir_text(bv, csv, indentation as int, 0) =~= out@ + spec_ir_text(
                bv,
                csv,
                indentation as int,
                i as int,
            ),
        decreases n - i,
    {
        proof {
            assert(bv[i as int] == block_view(blocks@[i as int]));
        }
        let ghost outb = out@;
        push_block_text(&mut out, &blocks[i], i, module, indentation);
        proof {
            assert(spec_ir_text(bv, csv, indentation as int, i as int) =~= spec_tabs(
                indentation as int,
            ) + crate::numfmt::dec_digits(i as int) + ":\n"@ + spec_ir_stmts(
                bv[i as int].statements,
                csv,
                indentation as int,
                0,
            ) + spec_tabs(indentation as int + 1) + spec_ir_terminal(bv[i as int].terminal)
                + seq!['\n'] + spec_ir_text(bv, csv, indentation as int, i as int + 1));
            assert(spec_ir_text(bv, csv, indentation as int, 0) =~= out@ + spec_ir_text(
                bv,
                csv,
                indentation as int,
                i as int + 1,
            ));
        }
        i += 1;
    }
    out
}

} // verus!
