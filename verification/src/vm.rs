//! The partial evaluator: it executes IR symbolically against a variable
//! state in which each variable is either known bytes or explicitly unknown.
//! Statements whose inputs are known are evaluated away; the others are kept
//! in a residual block list that can be re-evaluated later, once more inputs
//! are known.
//!
//! Every function here is specified exactly against a mathematical mirror
//! (`spec_run`, `spec_evaluate`, ...) over the view types, so evaluation is
//! deterministic by construction: the result depends only on the views of the
//! module, the blocks, the variable state and the fuel.
//!
//! Where the original machine would abort on an invariant violation (an
//! undefined variable, a phi from an unexpected predecessor), these functions
//! return an `EvalError` instead. `fuel` bounds the number of control
//! transfers and nested calls; an execution that exceeds it ends in
//! `EvalError::OutOfFuel`.
//!
//! Output is collected rather than printed: each `print` whose capability
//! token and message are both known appends the message bytes to a log, and
//! the caller decides what to do with the log. A `read_file` call is
//! preserved in the residual with its result marked unknown — the driver
//! around the library performs the read and binds the result, after which
//! the preserved call is consumed. A callee that forks on an unknown
//! condition is residualized from its approach blocks; only a nested
//! second-pass branch answer (which no lowered program starts with) is
//! outside the implemented subset.

use vstd::prelude::*;
use vstd::string::StrSliceExecFns;

use crate::ir::{
    blocks_view, byte_seqs_view, copy_block, copy_blocks, copy_bytes, copy_opt_bytes, copy_vars,
    kassoc_get, lemma_blocks_view, lemma_byte_seqs_view, lemma_functions_get_bridge,
    lemma_statements_view, lemma_vars_get_bridge, lemma_vars_insert_bridge, lemma_vars_map_view,
    module_view, operation_view, statement_view, statements_view, vars_map_view, Block, BlockV,
    Function, FunctionV, Module, ModuleV, Operation, OperationV, Statement, StatementV, Terminal,
    VarsV,
};
use crate::maps::{assoc_get, assoc_insert, VarMap};
use crate::tokeniser::str_eq;

verus! {

/// The bytes standing for a variable's value.
pub type VarRepr = Vec<u8>;

/// What one evaluation produced.
#[derive(Debug)]
pub enum RunResult {
    /// The function finished with a fully known value.
    Concrete(Vec<u8>),
    /// The function could not finish; the residual blocks and the variable
    /// state are kept for a later pass.
    Partial(Vec<Block>, VarMap<Option<Vec<u8>>>),
    /// A conditional jump with an unknown condition: both branches were
    /// evaluated speculatively, and the approach block keeps a
    /// `ThenElseJump` terminator to pick one when the condition resolves.
    ConditionalPartial {
        condition: (Vec<Block>, VarMap<Option<Vec<u8>>>),
        then: Box<RunResult>,
        els: Box<RunResult>,
    },
    /// A second pass over an approach block resolved its condition.
    ThenElseJump(bool),
}

/// A fatal evaluation failure: an invariant of the IR was broken, an
/// unimplemented operation was reached, or the fuel ran out.
#[derive(Debug, Clone, Copy, PartialEq, Eq, Structural)]
pub enum EvalError {
    /// An operation read a variable id absent from the variable state.
    UndefinedVariable(usize),
    /// A return named a variable id absent from the variable state.
    ReturningUndefined(usize),
    /// A phi was entered from a predecessor it has no mapping for.
    PhiUnexpectedPredecessor { block: usize, last_block: usize },
    /// A load named a constant index outside the module's constant pool.
    ConstantOutOfRange(usize),
    /// Control transferred to a block index outside the block list.
    BlockOutOfRange(usize),
    /// An operation or terminator outside the implemented subset.
    Unsupported,
    /// The fuel bound on control transfers and nested calls was exhausted.
    OutOfFuel,
}

/// The mathematical view of a `RunResult`.
pub enum RunResultV {
    Concrete(Seq<u8>),
    Partial(Seq<BlockV>, VarsV),
    ConditionalPartial {
        condition: (Seq<BlockV>, VarsV),
        then: Box<RunResultV>,
        els: Box<RunResultV>,
    },
    ThenElseJump(bool),
}

pub open spec fn run_result_view(r: RunResult) -> RunResultV
    decreases r,
{
    match r {
        RunResult::Concrete(data) => RunResultV::Concrete(data@),
        RunResult::Partial(blocks, vars) => RunResultV::Partial(
            blocks_view(blocks@),
            vars_map_view(vars.entries@),
        ),
        RunResult::ConditionalPartial { condition, then, els } => RunResultV::ConditionalPartial {
            condition: (blocks_view(condition.0@), vars_map_view(condition.1.entries@)),
            then: Box::new(run_result_view(*then)),
            els: Box::new(run_result_view(*els)),
        },
        RunResult::ThenElseJump(b) => RunResultV::ThenElseJump(b),
    }
}

/// The truthiness of a byte vector: more than one byte and a nonzero first
/// byte.
pub open spec fn spec_truthy(s: Seq<u8>) -> bool {
    s.len() > 1 && s[0] != 0
}

/// Whether the condition bytes pick the `then` branch of a conditional jump:
/// the length exceeds one and the first byte is nonzero.
pub fn truthy(c: &Vec<u8>) -> (r: bool)
    ensures
        r == spec_truthy(c@),
{
    c.len() > 1 && c[0] != 0
}

/// The state carried through the statements of one block: the variable
/// state, the residual statements kept so far, and the output log.
pub struct EvalStateV {
    pub vars: VarsV,
    pub out: Seq<StatementV>,
    pub log: Seq<Seq<u8>>,
}

/// The variable state built from the argument list: argument `i` is variable
/// `i`.
pub open spec fn spec_init_vars(args: Seq<Option<Seq<u8>>>, i: int, vars: VarsV) -> VarsV
    decreases args.len() - i,
{
    if i < 0 || i >= args.len() {
        vars
    } else {
        spec_init_vars(args, i + 1, assoc_insert(vars, i as usize, args[i]))
    }
}

/// The argument values read from the variable state, in order; the first
/// absent variable id is an error.
pub open spec fn spec_collect_args(vars: VarsV, args: Seq<usize>, i: int, acc: Seq<
    Option<Seq<u8>>,
>) -> Result<Seq<Option<Seq<u8>>>, EvalError>
    decreases args.len() - i,
{
    if i < 0 || i >= args.len() {
        Ok(acc)
    } else {
        match assoc_get(vars, args[i]) {
            None => Err(EvalError::UndefinedVariable(args[i])),
            Some(v) => spec_collect_args(vars, args, i + 1, acc.push(v)),
        }
    }
}

/// Whether some variable in the state is still unknown.
pub open spec fn spec_any_unknown(vars: VarsV) -> bool {
    exists|j: int| 0 <= j < vars.len() && (#[trigger] vars[j]).1 is None
}

/// One statement of a block, evaluated against the state: the mirror of the
/// executable statement step.
pub open spec fn spec_eval_stmt(
    m: ModuleV,
    stmt: StatementV,
    st: EvalStateV,
    block: usize,
    last_block: usize,
    fuel: nat,
) -> Result<EvalStateV, EvalError>
    decreases fuel, 0int, 0int,
{
    match stmt {
        StatementV::Operation(op, store) => match op {
            OperationV::LoadGlobal { src } => match store {
                None => Ok(st),
                Some(stv) => if src >= m.constants.len() {
                    Err(EvalError::ConstantOutOfRange(src))
                } else {
                    Ok(
                        EvalStateV {
                            vars: assoc_insert(st.vars, stv, Some(m.constants[src as int])),
                            out: st.out,
                            log: st.log,
                        },
                    )
                },
            },
            OperationV::LoadLocal { src } => match store {
                None => Ok(st),
                Some(stv) => match assoc_get(st.vars, src) {
                    Some(Some(data)) => Ok(
                        EvalStateV {
                            vars: assoc_insert(st.vars, stv, Some(data)),
                            out: st.out,
                            log: st.log,
                        },
                    ),
                    _ => Ok(
                        EvalStateV {
                            vars: assoc_insert(st.vars, stv, None),
                            out: st.out.push(stmt),
                            log: st.log,
                        },
                    ),
                },
            },
            OperationV::Call { function, args } => {
                if function.len() == 0 {
                    Err(EvalError::Unsupported)
                } else if function[0] == "print"@ {
                    if args.len() < 2 {
                        Err(EvalError::Unsupported)
                    } else {
                        match assoc_get(st.vars, args[0]) {
                            Some(Some(_)) => match assoc_get(st.vars, args[1]) {
                                Some(Some(message)) => Ok(
                                    EvalStateV {
                                        vars: st.vars,
                                        out: st.out,
                                        log: st.log.push(message),
                                    },
                                ),
                                _ => Ok(
                                    EvalStateV {
                                        vars: st.vars,
                                        out: st.out.push(stmt),
                                        log: st.log,
                                    },
                                ),
                            },
                            _ => Ok(
                                EvalStateV { vars: st.vars, out: st.out.push(stmt), log: st.log },
                            ),
                        }
                    }
                } else if function[0] == "read_file"@ {
                    match store {
                        Some(stv) => match assoc_get(st.vars, stv) {
                            Some(Some(_)) => Ok(
                                // The driver already performed the read and
                                // bound the result: the call is consumed.
                                EvalStateV { vars: st.vars, out: st.out, log: st.log },
                            ),
                            _ => Ok(
                                EvalStateV {
                                    vars: assoc_insert(st.vars, stv, None),
                                    out: st.out.push(stmt),
                                    log: st.log,
                                },
                            ),
                        },
                        None => Ok(
                            EvalStateV { vars: st.vars, out: st.out.push(stmt), log: st.log },
                        ),
                    }
                } else {
                    match kassoc_get(m.functions, function[0]) {
                        None => Ok(st),
                        Some(fv) => match spec_collect_args(st.vars, args, 0, Seq::empty()) {
                            Err(e) => Err(e),
                            Ok(argvals) => if fuel == 0 {
                                Err(EvalError::OutOfFuel)
                            } else {
                                match spec_run(m, fv, argvals, st.log, (fuel - 1) as nat) {
                                    Err(e) => Err(e),
                                    Ok((res, log2)) => match res {
                                        RunResultV::Concrete(data) => Ok(
                                            EvalStateV {
                                                vars: match store {
                                                    Some(stv) => assoc_insert(
                                                        st.vars,
                                                        stv,
                                                        Some(data),
                                                    ),
                                                    None => st.vars,
                                                },
                                                out: st.out,
                                                log: log2,
                                            },
                                        ),
                                        RunResultV::Partial(bs, vs) => Ok(
                                            EvalStateV {
                                                vars: match store {
                                                    Some(stv) => assoc_insert(st.vars, stv, None),
                                                    None => st.vars,
                                                },
                                                out: st.out.push(
                                                    StatementV::Operation(
                                                        OperationV::PartialCall {
                                                            blocks: bs,
                                                            variables: vs,
                                                        },
                                                        store,
                                                    ),
                                                ),
                                                log: log2,
                                            },
                                        ),
                                        RunResultV::ConditionalPartial {
                                            condition,
                                            then,
                                            els,
                                        } => Ok(
                                            EvalStateV {
                                                vars: match store {
                                                    Some(stv) => assoc_insert(st.vars, stv, None),
                                                    None => st.vars,
                                                },
                                                out: st.out.push(
                                                    StatementV::Operation(
                                                        OperationV::PartialCall {
                                                            blocks: condition.0,
                                                            variables: condition.1,
                                                        },
                                                        store,
                                                    ),
                                                ),
                                                log: log2,
                                            },
                                        ),
                                        _ => Err(EvalError::Unsupported),
                                    },
                                }
                            },
                        },
                    }
                }
            },
            OperationV::Phi { block_to_var } => match store {
                None => Ok(st),
                Some(stv) => match assoc_get(block_to_var, last_block) {
                    None => Err(EvalError::PhiUnexpectedPredecessor { block, last_block }),
                    Some(var_num) => match assoc_get(st.vars, var_num) {
                        None => Err(EvalError::UndefinedVariable(var_num)),
                        Some(v) => Ok(
                            EvalStateV {
                                vars: assoc_insert(st.vars, stv, v),
                                out: st.out,
                                log: st.log,
                            },
                        ),
                    },
                },
            },
            OperationV::CallPointer { .. } => Err(EvalError::Unsupported),
            OperationV::PartialCall { .. } => Err(EvalError::Unsupported),
        },
    }
}

/// The statements of a block from index `i` on, evaluated in order.
pub open spec fn spec_eval_stmts(
    m: ModuleV,
    stmts: Seq<StatementV>,
    i: int,
    st: EvalStateV,
    block: usize,
    last_block: usize,
    fuel: nat,
) -> Result<EvalStateV, EvalError>
    decreases fuel, 1int, stmts.len() - i,
{
    if i < 0 || i >= stmts.len() {
        Ok(st)
    } else {
        match spec_eval_stmt(m, stmts[i], st, block, last_block, fuel) {
            Err(e) => Err(e),
            Ok(st2) => spec_eval_stmts(m, stmts, i + 1, st2, block, last_block, fuel),
        }
    }
}

/// Symbolic execution from `block`, with `last_block` the predecessor that
/// control arrived from: the mirror of `evaluate`. Returns the run result,
/// the final variable state and the final log.
pub open spec fn spec_evaluate(
    m: ModuleV,
    blocks: Seq<BlockV>,
    vars: VarsV,
    log: Seq<Seq<u8>>,
    block: usize,
    last_block: usize,
    fuel: nat,
) -> Result<(RunResultV, VarsV, Seq<Seq<u8>>), EvalError>
    decreases fuel, 2int, 0int,
{
    if block >= blocks.len() {
        Err(EvalError::BlockOutOfRange(block))
    } else {
        let st0 = EvalStateV { vars, out: Seq::empty(), log };
        match spec_eval_stmts(m, blocks[block as int].statements, 0, st0, block, last_block, fuel) {
            Err(e) => Err(e),
            Ok(st) => {
                let term = blocks[block as int].terminal;
                let blocks2 = blocks.update(
                    block as int,
                    BlockV { statements: st.out, terminal: term },
                );
                match term {
                    Terminal::Return(Some(var)) | Terminal::Evaluate(Some(var)) => match assoc_get(
                        st.vars,
                        var,
                    ) {
                        None => Err(EvalError::ReturningUndefined(var)),
                        Some(None) => Ok(
                            (RunResultV::Partial(blocks2, st.vars), st.vars, st.log),
                        ),
                        Some(Some(data)) => if spec_any_unknown(st.vars) {
                            Ok((RunResultV::Partial(blocks2, st.vars), st.vars, st.log))
                        } else {
                            Ok((RunResultV::Concrete(data), st.vars, st.log))
                        },
                    },
                    Terminal::Jump(b) => if fuel == 0 {
                        Err(EvalError::OutOfFuel)
                    } else {
                        spec_evaluate(m, blocks2, st.vars, st.log, b, block, (fuel - 1) as nat)
                    },
                    Terminal::CondJump { cond, then, els } => match assoc_get(st.vars, cond) {
                        None => Err(EvalError::UndefinedVariable(cond)),
                        Some(Some(c)) => {
                            let taken = if spec_truthy(c) {
                                then
                            } else {
                                els
                            };
                            let blocks3 = blocks2.update(
                                block as int,
                                BlockV { statements: st.out, terminal: Terminal::Jump(taken) },
                            );
                            if fuel == 0 {
                                Err(EvalError::OutOfFuel)
                            } else {
                                spec_evaluate(
                                    m,
                                    blocks3,
                                    st.vars,
                                    st.log,
                                    taken,
                                    block,
                                    (fuel - 1) as nat,
                                )
                            }
                        },
                        Some(None) => if fuel == 0 {
                            Err(EvalError::OutOfFuel)
                        } else {
                            match spec_evaluate(
                                m,
                                blocks2,
                                st.vars,
                                st.log,
                                then,
                                0,
                                (fuel - 1) as nat,
                            ) {
                                Err(e) => Err(e),
                                Ok((then_result, _, log3)) => match spec_evaluate(
                                    m,
                                    blocks2,
                                    st.vars,
                                    log3,
                                    els,
                                    0,
                                    (fuel - 1) as nat,
                                ) {
                                    Err(e) => Err(e),
                                    Ok((else_result, _, log4)) => {
                                        let blocks3 = blocks2.update(
                                            block as int,
                                            BlockV {
                                                statements: st.out,
                                                terminal: Terminal::ThenElseJump(cond),
                                            },
                                        );
                                        Ok(
                                            (
                                                RunResultV::ConditionalPartial {
                                                    condition: (blocks3, st.vars),
                                                    then: Box::new(then_result),
                                                    els: Box::new(else_result),
                                                },
                                                st.vars,
                                                log4,
                                            ),
                                        )
                                    },
                                },
                            }
                        },
                    },
                    Terminal::ThenElseJump(var) => match assoc_get(st.vars, var) {
                        Some(Some(v)) => Ok(
                            (RunResultV::ThenElseJump(spec_truthy(v)), st.vars, st.log),
                        ),
                        _ => Err(EvalError::Unsupported),
                    },
                    _ => Err(EvalError::Unsupported),
                }
            },
        }
    }
}

/// A whole-function evaluation: the arguments populate variables `0..n`, and
/// execution starts at block 0. The mirror of `run`.
pub open spec fn spec_run(
    m: ModuleV,
    f: FunctionV,
    args: Seq<Option<Seq<u8>>>,
    log: Seq<Seq<u8>>,
    fuel: nat,
) -> Result<(RunResultV, Seq<Seq<u8>>), EvalError>
    decreases fuel, 3int, 0int,
{
    let vars = spec_init_vars(args, 0, Seq::empty());
    match spec_evaluate(m, f.ir, vars, log, 0, 0, fuel) {
        Err(e) => Err(e),
        Ok((r, _, log2)) => Ok((r, log2)),
    }
}

/// The driver: repeatedly resume a run result against the module until it is
/// concrete. Injects `Some([])` for variable 1 before each re-evaluation, as
/// the startup driver does for the result variable of an entry function with
/// one parameter. The mirror of `run_entire_program`.
pub open spec fn spec_run_entire(m: ModuleV, rv: RunResultV, log: Seq<Seq<u8>>, fuel: nat) -> Result<
    (bool, Seq<Seq<u8>>),
    EvalError,
>
    decreases fuel, rv,
{
    match rv {
        RunResultV::Concrete(_) => Ok((false, log)),
        RunResultV::Partial(blocks, vars) => {
            let vars2 = assoc_insert(vars, 1usize, Some(Seq::<u8>::empty()));
            if fuel == 0 {
                Err(EvalError::OutOfFuel)
            } else {
                match spec_evaluate(m, blocks, vars2, log, 0, 0, (fuel - 1) as nat) {
                    Err(e) => Err(e),
                    Ok((r2, _, log2)) => spec_run_entire(m, r2, log2, (fuel - 1) as nat),
                }
            }
        },
        RunResultV::ConditionalPartial { condition, then, els } => {
            let vars2 = assoc_insert(condition.1, 1usize, Some(Seq::<u8>::empty()));
            if fuel == 0 {
                Err(EvalError::OutOfFuel)
            } else {
                match spec_evaluate(m, condition.0, vars2, log, 0, 0, (fuel - 1) as nat) {
                    Err(e) => Err(e),
                    Ok((r2, _, log2)) => match spec_run_entire(m, r2, log2, (fuel - 1) as nat) {
                        Err(e) => Err(e),
                        Ok((b, log3)) => if b {
                            spec_run_entire(m, *then, log3, fuel)
                        } else {
                            spec_run_entire(m, *els, log3, fuel)
                        },
                    },
                }
            }
        },
        RunResultV::ThenElseJump(b) => Ok((b, log)),
    }
}

/// Whether some variable in the map is still unknown.
fn any_unknown(vars: &VarMap<Option<Vec<u8>>>) -> (r: bool)
    ensures
        r == spec_any_unknown(vars_map_view(vars.entries@)),
{
    broadcast use lemma_vars_map_view;

    let n = vars.entries.len();
    let mut i: usize = 0;
    while i < n
        invariant
            n == vars.entries@.len(),
            i <= n,
            forall|j: int| 0 <= j < i ==> !((#[trigger] vars.entries@[j]).1 is None),
        decreases n - i,
    {
        if vars.entries[i].1.is_none() {
            proof {
                lemma_vars_map_view(vars.entries@);
                assert(vars_map_view(vars.entries@)[i as int].1 is None);
            }
            return true;
        }
        i += 1;
    }
    proof {
        assert forall|j: int| 0 <= j < vars_map_view(vars.entries@).len() implies !((
        #[trigger] vars_map_view(vars.entries@)[j]).1 is None) by {
            assert(vars_map_view(vars.entries@)[j] == (
                vars.entries@[j].0,
                crate::ir::opt_bytes_view(vars.entries@[j].1),
            ));
        }
    }
    false
}


/// Reads the values of the argument variables, in order; the first absent
/// variable id is an invariant violation.
fn collect_args(vars: &VarMap<Option<Vec<u8>>>, args: &Vec<usize>) -> (r: Result<
    Vec<Option<Vec<u8>>>,
    EvalError,
>)
    ensures
        ({
            let sr = spec_collect_args(vars_map_view(vars.entries@), args@, 0, Seq::empty());
            match r {
                Ok(vals) => sr matches Ok(vs) && vs == crate::ir::opt_byte_seqs_view(vals@),
                Err(e) => sr matches Err(e2) && e2 == e,
            }
        }),
{
    broadcast use lemma_vars_map_view, crate::ir::lemma_opt_byte_seqs_view;

    let ghost varsv = vars_map_view(vars.entries@);
    let mut argvals: Vec<Option<Vec<u8>>> = Vec::new();
    let nargs = args.len();
    let mut i: usize = 0;
    proof {
        assert(crate::ir::opt_byte_seqs_view(argvals@) =~= Seq::<Option<Seq<u8>>>::empty());
    }
    while i < nargs
        invariant
            nargs == args@.len(),
            i <= nargs,
            varsv == vars_map_view(vars.entries@),
            spec_collect_args(varsv, args@, 0, Seq::empty()) == spec_collect_args(
                varsv,
                args@,
                i as int,
                crate::ir::opt_byte_seqs_view(argvals@),
            ),
        decreases nargs - i,
    {
        broadcast use lemma_vars_map_view, crate::ir::lemma_opt_byte_seqs_view;

        proof {
            lemma_vars_get_bridge(vars.entries@, args@[i as int]);
        }
        match vars.get(args[i]) {
            None => {
                return Err(EvalError::UndefinedVariable(args[i]));
            },
            Some(v) => {
                let copied = copy_opt_bytes(v);
                let ghost before = crate::ir::opt_byte_seqs_view(argvals@);
                let ghost copiedv = crate::ir::opt_bytes_view(copied);
                argvals.push(copied);
                proof {
                    assert(crate::ir::opt_byte_seqs_view(argvals@) =~= before.push(copiedv));
                }
            },
        }
        i += 1;
    }
    Ok(argvals)
}

/// Evaluates one statement: known inputs produce values or log output,
/// unknown inputs leave the statement in the residual list `out`.
#[verifier::rlimit(50)]
fn eval_stmt(
    module: &Module,
    stmt: &Statement,
    vars: &mut VarMap<Option<Vec<u8>>>,
    out: &mut Vec<Statement>,
    log: &mut Vec<Vec<u8>>,
    block: usize,
    last_block: usize,
    fuel: u64,
) -> (r: Result<(), EvalError>)
    ensures
        ({
            let pre = EvalStateV {
                vars: vars_map_view(old(vars).entries@),
                out: statements_view(old(out)@),
                log: byte_seqs_view(old(log)@),
            };
            let sr = spec_eval_stmt(
                module_view(*module),
                statement_view(*stmt),
                pre,
                block,
                last_block,
                fuel as nat,
            );
            match r {
                Ok(_) => sr matches Ok(st2) && st2.vars == vars_map_view(final(vars).entries@)
                    && st2.out == statements_view(final(out)@) && st2.log == byte_seqs_view(
                    final(log)@,
                ),
                Err(e) => sr matches Err(e2) && e2 == e,
            }
        }),
    decreases fuel, 0int, 0int,
{
    broadcast use
        lemma_vars_map_view,
        lemma_statements_view,
        lemma_byte_seqs_view,
        crate::ir::lemma_names_view,
        crate::ir::lemma_opt_byte_seqs_view;

    proof {
        reveal_strlit("print");
    }
    let ghost pre = EvalStateV {
        vars: vars_map_view(vars.entries@),
        out: statements_view(out@),
        log: byte_seqs_view(log@),
    };
    match stmt {
        Statement::Operation(op, store) => match op {
            Operation::LoadGlobal { src } => {
                if let Some(st) = store {
                    if *src >= module.constants.len() {
                        return Err(EvalError::ConstantOutOfRange(*src));
                    }
                    let value = copy_bytes(&module.constants[*src]);
                    proof {
                        lemma_vars_insert_bridge(vars.entries@, *st, Some(value));
                    }
                    vars.insert(*st, Some(value));
                }
                Ok(())
            },
            Operation::LoadLocal { src } => {
                if let Some(st) = store {
                    proof {
                        lemma_vars_get_bridge(vars.entries@, *src);
                    }
                    let known = match vars.get(*src) {
                        Some(Some(_)) => true,
                        _ => false,
                    };
                    if known {
                        let data = match vars.get(*src) {
                            Some(Some(d)) => copy_bytes(d),
                            _ => Vec::new(),
                        };
                        proof {
                            lemma_vars_insert_bridge(vars.entries@, *st, Some(data));
                        }
                        vars.insert(*st, Some(data));
                    } else {
                        let copied = crate::ir::copy_statement(stmt);
                        out.push(copied);
                        proof {
                            lemma_vars_insert_bridge(vars.entries@, *st, None);
                            assert(statements_view(out@) =~= pre.out.push(statement_view(*stmt)));
                        }
                        vars.insert(*st, None);
                    }
                }
                Ok(())
            },
            Operation::Call { function, args } => {
                if function.len() == 0 {
                    return Err(EvalError::Unsupported);
                }
                if str_eq(function[0].as_str(), "print") {
                    if args.len() < 2 {
                        return Err(EvalError::Unsupported);
                    }
                    proof {
                        lemma_vars_get_bridge(vars.entries@, args@[0]);
                        lemma_vars_get_bridge(vars.entries@, args@[1]);
                    }
                    let io_known = match vars.get(args[0]) {
                        Some(Some(_)) => true,
                        _ => false,
                    };
                    if io_known {
                        let msg_known = match vars.get(args[1]) {
                            Some(Some(_)) => true,
                            _ => false,
                        };
                        if msg_known {
                            let message = match vars.get(args[1]) {
                                Some(Some(m)) => copy_bytes(m),
                                _ => Vec::new(),
                            };
                            let ghost msgv = message@;
                            log.push(message);
                            proof {
                                assert(byte_seqs_view(log@) =~= pre.log.push(msgv));
                            }
                            return Ok(());
                        }
                    }
                    let copied = crate::ir::copy_statement(stmt);
                    out.push(copied);
                    proof {
                        assert(statements_view(out@) =~= pre.out.push(statement_view(*stmt)));
                    }
                    return Ok(());
                }
                proof {
                    reveal_strlit("read_file");
                }
                if str_eq(function[0].as_str(), "read_file") {
                    // The evaluator cannot perform outside reads itself: the
                    // call is preserved in the residual with its result
                    // marked unknown, and consumed once the driver binds
                    // the result.
                    if let Some(st) = store {
                        proof {
                            lemma_vars_get_bridge(vars.entries@, *st);
                        }
                        let already = match vars.get(*st) {
                            Some(Some(_)) => true,
                            _ => false,
                        };
                        if already {
                            return Ok(());
                        }
                        let copied = crate::ir::copy_statement(stmt);
                        out.push(copied);
                        proof {
                            lemma_vars_insert_bridge(vars.entries@, *st, None);
                            assert(statements_view(out@) =~= pre.out.push(statement_view(*stmt)));
                        }
                        vars.insert(*st, None);
                        return Ok(());
                    }
                    let copied = crate::ir::copy_statement(stmt);
                    out.push(copied);
                    proof {
                        assert(statements_view(out@) =~= pre.out.push(statement_view(*stmt)));
                    }
                    return Ok(());
                }
                proof {
                    lemma_functions_get_bridge(module.functions.entries@, function@[0]@);
                }
                let found = match module.functions.get(&function[0]) {
                    Some(_) => true,
                    None => false,
                };
                if !found {
                    return Ok(());
                }
                let argvals = match collect_args(vars, args) {
                    Ok(vals) => vals,
                    Err(e) => {
                        return Err(e);
                    },
                };
                if fuel == 0 {
                    return Err(EvalError::OutOfFuel);
                }
                let fun = match module.functions.get(&function[0]) {
                    Some(f) => crate::ir::copy_function(f),
                    None => {
                        return Err(EvalError::Unsupported);
                    },
                };
                let sub = run(module, fun, argvals, log, fuel - 1);
                match sub {
                    Err(e) => Err(e),
                    Ok(RunResult::Concrete(data)) => {
                        if let Some(st) = store {
                            proof {
                                lemma_vars_insert_bridge(vars.entries@, *st, Some(data));
                            }
                            vars.insert(*st, Some(data));
                        }
                        Ok(())
                    },
                    Ok(RunResult::Partial(bs, vs)) => {
                        if let Some(st) = store {
                            proof {
                                lemma_vars_insert_bridge(vars.entries@, *st, None);
                            }
                            vars.insert(*st, None);
                        }
                        let ghost outv = statements_view(out@);
                        let residual = Statement::Operation(
                            Operation::PartialCall { blocks: bs, variables: vs },
                            *store,
                        );
                        let ghost resv = statement_view(residual);
                        out.push(residual);
                        proof {
                            assert(statements_view(out@) =~= outv.push(resv));
                        }
                        Ok(())
                    },
                    Ok(RunResult::ConditionalPartial { condition, then: _, els: _ }) => {
                        // A forked callee is residualized from its approach
                        // blocks and variable state.
                        if let Some(st) = store {
                            proof {
                                lemma_vars_insert_bridge(vars.entries@, *st, None);
                            }
                            vars.insert(*st, None);
                        }
                        let ghost outv = statements_view(out@);
                        let residual = Statement::Operation(
                            Operation::PartialCall { blocks: condition.0, variables: condition.1 },
                            *store,
                        );
                        let ghost resv = statement_view(residual);
                        out.push(residual);
                        proof {
                            assert(statements_view(out@) =~= outv.push(resv));
                        }
                        Ok(())
                    },
                    Ok(_) => Err(EvalError::Unsupported),
                }
            },
            Operation::Phi { block_to_var } => {
                if let Some(st) = store {
                    match block_to_var.get(last_block) {
                        None => Err(
                            EvalError::PhiUnexpectedPredecessor { block, last_block },
                        ),
                        Some(var_num) => {
                            proof {
                                lemma_vars_get_bridge(vars.entries@, *var_num);
                            }
                            match vars.get(*var_num) {
                                None => Err(EvalError::UndefinedVariable(*var_num)),
                                Some(v) => {
                                    let copied = copy_opt_bytes(v);
                                    proof {
                                        lemma_vars_insert_bridge(vars.entries@, *st, copied);
                                    }
                                    vars.insert(*st, copied);
                                    Ok(())
                                },
                            }
                        },
                    }
                } else {
                    Ok(())
                }
            },
            Operation::CallPointer { .. } => Err(EvalError::Unsupported),
            Operation::PartialCall { .. } => Err(EvalError::Unsupported),
        },
    }
}

/// Symbolic execution from `block` onward, with `last_block` the predecessor
/// control arrived from: exactly the mirror `spec_evaluate`, with errors and
/// fuel exhaustion reported instead of aborting.
#[verifier::rlimit(100)]
#[verifier::loop_isolation(false)]
fn evaluate_from(
    module: &Module,
    blocks: Vec<Block>,
    vars: &mut VarMap<Option<Vec<u8>>>,
    block: usize,
    last_block: usize,
    log: &mut Vec<Vec<u8>>,
    fuel: u64,
) -> (r: Result<RunResult, EvalError>)
    ensures
        ({
            let sr = spec_evaluate(
                module_view(*module),
                blocks_view(blocks@),
                vars_map_view(old(vars).entries@),
                byte_seqs_view(old(log)@),
                block,
                last_block,
                fuel as nat,
            );
            match r {
                Ok(res) => sr matches Ok(t) && run_result_view(res) == t.0 && vars_map_view(
                    final(vars).entries@,
                ) == t.1 && byte_seqs_view(final(log)@) == t.2,
                Err(e) => sr matches Err(e2) && e2 == e,
            }
        }),
    decreases fuel, 2int, 0int,
{
    broadcast use
        lemma_vars_map_view,
        lemma_statements_view,
        lemma_byte_seqs_view,
        lemma_blocks_view;

    let ghost m = module_view(*module);
    let ghost blocksv0 = blocks_view(blocks@);
    let ghost vars0 = vars_map_view(vars.entries@);
    let ghost log0 = byte_seqs_view(log@);
    let mut blocks = blocks;
    if block >= blocks.len() {
        return Err(EvalError::BlockOutOfRange(block));
    }
    let ghost st0 = EvalStateV { vars: vars0, out: Seq::empty(), log: log0 };
    let ghost stmtsv = blocksv0[block as int].statements;
    let mut out: Vec<Statement> = Vec::new();
    let nstmts = blocks[block].statements.len();
    let mut i: usize = 0;
    proof {
        assert(statements_view(out@) =~= Seq::<StatementV>::empty());
        assert(stmtsv == statements_view(blocks@[block as int].statements@));
    }
    while i < nstmts
        invariant
            block < blocks@.len(),
            blocks_view(blocks@) == blocksv0,
            nstmts == blocks@[block as int].statements@.len(),
            stmtsv == statements_view(blocks@[block as int].statements@),
            stmtsv.len() == nstmts,
            i <= nstmts,
            spec_eval_stmts(
                module_view(*module),
                stmtsv,
                0,
                EvalStateV { vars: vars0, out: Seq::empty(), log: log0 },
                block,
                last_block,
                fuel as nat,
            ) == spec_eval_stmts(
                module_view(*module),
                stmtsv,
                i as int,
                EvalStateV {
                    vars: vars_map_view(vars.entries@),
                    out: statements_view(out@),
                    log: byte_seqs_view(log@),
                },
                block,
                last_block,
                fuel as nat,
            ),
        decreases nstmts - i,
    {
        broadcast use lemma_vars_map_view, lemma_statements_view, lemma_byte_seqs_view,
            lemma_blocks_view;

        proof {
            assert(stmtsv[i as int] == statement_view(blocks@[block as int].statements@[i as int]));
        }
        let step = eval_stmt(
            module,
            &blocks[block].statements[i],
            vars,
            &mut out,
            log,
            block,
            last_block,
            fuel,
        );
        match step {
            Err(e) => {
                proof {
                    lemma_blocks_view(blocks@);
                    assert(spec_eval_stmts(
                        module_view(*module),
                        stmtsv,
                        0,
                        EvalStateV { vars: vars0, out: Seq::empty(), log: log0 },
                        block,
                        last_block,
                        fuel as nat,
                    ) matches Err(e2) && e2 == e);
                    assert(blocks_view(blocks@)[block as int] == crate::ir::block_view(
                        blocks@[block as int],
                    ));
                    assert(blocks_view(blocks@)[block as int].statements == stmtsv);
                    assert(spec_evaluate(
                        module_view(*module),
                        blocksv0,
                        vars0,
                        log0,
                        block,
                        last_block,
                        fuel as nat,
                    ) matches Err(e2) && e2 == e);
                }
                return Err(e);
            },
            Ok(_) => {},
        }
        i += 1;
    }
    let ghost stf = EvalStateV {
        vars: vars_map_view(vars.entries@),
        out: statements_view(out@),
        log: byte_seqs_view(log@),
    };
    proof {
        assert(spec_eval_stmts(
            module_view(*module),
            stmtsv,
            0,
            st0,
            block,
            last_block,
            fuel as nat,
        ) == Ok::<EvalStateV, EvalError>(stf));
    }
    let term = blocks[block].terminal;
    let ghost blocks2 = blocksv0.update(
        block as int,
        BlockV { statements: stf.out, terminal: term },
    );
    match term {
        Terminal::Return(Some(var)) | Terminal::Evaluate(Some(var)) => {
            blocks[block] = Block { statements: out, terminal: term };
            proof {
                assert(blocks_view(blocks@) =~= blocks2);
                lemma_vars_get_bridge(vars.entries@, var);
            }
            let state: u8 = match vars.get(var) {
                None => 0,
                Some(None) => 1,
                Some(Some(_)) => 2,
            };
            if state == 0 {
                Err(EvalError::ReturningUndefined(var))
            } else if state == 1 {
                let vcopy = copy_vars(vars);
                Ok(RunResult::Partial(blocks, vcopy))
            } else {
                if any_unknown(vars) {
                    let vcopy = copy_vars(vars);
                    Ok(RunResult::Partial(blocks, vcopy))
                } else {
                    let data = match vars.get(var) {
                        Some(Some(d)) => copy_bytes(d),
                        _ => Vec::new(),
                    };
                    Ok(RunResult::Concrete(data))
                }
            }
        },
        Terminal::Jump(b) => {
            blocks[block] = Block { statements: out, terminal: term };
            proof {
                assert(blocks_view(blocks@) =~= blocks2);
            }
            if fuel == 0 {
                return Err(EvalError::OutOfFuel);
            }
            evaluate_from(module, blocks, vars, b, block, log, fuel - 1)
        },
        Terminal::CondJump { cond, then, els } => {
            proof {
                lemma_vars_get_bridge(vars.entries@, cond);
            }
            let state: u8 = match vars.get(cond) {
                None => 0,
                Some(None) => 1,
                Some(Some(_)) => 2,
            };
            if state == 0 {
                Err(EvalError::UndefinedVariable(cond))
            } else if state == 2 {
                let c = match vars.get(cond) {
                    Some(Some(d)) => copy_bytes(d),
                    _ => Vec::new(),
                };
                let taken = if truthy(&c) {
                    then
                } else {
                    els
                };
                blocks[block] = Block { statements: out, terminal: Terminal::Jump(taken) };
                proof {
                    assert(blocks_view(blocks@) =~= blocks2.update(
                        block as int,
                        BlockV { statements: stf.out, terminal: Terminal::Jump(taken) },
                    ));
                }
                if fuel == 0 {
                    return Err(EvalError::OutOfFuel);
                }
                evaluate_from(module, blocks, vars, taken, block, log, fuel - 1)
            } else {
                blocks[block] = Block { statements: out, terminal: term };
                proof {
                    assert(blocks_view(blocks@) =~= blocks2);
                }
                if fuel == 0 {
                    return Err(EvalError::OutOfFuel);
                }
                let mut then_vars = copy_vars(vars);
                let bcopy1 = copy_blocks(&blocks);
                let then_result = match evaluate_from(
                    module,
                    bcopy1,
                    &mut then_vars,
                    then,
                    0,
                    log,
                    fuel - 1,
                ) {
                    Ok(tr) => tr,
                    Err(e) => {
                        return Err(e);
                    },
                };
                let mut else_vars = copy_vars(vars);
                let bcopy2 = copy_blocks(&blocks);
                let else_result = match evaluate_from(
                    module,
                    bcopy2,
                    &mut else_vars,
                    els,
                    0,
                    log,
                    fuel - 1,
                ) {
                    Ok(er) => er,
                    Err(e) => {
                        return Err(e);
                    },
                };
                let rewritten = copy_block(&blocks[block]);
                blocks[block] = Block {
                    statements: rewritten.statements,
                    terminal: Terminal::ThenElseJump(cond),
                };
                proof {
                    assert(blocks_view(blocks@) =~= blocks2.update(
                        block as int,
                        BlockV { statements: stf.out, terminal: Terminal::ThenElseJump(cond) },
                    ));
                }
                let vcopy = copy_vars(vars);
                Ok(
                    RunResult::ConditionalPartial {
                        condition: (blocks, vcopy),
                        then: Box::new(then_result),
                        els: Box::new(else_result),
                    },
                )
            }
        },
        Terminal::ThenElseJump(var) => {
            blocks[block] = Block { statements: out, terminal: term };
            proof {
                lemma_vars_get_bridge(vars.entries@, var);
            }
            let state: u8 = match vars.get(var) {
                Some(Some(_)) => 2,
                _ => 0,
            };
            if state == 2 {
                let v = match vars.get(var) {
                    Some(Some(d)) => copy_bytes(d),
                    _ => Vec::new(),
                };
                Ok(RunResult::ThenElseJump(truthy(&v)))
            } else {
                Err(EvalError::Unsupported)
            }
        },
        _ => Err(EvalError::Unsupported),
    }
}

/// Symbolic execution of a block list from `start_block`, mutating the
/// variable state and appending printed messages to `log`; the predecessor
/// block starts as 0.
pub fn evaluate(
    module: &Module,
    blocks: Vec<Block>,
    vars: &mut VarMap<Option<Vec<u8>>>,
    start_block: usize,
    log: &mut Vec<Vec<u8>>,
    fuel: u64,
) -> (r: Result<RunResult, EvalError>)
    ensures
        ({
            let sr = spec_evaluate(
                module_view(*module),
                blocks_view(blocks@),
                vars_map_view(old(vars).entries@),
                byte_seqs_view(old(log)@),
                start_block,
                0,
                fuel as nat,
            );
            match r {
                Ok(res) => sr matches Ok(t) && run_result_view(res) == t.0 && vars_map_view(
                    final(vars).entries@,
                ) == t.1 && byte_seqs_view(final(log)@) == t.2,
                Err(e) => sr matches Err(e2) && e2 == e,
            }
        }),
{
    evaluate_from(module, blocks, vars, start_block, 0, log, fuel)
}

/// A whole-function evaluation: argument `i` becomes variable `i`, execution
/// starts at block 0, and printed messages are appended to `log`.
pub fn run(
    module: &Module,
    function: Function,
    args: Vec<Option<Vec<u8>>>,
    log: &mut Vec<Vec<u8>>,
    fuel: u64,
) -> (r: Result<RunResult, EvalError>)
    ensures
        ({
            let sr = spec_run(
                module_view(*module),
                crate::ir::function_view(function),
                crate::ir::opt_byte_seqs_view(args@),
                byte_seqs_view(old(log)@),
                fuel as nat,
            );
            match r {
                Ok(res) => sr matches Ok(t) && run_result_view(res) == t.0 && byte_seqs_view(
                    final(log)@,
                ) == t.1,
                Err(e) => sr matches Err(e2) && e2 == e,
            }
        }),
    decreases fuel, 3int, 0int,
{
    broadcast use lemma_vars_map_view, crate::ir::lemma_opt_byte_seqs_view;

    let ghost argsv = crate::ir::opt_byte_seqs_view(args@);
    let mut vars: VarMap<Option<Vec<u8>>> = VarMap::new();
    let n = args.len();
    let mut i: usize = 0;
    proof {
        assert(vars_map_view(vars.entries@) =~= Seq::<(usize, Option<Seq<u8>>)>::empty());
    }
    while i < n
        invariant
            n == args@.len(),
            argsv == crate::ir::opt_byte_seqs_view(args@),
            argsv.len() == n,
            i <= n,
            spec_init_vars(argsv, 0, Seq::empty()) == spec_init_vars(
                argsv,
                i as int,
                vars_map_view(vars.entries@),
            ),
        decreases n - i,
    {
        broadcast use lemma_vars_map_view, crate::ir::lemma_opt_byte_seqs_view;

        let value = copy_opt_bytes(&args[i]);
        proof {
            lemma_vars_insert_bridge(vars.entries@, i, value);
        }
        vars.insert(i, value);
        i += 1;
    }
    let ghost fv = crate::ir::function_view(function);
    let ir = function.ir;
    proof {
        assert(fv.ir == blocks_view(ir@));
    }
    evaluate_from(module, ir, &mut vars, 0, 0, log, fuel)
}

/// The driver: repeatedly resumes a run result until it is concrete,
/// injecting `Some([])` for variable 1 before each re-evaluation (the result
/// variable of an entry function with one parameter). Returns the branch
/// flag of a resolved `ThenElseJump`, or `false` for a completed run.
pub fn run_entire_program(
    module: &Module,
    eval: RunResult,
    log: &mut Vec<Vec<u8>>,
    fuel: u64,
) -> (r: Result<bool, EvalError>)
    ensures
        ({
            let sr = spec_run_entire(
                module_view(*module),
                run_result_view(eval),
                byte_seqs_view(old(log)@),
                fuel as nat,
            );
            match r {
                Ok(b) => sr matches Ok(t) && t.0 == b && byte_seqs_view(final(log)@) == t.1,
                Err(e) => sr matches Err(e2) && e2 == e,
            }
        }),
    decreases fuel, eval,
{
    broadcast use lemma_vars_map_view, lemma_byte_seqs_view;

    match eval {
        RunResult::Concrete(_) => Ok(false),
        RunResult::Partial(blocks, vars) => {
            let mut vars = vars;
            let empty: Vec<u8> = Vec::new();
            proof {
                lemma_vars_insert_bridge(vars.entries@, 1usize, Some(empty));
            }
            vars.insert(1, Some(empty));
            if fuel == 0 {
                return Err(EvalError::OutOfFuel);
            }
            let r2 = match evaluate(module, blocks, &mut vars, 0, log, fuel - 1) {
                Ok(r2) => r2,
                Err(e) => {
                    return Err(e);
                },
            };
            run_entire_program(module, r2, log, fuel - 1)
        },
        RunResult::ConditionalPartial { condition, then, els } => {
            let (cond_blocks, mut cond_vars) = condition;
            let empty: Vec<u8> = Vec::new();
            proof {
                lemma_vars_insert_bridge(cond_vars.entries@, 1usize, Some(empty));
            }
            cond_vars.insert(1, Some(empty));
            if fuel == 0 {
                return Err(EvalError::OutOfFuel);
            }
            let r2 = match evaluate(module, cond_blocks, &mut cond_vars, 0, log, fuel - 1) {
                Ok(r2) => r2,
                Err(e) => {
                    return Err(e);
                },
            };
            let b = match run_entire_program(module, r2, log, fuel - 1) {
                Ok(b) => b,
                Err(e) => {
                    return Err(e);
                },
            };
            if b {
                run_entire_program(module, *then, log, fuel)
            } else {
                run_entire_program(module, *els, log, fuel)
            }
        },
        RunResult::ThenElseJump(b) => Ok(b),
    }
}

/// Evaluator determinism: a run is a function of the views of the module,
/// the function, the argument values, the log and the fuel. Two runs over
/// structurally equal inputs produce structurally equal results and logs.
pub proof fn lemma_run_deterministic(
    m1: ModuleV,
    m2: ModuleV,
    f1: FunctionV,
    f2: FunctionV,
    a1: Seq<Option<Seq<u8>>>,
    a2: Seq<Option<Seq<u8>>>,
    l1: Seq<Seq<u8>>,
    l2: Seq<Seq<u8>>,
    fuel: nat,
)
    requires
        m1 == m2,
        f1 == f2,
        a1 == a2,
        l1 == l2,
    ensures
        spec_run(m1, f1, a1, l1, fuel) == spec_run(m2, f2, a2, l2, fuel),
{
}

/// The truthy rule for conditional jumps: when the condition variable holds
/// known bytes `c` at a block with no remaining statements, evaluation
/// rewrites the terminator to a jump and continues in the `then` block
/// exactly when `c` has more than one byte and a nonzero first byte, and in
/// the `els` block otherwise.
pub proof fn lemma_cond_jump_takes_truthy_branch(
    m: ModuleV,
    blocks: Seq<BlockV>,
    vars: VarsV,
    log: Seq<Seq<u8>>,
    block: usize,
    last_block: usize,
    fuel: nat,
    cond: usize,
    then_target: usize,
    els_target: usize,
    c: Seq<u8>,
)
    requires
        block < blocks.len(),
        blocks[block as int].statements.len() == 0,
        blocks[block as int].terminal == (Terminal::CondJump {
            cond,
            then: then_target,
            els: els_target,
        }),
        assoc_get(vars, cond) == Some(Some(c)),
        fuel > 0,
    ensures
        ({
            let taken = if spec_truthy(c) {
                then_target
            } else {
                els_target
            };
            spec_evaluate(m, blocks, vars, log, block, last_block, fuel) == spec_evaluate(
                m,
                blocks.update(
                    block as int,
                    BlockV { statements: Seq::empty(), terminal: Terminal::Jump(taken) },
                ),
                vars,
                log,
                taken,
                block,
                (fuel - 1) as nat,
            )
        }),
{
    let st0 = EvalStateV { vars, out: Seq::empty(), log };
    assert(spec_eval_stmts(m, blocks[block as int].statements, 0, st0, block, last_block, fuel)
        == Ok::<EvalStateV, EvalError>(st0));
    let term = blocks[block as int].terminal;
    let blocks2 = blocks.update(block as int, BlockV { statements: Seq::empty(), terminal: term });
    let taken = if spec_truthy(c) {
        then_target
    } else {
        els_target
    };
    let blocks3 = blocks2.update(
        block as int,
        BlockV { statements: Seq::empty(), terminal: Terminal::Jump(taken) },
    );
    assert(blocks3 =~= blocks.update(
        block as int,
        BlockV { statements: Seq::empty(), terminal: Terminal::Jump(taken) },
    ));
}


} // verus!
