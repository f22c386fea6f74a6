//! The module parser: it reads `fn name(arg: Type, ...) : ReturnType body`
//! items, lowers each body to IR, and collects the functions of a module.
//!
//! The built-in `print` is seeded into the declaration scope so that bodies
//! can call it. Where the original machine aborted on truncated input, a
//! parse error is reported instead.

use vstd::prelude::*;

use crate::expression_parser::{
    info_expr_view, info_parse_error_view, parse_expression, spec_parse_expression, InfoExpr,
    InfoExprV, InfoParseError, InfoParseErrorV, ParseError,
};
use crate::ir::{Block, Declaration, Function, IRErrorInfo, Module, Terminal};
use crate::maps::{NameMap, VarMap};
use crate::tokeniser::{info_token_view, lemma_tokens_view, tokens_view, InfoToken, InfoTokenV,
    Keyword, Operator, Token, TokenV};
use crate::typ::{copy_signature, copy_type, get_type, Signature, Type};

verus! {

/// A failure while reading a module: a parse error or a lowering error.
#[derive(Debug)]
pub enum ModuleError {
    Parse(InfoParseError),
    Lower(IRErrorInfo),
}

/// The tokens collected up to the next semicolon: the collected list, the
/// position after the semicolon, and whether one was found.
pub open spec fn spec_collect_until_semi(ts: Seq<InfoTokenV>, i: int, acc: Seq<InfoTokenV>) -> (
    Seq<InfoTokenV>,
    int,
    bool,
)
    decreases ts.len() - i,
{
    if i < 0 || i >= ts.len() {
        (acc, i, false)
    } else if ts[i].token is Semicolon {
        (acc, i + 1, true)
    } else {
        spec_collect_until_semi(ts, i + 1, acc.push(ts[i]))
    }
}

/// What `expect_block_or_expr` yields: a single block token is parsed on its
/// own; otherwise the tokens up to the next semicolon are parsed. Running
/// out of input without a semicolon is an expression error at index 0.
pub open spec fn spec_expect_block_or_expr(ts: Seq<InfoTokenV>, i: int) -> (
    Result<InfoExprV, InfoParseErrorV>,
    int,
) {
    if 0 <= i < ts.len() && ts[i].token is Block {
        (spec_parse_expression(ts.subrange(i, i + 1)), i + 1)
    } else {
        let cr = spec_collect_until_semi(ts, i, Seq::empty());
        if cr.2 {
            (spec_parse_expression(cr.0), cr.1)
        } else {
            (
                Err(
                    InfoParseErrorV {
                        idx: 0,
                        error: crate::expression_parser::ParseErrorV::ExpectedExpression(cr.0),
                    },
                ),
                cr.1,
            )
        }
    }
}

/// Reads one function body: either a single brace block, or the tokens up
/// to the next semicolon, parsed as an expression.
#[verifier::loop_isolation(false)]
pub fn expect_block_or_expr(tokens: &[InfoToken], i: &mut usize) -> (r: Result<
    InfoExpr,
    InfoParseError,
>)
    ensures
        *old(i) <= *final(i),
        *old(i) <= tokens@.len() ==> *final(i) <= tokens@.len(),
        ({
            let sr = spec_expect_block_or_expr(tokens_view(tokens@), *old(i) as int);
            &&& *final(i) == sr.1
            &&& match r {
                Ok(e) => sr.0 matches Ok(ev) && ev == info_expr_view(e),
                Err(e) => sr.0 matches Err(ev) && ev == info_parse_error_view(e),
            }
        }),
{
    broadcast use lemma_tokens_view;

    let ghost tv = tokens_view(tokens@);
    let n = tokens.len();
    let is_block = *i < n && match &tokens[*i].token {
        Token::Block(_) => true,
        _ => false,
    };
    if is_block {
        *i += 1;
        let single = crate::expression_parser::copy_tokens_range(tokens, *i - 1, *i);
        return parse_expression(single.as_slice());
    }
    let mut out: Vec<InfoToken> = Vec::new();
    proof {
        assert(tokens_view(out@) =~= Seq::<InfoTokenV>::empty());
    }
    if *i >= n {
        return Err(InfoParseError { idx: 0, error: ParseError::ExpectedExpression(out) });
    }
    loop
        invariant
            *old(i) <= *i <= n,
            n == tokens@.len(),
            spec_collect_until_semi(tv, *old(i) as int, Seq::empty()) == spec_collect_until_semi(
                tv,
                *i as int,
                tokens_view(out@),
            ),
        decreases n - *i,
    {
        if *i >= n {
            return Err(
                InfoParseError { idx: 0, error: ParseError::ExpectedExpression(out) },
            );
        }
        let t = &tokens[*i];
        let is_semi = match &t.token {
            Token::Semicolon => true,
            _ => false,
        };
        if is_semi {
            *i += 1;
            break ;
        }
        let ghost before = tokens_view(out@);
        let copied = InfoToken { token: crate::tokeniser::copy_token(&t.token), idx: t.idx };
        let ghost cv = info_token_view(copied);
        out.push(copied);
        proof {
            assert(cv == tv[*i - 1 + 1]);
            assert(tokens_view(out@) =~= before.push(tv[*i as int]));
        }
        *i += 1;
    }
    parse_expression(out.as_slice())
}


/// The mathematical view of a `ModuleError`.
pub enum ModuleErrorV {
    Parse(InfoParseErrorV),
    Lower(crate::ir::IRErrorInfoV),
}

pub open spec fn module_error_view(e: ModuleError) -> ModuleErrorV {
    match e {
        ModuleError::Parse(p) => ModuleErrorV::Parse(info_parse_error_view(p)),
        ModuleError::Lower(l) => ModuleErrorV::Lower(crate::ir::ir_error_info_view(l)),
    }
}

/// The declaration the built-in `print` is seeded with: the capability
/// token and a byte slice, returning unit.
pub open spec fn spec_print_decl() -> crate::ir::DeclarationV {
    crate::ir::DeclarationV::Function(
        crate::typ::SignatureV {
            args: seq![crate::typ::TypeV::IO, crate::typ::string_slice_view()],
            returns: Box::new(crate::typ::unit_type_view()),
        },
    )
}

/// The parameter names and types read from the call operator's groups: a
/// group shaped `name : type...` contributes one parameter; other groups
/// are skipped; the first bad type name is the error.
pub open spec fn spec_parse_arg_groups(
    groups: Seq<Seq<InfoTokenV>>,
    g: int,
    names: Seq<Seq<char>>,
    types: Seq<crate::typ::TypeV>,
) -> Result<(Seq<Seq<char>>, Seq<crate::typ::TypeV>), InfoParseErrorV>
    decreases groups.len() - g,
{
    if g < 0 || g >= groups.len() {
        Ok((names, types))
    } else {
        let grp = groups[g];
        if grp.len() >= 3 && grp[0].token is Name && grp[1].token is Colon {
            match crate::typ::spec_get_type(grp.subrange(2, grp.len() as int), 0) {
                Err(e) => Err(e),
                Ok(tv) => spec_parse_arg_groups(
                    groups,
                    g + 1,
                    names.push(grp[0].token->Name_0),
                    types.push(tv),
                ),
            }
        } else {
            spec_parse_arg_groups(groups, g + 1, names, types)
        }
    }
}

/// The variable types and local scope seeded from the parameters:
/// parameter `k` is variable `k`.
pub open spec fn spec_seed_args(
    names: Seq<Seq<char>>,
    types: Seq<crate::typ::TypeV>,
    k: int,
    vt: Seq<(usize, crate::typ::TypeV)>,
    locals: Seq<(Seq<char>, crate::ir::DeclarationV)>,
) -> (Seq<(usize, crate::typ::TypeV)>, Seq<(Seq<char>, crate::ir::DeclarationV)>)
    decreases names.len() - k,
{
    if k < 0 || k >= names.len() || k >= types.len() {
        (vt, locals)
    } else {
        spec_seed_args(
            names,
            types,
            k + 1,
            crate::maps::assoc_insert(vt, k as usize, types[k]),
            crate::ir::kassoc_insert(
                locals,
                names[k],
                crate::ir::DeclarationV::Variable(k as usize),
            ),
        )
    }
}

/// A collected run ends at or after its start, and strictly after it when
/// a semicolon was found.
pub proof fn lemma_collect_bounds(ts: Seq<InfoTokenV>, i: int, acc: Seq<InfoTokenV>)
    requires
        0 <= i,
    ensures
        ({
            let cr = spec_collect_until_semi(ts, i, acc);
            &&& cr.1 >= i
            &&& (cr.2 ==> i < cr.1 <= ts.len())
        }),
    decreases ts.len() - i,
{
    if i < ts.len() && !(ts[i].token is Semicolon) {
        lemma_collect_bounds(ts, i + 1, acc.push(ts[i]));
    }
}

/// A successfully read body ends strictly after its start.
pub proof fn lemma_expect_advances(ts: Seq<InfoTokenV>, i: int)
    requires
        0 <= i,
    ensures
        ({
            let sr = spec_expect_block_or_expr(ts, i);
            sr.0 is Ok ==> i < sr.1 <= ts.len()
        }),
{
    lemma_collect_bounds(ts, i, Seq::empty());
}

/// What parsing a whole module from position `i` yields: the mirror of the
/// `parse_module` loop. Each `fn` item contributes a function whose
/// signature comes from the parameter groups and optional return type, and
/// whose body is lowered with `spec_to_ir` against the scope built so far;
/// the first failure is the result.
pub open spec fn spec_parse_module_loop(
    ts: Seq<InfoTokenV>,
    i: int,
    constants: Seq<Seq<u8>>,
    functions: Seq<(Seq<char>, crate::ir::FunctionV)>,
    decls: Seq<(Seq<char>, crate::ir::DeclarationV)>,
) -> Result<crate::ir::ModuleV, ModuleErrorV>
    decreases ts.len() - i,
    via spec_parse_module_loop_decreases
{
    if i < 0 || i >= ts.len() {
        Ok(crate::ir::ModuleV { constants, functions })
    } else if !(ts[i].token == TokenV::Keyword(Keyword::Fn)) {
        Err(
            ModuleErrorV::Parse(
                InfoParseErrorV {
                    idx: ts[i].idx,
                    error: crate::expression_parser::ParseErrorV::ExpectedTopLevel,
                },
            ),
        )
    } else {
        let prev_idx = ts[i].idx;
        if i + 1 >= ts.len() {
            Err(
                ModuleErrorV::Parse(
                    InfoParseErrorV {
                        idx: prev_idx,
                        error: crate::expression_parser::ParseErrorV::ExpectedName,
                    },
                ),
            )
        } else if !(ts[i + 1].token is Name) {
            Err(
                ModuleErrorV::Parse(
                    InfoParseErrorV {
                        idx: ts[i + 1].idx,
                        error: crate::expression_parser::ParseErrorV::ExpectedName,
                    },
                ),
            )
        } else {
            let name = ts[i + 1].token->Name_0;
            if i + 2 >= ts.len() {
                Err(
                    ModuleErrorV::Parse(
                        InfoParseErrorV {
                            idx: prev_idx,
                            error: crate::expression_parser::ParseErrorV::ExpectedExpression(
                                Seq::empty(),
                            ),
                        },
                    ),
                )
            } else {
                let groups_or = match ts[i + 2].token {
                    TokenV::Operator(op) => match *op {
                        crate::tokeniser::OperatorV::Call(groups) => Some(groups),
                        _ => None,
                    },
                    _ => None,
                };
                match groups_or {
                    None => Err(
                        ModuleErrorV::Parse(
                            InfoParseErrorV {
                                idx: ts[i + 2].idx,
                                error: crate::expression_parser::ParseErrorV::ExpectedExpression(
                                    Seq::empty(),
                                ),
                            },
                        ),
                    ),
                    Some(groups) => match spec_parse_arg_groups(
                        groups,
                        0,
                        Seq::empty(),
                        Seq::empty(),
                    ) {
                        Err(e) => Err(ModuleErrorV::Parse(e)),
                        Ok(params) => {
                            let anames = params.0;
                            let atypes = params.1;
                            let c3 = i + 3;
                            let has_colon = c3 < ts.len() && ts[c3].token is Colon;
                            let ret_or: Result<(crate::typ::TypeV, int), ModuleErrorV> = if
                            has_colon {
                                if c3 + 1 >= ts.len() {
                                    Err(
                                        ModuleErrorV::Parse(
                                            InfoParseErrorV {
                                                idx: prev_idx,
                                                error: crate::expression_parser::ParseErrorV::ExpectedExpression(
                                                    Seq::empty(),
                                                ),
                                            },
                                        ),
                                    )
                                } else {
                                    match crate::typ::spec_get_type(ts, c3 + 1) {
                                        Err(e) => Err(ModuleErrorV::Parse(e)),
                                        Ok(rt) => Ok((rt, c3 + 2)),
                                    }
                                }
                            } else {
                                Ok((crate::typ::unit_type_view(), c3))
                            };
                            match ret_or {
                                Err(e) => Err(e),
                                Ok(rp) => {
                                    let rt = rp.0;
                                    let body_start = rp.1;
                                    let br = spec_expect_block_or_expr(ts, body_start);
                                    match br.0 {
                                        Err(e) => Err(ModuleErrorV::Parse(e)),
                                        Ok(body) => {
                                            let new_i = br.1;
                                            let sig = crate::typ::SignatureV {
                                                args: atypes,
                                                returns: Box::new(rt),
                                            };
                                            let decls1 = crate::ir::kassoc_insert(
                                                decls,
                                                name,
                                                crate::ir::DeclarationV::Function(sig),
                                            );
                                            let nargs = anames.len() as usize;
                                            let seeded = spec_seed_args(
                                                anames,
                                                atypes,
                                                0,
                                                Seq::empty(),
                                                Seq::empty(),
                                            );
                                            let st0 = crate::ir::LowerStateV {
                                                fir: seq![
                                                    crate::ir::BlockV {
                                                        statements: Seq::empty(),
                                                        terminal: Terminal::Return(Some(nargs)),
                                                    },
                                                ],
                                                vt: seeded.0,
                                                block: 0,
                                                constants: constants,
                                                locals: seeded.1,
                                            };
                                            match crate::ir::spec_to_ir(
                                                st0,
                                                body,
                                                Some(nargs),
                                                decls1,
                                            ) {
                                                Err(e) => Err(ModuleErrorV::Lower(e)),
                                                Ok(stf) => {
                                                    let fv = crate::ir::FunctionV {
                                                        ir: stf.fir,
                                                        exported: true,
                                                        variable_types: stf.vt,
                                                        signature: sig,
                                                    };
                                                    let existed = crate::ir::kassoc_get(
                                                        functions,
                                                        name,
                                                    ) is Some;
                                                    let functions1 = crate::ir::kassoc_insert(
                                                        functions,
                                                        name,
                                                        fv,
                                                    );
                                                    if existed {
                                                        Err(
                                                            ModuleErrorV::Parse(
                                                                InfoParseErrorV {
                                                                    idx: if new_i < ts.len() {
                                                                        ts[new_i].idx
                                                                    } else {
                                                                        0
                                                                    },
                                                                    error: crate::expression_parser::ParseErrorV::DuplicateName,
                                                                },
                                                            ),
                                                        )
                                                    } else {
                                                        spec_parse_module_loop(
                                                            ts,
                                                            new_i,
                                                            stf.constants,
                                                            functions1,
                                                            decls1,
                                                        )
                                                    }
                                                },
                                            }
                                        },
                                    }
                                },
                            }
                        },
                    },
                }
            }
        }
    }
}

#[via_fn]
proof fn spec_parse_module_loop_decreases(
    ts: Seq<InfoTokenV>,
    i: int,
    constants: Seq<Seq<u8>>,
    functions: Seq<(Seq<char>, crate::ir::FunctionV)>,
    decls: Seq<(Seq<char>, crate::ir::DeclarationV)>,
) {
    if 0 <= i < ts.len() {
        lemma_expect_advances(ts, i + 3);
        lemma_expect_advances(ts, i + 5);
    }
}

/// What parsing a whole module yields: the loop from the start, with the
/// built-in `print` seeded into scope.
pub open spec fn spec_parse_module(ts: Seq<InfoTokenV>) -> Result<
    crate::ir::ModuleV,
    ModuleErrorV,
> {
    spec_parse_module_loop(
        ts,
        0,
        Seq::empty(),
        Seq::empty(),
        crate::ir::kassoc_insert(Seq::empty(), "print"@, spec_print_decl()),
    )
}

/// Whether every function of the map has at least one block, so that block
/// 0, the entry, exists.
pub open spec fn functions_have_entry(s: Seq<(String, Function)>) -> bool {
    forall|j: int| 0 <= j < s.len() ==> (#[trigger] s[j]).1.ir@.len() >= 1
}

/// Parses a whole module: a sequence of `fn` items. Every function body is
/// lowered to IR; the first failure is reported.
///
/// The contract is exact: the result equals the mathematical parse
/// `spec_parse_module` — each `fn` item's signature read from its
/// parameter groups and optional return type, its body lowered with
/// `spec_to_ir` against the scope seeded with the built-in `print` and the
/// functions declared so far, duplicates rejected, and the first error
/// propagated with its source index. On success the module's function
/// names are also unique and every function has an entry block.
#[verifier::loop_isolation(false)]
#[verifier::rlimit(100)]
#[verifier::spinoff_prover]
pub fn parse_module(tokens: &[InfoToken]) -> (r: Result<Module, ModuleError>)
    ensures
        r matches Ok(m) ==> m.functions.wf() && functions_have_entry(m.functions.entries@),
        ({
            let sr = spec_parse_module(tokens_view(tokens@));
            match r {
                Ok(m) => sr matches Ok(mv) && mv.constants == crate::ir::byte_seqs_view(
                    m.constants@,
                ) && mv.functions == crate::ir::functions_view(m.functions.entries@),
                Err(e) => sr matches Err(ev) && ev == module_error_view(e),
            }
        }),
{
    broadcast use
        lemma_tokens_view,
        crate::tokeniser::lemma_token_lists_view,
        crate::ir::lemma_byte_seqs_view,
        crate::ir::lemma_functions_view,
        crate::ir::lemma_declarations_view,
        crate::ir::lemma_var_types_view,
        crate::ir::lemma_blocks_view,
        crate::ir::lemma_statements_view,
        crate::typ::lemma_types_view;

    let ghost tsv = tokens_view(tokens@);
    let mut module = Module { constants: Vec::new(), functions: NameMap::new() };
    let mut declarations: NameMap<Declaration> = NameMap::new();
    let mut print_args: Vec<Type> = Vec::new();
    print_args.push(Type::IO);
    print_args.push(Type::Slice(Box::new(Type::U8)));
    let print_name: &str = "print";
    let print_decl = Declaration::Function(
        Signature { args: print_args, returns: Type::Tuple(Vec::new()) },
    );
    proof {
        assert(crate::typ::type_view(Type::IO) == crate::typ::TypeV::IO);
        assert(crate::typ::type_view(Type::U8) == crate::typ::TypeV::U8);
        assert(crate::typ::type_view(Type::Slice(Box::new(Type::U8)))
            == crate::typ::string_slice_view());
        assert(crate::typ::types_view(Seq::<Type>::empty()) =~= Seq::<crate::typ::TypeV>::empty());
        assert(crate::ir::declaration_view(print_decl) == spec_print_decl()) by {
            assert(crate::typ::types_view(print_decl->Function_0.args@) =~= seq![
                crate::typ::TypeV::IO,
                crate::typ::string_slice_view(),
            ]);
        }
    }
    let print_string = print_name.to_owned();
    proof {
        crate::ir::lemma_declarations_insert_bridge(
            declarations.entries@,
            print_string,
            print_decl,
        );
    }
    declarations.insert(print_string, print_decl);
    proof {
        assert(crate::ir::declarations_view(Seq::<(String, Declaration)>::empty()) =~= Seq::<
            (Seq<char>, crate::ir::DeclarationV),
        >::empty());
        assert(crate::ir::byte_seqs_view(module.constants@) =~= Seq::<Seq<u8>>::empty());
        assert(crate::ir::functions_view(module.functions.entries@) =~= Seq::<
            (Seq<char>, crate::ir::FunctionV),
        >::empty());
        reveal_strlit("print");
    }
    let n = tokens.len();
    let mut i: usize = 0;
    while i < n
        invariant
            i <= n,
            n == tokens@.len(),
            tsv == tokens_view(tokens@),
            tsv.len() == n,
            module.functions.wf(),
            functions_have_entry(module.functions.entries@),
            spec_parse_module(tsv) == spec_parse_module_loop(
                tsv,
                i as int,
                crate::ir::byte_seqs_view(module.constants@),
                crate::ir::functions_view(module.functions.entries@),
                crate::ir::declarations_view(declarations.entries@),
            ),
        decreases n - i,
    {
        let ghost i0 = i as int;
        let ghost c_prev = crate::ir::byte_seqs_view(module.constants@);
        let ghost f_prev = crate::ir::functions_view(module.functions.entries@);
        let ghost d_prev = crate::ir::declarations_view(declarations.entries@);
        proof {
            assert(tsv[i as int] == info_token_view(tokens@[i as int]));
        }
        let is_fn = match &tokens[i].token {
            Token::Keyword(Keyword::Fn) => true,
            _ => false,
        };
        if !is_fn {
            return Err(
                ModuleError::Parse(
                    InfoParseError { idx: tokens[i].idx, error: ParseError::ExpectedTopLevel },
                ),
            );
        }
        let prev_idx = tokens[i].idx;
        i += 1;
        if i >= n {
            return Err(
                ModuleError::Parse(
                    InfoParseError { idx: prev_idx, error: ParseError::ExpectedName },
                ),
            );
        }
        proof {
            assert(tsv[i0 + 1] == info_token_view(tokens@[i0 + 1]));
        }
        let name: String = match &tokens[i].token {
            Token::Name(nm) => nm.clone(),
            _ => {
                return Err(
                    ModuleError::Parse(
                        InfoParseError { idx: tokens[i].idx, error: ParseError::ExpectedName },
                    ),
                );
            },
        };
        proof {
            assert(tsv[i0 + 1].token->Name_0 == name@);
        }
        i += 1;
        if i >= n {
            return Err(
                ModuleError::Parse(
                    InfoParseError { idx: prev_idx, error: ParseError::ExpectedExpression(
                        Vec::new(),
                    ) },
                ),
            );
        }
        proof {
            assert(tsv[i0 + 2] == info_token_view(tokens@[i0 + 2]));
            assert(tokens_view(Seq::<InfoToken>::empty()) =~= Seq::<InfoTokenV>::empty());
        }
        // The parameter list: `name: Type` groups inside the call operator.
        let mut arg_names: Vec<String> = Vec::new();
        let mut arg_types: Vec<Type> = Vec::new();
        match &tokens[i].token {
            Token::Operator(Operator::Call(arg_colon_types)) => {
                let ghost groupsv = crate::tokeniser::token_lists_view(arg_colon_types@);
                proof {
                    assert(crate::ir::names_view(arg_names@) =~= Seq::<Seq<char>>::empty());
                    assert(crate::typ::types_view(arg_types@) =~= Seq::<
                        crate::typ::TypeV,
                    >::empty());
                }
                let ngroups = arg_colon_types.len();
                let mut g: usize = 0;
                while g < ngroups
                    invariant
                        g <= ngroups,
                        ngroups == arg_colon_types@.len(),
                        groupsv == crate::tokeniser::token_lists_view(arg_colon_types@),
                        groupsv.len() == ngroups,
                        arg_names@.len() == arg_types@.len(),
                        spec_parse_arg_groups(groupsv, 0, Seq::empty(), Seq::empty())
                            == spec_parse_arg_groups(
                            groupsv,
                            g as int,
                            crate::ir::names_view(arg_names@),
                            crate::typ::types_view(arg_types@),
                        ),
                    decreases ngroups - g,
                {
                    broadcast use crate::ir::lemma_names_view;

                    let ghost names_prev = crate::ir::names_view(arg_names@);
                    let ghost types_prev = crate::typ::types_view(arg_types@);
                    let group = &arg_colon_types[g];
                    let ghost grpv = crate::tokeniser::tokens_view(group@);
                    proof {
                        assert(groupsv[g as int] == grpv);
                        assert(grpv.len() == group@.len());
                        if group@.len() >= 2 {
                            assert(grpv[0] == info_token_view(group@[0]));
                            assert(grpv[1] == info_token_view(group@[1]));
                        }
                    }
                    if group.len() >= 3 {
                        let shape_ok = match (&group[0].token, &group[1].token) {
                            (Token::Name(_), Token::Colon) => true,
                            _ => false,
                        };
                        if shape_ok {
                            let argname = match &group[0].token {
                                Token::Name(nm) => nm.clone(),
                                _ => String::new(),
                            };
                            let typ_tokens = crate::expression_parser::copy_tokens_range(
                                group.as_slice(),
                                2,
                                group.len(),
                            );
                            let mut zero: usize = 0;
                            proof {
                                assert(crate::tokeniser::tokens_view(typ_tokens@)
                                    == grpv.subrange(2, grpv.len() as int));
                            }
                            match get_type(typ_tokens.as_slice(), &mut zero) {
                                Ok(t) => {
                                    let ghost tv = crate::typ::type_view(t);
                                    arg_names.push(argname);
                                    arg_types.push(t);
                                    proof {
                                        assert(crate::ir::names_view(arg_names@)
                                            =~= names_prev.push(grpv[0].token->Name_0));
                                        assert(crate::typ::types_view(arg_types@)
                                            =~= types_prev.push(tv));
                                    }
                                },
                                Err(e) => {
                                    return Err(ModuleError::Parse(e));
                                },
                            }
                        }
                    }
                    g += 1;
                }
                proof {
                    assert(spec_parse_arg_groups(groupsv, 0, Seq::empty(), Seq::empty()) == Ok::<
                        (Seq<Seq<char>>, Seq<crate::typ::TypeV>),
                        InfoParseErrorV,
                    >((crate::ir::names_view(arg_names@), crate::typ::types_view(arg_types@))));
                }
            },
            _ => {
                return Err(
                    ModuleError::Parse(
                        InfoParseError {
                            idx: tokens[i].idx,
                            error: ParseError::ExpectedExpression(Vec::new()),
                        },
                    ),
                );
            },
        }
        i += 1;
        // The optional return type after a colon; the default is unit.
        let ghost anames = crate::ir::names_view(arg_names@);
        let ghost atypes = crate::typ::types_view(arg_types@);
        let mut ret_type = Type::Tuple(Vec::new());
        proof {
            if (i as int) < n {
                assert(tsv[i as int] == info_token_view(tokens@[i as int]));
            }
            assert(crate::typ::type_view(ret_type) == crate::typ::unit_type_view()) by {
                assert(crate::typ::types_view(Seq::<Type>::empty()) =~= Seq::<
                    crate::typ::TypeV,
                >::empty());
            }
        }
        if i < n {
            let is_colon = match &tokens[i].token {
                Token::Colon => true,
                _ => false,
            };
            if is_colon {
                i += 1;
                if i >= n {
                    return Err(
                        ModuleError::Parse(
                            InfoParseError {
                                idx: prev_idx,
                                error: ParseError::ExpectedExpression(Vec::new()),
                            },
                        ),
                    );
                }
                match get_type(tokens, &mut i) {
                    Ok(t) => {
                        ret_type = t;
                    },
                    Err(e) => {
                        return Err(ModuleError::Parse(e));
                    },
                }
            }
        }
        let ghost rt = crate::typ::type_view(ret_type);
        let ghost body_start = i as int;
        let mut sig_args: Vec<Type> = Vec::new();
        let mut a: usize = 0;
        let na = arg_types.len();
        proof {
            assert(crate::typ::types_view(sig_args@) =~= Seq::<crate::typ::TypeV>::empty());
        }
        while a < na
            invariant
                a <= na,
                na == arg_types@.len(),
                atypes == crate::typ::types_view(arg_types@),
                atypes.len() == na,
                crate::typ::types_view(sig_args@) == atypes.take(a as int),
            decreases na - a,
        {
            let ghost sv_prev = crate::typ::types_view(sig_args@);
            let t = copy_type(&arg_types[a]);
            sig_args.push(t);
            proof {
                assert(crate::typ::types_view(sig_args@) =~= atypes.take(a as int + 1));
            }
            a += 1;
        }
        proof {
            assert(atypes.take(na as int) =~= atypes);
        }
        let signature = Signature { args: sig_args, returns: ret_type };
        let ghost sigv = crate::typ::signature_view(signature);
        proof {
            assert(sigv == (crate::typ::SignatureV { args: atypes, returns: Box::new(rt) }));
        }
        let new_decl = Declaration::Function(copy_signature(&signature));
        let name_for_decl = name.clone();
        proof {
            assert(crate::ir::declaration_view(new_decl)
                == crate::ir::DeclarationV::Function(sigv));
            crate::ir::lemma_declarations_insert_bridge(
                declarations.entries@,
                name_for_decl,
                new_decl,
            );
        }
        declarations.insert(name_for_decl, new_decl);
        let body = match expect_block_or_expr(tokens, &mut i) {
            Ok(b) => b,
            Err(e) => {
                return Err(ModuleError::Parse(e));
            },
        };
        let next_var = arg_names.len();
        proof {
            crate::ir::lemma_names_view(arg_names@);
            crate::typ::lemma_types_view(arg_types@);
        }
        let mut entry_blocks: Vec<Block> = Vec::new();
        entry_blocks.push(
            Block { statements: Vec::new(), terminal: Terminal::Return(Some(next_var)) },
        );
        proof {
            assert(crate::ir::statements_view(Seq::<crate::ir::Statement>::empty()) =~= Seq::<
                crate::ir::StatementV,
            >::empty());
            assert(crate::ir::blocks_view(entry_blocks@) =~= seq![
                crate::ir::BlockV {
                    statements: Seq::empty(),
                    terminal: Terminal::Return(Some(next_var)),
                },
            ]);
        }
        let mut function = Function {
            ir: entry_blocks,
            exported: true,
            variable_types: VarMap::new(),
            signature,
        };
        let mut locals: NameMap<Declaration> = NameMap::new();
        let mut ai: usize = 0;
        let nargs = arg_names.len();
        proof {
            assert(crate::ir::var_types_view(function.variable_types.entries@) =~= Seq::<
                (usize, crate::typ::TypeV),
            >::empty());
            assert(crate::ir::declarations_view(locals.entries@) =~= Seq::<
                (Seq<char>, crate::ir::DeclarationV),
            >::empty());
        }
        while ai < nargs
            invariant
                ai <= nargs,
                nargs == arg_names@.len(),
                nargs == arg_types@.len(),
                anames == crate::ir::names_view(arg_names@),
                atypes == crate::typ::types_view(arg_types@),
                anames.len() == nargs,
                atypes.len() == nargs,
                function.ir@.len() >= 1,
                crate::ir::blocks_view(function.ir@) == seq![
                    crate::ir::BlockV {
                        statements: Seq::<crate::ir::StatementV>::empty(),
                        terminal: Terminal::Return(Some(next_var)),
                    },
                ],
                function.exported == true,
                crate::typ::signature_view(function.signature) == sigv,
                spec_seed_args(anames, atypes, 0, Seq::empty(), Seq::empty()) == spec_seed_args(
                    anames,
                    atypes,
                    ai as int,
                    crate::ir::var_types_view(function.variable_types.entries@),
                    crate::ir::declarations_view(locals.entries@),
                ),
            decreases nargs - ai,
        {
            broadcast use crate::ir::lemma_names_view;

            proof {
                assert(anames[ai as int] == arg_names@[ai as int]@);
                crate::ir::lemma_var_types_insert_bridge(
                    function.variable_types.entries@,
                    ai,
                    arg_types@[ai as int],
                );
            }
            let t = copy_type(&arg_types[ai]);
            proof {
                crate::ir::lemma_var_types_insert_bridge(
                    function.variable_types.entries@,
                    ai,
                    t,
                );
                crate::ir::lemma_declarations_insert_bridge(
                    locals.entries@,
                    arg_names@[ai as int],
                    Declaration::Variable(ai),
                );
            }
            function.variable_types.insert(ai, t);
            locals.insert(arg_names[ai].clone(), Declaration::Variable(ai));
            ai += 1;
        }
        let mut body_block: usize = 0;
        match crate::ir::to_ir(
            &mut function,
            &mut body_block,
            &mut module,
            body,
            Some(next_var),
            &declarations,
            &mut locals,
        ) {
            Ok(_) => {},
            Err(e) => {
                return Err(ModuleError::Lower(e));
            },
        }
        proof {
            crate::ir::lemma_functions_get_bridge(module.functions.entries@, name@);
        }
        let existed = match module.functions.get(&name) {
            Some(_) => true,
            None => false,
        };
        let ghost entries0 = module.functions.entries@;
        let ghost name0 = name;
        let ghost function0 = function;
        proof {
            crate::ir::lemma_functions_insert_bridge(entries0, name0, function0);
        }
        module.functions.insert(name, function);
        proof {
            lemma_insert_keeps_entry(entries0, name0, function0);
        }
        if existed {
            proof {
                if (i as int) < n {
                    assert(tsv[i as int] == info_token_view(tokens@[i as int]));
                }
            }
            let dup_idx = if i < n {
                tokens[i].idx
            } else {
                0
            };
            return Err(
                ModuleError::Parse(
                    InfoParseError { idx: dup_idx, error: ParseError::DuplicateName },
                ),
            );
        }
    }
    Ok(module)
}

/// Inserting a function with an entry block keeps every function's entry
/// block.
proof fn lemma_insert_keeps_entry(s: Seq<(String, Function)>, name: String, value: Function)
    requires
        functions_have_entry(s),
        value.ir@.len() >= 1,
    ensures
        functions_have_entry(crate::maps::nassoc_insert(s, name, name@, value)),
    decreases s.len(),
{
    let t = crate::maps::nassoc_insert(s, name, name@, value);
    if s.len() == 0 {
        assert(forall|j: int| 0 <= j < t.len() ==> t[j] == (name, value));
    } else if s[0].0@ == name@ {
        assert forall|j: int| 0 <= j < t.len() implies (#[trigger] t[j]).1.ir@.len() >= 1 by {
            if j == 0 {
            } else {
                assert(t[j] == s[j]);
            }
        }
    } else {
        assert(functions_have_entry(s.drop_first()));
        lemma_insert_keeps_entry(s.drop_first(), name, value);
        let u = crate::maps::nassoc_insert(s.drop_first(), name, name@, value);
        assert forall|j: int| 0 <= j < t.len() implies (#[trigger] t[j]).1.ir@.len() >= 1 by {
            if j == 0 {
                assert(t[0] == s[0]);
            } else {
                assert(t[j] == u[j - 1]);
            }
        }
    }
}

} // verus!
