//! End-to-end and unit tests for the toolchain: tokenising, parsing,
//! lowering, partial evaluation, resumption, serialization and codegen.

use pvlang::expression_parser::{parse_expression, Expr};
use pvlang::ir::{Block, Module, Operation, Statement, Terminal};
use pvlang::maps::{NameMap, VarMap};
use pvlang::module_parser::parse_module;
use pvlang::numfmt::{isize_to_string, usize_to_string};
use pvlang::serial::{deserialize_program, serialize_program};
use pvlang::tokeniser::{
    get_line_and_column, parse_u8, str_eq, tokenise, Keyword, Literal, Operator, Token,
};
use pvlang::typ::{get_type, type_eq, Type};
use pvlang::vm::{evaluate, run, run_entire_program, truthy, RunResult};
use pvlang::x86_64builder::mem::{MemoryAddress, MemoryReference, WordSize};
use pvlang::x86_64builder::unit::{rbp, PsuedoInstruction};

const FUEL: u64 = 1_000_000;

fn parse_ok(src: &str) -> Module {
    let tokens = tokenise(src, 0).expect("tokenise");
    match parse_module(&tokens) {
        Ok(m) => m,
        Err(e) => panic!("parse_module failed: {:?}", e),
    }
}

fn run_main(src: &str) -> (Module, RunResult, Vec<Vec<u8>>) {
    let mut module = parse_ok(src);
    let main_name = String::from("main");
    let main = module.functions.remove(&main_name).expect("main exists");
    let mut log: Vec<Vec<u8>> = Vec::new();
    let result = run(&module, main, vec![Some(Vec::new()), None], &mut log, FUEL)
        .expect("run succeeds");
    (module, result, log)
}

// The truthy rule, on the six stated vectors: more than one byte and a
// nonzero first byte.
#[test]
fn truthy_rule_vectors() {
    assert!(!truthy(&vec![]));
    assert!(!truthy(&vec![0]));
    assert!(!truthy(&vec![0, 0]));
    assert!(truthy(&vec![1, 0]));
    assert!(!truthy(&vec![0, 1]));
    assert!(truthy(&vec![1, 1]));
}

#[test]
fn tokenise_simple_function() {
    let tokens = tokenise("fn main(io: IO) { print(io, \"hi\") }", 0).unwrap();
    assert!(matches!(tokens[0].token, Token::Keyword(Keyword::Fn)));
    assert!(matches!(&tokens[1].token, Token::Name(n) if n == "main"));
    assert!(matches!(&tokens[2].token, Token::Operator(Operator::Call(_))));
    assert!(matches!(&tokens[3].token, Token::Block(_)));
    assert_eq!(tokens.len(), 4);
}

#[test]
fn tokenise_number_and_semicolon() {
    let tokens = tokenise("let x = 42;", 0).unwrap();
    assert!(matches!(tokens[0].token, Token::Keyword(Keyword::Let)));
    assert!(matches!(&tokens[1].token, Token::Name(n) if n == "x"));
    assert!(matches!(tokens[2].token, Token::Operator(Operator::Assign)));
    assert!(matches!(tokens[3].token, Token::Literal(Literal::Number(42))));
    assert!(matches!(tokens[4].token, Token::Semicolon));
}

#[test]
fn tokenise_reports_unclosed_quote() {
    let err = tokenise("\"abc", 0).unwrap_err();
    assert_eq!(err.idx, 0);
    assert!(matches!(err.error, pvlang::tokeniser::TokeniseError::UnclosedQuotes));
}

#[test]
fn tokenise_reports_unclosed_parens() {
    let err = tokenise("f(a", 0).unwrap_err();
    assert!(matches!(err.error, pvlang::tokeniser::TokeniseError::UnclosedParens));
}

#[test]
fn tokenise_reports_unexpected_character() {
    let err = tokenise("a # b", 0).unwrap_err();
    assert_eq!(err.idx, 2);
    assert!(matches!(err.error, pvlang::tokeniser::TokeniseError::ExpectedToken('#')));
}

#[test]
fn tokenise_reports_overflowing_number() {
    let err = tokenise("256", 0).unwrap_err();
    assert!(matches!(err.error, pvlang::tokeniser::TokeniseError::ExpectedNumber(_)));
}

#[test]
fn parse_u8_cases() {
    assert_eq!(parse_u8("0"), Some(0));
    assert_eq!(parse_u8("255"), Some(255));
    assert_eq!(parse_u8("007"), Some(7));
    assert_eq!(parse_u8("256"), None);
    assert_eq!(parse_u8(""), None);
    assert_eq!(parse_u8("1_2"), None);
}

#[test]
fn line_and_column_mapping() {
    let text = "ab\ncd";
    assert_eq!(get_line_and_column(text, 0).unwrap(), (1, 1));
    assert_eq!(get_line_and_column(text, 1).unwrap(), (1, 2));
    assert_eq!(get_line_and_column(text, 3).unwrap(), (2, 1));
    assert_eq!(get_line_and_column(text, 4).unwrap(), (2, 2));
    assert!(get_line_and_column(text, 5).is_err());
}

#[test]
fn precedence_ordering() {
    assert_eq!(Operator::Dot.precidence(), 0);
    assert_eq!(Operator::Call(Vec::new()).precidence(), 1);
    assert_eq!(Operator::Assign.precidence(), 2);
}

#[test]
fn str_eq_and_keyword() {
    assert!(str_eq("abc", "abc"));
    assert!(!str_eq("abc", "abd"));
    assert!(!str_eq("abc", "ab"));
    assert_eq!(Keyword::from_name("let"), Some(Keyword::Let));
    assert_eq!(Keyword::from_name("return"), Some(Keyword::Return));
    assert_eq!(Keyword::from_name("fn"), Some(Keyword::Fn));
    assert_eq!(Keyword::from_name("main"), None);
}

#[test]
fn parse_expression_shapes() {
    let tokens = tokenise("a.b", 0).unwrap();
    let e = parse_expression(&tokens).unwrap();
    assert!(matches!(e.expr, Expr::Index(_, _)));

    let tokens = tokenise("let x = \"v\"", 0).unwrap();
    let e = parse_expression(&tokens).unwrap();
    match e.expr {
        Expr::Let(name, value) => {
            assert_eq!(name, "x");
            assert!(matches!(value.expr, Expr::Literal(Literal::String(_))));
        }
        other => panic!("expected let, got {:?}", other),
    }

    let tokens = tokenise("f(1, 2)", 0).unwrap();
    let e = parse_expression(&tokens).unwrap();
    match e.expr {
        Expr::Call(callee, args) => {
            assert!(matches!(callee.expr, Expr::Var(_)));
            assert_eq!(args.len(), 2);
        }
        other => panic!("expected call, got {:?}", other),
    }

    let tokens = tokenise("return 7", 0).unwrap();
    let e = parse_expression(&tokens).unwrap();
    assert!(matches!(e.expr, Expr::Return(Some(_))));
}

#[test]
fn parse_expression_rejects_empty() {
    let err = parse_expression(&[]).unwrap_err();
    assert!(matches!(
        err.error,
        pvlang::expression_parser::ParseError::ExpectedExpression(_)
    ));
}

#[test]
fn get_type_names() {
    let tokens = tokenise("StringSlice IO other", 0).unwrap();
    let mut i = 0;
    let t = get_type(&tokens, &mut i).unwrap();
    assert!(type_eq(&t, &Type::Slice(Box::new(Type::U8))));
    let t = get_type(&tokens, &mut i).unwrap();
    assert!(type_eq(&t, &Type::IO));
    assert!(get_type(&tokens, &mut i).is_err());
    assert_eq!(i, 3);
}

#[test]
fn type_equality_is_structural() {
    assert!(type_eq(
        &Type::Slice(Box::new(Type::U8)),
        &Type::Slice(Box::new(Type::U8))
    ));
    assert!(!type_eq(&Type::Slice(Box::new(Type::U8)), &Type::U8));
    assert!(type_eq(&Type::Tuple(Vec::new()), &Type::Tuple(Vec::new())));
    assert!(!type_eq(
        &Type::Tuple(vec![Type::U8]),
        &Type::Tuple(Vec::new())
    ));
}

#[test]
fn var_map_insert_get() {
    let mut m: VarMap<u8> = VarMap::new();
    assert_eq!(m.len(), 0);
    m.insert(3, 7);
    m.insert(3, 9);
    m.insert(4, 1);
    assert_eq!(m.len(), 2);
    assert_eq!(m.get(3), Some(&9));
    assert_eq!(m.get(4), Some(&1));
    assert_eq!(m.get(5), None);
}

#[test]
fn name_map_insert_remove() {
    let mut m: NameMap<u8> = NameMap::new();
    m.insert(String::from("a"), 1);
    m.insert(String::from("b"), 2);
    assert_eq!(m.len(), 2);
    assert_eq!(m.get(&String::from("a")), Some(&1));
    assert_eq!(m.remove(&String::from("a")), Some(1));
    assert_eq!(m.get(&String::from("a")), None);
    assert_eq!(m.len(), 1);
}

// A constant print: the capability token is present, so the print happens
// during partial evaluation, exactly once, and the run completes with the
// unit value.
#[test]
fn constant_print_program() {
    let (module, result, mut log) = run_main("fn main(io: IO) { print(io, \"hi\") }");
    match &result {
        RunResult::Concrete(data) => assert_eq!(data, &Vec::<u8>::new()),
        other => panic!("expected concrete, got {:?}", other),
    }
    assert_eq!(log, vec![b"hi".to_vec()]);
    let finished = run_entire_program(&module, result, &mut log, FUEL).unwrap();
    assert!(!finished);
    // Resuming does not print again: the call was already evaluated away.
    assert_eq!(log, vec![b"hi".to_vec()]);
}

// A let-bound constant: the binding is materialized at evaluation time and
// only the print's effect is observed.
#[test]
fn let_and_print_program() {
    let (module, result, mut log) = run_main("fn main(io: IO) { let m = \"x\"; print(io, m) }");
    assert_eq!(log, vec![b"x".to_vec()]);
    match &result {
        RunResult::Concrete(data) => assert_eq!(data, &b"x".to_vec()),
        other => panic!("expected concrete, got {:?}", other),
    }
    run_entire_program(&module, result, &mut log, FUEL).unwrap();
    assert_eq!(log, vec![b"x".to_vec()]);
}

// Two user functions: a statically resolved call whose arguments are known
// is evaluated recursively to its concrete value.
#[test]
fn user_function_call_is_evaluated() {
    let src = "fn helper(s: StringSlice): StringSlice { s } fn main(io: IO) { let v = helper(\"ok\"); print(io, v) }";
    let (_module, _result, log) = run_main(src);
    assert_eq!(log, vec![b"ok".to_vec()]);
}

// A hand-built module: loading a constant and returning it yields the
// concrete value.
#[test]
fn direct_concrete_return() {
    let mut constants = Vec::new();
    constants.push(b"val".to_vec());
    let module = Module {
        constants,
        functions: NameMap::new(),
    };
    let blocks = vec![Block {
        statements: vec![Statement::Operation(Operation::LoadGlobal { src: 0 }, Some(0))],
        terminal: Terminal::Return(Some(0)),
    }];
    let mut vars: VarMap<Option<Vec<u8>>> = VarMap::new();
    let mut log = Vec::new();
    let result = evaluate(&module, blocks, &mut vars, 0, &mut log, FUEL).unwrap();
    match result {
        RunResult::Concrete(data) => assert_eq!(data, b"val".to_vec()),
        other => panic!("expected concrete, got {:?}", other),
    }
}

// A conditional with a known, truthy condition takes the then branch; the
// approach block's terminator becomes a plain jump.
#[test]
fn cond_jump_takes_truthy_branch() {
    let module = Module {
        constants: vec![b"t".to_vec(), b"e".to_vec()],
        functions: NameMap::new(),
    };
    let blocks = vec![
        Block {
            statements: vec![],
            terminal: Terminal::CondJump { cond: 0, then: 1, els: 2 },
        },
        Block {
            statements: vec![Statement::Operation(Operation::LoadGlobal { src: 0 }, Some(1))],
            terminal: Terminal::Return(Some(1)),
        },
        Block {
            statements: vec![Statement::Operation(Operation::LoadGlobal { src: 1 }, Some(1))],
            terminal: Terminal::Return(Some(1)),
        },
    ];
    let mut vars: VarMap<Option<Vec<u8>>> = VarMap::new();
    vars.insert(0, Some(vec![1, 0]));
    let mut log = Vec::new();
    let blocks2 = pvlang::ir::copy_blocks(&blocks);
    let result = evaluate(&module, blocks2, &mut vars, 0, &mut log, FUEL).unwrap();
    match result {
        RunResult::Concrete(data) => assert_eq!(data, b"t".to_vec()),
        other => panic!("expected concrete, got {:?}", other),
    }
    // A falsy condition takes the else branch.
    let mut vars: VarMap<Option<Vec<u8>>> = VarMap::new();
    vars.insert(0, Some(vec![0, 1]));
    let result = evaluate(&module, blocks, &mut vars, 0, &mut log, FUEL).unwrap();
    match result {
        RunResult::Concrete(data) => assert_eq!(data, b"e".to_vec()),
        other => panic!("expected concrete, got {:?}", other),
    }
}

// An unknown condition forks into a conditional partial holding both
// speculative branches; resolving the condition picks one.
#[test]
fn unknown_condition_forks() {
    let module = Module {
        constants: vec![b"t".to_vec(), b"e".to_vec()],
        functions: NameMap::new(),
    };
    let blocks = vec![
        Block {
            statements: vec![],
            terminal: Terminal::CondJump { cond: 0, then: 1, els: 2 },
        },
        Block {
            statements: vec![Statement::Operation(Operation::LoadGlobal { src: 0 }, Some(1))],
            terminal: Terminal::Return(Some(1)),
        },
        Block {
            statements: vec![Statement::Operation(Operation::LoadGlobal { src: 1 }, Some(1))],
            terminal: Terminal::Return(Some(1)),
        },
    ];
    let mut vars: VarMap<Option<Vec<u8>>> = VarMap::new();
    vars.insert(0, None);
    let mut log = Vec::new();
    let result = evaluate(&module, blocks, &mut vars, 0, &mut log, FUEL).unwrap();
    match result {
        RunResult::ConditionalPartial { condition, then, els } => {
            assert!(matches!(
                condition.0[0].terminal,
                Terminal::ThenElseJump(0)
            ));
            // Both branches were evaluated speculatively, but each still
            // carries the unknown condition variable.
            assert!(matches!(*then, RunResult::Partial(_, _)));
            assert!(matches!(*els, RunResult::Partial(_, _)));
        }
        other => panic!("expected conditional partial, got {:?}", other),
    }
}

// Serialization round trip: re-serializing the deserialized pair yields the
// same bytes, so the structures are preserved exactly.
#[test]
fn serialization_round_trip() {
    let (module, result, _log) = run_main("fn main(io: IO) { let m = \"x\"; print(io, m) }");
    let bytes = serialize_program(&module, &result);
    let (module2, result2) = deserialize_program(&bytes).expect("deserializes");
    let bytes2 = serialize_program(&module2, &result2);
    assert_eq!(bytes, bytes2);
    // The deserialized module still resumes to completion.
    let mut log = Vec::new();
    let finished = run_entire_program(&module2, result2, &mut log, FUEL).unwrap();
    assert!(!finished);
}

#[test]
fn serialization_rejects_garbage() {
    assert!(deserialize_program(&[]).is_none());
    assert!(deserialize_program(&[9, 9, 9]).is_none());
}

#[test]
fn decimal_formatting() {
    assert_eq!(usize_to_string(0), "0");
    assert_eq!(usize_to_string(9), "9");
    assert_eq!(usize_to_string(10), "10");
    assert_eq!(usize_to_string(12345), "12345");
    assert_eq!(isize_to_string(-7), "-7");
    assert_eq!(isize_to_string(0), "0");
    assert_eq!(isize_to_string(42), "42");
}

#[test]
fn gas_instruction_text() {
    assert_eq!(WordSize::qword.name(), "qword");
    let addr = MemoryAddress { register: rbp(), offset: -8, label_offset: None };
    assert_eq!(addr.to_gas_string(), "[rbp-8]");
    let mref = MemoryReference { address: addr.copy(), size: WordSize::qword };
    assert_eq!(mref.to_gas_string(), "qword [rbp-8]");
    assert_eq!(PsuedoInstruction::Ret.to_gas_string(), "ret");
    assert_eq!(PsuedoInstruction::Leave.to_gas_string(), "leave");
    assert_eq!(
        PsuedoInstruction::Jmp(String::from("main/0block")).to_gas_string(),
        "jmp \"main/0block\""
    );
    assert_eq!(
        PsuedoInstruction::Bytes(vec![104, 105]).to_gas_string(),
        ".byte 104,105"
    );
}

// The frame is padded to 16 bytes and every slot is 8-byte aligned, so the
// stack stays aligned at nested calls; slice returns use rax and rdx.
#[test]
fn codegen_frame_and_output() {
    // The backend supports global loads, static calls and returns; build a
    // module of that shape directly.
    let mut functions: NameMap<pvlang::ir::Function> = NameMap::new();
    functions.insert(
        String::from("main"),
        pvlang::ir::Function {
            ir: vec![Block {
                statements: vec![
                    Statement::Operation(Operation::LoadGlobal { src: 0 }, Some(0)),
                    Statement::Operation(
                        Operation::Call { function: vec![String::from("print")], args: vec![0] },
                        None,
                    ),
                ],
                terminal: Terminal::Return(None),
            }],
            exported: true,
            variable_types: {
                let mut vt: VarMap<Type> = VarMap::new();
                vt.insert(0, Type::Slice(Box::new(Type::U8)));
                vt
            },
            signature: pvlang::typ::Signature {
                args: Vec::new(),
                returns: Type::Tuple(Vec::new()),
            },
        },
    );
    let module = Module { constants: vec![b"hi".to_vec()], functions };
    let text = pvlang::compiler::compile(module).expect("compiles");
    assert!(text.starts_with(".intel_syntax noprefix\n"));
    assert!(text.contains(".section .data"));
    assert!(text.contains("_c.0"));
    assert!(text.contains(".section .text"));
    assert!(text.contains(".global \"main\""));
    assert!(text.contains("\"main/epilogue\""));
    assert!(text.contains("push rbp"));
    assert!(text.contains("mov rbp, rsp"));
    assert!(text.contains("call \"print\""));
    assert!(text.contains("lea rax, [rip+_c.0]"));
}

#[test]
fn prologue_frame_is_aligned() {
    let module = parse_ok("fn main(io: IO) { let a = \"x\"; let b = \"y\"; print(io, a) }");
    let main = module.functions.entries.iter().find(|e| e.0 == "main").unwrap();
    let name = String::from("main");
    let (stack, offsets, instrs) = pvlang::compiler::prologue(&main.1, &name);
    assert_eq!(stack % 16, 0);
    for off in &offsets {
        assert_eq!(off % 8, 0);
    }
    assert_eq!(instrs.len(), 4);
    assert_eq!(instrs[0].to_gas_string(), "push rbp");
    assert_eq!(instrs[1].to_gas_string(), "mov rbp, rsp");
    assert_eq!(
        instrs[3].to_gas_string(),
        "jmp \"main/0block\""
    );
}

#[test]
fn builtins_table() {
    let table = pvlang::builtins::get_builtins();
    assert_eq!(table.len(), 2);
    assert_eq!(table[0].0, "print");
    assert_eq!(table[1].0, "read_file");
    assert_eq!(table[0].1.args.len(), 2);
    assert!(type_eq(&table[0].1.args[0], &Type::IO));
    assert!(type_eq(&table[0].1.returns, &Type::Tuple(Vec::new())));
    assert!(type_eq(&table[1].1.returns, &Type::Slice(Box::new(Type::U8))));
}

#[test]
fn parse_module_rejects_duplicates() {
    let tokens = tokenise("fn a() { \"x\" } fn a() { \"y\" }", 0).unwrap();
    let err = parse_module(&tokens).unwrap_err();
    assert!(matches!(
        err,
        pvlang::module_parser::ModuleError::Parse(e)
            if matches!(e.error, pvlang::expression_parser::ParseError::DuplicateName)
    ));
}

#[test]
fn parse_module_rejects_stray_token() {
    let tokens = tokenise("let x = 1;", 0).unwrap();
    let err = parse_module(&tokens).unwrap_err();
    assert!(matches!(
        err,
        pvlang::module_parser::ModuleError::Parse(e)
            if matches!(e.error, pvlang::expression_parser::ParseError::ExpectedTopLevel)
    ));
}

#[test]
fn lowering_reports_undefined_symbol() {
    let tokens = tokenise("fn main(io: IO) { print(io, missing) }", 0).unwrap();
    let err = parse_module(&tokens).unwrap_err();
    assert!(matches!(
        err,
        pvlang::module_parser::ModuleError::Lower(e)
            if matches!(e.error, pvlang::ir::IRError::SymbolUndefined(_))
    ));
}

#[test]
fn lowering_reports_type_mismatch() {
    let tokens = tokenise("fn main(io: IO) { print(io, 1) }", 0).unwrap();
    let err = parse_module(&tokens).unwrap_err();
    assert!(matches!(
        err,
        pvlang::module_parser::ModuleError::Lower(e)
            if matches!(e.error, pvlang::ir::IRError::TypeMismatch { .. })
    ));
}

#[test]
fn evaluation_runs_out_of_fuel() {
    // A one-block loop jumping to itself cannot finish.
    let module = Module { constants: Vec::new(), functions: NameMap::new() };
    let blocks = vec![Block { statements: vec![], terminal: Terminal::Jump(0) }];
    let mut vars: VarMap<Option<Vec<u8>>> = VarMap::new();
    let mut log = Vec::new();
    let err = evaluate(&module, blocks, &mut vars, 0, &mut log, 50).unwrap_err();
    assert!(matches!(err, pvlang::vm::EvalError::OutOfFuel));
}

#[test]
fn evaluation_reports_bad_block() {
    let module = Module { constants: Vec::new(), functions: NameMap::new() };
    let blocks = vec![Block { statements: vec![], terminal: Terminal::Jump(9) }];
    let mut vars: VarMap<Option<Vec<u8>>> = VarMap::new();
    let mut log = Vec::new();
    let err = evaluate(&module, blocks, &mut vars, 0, &mut log, 50).unwrap_err();
    assert!(matches!(err, pvlang::vm::EvalError::BlockOutOfRange(9)));
}

// Stack-passed arguments: the seventh and later integer eightbytes are
// pushed, in reverse collection order, after the six register moves.
#[test]
fn load_args_spills_stack_eightbytes() {
    let mut emit = pvlang::x86_64builder::unit::PsuedoInstructionBuilder { contents: Vec::new() };
    let offsets: Vec<isize> = (0..8).map(|k| 8 * k).collect();
    let args: Vec<usize> = (0..8).collect();
    let mut types: VarMap<Type> = VarMap::new();
    for v in 0..8 {
        types.insert(v, Type::Usize);
    }
    pvlang::compiler::load_args(&mut emit, &offsets, &args, &types).expect("loads");
    let texts: Vec<String> = emit.contents.iter().map(|p| p.to_gas_string()).collect();
    assert_eq!(
        texts,
        vec![
            "mov rdi, qword [rbp-8]",
            "mov rsi, qword [rbp-16]",
            "mov rdx, qword [rbp-24]",
            "mov rcx, qword [rbp-32]",
            "mov r8, qword [rbp-40]",
            "mov r9, qword [rbp-48]",
            // Collected in argument order, pushed in reverse, so the first
            // stack eightbyte ends nearest the stack pointer.
            "push qword [rbp-64]",
            "push qword [rbp-56]",
        ]
    );
}

// A branch's placeholder jump targets the join block, which is created
// before the branch bodies, so nested lowering cannot skew the target.
#[test]
fn if_lowering_targets_join_block() {
    let mut function = pvlang::ir::Function {
        ir: vec![Block { statements: Vec::new(), terminal: Terminal::Return(None) }],
        exported: false,
        variable_types: VarMap::new(),
        signature: pvlang::typ::Signature { args: Vec::new(), returns: Type::Tuple(Vec::new()) },
    };
    let mut module = Module { constants: Vec::new(), functions: NameMap::new() };
    let mut block: usize = 0;
    let declarations: NameMap<pvlang::ir::Declaration> = NameMap::new();
    let mut locals: NameMap<pvlang::ir::Declaration> = NameMap::new();
    let lit = |s: &str| pvlang::expression_parser::InfoExpr {
        idx: 0,
        expr: Expr::Literal(Literal::String(String::from(s))),
    };
    let expr = pvlang::expression_parser::InfoExpr {
        idx: 0,
        expr: Expr::If {
            cond: Box::new(lit("x")),
            then_branch: Box::new(lit("a")),
            else_branch: Some(Box::new(lit("b"))),
        },
    };
    pvlang::ir::to_ir(
        &mut function,
        &mut block,
        &mut module,
        expr,
        None,
        &declarations,
        &mut locals,
    )
    .expect("lowers");
    assert_eq!(function.ir.len(), 4);
    // Block 1 is the join and keeps the outer terminator.
    assert!(matches!(function.ir[1].terminal, Terminal::Return(None)));
    // Both branch blocks end in a placeholder jump to the join.
    assert!(matches!(function.ir[2].terminal, Terminal::Jump(1)));
    assert!(matches!(function.ir[3].terminal, Terminal::Jump(1)));
    assert!(matches!(
        function.ir[0].terminal,
        Terminal::CondJump { cond: 0, then: 2, els: 3 }
    ));
}

// The IR printer: block number, statements with destinations, terminator,
// all indented one tab further per nesting level.
#[test]
fn ir_printer_formats_blocks() {
    let module = Module { constants: vec![b"hi".to_vec()], functions: NameMap::new() };
    let blocks = vec![
        Block {
            statements: vec![
                Statement::Operation(Operation::LoadGlobal { src: 0 }, Some(0)),
                Statement::Operation(
                    Operation::Call { function: vec![String::from("print")], args: vec![0, 1] },
                    None,
                ),
            ],
            terminal: Terminal::CondJump { cond: 0, then: 1, els: 1 },
        },
        Block { statements: Vec::new(), terminal: Terminal::Return(Some(2)) },
    ];
    let vars: VarMap<Option<Vec<u8>>> = VarMap::new();
    let text = pvlang::ir::to_string(&module, &blocks, &vars, 1);
    assert_eq!(
        text,
        "\t0:\n\t\t$0 = global \"hi\"\n\t\tcall \"print\"[0, 1]\n\t\tif $0 then 1 else 1\n\t1:\n\t\treturn $2\n"
    );
}
