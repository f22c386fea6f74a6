//! An ahead-of-time toolchain for a small imperative surface language:
//! a tokeniser, an expression and module parser, a lowerer to a basic-block
//! intermediate representation with phi nodes, a partial evaluator over that
//! representation, a binary serializer for partially evaluated programs, and
//! an x86-64 GAS assembly backend.

pub mod builtins;
pub mod compiler;
pub mod expression_parser;
pub mod ir;
pub mod maps;
pub mod module_parser;
pub mod numfmt;
pub mod serial;
pub mod tokeniser;
pub mod typ;
pub mod vm;
pub mod x86_64builder;
