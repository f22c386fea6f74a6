//! The expression parser: it turns a token list into an expression tree by
//! repeatedly splitting on the operator with the highest precedence.
//!
//! The executable parser is specified exactly against the mathematical
//! mirror `spec_parse_expression` over token and expression views. Where the
//! original machine aborted (an assignment operator, a dotted path ending
//! without a name), the parser reports an expression error instead.

use vstd::prelude::*;

use crate::tokeniser::{
    info_token_view, lemma_token_lists_view, lemma_tokens_view, spec_precidence, tokens_view,
    InfoToken, InfoTokenV, Keyword, Literal, LiteralV, Operator, OperatorV, Token, TokenV,
};

verus! {

/// An expression of the surface language.
#[derive(Debug)]
pub enum Expr {
    Index(Box<InfoExpr>, Box<InfoExpr>),
    Var(String),
    Literal(Literal),
    Call(Box<InfoExpr>, Vec<InfoExpr>),
    Return(Option<Box<InfoExpr>>),
    Block(Vec<InfoExpr>, bool),
    Let(String, Box<InfoExpr>),
    If { cond: Box<InfoExpr>, then_branch: Box<InfoExpr>, else_branch: Option<Box<InfoExpr>> },
}

/// An expression together with the source index it starts at.
#[derive(Debug)]
pub struct InfoExpr {
    pub idx: usize,
    pub expr: Expr,
}

/// A parse failure, with the source index it happened at.
#[derive(Debug)]
pub struct InfoParseError {
    pub idx: usize,
    pub error: ParseError,
}

/// The ways parsing can fail.
#[derive(Debug)]
pub enum ParseError {
    ExpectedName,
    ExpectedExpression(Vec<InfoToken>),
    ExpectedTopLevel,
    ExpectedAssign,
    MalformedLet,
    DuplicateName,
    TypeUndefined(Vec<InfoToken>),
}

// Views.
/// The mathematical view of an `Expr`.
pub enum ExprV {
    Index(Box<InfoExprV>, Box<InfoExprV>),
    Var(Seq<char>),
    Literal(LiteralV),
    Call(Box<InfoExprV>, Seq<InfoExprV>),
    Return(Option<Box<InfoExprV>>),
    Block(Seq<InfoExprV>, bool),
    Let(Seq<char>, Box<InfoExprV>),
    If { cond: Box<InfoExprV>, then_branch: Box<InfoExprV>, else_branch: Option<Box<InfoExprV>> },
}

/// The mathematical view of an `InfoExpr`.
pub struct InfoExprV {
    pub idx: usize,
    pub expr: ExprV,
}

/// The mathematical view of a `ParseError`.
pub enum ParseErrorV {
    ExpectedName,
    ExpectedExpression(Seq<InfoTokenV>),
    ExpectedTopLevel,
    ExpectedAssign,
    MalformedLet,
    DuplicateName,
    TypeUndefined(Seq<InfoTokenV>),
}

/// The mathematical view of an `InfoParseError`.
pub struct InfoParseErrorV {
    pub idx: usize,
    pub error: ParseErrorV,
}

pub open spec fn expr_view(e: Expr) -> ExprV
    decreases e,
{
    match e {
        Expr::Index(l, r) => ExprV::Index(
            Box::new(info_expr_view(*l)),
            Box::new(info_expr_view(*r)),
        ),
        Expr::Var(n) => ExprV::Var(n@),
        Expr::Literal(l) => ExprV::Literal(crate::tokeniser::literal_view(l)),
        Expr::Call(f, args) => ExprV::Call(Box::new(info_expr_view(*f)), exprs_view(args@)),
        Expr::Return(oe) => ExprV::Return(
            match oe {
                Some(b) => Some(Box::new(info_expr_view(*b))),
                None => None,
            },
        ),
        Expr::Block(es, ret) => ExprV::Block(exprs_view(es@), ret),
        Expr::Let(n, v) => ExprV::Let(n@, Box::new(info_expr_view(*v))),
        Expr::If { cond, then_branch, else_branch } => ExprV::If {
            cond: Box::new(info_expr_view(*cond)),
            then_branch: Box::new(info_expr_view(*then_branch)),
            else_branch: match else_branch {
                Some(b) => Some(Box::new(info_expr_view(*b))),
                None => None,
            },
        },
    }
}

pub open spec fn info_expr_view(e: InfoExpr) -> InfoExprV
    decreases e,
{
    InfoExprV { idx: e.idx, expr: expr_view(e.expr) }
}

pub open spec fn exprs_view(s: Seq<InfoExpr>) -> Seq<InfoExprV>
    decreases s,
{
    if s.len() == 0 {
        Seq::empty()
    } else {
        seq![info_expr_view(s[0])] + exprs_view(s.drop_first())
    }
}

/// How `exprs_view` relates to indexing.
pub broadcast proof fn lemma_exprs_view(s: Seq<InfoExpr>)
    ensures
        (#[trigger] exprs_view(s)).len() == s.len(),
        forall|i: int| 0 <= i < s.len() ==> #[trigger] exprs_view(s)[i] == info_expr_view(s[i]),
    decreases s.len(),
{
    if s.len() > 0 {
        lemma_exprs_view(s.drop_first());
        assert forall|i: int| 0 <= i < s.len() implies #[trigger] exprs_view(s)[i]
            == info_expr_view(s[i]) by {
            if i > 0 {
                assert(exprs_view(s)[i] == exprs_view(s.drop_first())[i - 1]);
            }
        }
    }
}

pub open spec fn parse_error_view(e: ParseError) -> ParseErrorV {
    match e {
        ParseError::ExpectedName => ParseErrorV::ExpectedName,
        ParseError::ExpectedExpression(ts) => ParseErrorV::ExpectedExpression(tokens_view(ts@)),
        ParseError::ExpectedTopLevel => ParseErrorV::ExpectedTopLevel,
        ParseError::ExpectedAssign => ParseErrorV::ExpectedAssign,
        ParseError::MalformedLet => ParseErrorV::MalformedLet,
        ParseError::DuplicateName => ParseErrorV::DuplicateName,
        ParseError::TypeUndefined(ts) => ParseErrorV::TypeUndefined(tokens_view(ts@)),
    }
}

pub open spec fn info_parse_error_view(e: InfoParseError) -> InfoParseErrorV {
    InfoParseErrorV { idx: e.idx, error: parse_error_view(e.error) }
}


/// The number of token-tree nodes in one token, counting nested groups.
pub open spec fn token_size(t: InfoTokenV) -> nat
    decreases t,
{
    1 + match t.token {
        TokenV::Parens(p) => tokens_size(p),
        TokenV::Block(p) => tokens_size(p),
        TokenV::Operator(op) => match *op {
            OperatorV::Call(gs) => lists_size(gs),
            _ => 0,
        },
        _ => 0,
    }
}

/// The number of token-tree nodes in a token list.
pub open spec fn tokens_size(ts: Seq<InfoTokenV>) -> nat
    decreases ts,
{
    if ts.len() == 0 {
        0
    } else {
        token_size(ts[0]) + tokens_size(ts.drop_first())
    }
}

/// The number of token-tree nodes in a list of token lists.
pub open spec fn lists_size(gs: Seq<Seq<InfoTokenV>>) -> nat
    decreases gs,
{
    if gs.len() == 0 {
        0
    } else {
        tokens_size(gs[0]) + lists_size(gs.drop_first())
    }
}

/// Sizes add over concatenation.
pub proof fn lemma_tokens_size_add(a: Seq<InfoTokenV>, b: Seq<InfoTokenV>)
    ensures
        tokens_size(a + b) == tokens_size(a) + tokens_size(b),
    decreases a.len(),
{
    if a.len() == 0 {
        assert(a + b =~= b);
    } else {
        lemma_tokens_size_add(a.drop_first(), b);
        assert((a + b).drop_first() =~= a.drop_first() + b);
        assert((a + b)[0] == a[0]);
    }
}

/// A prefix-suffix split of a token list splits its size.
pub proof fn lemma_tokens_size_split(ts: Seq<InfoTokenV>, k: int)
    requires
        0 <= k <= ts.len(),
    ensures
        tokens_size(ts) == tokens_size(ts.take(k)) + tokens_size(ts.skip(k)),
{
    lemma_tokens_size_add(ts.take(k), ts.skip(k));
    assert(ts.take(k) + ts.skip(k) =~= ts);
}

/// Every token list weighs at least its length.
pub proof fn lemma_tokens_size_len(ts: Seq<InfoTokenV>)
    ensures
        tokens_size(ts) >= ts.len(),
    decreases ts.len(),
{
    if ts.len() > 0 {
        lemma_tokens_size_len(ts.drop_first());
        assert(tokens_size(ts) == token_size(ts[0]) + tokens_size(ts.drop_first()));
        assert(token_size(ts[0]) >= 1);
    }
}

/// One list of a list-of-lists weighs at most the whole.
pub proof fn lemma_lists_size_element(gs: Seq<Seq<InfoTokenV>>, i: int)
    requires
        0 <= i < gs.len(),
    ensures
        tokens_size(gs[i]) <= lists_size(gs),
    decreases gs.len(),
{
    if i == 0 {
    } else {
        lemma_lists_size_element(gs.drop_first(), i - 1);
    }
}

/// The segments split from a token list weigh no more than the list, the
/// running segment and the accumulator together.
pub proof fn lemma_split_segments_size(
    ts: Seq<InfoTokenV>,
    i: int,
    cur: Seq<InfoTokenV>,
    acc: Seq<Seq<InfoTokenV>>,
)
    requires
        0 <= i <= ts.len(),
    ensures
        lists_size(spec_split_segments(ts, i, cur, acc)) <= lists_size(acc) + tokens_size(cur)
            + tokens_size(ts.skip(i)),
    decreases ts.len() - i,
{
    if i >= ts.len() {
        lemma_lists_size_push(acc, cur);
        assert(tokens_size(ts.skip(i)) >= 0);
    } else {
        assert(ts.skip(i).drop_first() =~= ts.skip(i + 1));
        assert(ts.skip(i)[0] == ts[i]);
        if ts[i].token is Semicolon {
            lemma_split_segments_size(ts, i + 1, Seq::empty(), acc.push(cur));
            lemma_lists_size_push(acc, cur);
        } else {
            lemma_split_segments_size(ts, i + 1, cur.push(ts[i]), acc);
            lemma_tokens_size_push(cur, ts[i]);
        }
    }
}

/// Pushing a list adds its size.
pub proof fn lemma_lists_size_push(gs: Seq<Seq<InfoTokenV>>, x: Seq<InfoTokenV>)
    ensures
        lists_size(gs.push(x)) == lists_size(gs) + tokens_size(x),
    decreases gs.len(),
{
    if gs.len() == 0 {
        assert(gs.push(x).drop_first() =~= Seq::<Seq<InfoTokenV>>::empty());
        assert(gs.push(x)[0] == x);
        assert(lists_size(gs.push(x)) == tokens_size(gs.push(x)[0]) + lists_size(
            gs.push(x).drop_first(),
        ));
    } else {
        lemma_lists_size_push(gs.drop_first(), x);
        assert(gs.push(x).drop_first() =~= gs.drop_first().push(x));
        assert(gs.push(x)[0] == gs[0]);
        assert(lists_size(gs.push(x)) == tokens_size(gs.push(x)[0]) + lists_size(
            gs.push(x).drop_first(),
        ));
    }
}

/// Pushing a token adds its size.
pub proof fn lemma_tokens_size_push(ts: Seq<InfoTokenV>, x: InfoTokenV)
    ensures
        tokens_size(ts.push(x)) == tokens_size(ts) + token_size(x),
    decreases ts.len(),
{
    if ts.len() == 0 {
        assert(ts.push(x).drop_first() =~= Seq::<InfoTokenV>::empty());
        assert(ts.push(x)[0] == x);
        assert(tokens_size(ts.push(x)) == token_size(ts.push(x)[0]) + tokens_size(
            ts.push(x).drop_first(),
        ));
    } else {
        lemma_tokens_size_push(ts.drop_first(), x);
        assert(ts.push(x).drop_first() =~= ts.drop_first().push(x));
        assert(ts.push(x)[0] == ts[0]);
        assert(tokens_size(ts.push(x)) == token_size(ts.push(x)[0]) + tokens_size(
            ts.push(x).drop_first(),
        ));
    }
}

/// The position of the operator with the highest precedence, scanning left
/// to right and keeping the first maximum.
pub open spec fn spec_scan_op(ts: Seq<InfoTokenV>, i: int, best: Option<(i32, int)>) -> Option<
    (i32, int),
>
    decreases ts.len() - i,
{
    if i < 0 || i >= ts.len() {
        best
    } else {
        match ts[i].token {
            TokenV::Operator(op) => {
                let p = spec_precidence(*op);
                match best {
                    Some(hp) => if p > hp.0 {
                        spec_scan_op(ts, i + 1, Some((p, i)))
                    } else {
                        spec_scan_op(ts, i + 1, best)
                    },
                    None => spec_scan_op(ts, i + 1, Some((p, i))),
                }
            },
            _ => spec_scan_op(ts, i + 1, best),
        }
    }
}

/// The segments of a token list split on semicolons; empty segments are
/// kept here and skipped by the caller.
pub open spec fn spec_split_segments(
    ts: Seq<InfoTokenV>,
    i: int,
    cur: Seq<InfoTokenV>,
    acc: Seq<Seq<InfoTokenV>>,
) -> Seq<Seq<InfoTokenV>>
    decreases ts.len() - i,
{
    if i < 0 || i >= ts.len() {
        acc.push(cur)
    } else if ts[i].token is Semicolon {
        spec_split_segments(ts, i + 1, Seq::empty(), acc.push(cur))
    } else {
        spec_split_segments(ts, i + 1, cur.push(ts[i]), acc)
    }
}

/// The non-empty comma-separated call arguments, parsed in order; the first
/// failing argument is the error.
pub open spec fn spec_parse_args(
    argss: Seq<Seq<InfoTokenV>>,
    i: int,
    acc: Seq<InfoExprV>,
) -> Result<Seq<InfoExprV>, InfoParseErrorV>
    decreases lists_size(argss), 1int, argss.len() - i,
    via spec_parse_args_decreases
{
    if i < 0 || i >= argss.len() {
        Ok(acc)
    } else if argss[i].len() == 0 {
        spec_parse_args(argss, i + 1, acc)
    } else {
        match spec_parse_expression(argss[i]) {
            Err(e) => Err(e),
            Ok(arg) => spec_parse_args(argss, i + 1, acc.push(arg)),
        }
    }
}

/// The non-empty semicolon-separated block statements, parsed in order; the
/// first failing statement is the error.
pub open spec fn spec_parse_segments(
    segs: Seq<Seq<InfoTokenV>>,
    i: int,
    acc: Seq<InfoExprV>,
) -> Result<Seq<InfoExprV>, InfoParseErrorV>
    decreases lists_size(segs), 1int, segs.len() - i,
    via spec_parse_segments_decreases
{
    if i < 0 || i >= segs.len() {
        Ok(acc)
    } else if segs[i].len() == 0 {
        spec_parse_segments(segs, i + 1, acc)
    } else {
        match spec_parse_expression(segs[i]) {
            Err(e) => Err(e),
            Ok(stmt) => spec_parse_segments(segs, i + 1, acc.push(stmt)),
        }
    }
}


#[via_fn]
proof fn spec_parse_args_decreases(argss: Seq<Seq<InfoTokenV>>, i: int, acc: Seq<InfoExprV>) {
    if 0 <= i < argss.len() {
        lemma_lists_size_element(argss, i);
    }
}

#[via_fn]
proof fn spec_parse_segments_decreases(segs: Seq<Seq<InfoTokenV>>, i: int, acc: Seq<InfoExprV>) {
    if 0 <= i < segs.len() {
        lemma_lists_size_element(segs, i);
    }
}

#[via_fn]
proof fn spec_parse_expression_decreases(ts: Seq<InfoTokenV>) {
    lemma_tokens_size_len(ts);
    if ts.len() >= 3 {
        lemma_tokens_size_split(ts, 3);
        lemma_tokens_size_len(ts.take(3));
    }
    if ts.len() >= 1 {
        lemma_tokens_size_split(ts, 1);
        lemma_tokens_size_len(ts.take(1));
        assert(tokens_size(ts) >= token_size(ts[0])) by {
            assert(ts.skip(0) =~= ts);
            lemma_tokens_size_split(ts, 0);
            assert(ts.skip(0)[0] == ts[0]);
        }
        assert(token_size(ts[0]) <= tokens_size(ts));
        match ts[0].token {
            TokenV::Block(payload) => {
                lemma_split_segments_size(payload, 0, Seq::empty(), Seq::empty());
                assert(payload.skip(0) =~= payload);
                assert(lists_size(spec_split_segments(payload, 0, Seq::empty(), Seq::empty()))
                    <= tokens_size(payload));
            },
            _ => {},
        }
    }
    match spec_scan_op(ts, 0, None) {
        Some(hp) => {
            let op_idx = hp.1;
            lemma_spec_scan_op_bounds(ts, 0, None);
            if 0 <= op_idx < ts.len() {
                lemma_tokens_size_split(ts, op_idx);
                lemma_tokens_size_len(ts.skip(op_idx));
                assert(tokens_size(ts.skip(op_idx)) >= token_size(ts[op_idx])) by {
                    assert(ts.skip(op_idx)[0] == ts[op_idx]);
                    lemma_tokens_size_split(ts.skip(op_idx), 1);
                    lemma_tokens_size_split(ts.skip(op_idx), 0);
                    assert(ts.skip(op_idx).skip(0) =~= ts.skip(op_idx));
                    assert(tokens_size(ts.skip(op_idx)) == token_size(ts.skip(op_idx)[0])
                        + tokens_size(ts.skip(op_idx).drop_first()));
                }
                assert(ts.subrange(0, op_idx) =~= ts.take(op_idx));
            }
        },
        None => {},
    }
}

/// A found operator position lies inside the list.
pub proof fn lemma_spec_scan_op_bounds(ts: Seq<InfoTokenV>, i: int, best: Option<(i32, int)>)
    requires
        0 <= i,
        best matches Some(b) ==> 0 <= b.1 < ts.len() && ts[b.1].token is Operator,
    ensures
        spec_scan_op(ts, i, best) matches Some(b) ==> 0 <= b.1 < ts.len() && ts[b.1].token
            is Operator,
    decreases ts.len() - i,
{
    if 0 <= i < ts.len() {
        match ts[i].token {
            TokenV::Operator(op) => {
                let p = spec_precidence(*op);
                match best {
                    Some(hp) => if p > hp.0 {
                        lemma_spec_scan_op_bounds(ts, i + 1, Some((p, i)));
                    } else {
                        lemma_spec_scan_op_bounds(ts, i + 1, best);
                    },
                    None => lemma_spec_scan_op_bounds(ts, i + 1, Some((p, i))),
                }
            },
            _ => lemma_spec_scan_op_bounds(ts, i + 1, best),
        }
    }
}

/// What parsing a token list yields: the mirror of `parse_expression`.
pub open spec fn spec_parse_expression(ts: Seq<InfoTokenV>) -> Result<InfoExprV, InfoParseErrorV>
    decreases tokens_size(ts), 0int, 0int,
    via spec_parse_expression_decreases
{
    if ts.len() >= 1 && ts[0].token == TokenV::Keyword(Keyword::Let) {
        let let_idx = ts[0].idx;
        if ts.len() >= 2 && ts[1].token is Name {
            if ts.len() >= 3 && (ts[2].token matches TokenV::Operator(op) && *op is Assign) {
                match spec_parse_expression(ts.skip(3)) {
                    Err(e) => Err(e),
                    Ok(value) => Ok(
                        InfoExprV {
                            idx: let_idx,
                            expr: ExprV::Let(ts[1].token->Name_0, Box::new(value)),
                        },
                    ),
                }
            } else {
                Err(InfoParseErrorV { idx: let_idx, error: ParseErrorV::ExpectedAssign })
            }
        } else {
            Err(InfoParseErrorV { idx: let_idx, error: ParseErrorV::ExpectedName })
        }
    } else {
        match spec_scan_op(ts, 0, None) {
            Some(hp) => {
                let op_idx = hp.1;
                match ts[op_idx].token {
                    TokenV::Operator(op) => match *op {
                        OperatorV::Assign => Err(
                            InfoParseErrorV {
                                idx: ts[op_idx].idx,
                                error: ParseErrorV::ExpectedExpression(ts),
                            },
                        ),
                        OperatorV::Dot => match spec_parse_expression(ts.subrange(0, op_idx)) {
                            Err(e) => Err(e),
                            Ok(left) => if op_idx + 1 < ts.len() && ts[op_idx + 1].token
                                is Name {
                                Ok(
                                    InfoExprV {
                                        idx: left.idx,
                                        expr: ExprV::Index(
                                            Box::new(left),
                                            Box::new(
                                                InfoExprV {
                                                    idx: ts[op_idx + 1].idx,
                                                    expr: ExprV::Literal(
                                                        LiteralV::Str(ts[op_idx + 1].token->Name_0),
                                                    ),
                                                },
                                            ),
                                        ),
                                    },
                                )
                            } else if op_idx + 1 < ts.len() {
                                Err(
                                    InfoParseErrorV {
                                        idx: ts[op_idx + 1].idx,
                                        error: ParseErrorV::ExpectedName,
                                    },
                                )
                            } else {
                                Err(
                                    InfoParseErrorV {
                                        idx: ts[op_idx].idx,
                                        error: ParseErrorV::ExpectedName,
                                    },
                                )
                            },
                        },
                        OperatorV::Call(argss) => match spec_parse_expression(
                            ts.subrange(0, op_idx),
                        ) {
                            Err(e) => Err(e),
                            Ok(left) => match spec_parse_args(argss, 0, Seq::empty()) {
                                Err(e) => Err(e),
                                Ok(args) => Ok(
                                    InfoExprV {
                                        idx: left.idx,
                                        expr: ExprV::Call(Box::new(left), args),
                                    },
                                ),
                            },
                        },
                    },
                    _ => Err(
                        InfoParseErrorV {
                            idx: ts[op_idx].idx,
                            error: ParseErrorV::ExpectedExpression(ts),
                        },
                    ),
                }
            },
            None => {
                if ts.len() == 1 && ts[0].token is Literal {
                    Ok(
                        InfoExprV {
                            idx: ts[0].idx,
                            expr: ExprV::Literal(ts[0].token->Literal_0),
                        },
                    )
                } else if ts.len() == 1 && ts[0].token is Name {
                    Ok(InfoExprV { idx: ts[0].idx, expr: ExprV::Var(ts[0].token->Name_0) })
                } else if ts.len() == 1 && ts[0].token is Parens {
                    spec_parse_expression(ts[0].token->Parens_0)
                } else if ts.len() == 1 && ts[0].token == TokenV::Keyword(Keyword::Return) {
                    Ok(InfoExprV { idx: ts[0].idx, expr: ExprV::Return(None) })
                } else if ts.len() >= 1 && ts[0].token == TokenV::Keyword(Keyword::Return) {
                    match spec_parse_expression(ts.skip(1)) {
                        Err(e) => Err(e),
                        Ok(value) => Ok(
                            InfoExprV {
                                idx: ts[0].idx,
                                expr: ExprV::Return(Some(Box::new(value))),
                            },
                        ),
                    }
                } else if ts.len() == 1 && ts[0].token is Block {
                    let payload = ts[0].token->Block_0;
                    let segs = spec_split_segments(payload, 0, Seq::empty(), Seq::empty());
                    match spec_parse_segments(segs, 0, Seq::empty()) {
                        Err(e) => Err(e),
                        Ok(stmts) => Ok(
                            InfoExprV {
                                idx: ts[0].idx,
                                expr: ExprV::Block(
                                    stmts,
                                    !(payload.len() > 0 && payload.last().token is Semicolon),
                                ),
                            },
                        ),
                    }
                } else if ts.len() == 0 {
                    Err(
                        InfoParseErrorV {
                            idx: 0,
                            error: ParseErrorV::ExpectedExpression(Seq::empty()),
                        },
                    )
                } else {
                    Err(
                        InfoParseErrorV {
                            idx: ts[0].idx,
                            error: ParseErrorV::ExpectedExpression(ts),
                        },
                    )
                }
            },
        }
    }
}

/// Copies the tokens of `ts` from `from` (inclusive) to `to` (exclusive).
pub fn copy_tokens_range(ts: &[InfoToken], from: usize, to: usize) -> (r: Vec<InfoToken>)
    requires
        from <= to <= ts@.len(),
    ensures
        tokens_view(r@) == tokens_view(ts@).subrange(from as int, to as int),
        r@.len() == to - from,
{
    broadcast use lemma_tokens_view;

    let mut out: Vec<InfoToken> = Vec::new();
    let mut i: usize = from;
    while i < to
        invariant
            from <= i <= to <= ts@.len(),
            out@.len() == i - from,
            forall|j: int|
                0 <= j < out@.len() ==> info_token_view(#[trigger] out@[j]) == info_token_view(
                    ts@[from + j],
                ),
        decreases to - i,
    {
        let t = &ts[i];
        let copied = InfoToken { token: crate::tokeniser::copy_token(&t.token), idx: t.idx };
        out.push(copied);
        i += 1;
    }
    proof {
        assert(tokens_view(out@) =~= tokens_view(ts@).subrange(from as int, to as int));
    }
    out
}

/// Parses one expression from a token list: a leading `let` binds a name;
/// otherwise the list is split at the operator with the highest precedence;
/// otherwise it must be a single literal, name, group, block, or a `return`.
#[verifier::rlimit(100)]
#[verifier::loop_isolation(false)]
pub fn parse_expression(tokens: &[InfoToken]) -> (r: Result<InfoExpr, InfoParseError>)
    ensures
        ({
            let sr = spec_parse_expression(tokens_view(tokens@));
            match r {
                Ok(e) => sr matches Ok(ev) && ev == info_expr_view(e),
                Err(e) => sr matches Err(ev) && ev == info_parse_error_view(e),
            }
        }),
    decreases tokens_size(tokens_view(tokens@)), 0int, 0int,
{
    broadcast use lemma_tokens_view, lemma_exprs_view, lemma_token_lists_view;

    let ghost tv = tokens_view(tokens@);
    let n = tokens.len();
    proof {
        lemma_tokens_size_len(tv);
    }
    // A leading `let`.
    let is_let = n >= 1 && match &tokens[0].token {
        Token::Keyword(Keyword::Let) => true,
        _ => false,
    };
    if is_let {
        let let_idx = tokens[0].idx;
        let name: Option<&String> = if n >= 2 {
            match &tokens[1].token {
                Token::Name(nm) => Some(nm),
                _ => None,
            }
        } else {
            None
        };
        match name {
            None => {
                return Err(InfoParseError { idx: let_idx, error: ParseError::ExpectedName });
            },
            Some(nm) => {
                let is_assign = n >= 3 && match &tokens[2].token {
                    Token::Operator(Operator::Assign) => true,
                    _ => false,
                };
                if !is_assign {
                    return Err(
                        InfoParseError { idx: let_idx, error: ParseError::ExpectedAssign },
                    );
                }
                let rest = copy_tokens_range(tokens, 3, n);
                proof {
                    lemma_tokens_size_split(tv, 3);
                    lemma_tokens_size_len(tv.take(3));
                    assert(tv.subrange(3, tv.len() as int) =~= tv.skip(3));
                }
                let value = match parse_expression(rest.as_slice()) {
                    Ok(v) => v,
                    Err(e) => {
                        return Err(e);
                    },
                };
                return Ok(
                    InfoExpr {
                        idx: let_idx,
                        expr: Expr::Let(nm.clone(), Box::new(value)),
                    },
                );
            },
        }
    }
    // Find the operator with the highest precedence.
    let mut best: Option<(i32, usize)> = None;
    let mut i: usize = 0;
    let ghost bestv: Option<(i32, int)> = None;
    while i < n
        invariant
            i <= n,
            n == tokens@.len(),
            bestv == match best {
                Some(b) => Some((b.0, b.1 as int)),
                None => None::<(i32, int)>,
            },
            best matches Some(b) ==> b.1 < i,
            spec_scan_op(tv, 0, None) == spec_scan_op(tv, i as int, bestv),
        decreases n - i,
    {
        match &tokens[i].token {
            Token::Operator(op) => {
                let p = op.precidence();
                let replace = match best {
                    Some(hp) => p > hp.0,
                    None => true,
                };
                if replace {
                    best = Some((p, i));
                    proof {
                        bestv = Some((p, i as int));
                    }
                }
            },
            _ => {},
        }
        i += 1;
    }
    match best {
        Some(hp) => {
            let op_idx = hp.1;
            match &tokens[op_idx].token {
                Token::Operator(op) => match op {
                    Operator::Assign => Err(
                        InfoParseError {
                            idx: tokens[op_idx].idx,
                            error: ParseError::ExpectedExpression(
                                crate::tokeniser::copy_tokens(tokens),
                            ),
                        },
                    ),
                    Operator::Dot => {
                        let leftv = copy_tokens_range(tokens, 0, op_idx);
                        proof {
                            lemma_tokens_size_split(tv, op_idx as int);
                            lemma_tokens_size_len(tv.skip(op_idx as int));
                            assert(tv.skip(op_idx as int).len() >= 1);
                        }
                        let left = match parse_expression(leftv.as_slice()) {
                            Ok(v) => v,
                            Err(e) => {
                                return Err(e);
                            },
                        };
                        if op_idx + 1 < n {
                            proof {
                                assert(tv[op_idx as int + 1] == info_token_view(
                                    tokens@[op_idx as int + 1],
                                ));
                            }
                            match &tokens[op_idx + 1].token {
                                Token::Name(nm) => {
                                    let inner = InfoExpr {
                                        idx: tokens[op_idx + 1].idx,
                                        expr: Expr::Literal(Literal::String(nm.clone())),
                                    };
                                    proof {
                                        assert(info_expr_view(inner) == (InfoExprV {
                                            idx: tokens@[op_idx as int + 1].idx,
                                            expr: ExprV::Literal(LiteralV::Str(nm@)),
                                        }));
                                    }
                                    Ok(
                                        InfoExpr {
                                            idx: left.idx,
                                            expr: Expr::Index(Box::new(left), Box::new(inner)),
                                        },
                                    )
                                },
                                _ => Err(
                                    InfoParseError {
                                        idx: tokens[op_idx + 1].idx,
                                        error: ParseError::ExpectedName,
                                    },
                                ),
                            }
                        } else {
                            Err(
                                InfoParseError {
                                    idx: tokens[op_idx].idx,
                                    error: ParseError::ExpectedName,
                                },
                            )
                        }
                    },
                    Operator::Call(argss) => {
                        let leftv = copy_tokens_range(tokens, 0, op_idx);
                        proof {
                            lemma_tokens_size_split(tv, op_idx as int);
                            lemma_tokens_size_len(tv.skip(op_idx as int));
                        }
                        let left = match parse_expression(leftv.as_slice()) {
                            Ok(v) => v,
                            Err(e) => {
                                return Err(e);
                            },
                        };
                        let ghost argssv = crate::tokeniser::token_lists_view(argss@);
                        let nargs = argss.len();
                        let mut parsed: Vec<InfoExpr> = Vec::new();
                        let mut j: usize = 0;
                        proof {
                            assert(exprs_view(parsed@) =~= Seq::<InfoExprV>::empty());
                            assert(tv[op_idx as int] == info_token_view(tokens@[op_idx as int]));
                            assert(token_size(tv[op_idx as int]) == 1 + lists_size(argssv));
                            lemma_tokens_size_split(tv, op_idx as int);
                            assert(tv.skip(op_idx as int)[0] == tv[op_idx as int]);
                            assert(tokens_size(tv.skip(op_idx as int)) == token_size(
                                tv.skip(op_idx as int)[0],
                            ) + tokens_size(tv.skip(op_idx as int).drop_first()));
                        }
                        while j < nargs
                            invariant
                                j <= nargs,
                                nargs == argss@.len(),
                                argssv == crate::tokeniser::token_lists_view(argss@),
                                argssv.len() == nargs,
                                tokens_size(tv) >= 1 + lists_size(argssv),
                                spec_parse_args(argssv, 0, Seq::empty()) == spec_parse_args(
                                    argssv,
                                    j as int,
                                    exprs_view(parsed@),
                                ),
                            decreases nargs - j,
                        {
                            let arg_tokens = &argss[j];
                            if arg_tokens.len() > 0 {
                                proof {
                                    lemma_lists_size_element(argssv, j as int);
                                }
                                let argc = copy_tokens_range(
                                    arg_tokens.as_slice(),
                                    0,
                                    arg_tokens.len(),
                                );
                                proof {
                                    assert(tokens_view(arg_tokens@).subrange(
                                        0,
                                        arg_tokens@.len() as int,
                                    ) =~= tokens_view(arg_tokens@));
                                }
                                let arg = match parse_expression(argc.as_slice()) {
                                    Ok(v) => v,
                                    Err(e) => {
                                        return Err(e);
                                    },
                                };
                                let ghost before = exprs_view(parsed@);
                                let ghost argv = info_expr_view(arg);
                                parsed.push(arg);
                                proof {
                                    assert(exprs_view(parsed@) =~= before.push(argv));
                                }
                            }
                            j += 1;
                        }
                        Ok(InfoExpr { idx: left.idx, expr: Expr::Call(Box::new(left), parsed) })
                    },
                },
                _ => Err(
                    InfoParseError {
                        idx: tokens[op_idx].idx,
                        error: ParseError::ExpectedExpression(
                            crate::tokeniser::copy_tokens(tokens),
                        ),
                    },
                ),
            }
        },
        None => {
            if n == 1 {
                match &tokens[0].token {
                    Token::Literal(lit) => {
                        let copied = match lit {
                            Literal::String(st) => Literal::String(st.clone()),
                            Literal::Number(num) => Literal::Number(*num),
                        };
                        return Ok(
                            InfoExpr { idx: tokens[0].idx, expr: Expr::Literal(copied) },
                        );
                    },
                    Token::Name(nm) => {
                        return Ok(
                            InfoExpr { idx: tokens[0].idx, expr: Expr::Var(nm.clone()) },
                        );
                    },
                    Token::Parens(inner) => {
                        proof {
                            assert(tokens_size(tv) >= token_size(tv[0]));
                        }
                        let innerc = copy_tokens_range(inner.as_slice(), 0, inner.len());
                        proof {
                            assert(tokens_view(inner@).subrange(0, inner@.len() as int)
                                =~= tokens_view(inner@));
                        }
                        return parse_expression(innerc.as_slice());
                    },
                    _ => {},
                }
            }
            let is_return = n >= 1 && match &tokens[0].token {
                Token::Keyword(Keyword::Return) => true,
                _ => false,
            };
            if is_return && n == 1 {
                // A bare `return` yields no value.
                return Ok(InfoExpr { idx: tokens[0].idx, expr: Expr::Return(None) });
            }
            if is_return {
                let rest = copy_tokens_range(tokens, 1, n);
                proof {
                    lemma_tokens_size_split(tv, 1);
                    lemma_tokens_size_len(tv.take(1));
                    assert(tv.subrange(1, tv.len() as int) =~= tv.skip(1));
                }
                let value = match parse_expression(rest.as_slice()) {
                    Ok(v) => v,
                    Err(e) => {
                        return Err(e);
                    },
                };
                return Ok(
                    InfoExpr {
                        idx: tokens[0].idx,
                        expr: Expr::Return(Some(Box::new(value))),
                    },
                );
            }
            if n == 1 {
                let payload: Option<&Vec<InfoToken>> = match &tokens[0].token {
                    Token::Block(inner) => Some(inner),
                    _ => None,
                };
                match payload {
                    Some(inner) => {
                        let ghost pv = tokens_view(inner@);
                        proof {
                            assert(tokens_size(tv) >= token_size(tv[0]));
                        }
                        // Split the block body on semicolons.
                        let ninner = inner.len();
                        let mut segs: Vec<Vec<InfoToken>> = Vec::new();
                        let mut cur: Vec<InfoToken> = Vec::new();
                        let mut k: usize = 0;
                        proof {
                            assert(tokens_view(cur@) =~= Seq::<InfoTokenV>::empty());
                            assert(crate::tokeniser::token_lists_view(segs@) =~= Seq::<
                                Seq<InfoTokenV>,
                            >::empty());
                        }
                        while k < ninner
                            invariant
                                k <= ninner,
                                ninner == inner@.len(),
                                pv == tokens_view(inner@),
                                pv.len() == ninner,
                                spec_split_segments(pv, 0, Seq::empty(), Seq::empty())
                                    == spec_split_segments(
                                    pv,
                                    k as int,
                                    tokens_view(cur@),
                                    crate::tokeniser::token_lists_view(segs@),
                                ),
                            decreases ninner - k,
                        {
                            let ghost curv = tokens_view(cur@);
                            let ghost segsv = crate::tokeniser::token_lists_view(segs@);
                            let t = &inner[k];
                            let is_semi = match &t.token {
                                Token::Semicolon => true,
                                _ => false,
                            };
                            if is_semi {
                                segs.push(cur);
                                cur = Vec::new();
                                proof {
                                    assert(tokens_view(cur@) =~= Seq::<InfoTokenV>::empty());
                                    assert(crate::tokeniser::token_lists_view(segs@)
                                        =~= segsv.push(curv));
                                }
                            } else {
                                let copied = InfoToken {
                                    token: crate::tokeniser::copy_token(&t.token),
                                    idx: t.idx,
                                };
                                let ghost cv = info_token_view(copied);
                                cur.push(copied);
                                proof {
                                    assert(cv == pv[k as int]);
                                    assert(tokens_view(cur@) =~= curv.push(pv[k as int]));
                                }
                            }
                            k += 1;
                        }
                        let ghost segsv0 = crate::tokeniser::token_lists_view(segs@);
                        let ghost curv0 = tokens_view(cur@);
                        segs.push(cur);
                        proof {
                            assert(crate::tokeniser::token_lists_view(segs@) =~= segsv0.push(
                                curv0,
                            ));
                        }
                        let ghost segsv = crate::tokeniser::token_lists_view(segs@);
                        proof {
                            assert(segsv == spec_split_segments(pv, 0, Seq::empty(), Seq::empty()));
                            lemma_split_segments_size(pv, 0, Seq::empty(), Seq::empty());
                            assert(pv.skip(0) =~= pv);
                        }
                        // Parse the non-empty segments in order.
                        let nsegs = segs.len();
                        let mut stmts: Vec<InfoExpr> = Vec::new();
                        let mut m: usize = 0;
                        proof {
                            assert(exprs_view(stmts@) =~= Seq::<InfoExprV>::empty());
                        }
                        while m < nsegs
                            invariant
                                m <= nsegs,
                                nsegs == segs@.len(),
                                segsv == crate::tokeniser::token_lists_view(segs@),
                                segsv.len() == nsegs,
                                lists_size(segsv) <= tokens_size(pv),
                                tokens_size(tv) >= 1 + tokens_size(pv),
                                spec_parse_segments(segsv, 0, Seq::empty()) == spec_parse_segments(
                                    segsv,
                                    m as int,
                                    exprs_view(stmts@),
                                ),
                            decreases nsegs - m,
                        {
                            let seg = &segs[m];
                            if seg.len() > 0 {
                                proof {
                                    lemma_lists_size_element(segsv, m as int);
                                }
                                let segc = copy_tokens_range(seg.as_slice(), 0, seg.len());
                                proof {
                                    assert(tokens_view(seg@).subrange(0, seg@.len() as int)
                                        =~= tokens_view(seg@));
                                }
                                let stmt = match parse_expression(segc.as_slice()) {
                                    Ok(v) => v,
                                    Err(e) => {
                                        return Err(e);
                                    },
                                };
                                let ghost before = exprs_view(stmts@);
                                let ghost stv = info_expr_view(stmt);
                                stmts.push(stmt);
                                proof {
                                    assert(exprs_view(stmts@) =~= before.push(stv));
                                }
                            }
                            m += 1;
                        }
                        let last_semi = if inner.len() > 0 {
                            match &inner[inner.len() - 1].token {
                                Token::Semicolon => true,
                                _ => false,
                            }
                        } else {
                            false
                        };
                        return Ok(
                            InfoExpr {
                                idx: tokens[0].idx,
                                expr: Expr::Block(stmts, !last_semi),
                            },
                        );
                    },
                    None => {},
                }
            }
            if n == 0 {
                Err(
                    InfoParseError {
                        idx: 0,
                        error: ParseError::ExpectedExpression(Vec::new()),
                    },
                )
            } else {
                proof {
                    assert(tokens_view(Seq::<InfoToken>::empty()) =~= Seq::<InfoTokenV>::empty());
                }
                Err(
                    InfoParseError {
                        idx: tokens[0].idx,
                        error: ParseError::ExpectedExpression(
                            crate::tokeniser::copy_tokens(tokens),
                        ),
                    },
                )
            }
        },
    }
}

} // verus!
