//! The tokeniser for the surface language: it turns source text into a
//! stream of tokens, with parenthesised and brace-delimited groups read as
//! nested token lists, and maps source indices back to line and column.
//!
//! Source indices are character positions throughout: every token records
//! the character position it starts at, and the line/column mapper reads the
//! same convention back, so positions compose across nested groups. (On
//! ASCII input, character positions and byte offsets coincide.)
//!
//! Each executable token type has a mathematical view (`TokenV` and friends)
//! in which strings become character sequences and vectors become sequences;
//! contracts are phrased over those views.

use vstd::prelude::*;
use vstd::string::StrSliceExecFns;
use vstd::string::StringExecFns;

verus! {

/// The keywords of the surface language.
#[derive(Debug, Clone, Copy, PartialEq, Eq, Structural)]
pub enum Keyword {
    Let,
    Return,
    Fn,
}

/// The operators of the surface language. A call operator carries the token
/// lists of its comma-separated arguments.
#[derive(Debug, PartialEq)]
pub enum Operator {
    Dot,
    Call(Vec<Vec<InfoToken>>),
    Assign,
}

/// A literal: a double-quoted string or an unsigned byte number.
#[derive(Debug, Clone, PartialEq)]
pub enum Literal {
    String(String),
    Number(u8),
}

/// One token. Parens and Block carry the tokens inside the delimiters.
#[derive(Debug, PartialEq)]
pub enum Token {
    Name(String),
    Keyword(Keyword),
    Operator(Operator),
    Literal(Literal),
    Parens(Vec<InfoToken>),
    Block(Vec<InfoToken>),
    Semicolon,
    Colon,
    Comma,
}

/// A token together with the source index of its first character.
#[derive(Debug, PartialEq)]
pub struct InfoToken {
    pub token: Token,
    pub idx: usize,
}

/// A tokenise failure, with the source index it happened at.
#[derive(Debug, PartialEq)]
pub struct TokeniseErrorInfo {
    pub idx: usize,
    pub error: TokeniseError,
}

/// The ways tokenising can fail.
#[derive(Debug, PartialEq)]
pub enum TokeniseError {
    UnclosedParens,
    UnclosedQuotes,
    ExpectedToken(char),
    ExpectedNumber(String),
}

/// Returned when a source index lies past the end of the input.
#[derive(Debug, PartialEq)]
pub struct EOF {}

// Views.
/// The mathematical view of an `Operator`.
pub enum OperatorV {
    Dot,
    Call(Seq<Seq<InfoTokenV>>),
    Assign,
}

/// The mathematical view of a `Literal`.
pub enum LiteralV {
    Str(Seq<char>),
    Num(u8),
}

/// The mathematical view of a `Token`.
pub enum TokenV {
    Name(Seq<char>),
    Keyword(Keyword),
    Operator(Box<OperatorV>),
    Literal(LiteralV),
    Parens(Seq<InfoTokenV>),
    Block(Seq<InfoTokenV>),
    Semicolon,
    Colon,
    Comma,
}

/// The mathematical view of an `InfoToken`.
pub struct InfoTokenV {
    pub token: TokenV,
    pub idx: usize,
}

pub open spec fn literal_view(l: Literal) -> LiteralV {
    match l {
        Literal::String(s) => LiteralV::Str(s@),
        Literal::Number(n) => LiteralV::Num(n),
    }
}

pub open spec fn token_view(t: Token) -> TokenV
    decreases t,
{
    match t {
        Token::Name(s) => TokenV::Name(s@),
        Token::Keyword(k) => TokenV::Keyword(k),
        Token::Operator(op) => TokenV::Operator(Box::new(operator_view(op))),
        Token::Literal(l) => TokenV::Literal(literal_view(l)),
        Token::Parens(ts) => TokenV::Parens(tokens_view(ts@)),
        Token::Block(ts) => TokenV::Block(tokens_view(ts@)),
        Token::Semicolon => TokenV::Semicolon,
        Token::Colon => TokenV::Colon,
        Token::Comma => TokenV::Comma,
    }
}

pub open spec fn operator_view(op: Operator) -> OperatorV
    decreases op,
{
    match op {
        Operator::Dot => OperatorV::Dot,
        Operator::Assign => OperatorV::Assign,
        Operator::Call(argss) => OperatorV::Call(token_lists_view(argss@)),
    }
}

pub open spec fn info_token_view(t: InfoToken) -> InfoTokenV
    decreases t,
{
    InfoTokenV { token: token_view(t.token), idx: t.idx }
}

pub open spec fn tokens_view(s: Seq<InfoToken>) -> Seq<InfoTokenV>
    decreases s,
{
    if s.len() == 0 {
        Seq::empty()
    } else {
        seq![info_token_view(s[0])] + tokens_view(s.drop_first())
    }
}

pub open spec fn token_lists_view(s: Seq<Vec<InfoToken>>) -> Seq<Seq<InfoTokenV>>
    decreases s,
{
    if s.len() == 0 {
        Seq::empty()
    } else {
        seq![tokens_view(s[0]@)] + token_lists_view(s.drop_first())
    }
}

/// How `tokens_view` relates to indexing.
pub broadcast proof fn lemma_tokens_view(s: Seq<InfoToken>)
    ensures
        (#[trigger] tokens_view(s)).len() == s.len(),
        forall|i: int| 0 <= i < s.len() ==> #[trigger] tokens_view(s)[i] == info_token_view(s[i]),
    decreases s.len(),
{
    if s.len() > 0 {
        lemma_tokens_view(s.drop_first());
        assert forall|i: int| 0 <= i < s.len() implies #[trigger] tokens_view(s)[i]
            == info_token_view(s[i]) by {
            if i > 0 {
                assert(tokens_view(s)[i] == tokens_view(s.drop_first())[i - 1]);
                assert(s.drop_first()[i - 1] == s[i]);
            }
        }
    }
}

/// How `token_lists_view` relates to indexing.
pub broadcast proof fn lemma_token_lists_view(s: Seq<Vec<InfoToken>>)
    ensures
        (#[trigger] token_lists_view(s)).len() == s.len(),
        forall|i: int|
            0 <= i < s.len() ==> #[trigger] token_lists_view(s)[i] == tokens_view(s[i]@),
    decreases s.len(),
{
    if s.len() > 0 {
        lemma_token_lists_view(s.drop_first());
        assert forall|i: int| 0 <= i < s.len() implies #[trigger] token_lists_view(s)[i]
            == tokens_view(s[i]@) by {
            if i > 0 {
                assert(token_lists_view(s)[i] == token_lists_view(s.drop_first())[i - 1]);
                assert(s.drop_first()[i - 1] == s[i]);
            }
        }
    }
}

impl Operator {
    /// The binding strength used by the expression parser: the operator with
    /// the highest precedence found in a token list is split on first.
    pub fn precidence(&self) -> (p: i32)
        ensures
            p == spec_precidence(operator_view(*self)),
    {
        match self {
            Operator::Dot => 0,
            Operator::Call(_) => 1,
            Operator::Assign => 2,
        }
    }
}

/// The precedence of each operator.
pub open spec fn spec_precidence(op: OperatorV) -> i32 {
    match op {
        OperatorV::Dot => 0i32,
        OperatorV::Call(_) => 1i32,
        OperatorV::Assign => 2i32,
    }
}

/// The keyword spelled by a name, if any.
pub open spec fn spec_keyword(s: Seq<char>) -> Option<Keyword> {
    if s == "let"@ {
        Some(Keyword::Let)
    } else if s == "return"@ {
        Some(Keyword::Return)
    } else if s == "fn"@ {
        Some(Keyword::Fn)
    } else {
        None
    }
}

impl Keyword {
    /// The keyword a name spells, if any.
    pub fn from_name(value: &str) -> (r: Option<Keyword>)
        ensures
            r == spec_keyword(value@),
    {
        if str_eq(value, "let") {
            Some(Keyword::Let)
        } else if str_eq(value, "return") {
            Some(Keyword::Return)
        } else if str_eq(value, "fn") {
            Some(Keyword::Fn)
        } else {
            None
        }
    }
}

/// Character-for-character equality of two string slices.
pub fn str_eq(a: &str, b: &str) -> (r: bool)
    ensures
        r <==> a@ == b@,
{
    let n = a.unicode_len();
    let m = b.unicode_len();
    if n != m {
        return false;
    }
    let mut i: usize = 0;
    while i < n
        invariant
            n == a@.len() && n == b@.len(),
            i <= n,
            forall|j: int| 0 <= j < i ==> a@[j] == b@[j],
        decreases n - i,
    {
        if a.get_char(i) != b.get_char(i) {
            return false;
        }
        i += 1;
    }
    proof {
        assert(a@ =~= b@);
    }
    true
}

/// The line and column (both starting at 1) that the character position
/// `upto` of `s` falls on, computed by scanning the text before it.
pub open spec fn spec_line_col(s: Seq<char>, upto: int) -> (int, int)
    decreases upto,
{
    if upto <= 0 {
        (1, 1)
    } else {
        let prev = spec_line_col(s, upto - 1);
        if s[upto - 1] == '\n' {
            (prev.0 + 1, 1)
        } else {
            (prev.0, prev.1 + 1)
        }
    }
}

proof fn lemma_spec_line_col_bounds(s: Seq<char>, upto: int)
    requires
        0 <= upto,
    ensures
        1 <= spec_line_col(s, upto).0 <= upto + 1,
        1 <= spec_line_col(s, upto).1 <= upto + 1,
    decreases upto,
{
    if upto > 0 {
        lemma_spec_line_col_bounds(s, upto - 1);
    }
}

/// Maps a source index to its line and column, both starting at 1. An
/// index at or past the end of the input is `Err(EOF)`.
///
/// Indices are character positions, the same convention the tokeniser
/// records in every token, so an error's index can be handed straight back
/// here; on ASCII input this coincides with byte offsets.
pub fn get_line_and_column(input: &str, idx: usize) -> (r: Result<(usize, usize), EOF>)
    requires
        input@.len() < usize::MAX,
    ensures
        match r {
            Ok(lc) => {
                &&& idx < input@.len()
                &&& (lc.0 as int, lc.1 as int) == spec_line_col(input@, idx as int)
            },
            Err(_) => idx >= input@.len(),
        },
{
    let n = input.unicode_len();
    let mut col: usize = 1;
    let mut line: usize = 1;
    let mut i: usize = 0;
    while i < n
        invariant
            n == input@.len(),
            n < usize::MAX,
            i <= n,
            i <= idx,
            (line as int, col as int) == spec_line_col(input@, i as int),
            line <= i + 1,
            col <= i + 1,
        decreases n - i,
    {
        if i == idx {
            return Ok((line, col));
        }
        proof {
            lemma_spec_line_col_bounds(input@, i as int + 1);
        }
        if input.get_char(i) == '\n' {
            line = line + 1;
            col = 1;
        } else {
            col = col + 1;
        }
        i += 1;
    }
    Err(EOF {  })
}

// Deep copies. The verified code copies tokens explicitly so that the copy is
// known to have the same view as the source; a derived clone would say
// nothing.
/// Copies one token.
pub fn copy_token(t: &Token) -> (r: Token)
    ensures
        token_view(r) == token_view(*t),
    decreases *t,
{
    match t {
        Token::Name(s) => Token::Name(s.clone()),
        Token::Keyword(k) => Token::Keyword(*k),
        Token::Operator(op) => {
            proof {
                assert(decreases_to!(*t => t->Operator_0));
            }
            Token::Operator(copy_operator(op))
        },
        Token::Literal(l) => Token::Literal(
            match l {
                Literal::String(s) => Literal::String(s.clone()),
                Literal::Number(n) => Literal::Number(*n),
            },
        ),
        Token::Parens(ts) => {
            proof {
                assert(decreases_to!(*t => t->Parens_0));
            }
            Token::Parens(copy_tokens_vec(ts))
        },
        Token::Block(ts) => {
            proof {
                assert(decreases_to!(*t => t->Block_0));
            }
            Token::Block(copy_tokens_vec(ts))
        },
        Token::Semicolon => Token::Semicolon,
        Token::Colon => Token::Colon,
        Token::Comma => Token::Comma,
    }
}

/// Copies one operator.
pub fn copy_operator(op: &Operator) -> (r: Operator)
    ensures
        operator_view(r) == operator_view(*op),
    decreases *op,
{
    broadcast use {lemma_tokens_view, lemma_token_lists_view};

    match op {
        Operator::Dot => Operator::Dot,
        Operator::Assign => Operator::Assign,
        Operator::Call(argss) => {
            let mut out: Vec<Vec<InfoToken>> = Vec::new();
            let n = argss.len();
            let mut i: usize = 0;
            while i < n
                invariant
                    n == argss@.len(),
                    i <= n,
                    out@.len() == i,
                    forall|j: int| 0 <= j < i ==> tokens_view(out@[j]@) == tokens_view(
                        argss@[j]@,
                    ),
                    *op == Operator::Call(*argss),
                decreases n - i,
            {
                proof {
                    assert(decreases_to!(*op => op->Call_0));
                    assert(decreases_to!(*argss => argss@));
                    assert(decreases_to!(argss@ => argss@[i as int]));
                }
                let arg = copy_tokens_vec(&argss[i]);
                out.push(arg);
                i += 1;
            }
            proof {
                assert(token_lists_view(out@) =~= token_lists_view(argss@));
            }
            Operator::Call(out)
        },
    }
}

/// Copies a token list.
pub fn copy_tokens_vec(ts: &Vec<InfoToken>) -> (r: Vec<InfoToken>)
    ensures
        tokens_view(r@) == tokens_view(ts@),
    decreases *ts,
{
    broadcast use lemma_tokens_view;

    let mut out: Vec<InfoToken> = Vec::new();
    let n = ts.len();
    let mut i: usize = 0;
    while i < n
        invariant
            n == ts@.len(),
            i <= n,
            out@.len() == i,
            forall|j: int| 0 <= j < i ==> info_token_view(out@[j]) == info_token_view(ts@[j]),
        decreases n - i,
    {
        proof {
            assert(decreases_to!(*ts => ts@));
            assert(decreases_to!(ts@ => ts@[i as int]));
            assert(decreases_to!(ts@[i as int] => ts@[i as int].token));
        }
        let t = &ts[i];
        let copied = InfoToken { token: copy_token(&t.token), idx: t.idx };
        out.push(copied);
        i += 1;
    }
    proof {
        assert(tokens_view(out@) =~= tokens_view(ts@));
    }
    out
}

/// Copies a token slice into a vector.
pub fn copy_tokens(ts: &[InfoToken]) -> (r: Vec<InfoToken>)
    ensures
        tokens_view(r@) == tokens_view(ts@),
        r@.len() == ts@.len(),
{
    broadcast use lemma_tokens_view;

    let mut out: Vec<InfoToken> = Vec::new();
    let n = ts.len();
    let mut i: usize = 0;
    while i < n
        invariant
            n == ts@.len(),
            i <= n,
            out@.len() == i,
            forall|j: int| 0 <= j < i ==> info_token_view(out@[j]) == info_token_view(ts@[j]),
        decreases n - i,
    {
        let t = &ts[i];
        let copied = InfoToken { token: copy_token(&t.token), idx: t.idx };
        out.push(copied);
        i += 1;
    }
    proof {
        assert(tokens_view(out@) =~= tokens_view(ts@));
    }
    out
}

// Character classes. The Unicode tables behind these classifications are
// std's; each result is a function of the character alone and gets a name
// that the tokeniser's specification is phrased over.
/// What `char::is_alphabetic` returns.
pub uninterp spec fn char_is_alphabetic(c: char) -> bool;

/// Relies on char::is_alphabetic: the result depends on the character
/// alone; an alphabetic character is alphanumeric, and on ASCII input the
/// alphabetic characters are exactly the letters, both as std documents.
#[verifier::external_body]
pub fn is_alphabetic_char(c: char) -> (r: bool)
    ensures
        r == char_is_alphabetic(c),
        r ==> char_is_alphanumeric(c),
        ((c as u32) < 128) ==> (r <==> (65 <= c as u32 <= 90 || 97 <= c as u32 <= 122)),
{
    c.is_alphabetic()
}

/// What `char::is_alphanumeric` returns.
pub uninterp spec fn char_is_alphanumeric(c: char) -> bool;

/// Relies on char::is_alphanumeric: the result depends on the character
/// alone, and is alphabetic-or-numeric, exactly as std documents.
#[verifier::external_body]
pub fn is_alphanumeric_char(c: char) -> (r: bool)
    ensures
        r == char_is_alphanumeric(c),
        r <==> (char_is_alphabetic(c) || char_is_numeric(c)),
{
    c.is_alphanumeric()
}

/// What `char::is_numeric` returns.
pub uninterp spec fn char_is_numeric(c: char) -> bool;

/// Relies on char::is_numeric: the result depends on the character alone;
/// a numeric character is alphanumeric, and on ASCII input the numeric
/// characters are exactly the decimal digits, both as std documents.
#[verifier::external_body]
pub fn is_numeric_char(c: char) -> (r: bool)
    ensures
        r == char_is_numeric(c),
        r ==> char_is_alphanumeric(c),
        ((c as u32) < 128) ==> (r <==> 48 <= c as u32 <= 57),
{
    c.is_numeric()
}

/// What `char::is_whitespace` returns.
pub uninterp spec fn char_is_whitespace(c: char) -> bool;

/// Relies on char::is_whitespace: the result depends on the character
/// alone, and on ASCII input the whitespace characters are exactly space
/// and the five control characters tab through carriage return, as std
/// documents of the White_Space property.
#[verifier::external_body]
pub fn is_whitespace_char(c: char) -> (r: bool)
    ensures
        r == char_is_whitespace(c),
        ((c as u32) < 128) ==> (r <==> (c as u32 == 32 || (9 <= c as u32 <= 13))),
{
    c.is_whitespace()
}

/// Relies on String::push: it appends one character.
#[verifier::external_body]
pub fn push_char(s: &mut String, c: char)
    ensures
        final(s)@ == old(s)@.push(c),
{
    s.push(c);
}

/// A character that may continue a name: alphanumeric or an underscore.
pub open spec fn is_name_char(c: char) -> bool {
    char_is_alphanumeric(c) || c == '_'
}

/// A character that may continue a number: numeric or an underscore.
pub open spec fn is_number_char(c: char) -> bool {
    char_is_numeric(c) || c == '_'
}

/// The mathematical view of a tokenise failure.
pub struct TokeniseErrorInfoV {
    pub idx: usize,
    pub error: TokeniseErrorV,
}

/// The mathematical view of a tokenise error.
pub enum TokeniseErrorV {
    UnclosedParens,
    UnclosedQuotes,
    ExpectedToken(char),
    ExpectedNumber(Seq<char>),
}

pub open spec fn tokenise_error_view(e: TokeniseErrorInfo) -> TokeniseErrorInfoV {
    TokeniseErrorInfoV {
        idx: e.idx,
        error: match e.error {
            TokeniseError::UnclosedParens => TokeniseErrorV::UnclosedParens,
            TokeniseError::UnclosedQuotes => TokeniseErrorV::UnclosedQuotes,
            TokeniseError::ExpectedToken(c) => TokeniseErrorV::ExpectedToken(c),
            TokeniseError::ExpectedNumber(s) => TokeniseErrorV::ExpectedNumber(s@),
        },
    }
}

/// The position right after the run of name characters starting at `i`.
pub open spec fn spec_scan_name(s: Seq<char>, i: int) -> int
    decreases s.len() - i,
{
    if i < 0 || i >= s.len() || !is_name_char(s[i]) {
        i
    } else {
        spec_scan_name(s, i + 1)
    }
}

proof fn lemma_spec_scan_name_bounds(s: Seq<char>, i: int)
    requires
        0 <= i <= s.len(),
    ensures
        i <= spec_scan_name(s, i) <= s.len(),
    decreases s.len() - i,
{
    if !(i >= s.len() || !is_name_char(s[i])) {
        lemma_spec_scan_name_bounds(s, i + 1);
    }
}

/// The position right after the run of number characters starting at `i`.
pub open spec fn spec_scan_number(s: Seq<char>, i: int) -> int
    decreases s.len() - i,
{
    if i < 0 || i >= s.len() || !is_number_char(s[i]) {
        i
    } else {
        spec_scan_number(s, i + 1)
    }
}

proof fn lemma_spec_scan_number_bounds(s: Seq<char>, i: int)
    requires
        0 <= i <= s.len(),
    ensures
        i <= spec_scan_number(s, i) <= s.len(),
    decreases s.len() - i,
{
    if !(i >= s.len() || !is_number_char(s[i])) {
        lemma_spec_scan_number_bounds(s, i + 1);
    }
}

/// Whether every character of `s` is an ASCII decimal digit.
pub open spec fn digits_ok(s: Seq<char>) -> bool {
    forall|j: int| 0 <= j < s.len() ==> 48 <= (#[trigger] s[j]) as u32 <= 57
}

/// The decimal value of a digit string.
pub open spec fn digits_val(s: Seq<char>) -> int
    decreases s.len(),
{
    if s.len() == 0 {
        0
    } else {
        digits_val(s.drop_last()) * 10 + (s.last() as u32 - 48)
    }
}

/// What parsing an unsigned byte from a digit string yields: the value when
/// every character is an ASCII digit, there is at least one, and the value
/// fits in a byte; otherwise nothing.
pub open spec fn spec_parse_u8(s: Seq<char>) -> Option<u8> {
    if s.len() > 0 && digits_ok(s) && 0 <= digits_val(s) <= 255 {
        Some(digits_val(s) as u8)
    } else {
        None
    }
}

proof fn lemma_digits_val_nonneg(s: Seq<char>)
    requires
        digits_ok(s),
    ensures
        digits_val(s) >= 0,
    decreases s.len(),
{
    if s.len() > 0 {
        assert(digits_ok(s.drop_last()));
        lemma_digits_val_nonneg(s.drop_last());
        assert(digits_val(s.drop_last()) * 10 >= 0) by (nonlinear_arith)
            requires
                digits_val(s.drop_last()) >= 0,
        ;
    }
}

proof fn lemma_digits_val_monotone(s: Seq<char>, k: int)
    requires
        digits_ok(s),
        0 <= k <= s.len(),
    ensures
        digits_val(s) >= digits_val(s.take(k)),
    decreases s.len() - k,
{
    if k < s.len() {
        lemma_digits_val_monotone(s, k + 1);
        assert(s.take(k + 1).drop_last() =~= s.take(k));
        assert(s.take(k + 1).last() == s[k]);
        assert(digits_ok(s.take(k)));
        lemma_digits_val_nonneg(s.take(k));
        assert(digits_val(s.take(k)) * 10 >= digits_val(s.take(k))) by (nonlinear_arith)
            requires
                digits_val(s.take(k)) >= 0,
        ;
    } else {
        assert(s.take(k) =~= s);
    }
}

/// Parses an unsigned byte written in decimal.
pub fn parse_u8(s: &str) -> (r: Option<u8>)
    ensures
        r == spec_parse_u8(s@),
{
    let n = s.unicode_len();
    if n == 0 {
        return None;
    }
    let mut acc: u32 = 0;
    let mut i: usize = 0;
    proof {
        assert(s@.take(0) =~= Seq::<char>::empty());
    }
    while i < n
        invariant
            n == s@.len(),
            0 < n,
            i <= n,
            digits_ok(s@.take(i as int)),
            acc == digits_val(s@.take(i as int)),
            acc <= 255,
        decreases n - i,
    {
        let c = s.get_char(i);
        let u = c as u32;
        if u < 48 || u > 57 {
            proof {
                assert(!digits_ok(s@));
            }
            return None;
        }
        proof {
            assert(s@.take(i as int + 1).drop_last() =~= s@.take(i as int));
            assert(s@.take(i as int + 1).last() == s@[i as int]);
        }
        acc = acc * 10 + (u - 48);
        if acc > 255 {
            proof {
                if digits_ok(s@) {
                    lemma_digits_val_monotone(s@, i as int + 1);
                }
            }
            return None;
        }
        i += 1;
    }
    proof {
        assert(s@.take(n as int) =~= s@);
    }
    Some(acc as u8)
}

/// The paren scan: from `i`, with `depth` currently open delimiters and
/// `acc` the contents gathered so far, the gathered contents and the
/// position after the matching closer, or nothing when the input ends first.
pub open spec fn spec_scan_parens(
    s: Seq<char>,
    i: int,
    depth: int,
    acc: Seq<char>,
    open: char,
    close: char,
) -> Option<(Seq<char>, int)>
    decreases s.len() - i,
{
    if i < 0 || i >= s.len() {
        None
    } else {
        let c = s[i];
        if c == open {
            if depth + 1 == 1 {
                spec_scan_parens(s, i + 1, depth + 1, acc, open, close)
            } else {
                spec_scan_parens(s, i + 1, depth + 1, acc.push(open), open, close)
            }
        } else if c == close {
            if depth - 1 == 0 {
                Some((acc, i + 1))
            } else {
                spec_scan_parens(s, i + 1, depth - 1, acc.push(close), open, close)
            }
        } else {
            spec_scan_parens(s, i + 1, depth, acc.push(c), open, close)
        }
    }
}

/// The contents gathered by a paren scan, below the outermost delimiter,
/// are shorter than the region scanned: each step adds at most one
/// character, and the matching closer is left out.
pub proof fn lemma_scan_parens_bound(
    s: Seq<char>,
    i: int,
    depth: int,
    acc: Seq<char>,
    open: char,
    close: char,
)
    requires
        0 <= i,
        depth >= 1,
    ensures
        spec_scan_parens(s, i, depth, acc, open, close) matches Some(ce) ==> {
            &&& i < ce.1 <= s.len()
            &&& ce.0.len() + 1 <= acc.len() + ce.1 - i
        },
    decreases s.len() - i,
{
    if 0 <= i < s.len() {
        let c = s[i];
        if c == open {
            lemma_scan_parens_bound(s, i + 1, depth + 1, acc.push(open), open, close);
        } else if c == close {
            if depth - 1 == 0 {
            } else {
                lemma_scan_parens_bound(s, i + 1, depth - 1, acc.push(close), open, close);
            }
        } else {
            lemma_scan_parens_bound(s, i + 1, depth, acc.push(c), open, close);
        }
    }
}

/// A paren scan started on the opening delimiter gathers contents at least
/// two characters shorter than the region up to the matching closer.
pub proof fn lemma_scan_parens_top(s: Seq<char>, i: int, open: char, close: char)
    requires
        0 <= i < s.len(),
        s[i] == open,
    ensures
        spec_scan_parens(s, i, 0, Seq::empty(), open, close) matches Some(ce) ==> {
            &&& i < ce.1 <= s.len()
            &&& ce.0.len() + 2 <= ce.1 - i
            &&& ce.0.len() < s.len()
        },
{
    lemma_scan_parens_bound(s, i + 1, 1, Seq::empty(), open, close);
    assert(spec_scan_parens(s, i, 0, Seq::empty(), open, close) == spec_scan_parens(
        s,
        i + 1,
        1,
        Seq::empty(),
        open,
        close,
    ));
}

/// The position of the first double quote at or after `i`, or the input
/// length when there is none.
pub open spec fn spec_find_quote(s: Seq<char>, i: int) -> int
    decreases s.len() - i,
{
    if i < 0 || i >= s.len() {
        s.len() as int
    } else if s[i] == '"' {
        i
    } else {
        spec_find_quote(s, i + 1)
    }
}

proof fn lemma_spec_find_quote_bounds(s: Seq<char>, i: int)
    requires
        0 <= i <= s.len(),
    ensures
        i <= spec_find_quote(s, i) <= s.len(),
    decreases s.len() - i,
{
    if i < s.len() && s[i] != '"' {
        lemma_spec_find_quote_bounds(s, i + 1);
    }
}

/// Splits a call's inner token list on commas: every non-comma token joins
/// the current group, a comma opens a new one.
pub open spec fn spec_split_params_loop(
    tokens: Seq<InfoTokenV>,
    i: int,
    groups: Seq<Seq<InfoTokenV>>,
) -> Seq<Seq<InfoTokenV>>
    decreases tokens.len() - i,
{
    if i < 0 || i >= tokens.len() {
        groups
    } else {
        let t = tokens[i];
        if !(t.token is Comma) {
            if groups.len() > 0 {
                spec_split_params_loop(
                    tokens,
                    i + 1,
                    groups.update(groups.len() - 1, groups.last().push(t)),
                )
            } else {
                spec_split_params_loop(tokens, i + 1, seq![seq![t]])
            }
        } else {
            spec_split_params_loop(tokens, i + 1, groups.push(Seq::empty()))
        }
    }
}

/// The comma-separated argument groups of a call, with a trailing empty
/// group (from a trailing comma) dropped.
pub open spec fn spec_split_params(tokens: Seq<InfoTokenV>) -> Seq<Seq<InfoTokenV>> {
    let groups = spec_split_params_loop(tokens, 0, Seq::empty());
    if groups.len() > 0 && groups.last().len() == 0 {
        groups.drop_last()
    } else {
        groups
    }
}

/// What tokenising produces from position `i` on, given whether the last
/// token could be called (so that `(` starts an argument list) and the
/// tokens produced so far: the mirror of the `tokenise` loop.
pub open spec fn spec_tokenise(
    s: Seq<char>,
    offset: usize,
    i: int,
    should_call: bool,
    acc: Seq<InfoTokenV>,
) -> Result<Seq<InfoTokenV>, TokeniseErrorInfoV>
    decreases s.len(), 1int, s.len() - i,
    via spec_tokenise_decreases
{
    if i < 0 || i >= s.len() {
        Ok(acc)
    } else {
        let c = s[i];
        let idx = (offset + i) as usize;
        if char_is_alphabetic(c) || c == '_' {
            let end = spec_scan_name(s, i);
            let next = if end > i {
                end
            } else {
                i + 1
            };
            let name = s.subrange(i, next);
            let tok = match spec_keyword(name) {
                Some(k) => TokenV::Keyword(k),
                None => TokenV::Name(name),
            };
            spec_tokenise(s, offset, next, true, acc.push(InfoTokenV { token: tok, idx }))
        } else if c == '.' {
            spec_tokenise(
                s,
                offset,
                i + 1,
                false,
                acc.push(InfoTokenV { token: TokenV::Operator(Box::new(OperatorV::Dot)), idx }),
            )
        } else if c == '=' {
            spec_tokenise(
                s,
                offset,
                i + 1,
                false,
                acc.push(
                    InfoTokenV { token: TokenV::Operator(Box::new(OperatorV::Assign)), idx },
                ),
            )
        } else if c == ';' {
            spec_tokenise(
                s,
                offset,
                i + 1,
                false,
                acc.push(InfoTokenV { token: TokenV::Semicolon, idx }),
            )
        } else if c == ':' {
            spec_tokenise(
                s,
                offset,
                i + 1,
                false,
                acc.push(InfoTokenV { token: TokenV::Colon, idx }),
            )
        } else if c == ',' {
            spec_tokenise(
                s,
                offset,
                i + 1,
                false,
                acc.push(InfoTokenV { token: TokenV::Comma, idx }),
            )
        } else if c == '(' {
            match spec_scan_parens(s, i, 0, Seq::empty(), '(', ')') {
                None => Err(
                    TokeniseErrorInfoV { idx, error: TokeniseErrorV::UnclosedParens },
                ),
                Some(ce) => match spec_tokenise(
                    ce.0,
                    (offset + i + 1) as usize,
                    0,
                    false,
                    Seq::empty(),
                ) {
                    Err(e) => Err(e),
                    Ok(inner) => if should_call {
                        spec_tokenise(
                            s,
                            offset,
                            ce.1,
                            true,
                            acc.push(
                                InfoTokenV {
                                    token: TokenV::Operator(
                                        Box::new(OperatorV::Call(spec_split_params(inner))),
                                    ),
                                    idx,
                                },
                            ),
                        )
                    } else {
                        spec_tokenise(
                            s,
                            offset,
                            ce.1,
                            true,
                            acc.push(InfoTokenV { token: TokenV::Parens(inner), idx }),
                        )
                    },
                },
            }
        } else if c == '{' {
            match spec_scan_parens(s, i, 0, Seq::empty(), '{', '}') {
                None => Err(
                    TokeniseErrorInfoV { idx, error: TokeniseErrorV::UnclosedParens },
                ),
                Some(ce) => match spec_tokenise(
                    ce.0,
                    (offset + i + 1) as usize,
                    0,
                    false,
                    Seq::empty(),
                ) {
                    Err(e) => Err(e),
                    Ok(inner) => spec_tokenise(
                        s,
                        offset,
                        ce.1,
                        true,
                        acc.push(InfoTokenV { token: TokenV::Block(inner), idx }),
                    ),
                },
            }
        } else if c == '"' {
            let j = spec_find_quote(s, i + 1);
            if j >= s.len() {
                Err(TokeniseErrorInfoV { idx, error: TokeniseErrorV::UnclosedQuotes })
            } else {
                spec_tokenise(
                    s,
                    offset,
                    j + 1,
                    true,
                    acc.push(
                        InfoTokenV {
                            token: TokenV::Literal(LiteralV::Str(s.subrange(i + 1, j))),
                            idx,
                        },
                    ),
                )
            }
        } else if char_is_numeric(c) {
            let end = spec_scan_number(s, i);
            let digits = s.subrange(i, end);
            match spec_parse_u8(digits) {
                Some(v) => spec_tokenise(
                    s,
                    offset,
                    end,
                    true,
                    acc.push(
                        InfoTokenV { token: TokenV::Literal(LiteralV::Num(v)), idx },
                    ),
                ),
                None => Err(
                    TokeniseErrorInfoV { idx, error: TokeniseErrorV::ExpectedNumber(digits) },
                ),
            }
        } else if char_is_whitespace(c) {
            spec_tokenise(s, offset, i + 1, should_call, acc)
        } else {
            Err(TokeniseErrorInfoV { idx, error: TokeniseErrorV::ExpectedToken(c) })
        }
    }
}

#[via_fn]
proof fn spec_tokenise_decreases(
    s: Seq<char>,
    offset: usize,
    i: int,
    should_call: bool,
    acc: Seq<InfoTokenV>,
) {
    if 0 <= i < s.len() {
        lemma_spec_scan_name_bounds(s, i);
        lemma_spec_scan_number_bounds(s, i);
        lemma_spec_find_quote_bounds(s, i + 1);
        if s[i] == '(' {
            lemma_scan_parens_top(s, i, '(', ')');
        }
        if s[i] == '{' {
            lemma_scan_parens_top(s, i, '{', '}');
        }
        if char_is_numeric(s[i]) {
            assert(is_number_char(s[i]));
            lemma_spec_scan_number_bounds(s, i + 1);
            assert(spec_scan_number(s, i) == spec_scan_number(s, i + 1));
            assert(spec_scan_number(s, i) > i);
        }
    }
}

/// Reads a run of name characters starting at `*i`, advancing past it; a
/// keyword name becomes a keyword token.
#[verifier::loop_isolation(false)]
fn read_name(input: &str, i: &mut usize, offset: usize) -> (r: InfoToken)
    requires
        *old(i) <= input@.len(),
        offset + input@.len() <= usize::MAX,
    ensures
        *final(i) == spec_scan_name(input@, *old(i) as int),
        *old(i) <= *final(i) <= input@.len(),
        info_token_view(r) == (InfoTokenV {
            idx: (offset + *old(i)) as usize,
            token: ({
                let name = input@.subrange(*old(i) as int, *final(i) as int);
                match spec_keyword(name) {
                    Some(k) => TokenV::Keyword(k),
                    None => TokenV::Name(name),
                }
            }),
        }),
{
    let n = input.unicode_len();
    let start = *i;
    let mut name = String::new();
    let mut stopped = false;
    proof {
        assert(name@ =~= input@.subrange(start as int, start as int));
    }
    while !stopped && *i < n
        invariant
            n == input@.len(),
            start <= *i <= n,
            offset + n <= usize::MAX,
            name@ == input@.subrange(start as int, *i as int),
            spec_scan_name(input@, start as int) == spec_scan_name(input@, *i as int),
            stopped ==> spec_scan_name(input@, *i as int) == *i,
        decreases n - *i, (if stopped { 0int } else { 1int }),
    {
        let c = input.get_char(*i);
        if !(is_alphanumeric_char(c) || c == '_') {
            stopped = true;
        } else {
            push_char(&mut name, c);
            proof {
                assert(name@ =~= input@.subrange(start as int, *i as int + 1));
            }
            *i += 1;
        }
    }
    proof {
        if !stopped {
            assert(spec_scan_name(input@, *i as int) == *i);
        }
    }
    let token = match Keyword::from_name(name.as_str()) {
        Some(k) => Token::Keyword(k),
        None => Token::Name(name),
    };
    InfoToken { token, idx: offset + start }
}

/// Reads a run of number characters starting at `*i`, advancing past it;
/// the run must spell an unsigned byte.
#[verifier::loop_isolation(false)]
fn read_number(input: &str, i: &mut usize, offset: usize) -> (r: Result<
    InfoToken,
    TokeniseErrorInfo,
>)
    requires
        *old(i) <= input@.len(),
        offset + input@.len() <= usize::MAX,
    ensures
        *final(i) == spec_scan_number(input@, *old(i) as int),
        *old(i) <= *final(i) <= input@.len(),
        ({
            let digits = input@.subrange(*old(i) as int, *final(i) as int);
            match spec_parse_u8(digits) {
                Some(v) => r matches Ok(t) && info_token_view(t) == (InfoTokenV {
                    idx: (offset + *old(i)) as usize,
                    token: TokenV::Literal(LiteralV::Num(v)),
                }),
                None => r matches Err(e) && tokenise_error_view(e) == (TokeniseErrorInfoV {
                    idx: (offset + *old(i)) as usize,
                    error: TokeniseErrorV::ExpectedNumber(digits),
                }),
            }
        }),
{
    let n = input.unicode_len();
    let start = *i;
    let mut number = String::new();
    let mut stopped = false;
    proof {
        assert(number@ =~= input@.subrange(start as int, start as int));
    }
    while !stopped && *i < n
        invariant
            n == input@.len(),
            start <= *i <= n,
            offset + n <= usize::MAX,
            number@ == input@.subrange(start as int, *i as int),
            spec_scan_number(input@, start as int) == spec_scan_number(input@, *i as int),
            stopped ==> spec_scan_number(input@, *i as int) == *i,
        decreases n - *i, (if stopped { 0int } else { 1int }),
    {
        let c = input.get_char(*i);
        if !(is_numeric_char(c) || c == '_') {
            stopped = true;
        } else {
            push_char(&mut number, c);
            proof {
                assert(number@ =~= input@.subrange(start as int, *i as int + 1));
            }
            *i += 1;
        }
    }
    proof {
        if !stopped {
            assert(spec_scan_number(input@, *i as int) == *i);
        }
    }
    match parse_u8(number.as_str()) {
        Some(v) => Ok(
            InfoToken { token: Token::Literal(Literal::Number(v)), idx: offset + start },
        ),
        None => Err(
            TokeniseErrorInfo {
                idx: offset + start,
                error: TokeniseError::ExpectedNumber(number),
            },
        ),
    }
}

/// Reads a double-quoted string literal starting at the opening quote,
/// advancing past the closing quote.
#[verifier::loop_isolation(false)]
fn read_string(input: &str, i: &mut usize, offset: usize) -> (r: Result<
    InfoToken,
    TokeniseErrorInfo,
>)
    requires
        *old(i) < input@.len(),
        offset + input@.len() <= usize::MAX,
    ensures
        ({
            let j = spec_find_quote(input@, *old(i) as int + 1);
            if j >= input@.len() {
                &&& r matches Err(e) && tokenise_error_view(e) == (TokeniseErrorInfoV {
                    idx: (*old(i) + offset) as usize,
                    error: TokeniseErrorV::UnclosedQuotes,
                })
                &&& *final(i) == input@.len()
            } else {
                &&& r matches Ok(t) && info_token_view(t) == (InfoTokenV {
                    idx: (offset + *old(i)) as usize,
                    token: TokenV::Literal(
                        LiteralV::Str(input@.subrange(*old(i) as int + 1, j)),
                    ),
                })
                &&& *final(i) == j + 1
            }
        }),
{
    let n = input.unicode_len();
    let start = *i;
    let mut contents = String::new();
    *i += 1;
    proof {
        assert(contents@ =~= input@.subrange(start as int + 1, start as int + 1));
    }
    while *i < n
        invariant
            n == input@.len(),
            start < *i <= n,
            offset + n <= usize::MAX,
            contents@ == input@.subrange(start as int + 1, *i as int),
            spec_find_quote(input@, start as int + 1) == spec_find_quote(input@, *i as int),
        decreases n - *i,
    {
        let c = input.get_char(*i);
        if c == '"' {
            proof {
                assert(spec_find_quote(input@, *i as int) == *i);
            }
            *i += 1;
            return Ok(
                InfoToken {
                    idx: offset + start,
                    token: Token::Literal(Literal::String(contents)),
                },
            );
        }
        push_char(&mut contents, c);
        proof {
            assert(contents@ =~= input@.subrange(start as int + 1, *i as int + 1));
        }
        *i += 1;
    }
    proof {
        assert(spec_find_quote(input@, *i as int) == input@.len());
    }
    Err(TokeniseErrorInfo { idx: start + offset, error: TokeniseError::UnclosedQuotes })
}

/// Reads a delimited group starting at the opening delimiter, gathering the
/// characters between the outermost pair and tokenising them; advances past
/// the matching closing delimiter.
#[verifier::rlimit(60)]
#[verifier::loop_isolation(false)]
fn read_parens(input: &str, i: &mut usize, offset: usize, open: char, close: char) -> (r: Result<
    InfoToken,
    TokeniseErrorInfo,
>)
    requires
        *old(i) < input@.len(),
        input@[*old(i) as int] == open,
        offset + input@.len() <= usize::MAX,
    ensures
        ({
            match spec_scan_parens(input@, *old(i) as int, 0, Seq::empty(), open, close) {
                None => r matches Err(e) && tokenise_error_view(e) == (TokeniseErrorInfoV {
                    idx: (*old(i) + offset) as usize,
                    error: TokeniseErrorV::UnclosedParens,
                }),
                Some(ce) => {
                    &&& *final(i) == ce.1
                    &&& match spec_tokenise(
                        ce.0,
                        (offset + *old(i) + 1) as usize,
                        0,
                        false,
                        Seq::empty(),
                    ) {
                        Err(ev) => r matches Err(e) && tokenise_error_view(e) == ev,
                        Ok(inner) => r matches Ok(t) && info_token_view(t) == (InfoTokenV {
                            idx: (offset + *old(i)) as usize,
                            token: TokenV::Parens(inner),
                        }),
                    }
                },
            }
        }),
    decreases input@.len(), 0int,
{
    let n = input.unicode_len();
    let start = *i;
    let mut contents = String::new();
    let mut depth: usize = 1;
    *i += 1;
    proof {
        assert(contents@ =~= Seq::<char>::empty());
        assert(spec_scan_parens(input@, start as int, 0, Seq::empty(), open, close)
            == spec_scan_parens(input@, start as int + 1, 1, Seq::empty(), open, close));
    }
    while *i < n
        invariant
            n == input@.len(),
            start < *i <= n,
            offset + n <= usize::MAX,
            1 <= depth <= *i - start,
            spec_scan_parens(input@, start as int, 0, Seq::empty(), open, close)
                == spec_scan_parens(input@, *i as int, depth as int, contents@, open, close),
        decreases n - *i,
    {
        let c = input.get_char(*i);
        if c == open {
            depth += 1;
            push_char(&mut contents, open);
        } else if c == close {
            depth -= 1;
            if depth == 0 {
                proof {
                    assert(spec_scan_parens(input@, *i as int, 1, contents@, open, close)
                        == Some((contents@, *i + 1 as int)));
                }
                *i += 1;
                proof {
                    lemma_scan_parens_top(input@, start as int, open, close);
                }
                let inner = match tokenise(contents.as_str(), offset + start + 1) {
                    Ok(ts) => ts,
                    Err(e) => {
                        return Err(e);
                    },
                };
                return Ok(InfoToken { idx: offset + start, token: Token::Parens(inner) });
            }
            push_char(&mut contents, close);
        } else {
            push_char(&mut contents, c);
        }
        *i += 1;
    }
    Err(TokeniseErrorInfo { idx: start + offset, error: TokeniseError::UnclosedParens })
}


/// Splits a call's inner tokens into comma-separated argument groups,
/// dropping a trailing empty group.
#[verifier::rlimit(60)]
#[verifier::loop_isolation(false)]
fn split_call_params(inner: Vec<InfoToken>) -> (r: Vec<Vec<InfoToken>>)
    ensures
        token_lists_view(r@) == spec_split_params(tokens_view(inner@)),
{
    broadcast use lemma_tokens_view, lemma_token_lists_view;

    let ghost innerv = tokens_view(inner@);
    let mut inner = inner;
    let mut param_tokens: Vec<Vec<InfoToken>> = Vec::new();
    let ghost k: int = 0;
    proof {
        assert(token_lists_view(param_tokens@) =~= Seq::<Seq<InfoTokenV>>::empty());
        assert(tokens_view(inner@).skip(0) =~= innerv);
    }
    while inner.len() > 0
        invariant
            0 <= k <= innerv.len(),
            tokens_view(inner@) == innerv.skip(k),
            inner@.len() == innerv.len() - k,
            spec_split_params_loop(innerv, 0, Seq::empty()) == spec_split_params_loop(
                innerv,
                k,
                token_lists_view(param_tokens@),
            ),
        decreases inner@.len(),
    {
        let ghost old_inner = inner@;
        let tok = inner.remove(0);
        let ghost tokv = info_token_view(tok);
        proof {
            assert(tokens_view(old_inner)[0] == tokv);
            assert(innerv.skip(k)[0] == innerv[k]);
            assert(tokv == innerv[k]);
            assert(inner@ =~= old_inner.drop_first());
            assert(tokens_view(inner@).len() == innerv.skip(k + 1).len());
            assert forall|j: int| 0 <= j < inner@.len() implies #[trigger] tokens_view(inner@)[j]
                == innerv.skip(k + 1)[j] by {
                assert(inner@[j] == old_inner[j + 1]);
                assert(tokens_view(old_inner)[j + 1] == info_token_view(old_inner[j + 1]));
                assert(innerv.skip(k)[j + 1] == innerv[k + 1 + j]);
                assert(innerv.skip(k + 1)[j] == innerv[k + 1 + j]);
            }
            assert(tokens_view(inner@) =~= innerv.skip(k + 1));
        }
        let ghost groupsv = token_lists_view(param_tokens@);
        let is_comma = match &tok.token {
            Token::Comma => true,
            _ => false,
        };
        if !is_comma {
            if param_tokens.len() > 0 {
                let mut last = match param_tokens.pop() {
                    Some(g) => g,
                    None => vstd::pervasive::unreached(),
                };
                let ghost lastv = tokens_view(last@);
                proof {
                    assert(lastv == groupsv.last());
                }
                last.push(tok);
                proof {
                    assert(tokens_view(last@) =~= lastv.push(tokv));
                }
                param_tokens.push(last);
                proof {
                    assert(token_lists_view(param_tokens@) =~= groupsv.update(
                        groupsv.len() - 1,
                        groupsv.last().push(tokv),
                    ));
                }
            } else {
                let mut g: Vec<InfoToken> = Vec::new();
                g.push(tok);
                proof {
                    assert(tokens_view(g@) =~= seq![tokv]);
                }
                param_tokens.push(g);
                proof {
                    assert(token_lists_view(param_tokens@) =~= seq![seq![tokv]]);
                }
            }
        } else {
            let g: Vec<InfoToken> = Vec::new();
            proof {
                assert(tokens_view(g@) =~= Seq::<InfoTokenV>::empty());
            }
            param_tokens.push(g);
            proof {
                assert(token_lists_view(param_tokens@) =~= groupsv.push(
                    Seq::<InfoTokenV>::empty(),
                ));
            }
        }
        proof {
            k = k + 1;
        }
    }
    proof {
        assert(k == innerv.len());
    }
    let nparams = param_tokens.len();
    if nparams > 0 {
        let last_empty = param_tokens[nparams - 1].len() == 0;
        if last_empty {
            let ghost groupsv = token_lists_view(param_tokens@);
            param_tokens.pop();
            proof {
                assert(token_lists_view(param_tokens@) =~= groupsv.drop_last());
            }
        }
    }
    param_tokens
}

/// Turns source text into tokens. `offset` is added to every source index,
/// so that nested group contents report positions in the original text.
#[verifier::rlimit(100)]
#[verifier::loop_isolation(false)]
pub fn tokenise(input: &str, offset: usize) -> (r: Result<Vec<InfoToken>, TokeniseErrorInfo>)
    requires
        offset + input@.len() <= usize::MAX,
    ensures
        ({
            let sr = spec_tokenise(input@, offset, 0, false, Seq::empty());
            match r {
                Ok(ts) => sr matches Ok(tv) && tv == tokens_view(ts@),
                Err(e) => sr matches Err(ev) && ev == tokenise_error_view(e),
            }
        }),
    decreases input@.len(), 1int,
{
    broadcast use lemma_tokens_view, lemma_token_lists_view;

    let n = input.unicode_len();
    let mut out: Vec<InfoToken> = Vec::new();
    let mut i: usize = 0;
    let mut should_call = false;
    proof {
        assert(tokens_view(out@) =~= Seq::<InfoTokenV>::empty());
    }
    while i < n
        invariant
            i <= n,
            spec_tokenise(input@, offset, 0, false, Seq::empty()) == spec_tokenise(
                input@,
                offset,
                i as int,
                should_call,
                tokens_view(out@),
            ),
        decreases n - i,
    {
        let ghost accv = tokens_view(out@);
        let c = input.get_char(i);
        if is_alphabetic_char(c) || c == '_' {
            proof {
                lemma_spec_scan_name_bounds(input@, i as int + 1);
                assert(is_name_char(input@[i as int]));
                assert(spec_scan_name(input@, i as int) == spec_scan_name(input@, i as int + 1));
            }
            let t = read_name(input, &mut i, offset);
            let ghost tv = info_token_view(t);
            out.push(t);
            proof {
                assert(tokens_view(out@) =~= accv.push(tv));
            }
            should_call = true;
        } else if c == '.' {
            let t = InfoToken { token: Token::Operator(Operator::Dot), idx: offset + i };
            let ghost tv = info_token_view(t);
            out.push(t);
            proof {
                assert(tokens_view(out@) =~= accv.push(tv));
            }
            i += 1;
            should_call = false;
        } else if c == '=' {
            let t = InfoToken { token: Token::Operator(Operator::Assign), idx: offset + i };
            let ghost tv = info_token_view(t);
            out.push(t);
            proof {
                assert(tokens_view(out@) =~= accv.push(tv));
            }
            i += 1;
            should_call = false;
        } else if c == ';' {
            let t = InfoToken { token: Token::Semicolon, idx: offset + i };
            let ghost tv = info_token_view(t);
            out.push(t);
            proof {
                assert(tokens_view(out@) =~= accv.push(tv));
            }
            i += 1;
            should_call = false;
        } else if c == ':' {
            let t = InfoToken { token: Token::Colon, idx: offset + i };
            let ghost tv = info_token_view(t);
            out.push(t);
            proof {
                assert(tokens_view(out@) =~= accv.push(tv));
            }
            i += 1;
            should_call = false;
        } else if c == ',' {
            let t = InfoToken { token: Token::Comma, idx: offset + i };
            let ghost tv = info_token_view(t);
            out.push(t);
            proof {
                assert(tokens_view(out@) =~= accv.push(tv));
            }
            i += 1;
            should_call = false;
        } else if c == '(' {
            proof {
                lemma_scan_parens_top(input@, i as int, '(', ')');
            }
            let read_call = match read_parens(input, &mut i, offset, '(', ')') {
                Ok(t) => t,
                Err(e) => {
                    return Err(e);
                },
            };
            if should_call {
                let (inner, call_idx) = match read_call {
                    InfoToken { token: Token::Parens(ts), idx } => (ts, idx),
                    _ => vstd::pervasive::unreached(),
                };
                let param_tokens = split_call_params(inner);
                let t = InfoToken {
                    token: Token::Operator(Operator::Call(param_tokens)),
                    idx: call_idx,
                };
                let ghost tv = info_token_view(t);
                out.push(t);
                proof {
                    assert(tokens_view(out@) =~= accv.push(tv));
                }
            } else {
                let ghost tv = info_token_view(read_call);
                out.push(read_call);
                proof {
                    assert(tokens_view(out@) =~= accv.push(tv));
                }
            }
            should_call = true;
        } else if c == '{' {
            proof {
                lemma_scan_parens_top(input@, i as int, '{', '}');
            }
            let parens = match read_parens(input, &mut i, offset, '{', '}') {
                Ok(t) => t,
                Err(e) => {
                    return Err(e);
                },
            };
            let t = match parens {
                InfoToken { token: Token::Parens(contents), idx } => InfoToken {
                    token: Token::Block(contents),
                    idx,
                },
                _ => vstd::pervasive::unreached(),
            };
            let ghost tv = info_token_view(t);
            out.push(t);
            proof {
                assert(tokens_view(out@) =~= accv.push(tv));
            }
            should_call = true;
        } else if c == '"' {
            proof {
                lemma_spec_find_quote_bounds(input@, i as int + 1);
            }
            let t = match read_string(input, &mut i, offset) {
                Ok(t) => t,
                Err(e) => {
                    return Err(e);
                },
            };
            let ghost tv = info_token_view(t);
            out.push(t);
            proof {
                assert(tokens_view(out@) =~= accv.push(tv));
            }
            should_call = true;
        } else if is_numeric_char(c) {
            proof {
                lemma_spec_scan_number_bounds(input@, i as int + 1);
                assert(is_number_char(input@[i as int]));
                assert(spec_scan_number(input@, i as int) == spec_scan_number(
                    input@,
                    i as int + 1,
                ));
            }
            let t = match read_number(input, &mut i, offset) {
                Ok(t) => t,
                Err(e) => {
                    return Err(e);
                },
            };
            let ghost tv = info_token_view(t);
            out.push(t);
            proof {
                assert(tokens_view(out@) =~= accv.push(tv));
            }
            should_call = true;
        } else if is_whitespace_char(c) {
            i += 1;
        } else {
            return Err(
                TokeniseErrorInfo { idx: offset + i, error: TokeniseError::ExpectedToken(c) },
            );
        }
    }
    Ok(out)
}

/// The UTF-8 bytes of a string.
pub fn string_bytes(s: &String) -> (r: Vec<u8>)
    ensures
        r@ == vstd::utf8::encode_utf8(s@),
{
    s.as_str().as_bytes_vec()
}

} // verus!
