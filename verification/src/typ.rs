//! The closed set of surface-language types, function signatures, and the
//! parser for type names.
//!
//! Each executable type has a mathematical view (`TypeV`, `SignatureV`) in
//! which vectors become sequences; contracts are phrased over those views.

use vstd::prelude::*;

use crate::expression_parser::{InfoParseError, ParseError};
use crate::tokeniser::{copy_tokens, str_eq, InfoToken, Token};

verus! {

/// A surface-language type. `Tuple(vec![])` is the unit (void) type; `Slice`
/// is a two-word pointer-plus-length value; `IO` is the zero-size capability
/// token threaded through effectful built-ins.
#[derive(Debug, PartialEq)]
pub enum Type {
    Usize,
    Tuple(Vec<Type>),
    Pointer(Pointer),
    U8,
    Slice(Box<Type>),
    Array(Box<Type>, usize),
    IO,
    Bool,
}

/// What a pointer refers to: a function with a signature, or a value.
#[derive(Debug, PartialEq)]
pub enum Pointer {
    Function(Box<Signature>),
    Value(Box<Type>),
}

/// Argument types plus return type of a function.
#[derive(Debug, PartialEq)]
pub struct Signature {
    pub args: Vec<Type>,
    pub returns: Type,
}

/// The mathematical view of a `Type`.
pub enum TypeV {
    Usize,
    Tuple(Seq<TypeV>),
    Pointer(Box<PointerV>),
    U8,
    Slice(Box<TypeV>),
    Array(Box<TypeV>, usize),
    IO,
    Bool,
}

/// The mathematical view of a `Pointer`.
pub enum PointerV {
    Function(Box<SignatureV>),
    Value(Box<TypeV>),
}

/// The mathematical view of a `Signature`.
pub struct SignatureV {
    pub args: Seq<TypeV>,
    pub returns: Box<TypeV>,
}

pub open spec fn type_view(t: Type) -> TypeV
    decreases t,
{
    match t {
        Type::Usize => TypeV::Usize,
        Type::U8 => TypeV::U8,
        Type::IO => TypeV::IO,
        Type::Bool => TypeV::Bool,
        Type::Tuple(ts) => TypeV::Tuple(types_view(ts@)),
        Type::Pointer(p) => TypeV::Pointer(Box::new(pointer_view(p))),
        Type::Slice(b) => TypeV::Slice(Box::new(type_view(*b))),
        Type::Array(b, n) => TypeV::Array(Box::new(type_view(*b)), n),
    }
}

pub open spec fn types_view(s: Seq<Type>) -> Seq<TypeV>
    decreases s,
{
    if s.len() == 0 {
        Seq::empty()
    } else {
        seq![type_view(s[0])] + types_view(s.drop_first())
    }
}

/// How `types_view` relates to indexing.
pub broadcast proof fn lemma_types_view(s: Seq<Type>)
    ensures
        (#[trigger] types_view(s)).len() == s.len(),
        forall|i: int| 0 <= i < s.len() ==> #[trigger] types_view(s)[i] == type_view(s[i]),
    decreases s.len(),
{
    if s.len() > 0 {
        lemma_types_view(s.drop_first());
        assert forall|i: int| 0 <= i < s.len() implies #[trigger] types_view(s)[i] == type_view(
            s[i],
        ) by {
            if i > 0 {
                assert(types_view(s)[i] == types_view(s.drop_first())[i - 1]);
                assert(s.drop_first()[i - 1] == s[i]);
            }
        }
    }
}

pub open spec fn pointer_view(p: Pointer) -> PointerV
    decreases p,
{
    match p {
        Pointer::Function(s) => PointerV::Function(Box::new(signature_view(*s))),
        Pointer::Value(t) => PointerV::Value(Box::new(type_view(*t))),
    }
}

pub open spec fn signature_view(s: Signature) -> SignatureV
    decreases s,
{
    SignatureV { args: types_view(s.args@), returns: Box::new(type_view(s.returns)) }
}

/// The view of the unit type.
pub open spec fn unit_type_view() -> TypeV {
    TypeV::Tuple(Seq::empty())
}

/// The view of the byte-slice type that `StringSlice` names.
pub open spec fn string_slice_view() -> TypeV {
    TypeV::Slice(Box::new(TypeV::U8))
}

/// Structural equality of types, decided executably. Types are compared
/// structurally throughout the toolchain.
pub fn type_eq(a: &Type, b: &Type) -> (r: bool)
    ensures
        r <==> type_view(*a) == type_view(*b),
    decreases *a,
{
    broadcast use lemma_types_view;

    match (a, b) {
        (Type::Usize, Type::Usize) => true,
        (Type::U8, Type::U8) => true,
        (Type::IO, Type::IO) => true,
        (Type::Bool, Type::Bool) => true,
        (Type::Tuple(xs), Type::Tuple(ys)) => {
            if xs.len() != ys.len() {
                proof {
                    assert(types_view(xs@).len() != types_view(ys@).len());
                }
                return false;
            }
            let n = xs.len();
            let mut i: usize = 0;
            while i < n
                invariant
                    n == xs@.len() == ys@.len(),
                    i <= n,
                    *a == Type::Tuple(*xs),
                    *b == Type::Tuple(*ys),
                    forall|j: int| 0 <= j < i ==> type_view(xs@[j]) == type_view(ys@[j]),
                decreases n - i,
            {
                proof {
                    assert(decreases_to!(*a => a->Tuple_0));
                    assert(decreases_to!(*xs => xs@));
                    assert(decreases_to!(xs@ => xs@[i as int]));
                }
                if !type_eq(&xs[i], &ys[i]) {
                    proof {
                        lemma_types_view(xs@);
                        lemma_types_view(ys@);
                        assert(types_view(xs@)[i as int] != types_view(ys@)[i as int]);
                    }
                    return false;
                }
                i += 1;
            }
            proof {
                assert(types_view(xs@) =~= types_view(ys@));
            }
            true
        },
        (Type::Pointer(p), Type::Pointer(q)) => pointer_eq(p, q),
        (Type::Slice(x), Type::Slice(y)) => type_eq(x, y),
        (Type::Array(x, n), Type::Array(y, m)) => {
            if *n != *m {
                return false;
            }
            type_eq(x, y)
        },
        _ => false,
    }
}

/// Structural equality of pointer types.
pub fn pointer_eq(p: &Pointer, q: &Pointer) -> (r: bool)
    ensures
        r <==> pointer_view(*p) == pointer_view(*q),
    decreases *p,
{
    match (p, q) {
        (Pointer::Function(s), Pointer::Function(t)) => signature_eq(s, t),
        (Pointer::Value(x), Pointer::Value(y)) => type_eq(x, y),
        _ => false,
    }
}

/// Structural equality of signatures.
pub fn signature_eq(s: &Signature, t: &Signature) -> (r: bool)
    ensures
        r <==> signature_view(*s) == signature_view(*t),
    decreases *s,
{
    broadcast use lemma_types_view;

    if s.args.len() != t.args.len() {
        proof {
            assert(types_view(s.args@).len() != types_view(t.args@).len());
        }
        return false;
    }
    let n = s.args.len();
    let mut i: usize = 0;
    while i < n
        invariant
            n == s.args@.len() == t.args@.len(),
            i <= n,
            forall|j: int| 0 <= j < i ==> type_view(s.args@[j]) == type_view(t.args@[j]),
        decreases n - i,
    {
        proof {
            assert(decreases_to!(*s => s.args));
            assert(decreases_to!(s.args => s.args@));
            assert(decreases_to!(s.args@ => s.args@[i as int]));
        }
        if !type_eq(&s.args[i], &t.args[i]) {
            proof {
                lemma_types_view(s.args@);
                lemma_types_view(t.args@);
                assert(types_view(s.args@)[i as int] != types_view(t.args@)[i as int]);
            }
            return false;
        }
        i += 1;
    }
    proof {
        assert(types_view(s.args@) =~= types_view(t.args@));
    }
    if !type_eq(&s.returns, &t.returns) {
        return false;
    }
    true
}

/// What reading one type name yields: `StringSlice` names the byte slice
/// type and `IO` the capability token; every other token is a type error
/// carrying the whole token list.
pub open spec fn spec_get_type(ts: Seq<crate::tokeniser::InfoTokenV>, i: int) -> Result<
    TypeV,
    crate::expression_parser::InfoParseErrorV,
> {
    if 0 <= i < ts.len() {
        match ts[i].token {
            crate::tokeniser::TokenV::Name(n) => if n == "StringSlice"@ {
                Ok(string_slice_view())
            } else if n == "IO"@ {
                Ok(TypeV::IO)
            } else {
                Err(
                    crate::expression_parser::InfoParseErrorV {
                        idx: ts[i].idx,
                        error: crate::expression_parser::ParseErrorV::TypeUndefined(ts),
                    },
                )
            },
            _ => Err(
                crate::expression_parser::InfoParseErrorV {
                    idx: ts[i].idx,
                    error: crate::expression_parser::ParseErrorV::TypeUndefined(ts),
                },
            ),
        }
    } else {
        Err(
            crate::expression_parser::InfoParseErrorV {
                idx: 0,
                error: crate::expression_parser::ParseErrorV::TypeUndefined(ts),
            },
        )
    }
}

/// Reads one type name from the token stream and advances the cursor by one.
/// `StringSlice` names the byte slice type and `IO` the capability token;
/// every other token is a type error carrying the token list.
pub fn get_type(tokens: &[InfoToken], i: &mut usize) -> (r: Result<Type, InfoParseError>)
    requires
        *old(i) < tokens@.len(),
    ensures
        *final(i) == *old(i) + 1,
        ({
            let sr = spec_get_type(crate::tokeniser::tokens_view(tokens@), *old(i) as int);
            match r {
                Ok(t) => sr matches Ok(tv) && tv == type_view(t),
                Err(e) => sr matches Err(ev) && ev
                    == crate::expression_parser::info_parse_error_view(e),
            }
        }),
        match r {
            Ok(t) => {
                &&& (type_view(t) == string_slice_view() || type_view(t) == TypeV::IO)
                &&& (type_view(t) == string_slice_view() <==> (tokens@[*old(i) as int].token
                    matches Token::Name(n) && n@ == "StringSlice"@))
                &&& (type_view(t) == TypeV::IO <==> (tokens@[*old(i) as int].token
                    matches Token::Name(n) && n@ == "IO"@))
            },
            Err(e) => {
                &&& !(tokens@[*old(i) as int].token matches Token::Name(n) && (n@ == "StringSlice"@
                    || n@ == "IO"@))
                &&& e.idx == tokens@[*old(i) as int].idx
                &&& e.error matches ParseError::TypeUndefined(ts)
                    && crate::tokeniser::tokens_view(ts@) == crate::tokeniser::tokens_view(
                    tokens@,
                )
            },
        },
{
    broadcast use vstd::string::group_string_axioms, crate::tokeniser::lemma_tokens_view;

    proof {
        assert(crate::tokeniser::tokens_view(tokens@)[*old(i) as int]
            == crate::tokeniser::info_token_view(tokens@[*old(i) as int]));
        reveal_strlit("StringSlice");
        reveal_strlit("IO");
        assert(type_view(Type::U8) == TypeV::U8);
        assert(type_view(Type::Slice(Box::new(Type::U8))) == string_slice_view());
        assert("StringSlice"@.len() == 11);
        assert("IO"@.len() == 2);
        assert("StringSlice"@ != "IO"@);
    }
    let rv: Result<Type, InfoParseError> = match &tokens[*i].token {
        Token::Name(name) if str_eq(name.as_str(), "StringSlice") => Ok(
            Type::Slice(Box::new(Type::U8)),
        ),
        Token::Name(name) if str_eq(name.as_str(), "IO") => Ok(Type::IO),
        _ => Err(
            InfoParseError {
                idx: tokens[*i].idx,
                error: ParseError::TypeUndefined(copy_tokens(tokens)),
            },
        ),
    };
    *i += 1;
    rv
}

/// Copies a type; the copy has the same view as the source.
pub fn copy_type(t: &Type) -> (r: Type)
    ensures
        type_view(r) == type_view(*t),
    decreases *t,
{
    broadcast use lemma_types_view;

    match t {
        Type::Usize => Type::Usize,
        Type::U8 => Type::U8,
        Type::IO => Type::IO,
        Type::Bool => Type::Bool,
        Type::Tuple(ts) => {
            let mut out: Vec<Type> = Vec::new();
            let n = ts.len();
            let mut i: usize = 0;
            while i < n
                invariant
                    n == ts@.len(),
                    i <= n,
                    out@.len() == i,
                    forall|j: int| 0 <= j < i ==> type_view(out@[j]) == type_view(ts@[j]),
                    *t == Type::Tuple(*ts),
                decreases n - i,
            {
                proof {
                    assert(decreases_to!(*t => t->Tuple_0));
                    assert(decreases_to!(*ts => ts@));
                    assert(decreases_to!(ts@ => ts@[i as int]));
                }
                let elem = copy_type(&ts[i]);
                out.push(elem);
                i += 1;
            }
            proof {
                assert(types_view(out@) =~= types_view(ts@));
            }
            Type::Tuple(out)
        },
        Type::Pointer(p) => Type::Pointer(copy_pointer(p)),
        Type::Slice(x) => Type::Slice(Box::new(copy_type(x))),
        Type::Array(x, n) => Type::Array(Box::new(copy_type(x)), *n),
    }
}

/// Copies a pointer type; the copy has the same view as the source.
pub fn copy_pointer(p: &Pointer) -> (r: Pointer)
    ensures
        pointer_view(r) == pointer_view(*p),
    decreases *p,
{
    match p {
        Pointer::Function(s) => Pointer::Function(Box::new(copy_signature(s))),
        Pointer::Value(x) => Pointer::Value(Box::new(copy_type(x))),
    }
}

/// Copies a signature; the copy has the same view as the source.
pub fn copy_signature(s: &Signature) -> (r: Signature)
    ensures
        signature_view(r) == signature_view(*s),
    decreases *s,
{
    broadcast use lemma_types_view;

    let mut args: Vec<Type> = Vec::new();
    let n = s.args.len();
    let mut i: usize = 0;
    while i < n
        invariant
            n == s.args@.len(),
            i <= n,
            args@.len() == i,
            forall|j: int| 0 <= j < i ==> type_view(args@[j]) == type_view(s.args@[j]),
        decreases n - i,
    {
        proof {
            assert(decreases_to!(*s => s.args));
            assert(decreases_to!(s.args => s.args@));
            assert(decreases_to!(s.args@ => s.args@[i as int]));
        }
        let elem = copy_type(&s.args[i]);
        args.push(elem);
        i += 1;
    }
    proof {
        assert(types_view(args@) =~= types_view(s.args@));
    }
    let ret = copy_type(&s.returns);
    Signature { args, returns: ret }
}

} // verus!
