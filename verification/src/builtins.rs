//! The built-in function table: the names the evaluator consults before
//! user-function lookup, each with its declared signature.
//!
//! The evaluator itself executes `print` by appending to its output log;
//! `read_file` reads outside input and is performed by the driver around the
//! library, which hands the bytes back as plain values. The optional
//! dynamic-library call is left to the driver for the same reason.

use vstd::prelude::*;

use crate::typ::{signature_view, string_slice_view, unit_type_view, Signature, SignatureV, Type,
    TypeV};

verus! {

/// A built-in function: a name the evaluator recognises, with a declared
/// signature.
pub trait Builtin {
    /// The signature's mathematical view.
    spec fn spec_signature(&self) -> SignatureV;

    /// The declared signature.
    fn get_signature(&self) -> (s: Signature)
        ensures
            signature_view(s) == self.spec_signature(),
    ;
}

/// The `print` built-in: takes the capability token and a byte slice,
/// returns unit.
pub struct Print {}

/// The `read_file` built-in: takes the capability token and a path as a
/// byte slice, returns the file's bytes.
pub struct ReadFile {}

impl Builtin for Print {
    open spec fn spec_signature(&self) -> SignatureV {
        SignatureV {
            args: seq![TypeV::IO, string_slice_view()],
            returns: Box::new(unit_type_view()),
        }
    }

    fn get_signature(&self) -> (s: Signature) {
        broadcast use crate::typ::lemma_types_view;

        let mut args: Vec<Type> = Vec::new();
        args.push(Type::IO);
        args.push(Type::Slice(Box::new(Type::U8)));
        proof {
            assert(crate::typ::type_view(Type::IO) == TypeV::IO);
            assert(crate::typ::type_view(Type::U8) == TypeV::U8);
            assert(crate::typ::type_view(Type::Slice(Box::new(Type::U8))) == string_slice_view());
            assert(crate::typ::types_view(args@) =~= seq![TypeV::IO, string_slice_view()]);
            assert(crate::typ::types_view(Seq::<Type>::empty()) =~= Seq::<TypeV>::empty());
        }
        Signature { args, returns: Type::Tuple(Vec::new()) }
    }
}

impl Builtin for ReadFile {
    open spec fn spec_signature(&self) -> SignatureV {
        SignatureV {
            args: seq![TypeV::IO, string_slice_view()],
            returns: Box::new(string_slice_view()),
        }
    }

    fn get_signature(&self) -> (s: Signature) {
        broadcast use crate::typ::lemma_types_view;

        let mut args: Vec<Type> = Vec::new();
        args.push(Type::IO);
        args.push(Type::Slice(Box::new(Type::U8)));
        proof {
            assert(crate::typ::type_view(Type::IO) == TypeV::IO);
            assert(crate::typ::type_view(Type::U8) == TypeV::U8);
            assert(crate::typ::type_view(Type::Slice(Box::new(Type::U8))) == string_slice_view());
            assert(crate::typ::types_view(args@) =~= seq![TypeV::IO, string_slice_view()]);
        }
        Signature { args, returns: Type::Slice(Box::new(Type::U8)) }
    }
}

/// The built-in table: each name with its declared signature, `print` and
/// `read_file` in that order.
pub fn get_builtins() -> (r: Vec<(String, Signature)>)
    ensures
        r@.len() == 2,
        r@[0].0@ == "print"@,
        signature_view(r@[0].1) == (Print {}).spec_signature(),
        r@[1].0@ == "read_file"@,
        signature_view(r@[1].1) == (ReadFile {}).spec_signature(),
{
    let mut map: Vec<(String, Signature)> = Vec::new();
    let print_name: &str = "print";
    let read_file_name: &str = "read_file";
    map.push((print_name.to_owned(), (Print {}).get_signature()));
    map.push((read_file_name.to_owned(), (ReadFile {}).get_signature()));
    map
}

} // verus!
