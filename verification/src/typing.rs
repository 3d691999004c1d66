//! The minimal type system: integers and pointers to other types.

use vstd::prelude::*;

verus! {

/// A scalar type of the source language: `int`, or a pointer to another type.
#[derive(Debug, PartialEq, Eq)]
pub enum Type {
    Int,
    Ptr(Box<Type>),
}

impl Clone for Type {
    fn clone(&self) -> (r: Type)
        ensures
            r == *self,
        decreases *self,
    {
        match self {
            Type::Int => Type::Int,
            Type::Ptr(t) => Type::Ptr(Box::new((**t).clone())),
        }
    }
}

/// Character-wise string comparison, so that equality of two `&str` values
/// can be stated over their views.
pub fn str_eq(a: &str, b: &str) -> (r: bool)
    ensures
        r == (a@ == b@),
{
    let alen = a.unicode_len();
    let blen = b.unicode_len();
    if alen != blen {
        assert(a@.len() != b@.len());
        return false;
    }
    let mut i: usize = 0;
    while i < alen
        invariant
            i <= alen,
            alen == a@.len(),
            alen == b@.len(),
            forall|j: int| 0 <= j < i ==> a@[j] == b@[j],
        decreases alen - i,
    {
        if a.get_char(i) != b.get_char(i) {
            return false;
        }
        i = i + 1;
    }
    assert(a@ =~= b@);
    true
}

/// Maps a base type name to its `Type`. Only `int` is a known base type;
/// every other name is rejected.
pub fn get_type(name: &str) -> (r: Option<Type>)
    ensures
        r is Some <==> name@ == "int"@,
        r is Some ==> r == Some(Type::Int),
{
    if str_eq(name, "int") {
        Some(Type::Int)
    } else {
        None
    }
}

} // verus!
