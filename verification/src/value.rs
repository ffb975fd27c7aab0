//! Decoded protocol values and their mathematical model.

use vstd::prelude::*;

verus! {

/// One decoded protocol value.
///
/// `BulkString(None)` and `Array(None)` are the protocol's null bulk string
/// and null array: a declared length of `-1`, distinct from an empty value.
pub enum Type {
    /// The payload of a `+` line, verbatim.
    SimpleString(Vec<u8>),
    /// The payload of a `-` line, verbatim; an error reply.
    Error(Vec<u8>),
    /// The signed 64-bit value of a `:` line.
    Integer(i64),
    /// A length-prefixed, binary-safe payload of a `$` frame.
    BulkString(Option<Vec<u8>>),
    /// The elements of a `*` frame, in receipt order.
    Array(Option<Vec<Type>>),
}

/// The mathematical shape of a decoded value: what contracts speak of.
pub enum RespVal {
    SimpleString(Seq<u8>),
    Error(Seq<u8>),
    Integer(i64),
    BulkString(Option<Seq<u8>>),
    Array(Option<Seq<RespVal>>),
}

broadcast use vstd::std_specs::vec::group_vec_axioms;

/// The model of a decoded value, element by element.
pub open spec fn view_of(t: Type) -> RespVal
    decreases t, 0int,
{
    match t {
        Type::SimpleString(b) => RespVal::SimpleString(b@),
        Type::Error(b) => RespVal::Error(b@),
        Type::Integer(n) => RespVal::Integer(n),
        Type::BulkString(None) => RespVal::BulkString(None),
        Type::BulkString(Some(b)) => RespVal::BulkString(Some(b@)),
        Type::Array(None) => RespVal::Array(None),
        Type::Array(Some(elems)) => RespVal::Array(Some(vec_views(elems))),
    }
}

/// The models of the first `n` elements of `v`, in order.
pub open spec fn views_prefix(v: Vec<Type>, n: int) -> Seq<RespVal>
    decreases v, n,
{
    if 0 < n <= v.len() {
        views_prefix(v, n - 1).push(view_of(v[n - 1]))
    } else {
        Seq::empty()
    }
}

/// The models of the elements of `v`, in order.
pub open spec fn vec_views(v: Vec<Type>) -> Seq<RespVal>
    decreases v, v.len() as int + 1,
{
    views_prefix(v, v.len() as int)
}

/// `views_prefix` is the pointwise model of the first `n` elements.
pub broadcast proof fn lemma_views_prefix(v: Vec<Type>, n: int)
    requires
        0 <= n <= v.len(),
    ensures
        (#[trigger] views_prefix(v, n)).len() == n,
        forall|i: int| 0 <= i < n ==> views_prefix(v, n)[i] == view_of(v[i]),
    decreases n,
{
    if n > 0 {
        lemma_views_prefix(v, n - 1);
    }
}

/// The elements' models depend on the elements alone.
pub broadcast proof fn lemma_vec_views(v: Vec<Type>)
    ensures
        (#[trigger] vec_views(v)).len() == v.len(),
        forall|i: int| 0 <= i < v.len() ==> vec_views(v)[i] == view_of(v[i]),
{
    lemma_views_prefix(v, v.len() as int);
}

impl View for Type {
    type V = RespVal;

    open spec fn view(&self) -> RespVal {
        view_of(*self)
    }
}

} // verus!
