//! Lists without an end marker: the reader must know how many items there are.

use vstd::prelude::*;

use crate::codegen::lambda::{pair, unreachable_t, Expr, Term};

verus! {

pub open spec fn empty_t() -> Term {
    unreachable_t()
}

pub open spec fn node_t(head: Term, tail: Term) -> Term {
    pair::new_t(head, tail)
}

pub fn empty() -> (e: Expr)
    ensures
        e@ == empty_t(),
{
    crate::codegen::lambda::unreachable()
}

pub fn node(head: Expr, tail: Expr) -> (e: Expr)
    ensures
        e@ == node_t(head@, tail@),
{
    pair::new(head, tail)
}

pub fn get_head(list: Expr) -> (e: Expr)
    ensures
        e@ == pair::first_t(list@),
{
    pair::get_first(list)
}

pub fn get_tail(list: Expr) -> (e: Expr)
    ensures
        e@ == pair::second_t(list@),
{
    pair::get_second(list)
}

} // verus!
