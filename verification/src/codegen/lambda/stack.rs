use vstd::prelude::*;

use crate::codegen::lambda::{pair, unsafe_list, Expr, Term};

verus! {

pub open spec fn empty_t() -> Term {
    unsafe_list::empty_t()
}

pub open spec fn push_t(stack: Term, item: Term) -> Term {
    unsafe_list::node_t(item, stack)
}

pub open spec fn top_t(stack: Term) -> Term {
    pair::first_t(stack)
}

pub open spec fn pop_t(stack: Term) -> Term {
    pair::second_t(stack)
}

pub fn empty() -> (e: Expr)
    ensures
        e@ == empty_t(),
{
    unsafe_list::empty()
}

pub fn push(stack: Expr, item: Expr) -> (e: Expr)
    ensures
        e@ == push_t(stack@, item@),
{
    unsafe_list::node(item, stack)
}

pub fn top(stack: Expr) -> (e: Expr)
    ensures
        e@ == top_t(stack@),
{
    unsafe_list::get_head(stack)
}

pub fn pop(stack: Expr) -> (e: Expr)
    ensures
        e@ == pop_t(stack@),
{
    unsafe_list::get_tail(stack)
}

} // verus!
