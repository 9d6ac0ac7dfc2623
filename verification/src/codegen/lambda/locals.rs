//! Stack of tables. Every table represents a call frame and contains the locals of the
//! corresponding function.

use vstd::prelude::*;

use crate::codegen::lambda::{stack, table, Expr, Term};

verus! {

pub open spec fn new_t() -> Term {
    stack::empty_t()
}

pub open spec fn push_frame_t(locals: Term, items: Term) -> Term {
    stack::push_t(locals, items)
}

pub open spec fn pop_frame_t(locals: Term) -> Term {
    stack::pop_t(locals)
}

pub open spec fn index_t(locals: Term, local_id: Term) -> Term {
    table::index_t(stack::top_t(locals), local_id)
}

pub open spec fn insert_t(locals: Term, local_id: Term, value: Term) -> Term {
    stack::push_t(stack::pop_t(locals), table::insert_t(stack::top_t(locals), local_id, value))
}

pub fn new() -> (e: Expr)
    ensures
        e@ == new_t(),
{
    stack::empty()
}

pub fn push_frame(locals: Expr, items: Expr) -> (e: Expr)
    ensures
        e@ == push_frame_t(locals@, items@),
{
    stack::push(locals, items)
}

pub fn pop_frame(locals: Expr) -> (e: Expr)
    ensures
        e@ == pop_frame_t(locals@),
{
    stack::pop(locals)
}

pub fn index(locals: Expr, local_id: Expr) -> (e: Expr)
    ensures
        e@ == index_t(locals@, local_id@),
{
    table::index(stack::top(locals), local_id)
}

pub fn insert(locals: Expr, local_id: Expr, value: Expr) -> (e: Expr)
    ensures
        e@ == insert_t(locals@, local_id@, value@),
{
    let top_table = stack::top(locals.duplicate());
    let new_top = table::insert(top_table, local_id, value);
    stack::push(stack::pop(locals), new_top)
}

} // verus!
