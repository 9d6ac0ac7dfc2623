//! Stack of stacks. Every substack represents a call *or* a block frame.

use vstd::prelude::*;

use crate::codegen::lambda::{stack, Expr, Term};

verus! {

pub open spec fn empty_t() -> Term {
    stack::empty_t()
}

pub open spec fn push_frame_t(s: Term) -> Term {
    stack::push_t(s, stack::empty_t())
}

pub open spec fn pop_frame_t(s: Term) -> Term {
    stack::pop_t(s)
}

pub open spec fn push_t(s: Term, item: Term) -> Term {
    stack::push_t(stack::pop_t(s), stack::push_t(stack::top_t(s), item))
}

pub open spec fn top_t(s: Term) -> Term {
    stack::top_t(stack::top_t(s))
}

pub open spec fn pop_t(s: Term) -> Term {
    stack::push_t(stack::pop_t(s), stack::pop_t(stack::top_t(s)))
}

pub fn empty() -> (e: Expr)
    ensures
        e@ == empty_t(),
{
    stack::empty()
}

pub fn push_frame(s: Expr) -> (e: Expr)
    ensures
        e@ == push_frame_t(s@),
{
    stack::push(s, stack::empty())
}

pub fn pop_frame(s: Expr) -> (e: Expr)
    ensures
        e@ == pop_frame_t(s@),
{
    stack::pop(s)
}

pub fn push(s: Expr, item: Expr) -> (e: Expr)
    ensures
        e@ == push_t(s@, item@),
{
    let top_stack = stack::top(s.duplicate());
    let new_top = stack::push(top_stack, item);
    stack::push(stack::pop(s), new_top)
}

pub fn top(s: Expr) -> (e: Expr)
    ensures
        e@ == top_t(s@),
{
    stack::top(stack::top(s))
}

pub fn pop(s: Expr) -> (e: Expr)
    ensures
        e@ == pop_t(s@),
{
    let top_stack = stack::top(s.duplicate());
    let new_top = stack::pop(top_stack);
    stack::push(stack::pop(s), new_top)
}

} // verus!
