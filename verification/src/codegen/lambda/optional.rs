use vstd::prelude::*;

use crate::codegen::lambda::{either, pair, unreachable_t, Expr, Term};

verus! {

pub open spec fn none_t() -> Term {
    either::first_t(unreachable_t())
}

pub open spec fn some_t(value: Term) -> Term {
    either::second_t(value)
}

pub open spec fn is_some_t(optional: Term) -> Term {
    pair::first_t(optional)
}

pub open spec fn unwrap_t(optional: Term) -> Term {
    pair::second_t(optional)
}

pub fn none() -> (e: Expr)
    ensures
        e@ == none_t(),
{
    either::first(crate::codegen::lambda::unreachable())
}

pub fn some(value: Expr) -> (e: Expr)
    ensures
        e@ == some_t(value@),
{
    either::second(value)
}

pub fn is_some(optional: Expr) -> (e: Expr)
    ensures
        e@ == is_some_t(optional@),
{
    either::is_second(optional)
}

pub fn unwrap(optional: Expr) -> (e: Expr)
    ensures
        e@ == unwrap_t(optional@),
{
    either::unwrap(optional)
}

} // verus!
