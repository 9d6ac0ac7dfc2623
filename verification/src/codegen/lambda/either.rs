use vstd::prelude::*;

use crate::codegen::lambda::{pair, var, Expr, Term};

verus! {

pub open spec fn first_t(value: Term) -> Term {
    pair::new_t(Term::Var("0"@), value)
}

pub open spec fn second_t(value: Term) -> Term {
    pair::new_t(Term::Var("1"@), value)
}

pub fn first(value: Expr) -> (e: Expr)
    ensures
        e@ == first_t(value@),
{
    pair::new(var("0"), value)
}

pub fn second(value: Expr) -> (e: Expr)
    ensures
        e@ == second_t(value@),
{
    pair::new(var("1"), value)
}

pub fn is_second(either: Expr) -> (e: Expr)
    ensures
        e@ == pair::first_t(either@),
{
    pair::get_first(either)
}

pub fn unwrap(either: Expr) -> (e: Expr)
    ensures
        e@ == pair::second_t(either@),
{
    pair::get_second(either)
}

} // verus!
