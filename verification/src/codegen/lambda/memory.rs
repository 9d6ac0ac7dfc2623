//! The main memory: zero-initialized, indexed by 32 bits.

use vstd::prelude::*;

use crate::codegen::lambda::{app2_t, app3_t, tree, Expr, Term};

verus! {

pub open spec fn new_t() -> Term {
    tree::dummy_t(32)
}

pub open spec fn index_t(memory: Term, address: Term) -> Term {
    app2_t(Term::Var("IdxLE"@), memory, address)
}

pub open spec fn insert_t(memory: Term, address: Term, value: Term) -> Term {
    app3_t(Term::Var("InsLE"@), memory, address, value)
}

pub fn new() -> (e: Expr)
    ensures
        e@ == new_t(),
{
    tree::new(32)
}

pub fn index(memory: Expr, address: Expr) -> (e: Expr)
    ensures
        e@ == index_t(memory@, address@),
{
    tree::index_num(memory, address)
}

pub fn insert(memory: Expr, address: Expr, value: Expr) -> (e: Expr)
    ensures
        e@ == insert_t(memory@, address@, value@),
{
    tree::insert_num(memory, address, value)
}

} // verus!
