//! Tables store functions, globals and local frames. They use 16-bit indexing by IDs because
//! 65536 entities are enough for this project.

use vstd::prelude::*;

use crate::codegen::lambda::{app2_t, app3_t, tree, Expr, Term};

verus! {

pub open spec fn from_t(items: Seq<Term>) -> Term {
    tree::from_t(16, items)
}

pub open spec fn index_t(table: Term, address: Term) -> Term {
    app2_t(Term::Var("IdxBE"@), table, address)
}

pub open spec fn insert_t(table: Term, address: Term, value: Term) -> Term {
    app3_t(Term::Var("InsBE"@), table, address, value)
}

pub fn from(items: Vec<Expr>) -> (e: Expr)
    ensures
        e@ == from_t(items@.map_values(|i: Expr| i@)),
{
    tree::from(16, items)
}

pub fn index(table: Expr, address: Expr) -> (e: Expr)
    ensures
        e@ == index_t(table@, address@),
{
    tree::index_id(table, address)
}

pub fn insert(table: Expr, address: Expr, value: Expr) -> (e: Expr)
    ensures
        e@ == insert_t(table@, address@, value@),
{
    tree::insert_id(table, address, value)
}

} // verus!
