//! Arithmetic on numbers represented as lists of bits.

pub mod arithmetic;
pub mod comparisons;
pub mod conversions;
pub mod logical;
pub mod sums;

use vstd::prelude::*;

use crate::codegen::lambda::{bit, bit_t, select, select_t, Expr, Term};

verus! {

pub open spec fn bit_not_t(a: Term) -> Term {
    select_t(a, bit_t(true), bit_t(false))
}

pub open spec fn bit_and_t(a: Term, b: Term) -> Term {
    select_t(a, bit_t(false), b)
}

pub open spec fn bit_or_t(a: Term, b: Term) -> Term {
    select_t(a, b, bit_t(true))
}

pub open spec fn bit_xor_t(a: Term, b: Term) -> Term {
    select_t(a, b, bit_not_t(b))
}

pub open spec fn bit_equal_t(a: Term, b: Term) -> Term {
    select_t(a, bit_not_t(b), b)
}

fn bit_not(a: Expr) -> (e: Expr)
    ensures
        e@ == bit_not_t(a@),
{
    select(a, bit(true), bit(false))
}

fn bit_and(a: Expr, b: Expr) -> (e: Expr)
    ensures
        e@ == bit_and_t(a@, b@),
{
    select(a, bit(false), b)
}

fn bit_or(a: Expr, b: Expr) -> (e: Expr)
    ensures
        e@ == bit_or_t(a@, b@),
{
    select(a, b, bit(true))
}

fn bit_xor(a: Expr, b: Expr) -> (e: Expr)
    ensures
        e@ == bit_xor_t(a@, b@),
{
    let not_b = bit_not(b.duplicate());
    select(a, b, not_b)
}

fn bit_equal(a: Expr, b: Expr) -> (e: Expr)
    ensures
        e@ == bit_equal_t(a@, b@),
{
    let not_b = bit_not(b.duplicate());
    select(a, not_b, b)
}

} // verus!
