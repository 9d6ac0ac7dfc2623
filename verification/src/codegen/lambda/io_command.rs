//! I/O commands are what a program hands to the interpreter: exit, output a byte and continue,
//! or read a byte and continue with a function of it.

use vstd::prelude::*;

use crate::codegen::lambda::{either, optional, pair, Expr, Term};

verus! {

pub open spec fn exit_t() -> Term {
    optional::none_t()
}

pub open spec fn output_t(out_byte: Term, next: Term) -> Term {
    optional::some_t(either::first_t(pair::new_t(out_byte, next)))
}

pub open spec fn input_t(input_func: Term) -> Term {
    optional::some_t(either::second_t(input_func))
}

pub fn exit() -> (e: Expr)
    ensures
        e@ == exit_t(),
{
    optional::none()
}

pub fn output(out_byte: Expr, next: Expr) -> (e: Expr)
    ensures
        e@ == output_t(out_byte@, next@),
{
    optional::some(either::first(pair::new(out_byte, next)))
}

pub fn input(input_func: Expr) -> (e: Expr)
    ensures
        e@ == input_t(input_func@),
{
    optional::some(either::second(input_func))
}

} // verus!
