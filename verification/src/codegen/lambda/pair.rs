use vstd::prelude::*;

use crate::codegen::lambda::{
    abs_t, apply1, apply2, abs2, abs1, app_t, app2_t, var, Expr, LetExprBuilder, Term,
};

verus! {

pub open spec fn new_t(first: Term, second: Term) -> Term {
    app2_t(Term::Var("P"@), first, second)
}

pub open spec fn first_t(pair: Term) -> Term {
    app_t(pair, Term::Var("0"@))
}

pub open spec fn second_t(pair: Term) -> Term {
    app_t(pair, Term::Var("1"@))
}

/// The definition of the pair constructor `P`.
pub open spec fn defs_t() -> Seq<(Seq<char>, Term)> {
    seq![
        (
            "P"@,
            abs_t(
                "first"@,
                abs_t(
                    "second"@,
                    abs_t("g"@, app2_t(Term::Var("g"@), Term::Var("first"@), Term::Var("second"@))),
                ),
            ),
        ),
    ]
}

pub fn new(first: Expr, second: Expr) -> (e: Expr)
    ensures
        e@ == new_t(first@, second@),
{
    apply2(var("P"), first, second)
}

pub fn get_first(pair: Expr) -> (e: Expr)
    ensures
        e@ == first_t(pair@),
{
    apply1(pair, var("0"))
}

pub fn get_second(pair: Expr) -> (e: Expr)
    ensures
        e@ == second_t(pair@),
{
    apply1(pair, var("1"))
}

/// Selects the first item if `selector` is 0 and the second one if it is 1.
pub fn select(pair: Expr, selector: Expr) -> (e: Expr)
    ensures
        e@ == app_t(pair@, selector@),
{
    apply1(pair, selector)
}

pub fn generate_defs(b: &mut LetExprBuilder)
    ensures
        final(b)@ == old(b)@ + defs_t(),
{
    let body = abs1("g", apply2(var("g"), var("first"), var("second")));
    b.def("P", abs2("first", "second", body));
    proof {
        assert(final(b)@ =~= old(b)@ + defs_t());
    }
}

} // verus!
