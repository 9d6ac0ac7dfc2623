//! Lists that end with an explicit `Empty` marker, so that their length can be tested.

use vstd::prelude::*;

use crate::codegen::lambda::{
    abs2, abs_t, apply2, optional, pair, var, app2_t, Expr, LetExprBuilder, Term,
};

verus! {

pub open spec fn empty_t() -> Term {
    Term::Var("Empty"@)
}

pub open spec fn node_t(head: Term, tail: Term) -> Term {
    app2_t(Term::Var("C"@), head, tail)
}

/// The list of the given items, `items[0]` first.
pub open spec fn from_t(items: Seq<Term>) -> Term
    decreases items.len(),
{
    if items.len() == 0 {
        empty_t()
    } else {
        node_t(items[0], from_t(items.drop_first()))
    }
}

pub open spec fn is_not_empty_t(list: Term) -> Term {
    optional::is_some_t(list)
}

pub open spec fn head_t(list: Term) -> Term {
    pair::first_t(optional::unwrap_t(list))
}

pub open spec fn tail_t(list: Term) -> Term {
    pair::second_t(optional::unwrap_t(list))
}

/// The definitions of `Empty` and of the list constructor `C`.
pub open spec fn defs_t() -> Seq<(Seq<char>, Term)> {
    seq![
        ("Empty"@, optional::none_t()),
        (
            "C"@,
            abs_t(
                "head"@,
                abs_t("tail"@, optional::some_t(pair::new_t(Term::Var("head"@), Term::Var("tail"@)))),
            ),
        ),
    ]
}

pub fn empty() -> (e: Expr)
    ensures
        e@ == empty_t(),
{
    var("Empty")
}

pub fn node(head: Expr, tail: Expr) -> (e: Expr)
    ensures
        e@ == node_t(head@, tail@),
{
    apply2(var("C"), head, tail)
}

pub fn from(items: Vec<Expr>) -> (e: Expr)
    ensures
        e@ == from_t(items@.map_values(|i: Expr| i@)),
{
    let ghost all = items@.map_values(|i: Expr| i@);
    let mut items = items;
    let mut result = empty();
    proof {
        assert(all.skip(items.len() as int) =~= Seq::<Term>::empty());
    }
    while items.len() > 0
        invariant
            items.len() <= all.len(),
            forall|j: int| 0 <= j < items.len() ==> items@[j]@ == all[j],
            result@ == from_t(all.skip(items.len() as int)),
        decreases items.len(),
    {
        let ghost before = items@;
        let item = items.pop().unwrap();
        proof {
            assert(all.skip(items.len() as int).drop_first() =~= all.skip(items.len() + 1));
            assert(item == before[items.len() as int]);
        }
        result = node(item, result);
    }
    proof {
        assert(all.skip(0) =~= all);
    }
    result
}

pub fn is_not_empty(list: Expr) -> (e: Expr)
    ensures
        e@ == is_not_empty_t(list@),
{
    optional::is_some(list)
}

pub fn get_head(list: Expr) -> (e: Expr)
    ensures
        e@ == head_t(list@),
{
    pair::get_first(optional::unwrap(list))
}

pub fn get_tail(list: Expr) -> (e: Expr)
    ensures
        e@ == tail_t(list@),
{
    pair::get_second(optional::unwrap(list))
}

pub fn generate_defs(b: &mut LetExprBuilder)
    ensures
        final(b)@ == old(b)@ + defs_t(),
{
    let ghost start = b@;
    b.def("Empty", optional::none());
    b.def("C", abs2("head", "tail", optional::some(pair::new(var("head"), var("tail")))));
    proof {
        assert(b@ =~= start + defs_t());
    }
}

} // verus!
