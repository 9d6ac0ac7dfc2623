//! Parametric instructions: `drop` and `select`.

use vstd::prelude::*;

use crate::codegen::lambda::instruction::{build_t, pop_range_t, push_defs_t, InstructionBuilder};
use crate::codegen::lambda::{app_t, select_t, var, var_t, Expr, Term};
use crate::codegen::runtime::math::comparisons::{eqz_st, is_zero};
use crate::codegen::runtime::{RtState, RuntimeGenerator};

verus! {

pub open spec fn drop_def_t() -> Term {
    build_t(pop_range_t(seq!["a"@], 0))
}

pub open spec fn drop_st(s: RtState) -> RtState {
    s.def("Drop"@, drop_def_t())
}

/// `drop`: discards the top of the stack.
pub fn drop(rt: &mut RuntimeGenerator) -> (e: Expr)
    requires
        old(rt).wf(),
    ensures
        final(rt).wf(),
        final(rt).st() == drop_st(old(rt).st()),
        e@ == var_t("Drop"@),
{
    if !rt.has("Drop") {
        let mut b = InstructionBuilder::new();
        b.pop(&["a"]);
        proof {
            assert(["a"]@.map_values(|s: &str| s@) =~= seq!["a"@]);
        }
        rt.def("Drop", b.build());
    }
    var("Drop")
}

pub open spec fn select_vars() -> Seq<Seq<char>> {
    seq!["val_if_not_zero"@, "val_if_zero"@, "x"@]
}

pub open spec fn select_def_t() -> Term {
    build_t(pop_range_t(select_vars(), 0) + push_defs_t(seq![select_t(
        app_t(var_t("EQZ"@), var_t("x"@)),
        var_t("val_if_not_zero"@),
        var_t("val_if_zero"@),
    )]))
}

pub open spec fn select_st(s: RtState) -> RtState {
    if s.has("Select"@) {
        s
    } else {
        eqz_st(s).def("Select"@, select_def_t())
    }
}

/// `select`: keeps the first of two values if the third is not zero, else the second.
pub fn select(rt: &mut RuntimeGenerator) -> (e: Expr)
    requires
        old(rt).wf(),
    ensures
        final(rt).wf(),
        final(rt).st() == select_st(old(rt).st()),
        e@ == var_t("Select"@),
{
    if !rt.has("Select") {
        let mut b = InstructionBuilder::new();
        b.pop(&["val_if_not_zero", "val_if_zero", "x"]);
        proof {
            assert(["val_if_not_zero", "val_if_zero", "x"]@.map_values(|s: &str| s@) =~= select_vars());
        }
        let cond = is_zero(rt, var("x"));
        let chosen = crate::codegen::lambda::select(cond, var("val_if_not_zero"), var("val_if_zero"));
        let items = vec![chosen];
        proof {
            assert(items@.map_values(|i: Expr| i@) =~= seq![items@[0]@]);
        }
        b.push(items);
        rt.def("Select", b.build());
    }
    var("Select")
}

} // verus!
