//! Variable instructions: getting and setting locals and globals by their index.

use vstd::prelude::*;

use crate::codegen::lambda::instruction::{build_t, pop_range_t, push_defs_t, v, InstructionBuilder};
use crate::codegen::lambda::number::id_name_t;
use crate::codegen::lambda::{abs1, abs_t, app_t, apply1, locals, table, var, var_t, Expr, Term};
use crate::codegen::runtime::{RtState, RuntimeGenerator};

verus! {

/// A variable instruction: the definition named `name`, applied to the ID of the variable.
pub open spec fn variable_st(s: RtState, name: Seq<char>, def: Term, index: u32) -> RtState {
    s.def(name, def).with_id((index as u16) as u64)
}

pub open spec fn variable_t(name: Seq<char>, index: u32) -> Term {
    app_t(var_t(name), Term::Var(id_name_t((index as u16) as nat)))
}

pub open spec fn push_a() -> Seq<(Seq<char>, Term)> {
    push_defs_t(seq![var_t("a"@)])
}

pub open spec fn pop_a() -> Seq<(Seq<char>, Term)> {
    pop_range_t(seq!["a"@], 0)
}

pub open spec fn local_get_def_t() -> Term {
    abs_t("id"@, build_t(seq![("a"@, locals::index_t(v("L"@), var_t("id"@)))] + push_a()))
}

pub open spec fn local_set_def_t() -> Term {
    abs_t("id"@, build_t(pop_a() + seq![("L"@, locals::insert_t(v("L"@), var_t("id"@), var_t("a"@)))]))
}

pub open spec fn local_tee_def_t() -> Term {
    abs_t("id"@, build_t(seq![
        ("a"@, crate::codegen::lambda::data_stack::top_t(v("S"@))),
        ("L"@, locals::insert_t(v("L"@), var_t("id"@), var_t("a"@))),
    ]))
}

pub open spec fn global_get_def_t() -> Term {
    abs_t("id"@, build_t(seq![("a"@, table::index_t(v("G"@), var_t("id"@)))] + push_a()))
}

pub open spec fn global_set_def_t() -> Term {
    abs_t("id"@, build_t(pop_a() + seq![("G"@, table::insert_t(v("G"@), var_t("id"@), var_t("a"@)))]))
}

fn push_var_a(b: &mut InstructionBuilder)
    ensures
        final(b)@ == old(b)@ + push_a(),
{
    let items = vec![var("a")];
    proof {
        assert(items@.map_values(|i: Expr| i@) =~= seq![var_t("a"@)]);
    }
    b.push(items);
}

fn pop_into_a(b: &mut InstructionBuilder)
    ensures
        final(b)@ == old(b)@ + pop_a(),
{
    b.pop(&["a"]);
    proof {
        assert(["a"]@.map_values(|s: &str| s@) =~= seq!["a"@]);
    }
}

/// `local.get`: pushes the value of a local.
pub fn local_get(rt: &mut RuntimeGenerator, local_index: u32) -> (e: Expr)
    requires
        old(rt).wf(),
    ensures
        final(rt).wf(),
        final(rt).st() == variable_st(old(rt).st(), "LGet"@, local_get_def_t(), local_index),
        e@ == variable_t("LGet"@, local_index),
{
    if !rt.has("LGet") {
        let mut b = InstructionBuilder::new();
        b.get_local("a", var("id"));
        push_var_a(&mut b);
        proof {
            assert(b@ =~= seq![("a"@, locals::index_t(v("L"@), var_t("id"@)))] + push_a());
        }
        rt.def("LGet", abs1("id", b.build()));
    }
    let id = rt.id_const(local_index as u16);
    apply1(var("LGet"), id)
}

/// `local.set`: pops a value into a local.
pub fn local_set(rt: &mut RuntimeGenerator, local_index: u32) -> (e: Expr)
    requires
        old(rt).wf(),
    ensures
        final(rt).wf(),
        final(rt).st() == variable_st(old(rt).st(), "LSet"@, local_set_def_t(), local_index),
        e@ == variable_t("LSet"@, local_index),
{
    if !rt.has("LSet") {
        let mut b = InstructionBuilder::new();
        pop_into_a(&mut b);
        b.set_local(var("id"), var("a"));
        proof {
            assert(b@ =~= pop_a() + seq![("L"@, locals::insert_t(v("L"@), var_t("id"@), var_t("a"@)))]);
        }
        rt.def("LSet", abs1("id", b.build()));
    }
    let id = rt.id_const(local_index as u16);
    apply1(var("LSet"), id)
}

/// `local.tee`: copies the top of the stack into a local.
pub fn local_tee(rt: &mut RuntimeGenerator, local_index: u32) -> (e: Expr)
    requires
        old(rt).wf(),
    ensures
        final(rt).wf(),
        final(rt).st() == variable_st(old(rt).st(), "LTee"@, local_tee_def_t(), local_index),
        e@ == variable_t("LTee"@, local_index),
{
    if !rt.has("LTee") {
        let mut b = InstructionBuilder::new();
        b.get_top("a");
        b.set_local(var("id"), var("a"));
        proof {
            assert(b@ =~= seq![
                ("a"@, crate::codegen::lambda::data_stack::top_t(v("S"@))),
                ("L"@, locals::insert_t(v("L"@), var_t("id"@), var_t("a"@))),
            ]);
        }
        rt.def("LTee", abs1("id", b.build()));
    }
    let id = rt.id_const(local_index as u16);
    apply1(var("LTee"), id)
}

/// `global.get`: pushes the value of a global.
pub fn global_get(rt: &mut RuntimeGenerator, global_index: u32) -> (e: Expr)
    requires
        old(rt).wf(),
    ensures
        final(rt).wf(),
        final(rt).st() == variable_st(old(rt).st(), "GGet"@, global_get_def_t(), global_index),
        e@ == variable_t("GGet"@, global_index),
{
    if !rt.has("GGet") {
        let mut b = InstructionBuilder::new();
        b.get_global("a", var("id"));
        push_var_a(&mut b);
        proof {
            assert(b@ =~= seq![("a"@, table::index_t(v("G"@), var_t("id"@)))] + push_a());
        }
        rt.def("GGet", abs1("id", b.build()));
    }
    let id = rt.id_const(global_index as u16);
    apply1(var("GGet"), id)
}

/// `global.set`: pops a value into a global.
pub fn global_set(rt: &mut RuntimeGenerator, global_index: u32) -> (e: Expr)
    requires
        old(rt).wf(),
    ensures
        final(rt).wf(),
        final(rt).st() == variable_st(old(rt).st(), "GSet"@, global_set_def_t(), global_index),
        e@ == variable_t("GSet"@, global_index),
{
    if !rt.has("GSet") {
        let mut b = InstructionBuilder::new();
        pop_into_a(&mut b);
        b.set_global(var("id"), var("a"));
        proof {
            assert(b@ =~= pop_a() + seq![("G"@, table::insert_t(v("G"@), var_t("id"@), var_t("a"@)))]);
        }
        rt.def("GSet", abs1("id", b.build()));
    }
    let id = rt.id_const(global_index as u16);
    apply1(var("GSet"), id)
}

} // verus!
