//! Input and output: the bodies of the imported `input`, `output` and `exit` functions.

use vstd::prelude::*;

use crate::codegen::lambda::instruction::{
    build_exit_t, build_input_t, build_output_t, pop_range_t, push_defs_t, v, InstructionBuilder,
};
use crate::codegen::lambda::number::{make_i32, null_byte};
use crate::codegen::lambda::{apps_t, list, optional, select, select_t, stack, var, var_t, Expr, Term};
use crate::codegen::runtime::math::conversions::{i32_to_byte, split_st, split_t};
use crate::codegen::runtime::{num_t, RtState, RuntimeGenerator};

verus! {

/// The definitions of a return to the code segment on top of the trace.
pub open spec fn ret_defs_t() -> Seq<(Seq<char>, Term)> {
    seq![
        ("_ret"@, stack::top_t(v("T"@))),
        ("T"@, stack::pop_t(v("T"@))),
        ("N"@, v("_ret"@)),
    ]
}

pub open spec fn output_def_t() -> Term {
    build_output_t(
        pop_range_t(seq!["a"@], 0) + ret_defs_t(),
        list::head_t(split_t(var_t("a"@), 32, 8)),
    )
}

pub open spec fn output_st(s: RtState) -> RtState {
    if s.has("Output"@) {
        s
    } else {
        split_st(s, 32, 8).def("Output"@, output_def_t())
    }
}

/// Pops a 32-bit number, writes its lowest byte to the output and returns.
pub fn output_and_return(rt: &mut RuntimeGenerator) -> (e: Expr)
    requires
        old(rt).wf(),
    ensures
        final(rt).wf(),
        final(rt).st() == output_st(old(rt).st()),
        e@ == var_t("Output"@),
{
    if !rt.has("Output") {
        let mut b = InstructionBuilder::new();
        b.pop(&["a"]);
        proof {
            assert(["a"]@.map_values(|s: &str| s@) =~= seq!["a"@]);
        }
        let byte = i32_to_byte(rt, var("a"));
        b.ret();
        proof {
            assert(b@ =~= pop_range_t(seq!["a"@], 0) + ret_defs_t());
        }
        rt.def("Output", b.build_output(byte));
    }
    var("Output")
}

/// What `input` pushes: the byte read as a 32-bit number, or `u32::MAX` at the end of the input.
pub open spec fn input_item_t() -> Term {
    select_t(
        optional::is_some_t(var_t("inp"@)),
        num_t(false, 0xffff_ffff),
        apps_t(Term::Var("I32"@), seq![
            Term::Var("0b"@),
            Term::Var("0b"@),
            Term::Var("0b"@),
            optional::unwrap_t(var_t("inp"@)),
        ]),
    )
}

pub open spec fn input_def_t() -> Term {
    build_input_t(push_defs_t(seq![input_item_t()]) + ret_defs_t(), "inp"@)
}

pub open spec fn input_st(s: RtState) -> RtState {
    if s.has("Input"@) {
        s
    } else {
        s.with_i32(0xffff_ffff).def("Input"@, input_def_t())
    }
}

/// Reads a byte from the input, pushes it (or `u32::MAX` if there is none) and returns.
pub fn input_and_return(rt: &mut RuntimeGenerator) -> (e: Expr)
    requires
        old(rt).wf(),
    ensures
        final(rt).wf(),
        final(rt).st() == input_st(old(rt).st()),
        e@ == var_t("Input"@),
{
    if !rt.has("Input") {
        let mut b = InstructionBuilder::new();
        let invalid_input = rt.i32_const(0xffff_ffff);
        let bytes = vec![null_byte(), null_byte(), null_byte(), optional::unwrap(var("inp"))];
        proof {
            assert(bytes@.map_values(|x: Expr| x@) =~= seq![
                Term::Var("0b"@),
                Term::Var("0b"@),
                Term::Var("0b"@),
                optional::unwrap_t(var_t("inp"@)),
            ]);
        }
        let byte_as_i32 = make_i32(bytes);
        let item = select(optional::is_some(var("inp")), invalid_input, byte_as_i32);
        let items = vec![item];
        proof {
            assert(items@.map_values(|i: Expr| i@) =~= seq![input_item_t()]);
        }
        b.push(items);
        b.ret();
        proof {
            assert(b@ =~= push_defs_t(seq![input_item_t()]) + ret_defs_t());
        }
        rt.def("Input", b.build_input("inp"));
    }
    var("Input")
}

pub open spec fn exit_st(s: RtState) -> RtState {
    s.def("Exit"@, build_exit_t())
}

/// Exits the program.
pub fn exit(rt: &mut RuntimeGenerator) -> (e: Expr)
    requires
        old(rt).wf(),
    ensures
        final(rt).wf(),
        final(rt).st() == exit_st(old(rt).st()),
        e@ == var_t("Exit"@),
{
    if !rt.has("Exit") {
        let b = InstructionBuilder::new();
        rt.def("Exit", b.build_exit());
    }
    var("Exit")
}

} // verus!
