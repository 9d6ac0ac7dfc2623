//! Traps: what happens when the program reaches a state that WASM does not allow.

use vstd::prelude::*;

use crate::codegen::lambda::code::single;
use crate::codegen::lambda::instruction::{build_t, build_with_t, exec_t, push_defs_t, v, InstructionBuilder};
use crate::codegen::lambda::number::id_name_t;
use crate::codegen::lambda::{
    abs1, abs_t, app_t, apply1, data_stack, io_command, locals, optional, select, select_t, stack,
    table, unreachable_t, var, var_t, Expr, Term,
};
use crate::codegen::runtime::global_ids::TRAP_HANDLER_GLOBAL_ID;
use crate::codegen::runtime::instructions::io::{exit, exit_st};
use crate::codegen::runtime::{num_t, RtState, RuntimeGenerator};

verus! {

pub open spec fn handler_id_t() -> Term {
    Term::Var(id_name_t(0xfffe))
}

pub open spec fn init_trap_def_t() -> Term {
    abs_t("handle_trap"@, build_t(seq![("G"@, table::insert_t(v("G"@), handler_id_t(), var_t("handle_trap"@)))]))
}

pub open spec fn set_trap_handler_st(s: RtState) -> RtState {
    if s.has("InitTrap"@) {
        s
    } else {
        s.with_id(0xfffe).def("InitTrap"@, init_trap_def_t())
    }
}

/// Installs the given code as the trap handler, or removes the handler.
pub fn set_trap_handler(rt: &mut RuntimeGenerator, handle_trap: Option<Expr>) -> (e: Expr)
    requires
        old(rt).wf(),
    ensures
        final(rt).wf(),
        final(rt).st() == set_trap_handler_st(old(rt).st()),
        e@ == app_t(var_t("InitTrap"@), match handle_trap {
            Some(code) => optional::some_t(code@),
            None => optional::none_t(),
        }),
{
    if !rt.has("InitTrap") {
        let trap_handler_global_id = rt.id_const(TRAP_HANDLER_GLOBAL_ID);
        let mut b = InstructionBuilder::new();
        b.set_global(trap_handler_global_id, var("handle_trap"));
        rt.def("InitTrap", abs1("handle_trap", b.build()));
    }
    let handle_trap = match handle_trap {
        Some(code) => optional::some(code),
        None => optional::none(),
    };
    apply1(var("InitTrap"), handle_trap)
}

/// Why the program trapped.
pub enum TrapCode {
    ReachedUnreachable,
    DivisionError,
    UsedUnsupportedFloatArithmetic,
}

impl TrapCode {
    /// The number that the trap handler gets.
    pub open spec fn value(self) -> u32 {
        match self {
            TrapCode::ReachedUnreachable => 0,
            TrapCode::DivisionError => 1,
            TrapCode::UsedUnsupportedFloatArithmetic => 2,
        }
    }

    pub fn number(&self) -> (n: u32)
        ensures
            n == self.value(),
    {
        match self {
            TrapCode::ReachedUnreachable => 0,
            TrapCode::DivisionError => 1,
            TrapCode::UsedUnsupportedFloatArithmetic => 2,
        }
    }
}

pub open spec fn trap_defs_t() -> Seq<(Seq<char>, Term)> {
    seq![
        ("handler"@, table::index_t(v("G"@), handler_id_t())),
        ("S"@, data_stack::empty_t()),
        ("L"@, locals::new_t()),
        ("T"@, stack::empty_t()),
    ] + push_defs_t(seq![var_t("trap_code"@)])
        + seq![("T"@, stack::push_t(v("T"@), app_t(var_t("Exit"@), unreachable_t())))]
}

pub open spec fn trap_cmd_t() -> Term {
    select_t(
        optional::is_some_t(var_t("handler"@)),
        io_command::exit_t(),
        exec_t(optional::unwrap_t(var_t("handler"@))),
    )
}

pub open spec fn trap_def_t() -> Term {
    abs_t("trap_code"@, build_with_t(trap_defs_t(), trap_cmd_t()))
}

pub open spec fn trap_st(s: RtState, code: TrapCode) -> RtState {
    if s.has("Trap"@) {
        s.with_i32(code.value() as u64)
    } else {
        exit_st(s.with_id(0xfffe)).def("Trap"@, trap_def_t()).with_i32(code.value() as u64)
    }
}

/// Traps: drops the state but for the memory and the globals, and runs the trap handler with
/// the trap code, or exits if there is no handler. The program exits after the handler returns.
pub fn trap(rt: &mut RuntimeGenerator, trap_code: TrapCode) -> (e: Expr)
    requires
        old(rt).wf(),
    ensures
        final(rt).wf(),
        final(rt).st() == trap_st(old(rt).st(), trap_code),
        e@ == app_t(var_t("Trap"@), num_t(false, trap_code.value() as u64)),
{
    if !rt.has("Trap") {
        let trap_handler_global_id = rt.id_const(TRAP_HANDLER_GLOBAL_ID);
        let mut b = InstructionBuilder::new();
        b.get_global("handler", trap_handler_global_id);

        // Drop the old state (except the memory and the globals)
        b.set_stack(data_stack::empty());
        b.set_locals(locals::new());
        b.set_trace(stack::empty());

        let items = vec![var("trap_code")];
        proof {
            assert(items@.map_values(|i: Expr| i@) =~= seq![var_t("trap_code"@)]);
        }
        b.push(items);

        // Exit the program after the handler returns
        let exit_instr = exit(rt);
        b.push_trace(single(exit_instr));

        let cmd = select(
            optional::is_some(var("handler")),
            io_command::exit(),
            crate::codegen::lambda::instruction::exec(optional::unwrap(var("handler"))),
        );
        proof {
            assert(b@ =~= trap_defs_t());
        }
        rt.def("Trap", abs1("trap_code", b.build_with(cmd)));
    }
    let code = rt.i32_const(trap_code.number());
    apply1(var("Trap"), code)
}

} // verus!
