//! An instruction is a function of `(N, F, M, G, L, S, T) -> IoCommand` where:
//! - `N` is the next code segment (or `unreachable` if this is the last instruction).
//! - `F` is a pair of the global function table and the user-defined table for indirect calls
//! - `M` is the memory.
//! - `G` is the global variable table.
//! - `L` is the stack of local variable tables.
//! - `S` is the data stack.
//! - `T` is the trace (i.e. control flow stack) of code segments to return to.
//!
//! An instruction might return an `IoCommand` directly or by invoking the next instruction.

use vstd::prelude::*;

use crate::codegen::lambda::{
    abs1, abs_string, abs_t, app_t, apply1, apply2, apply3, apply4, data_stack, io_command, lets_t,
    locals, memory, pair, stack, table, var, var_string, Expr, LetExprBuilder, Term,
};

verus! {

pub open spec fn v(name: Seq<char>) -> Term {
    Term::Var(name)
}

/// Invokes the next code segment with the (possibly redefined) context.
pub open spec fn execute_next_t() -> Term {
    app_t(app_t(app_t(app_t(app_t(app_t(v("N"@), v("F"@)), v("M"@)), v("G"@)), v("L"@)), v("S"@)), v("T"@))
}

/// Abstracts a body over the context `N F M G L S T`.
pub open spec fn wrap_t(body: Term) -> Term {
    abs_t("N"@, abs_t("F"@, abs_t("M"@, abs_t("G"@, abs_t("L"@, abs_t("S"@, abs_t("T"@, body)))))))
}

pub open spec fn build_t(defs: Seq<(Seq<char>, Term)>) -> Term {
    wrap_t(lets_t(defs, execute_next_t()))
}

/// Runs a code segment with the current context.
pub open spec fn exec_t(code: Term) -> Term {
    app_t(app_t(app_t(app_t(app_t(app_t(code, v("F"@)), v("M"@)), v("G"@)), v("L"@)), v("S"@)), v("T"@))
}

/// An instruction whose definitions are followed by the given I/O command.
pub open spec fn build_with_t(defs: Seq<(Seq<char>, Term)>, cmd: Term) -> Term {
    wrap_t(lets_t(defs, cmd))
}

pub open spec fn build_exit_t() -> Term {
    wrap_t(io_command::exit_t())
}

pub open spec fn build_output_t(defs: Seq<(Seq<char>, Term)>, byte: Term) -> Term {
    wrap_t(lets_t(defs, io_command::output_t(byte, execute_next_t())))
}

pub open spec fn build_input_t(defs: Seq<(Seq<char>, Term)>, dest: Seq<char>) -> Term {
    wrap_t(io_command::input_t(abs_t(dest, lets_t(defs, execute_next_t()))))
}

pub open spec fn start_t(start_function: Term, function_table: Term, custom_table: Term, globals: Term) -> Term {
    app_t(app_t(app_t(app_t(app_t(app_t(
        start_function,
        pair::new_t(function_table, custom_table)),
        memory::new_t()),
        globals),
        locals::new_t()),
        data_stack::empty_t()),
        stack::empty_t())
}

/// The definitions that popping into `vars[k..]` makes: the last variable first.
pub open spec fn pop_range_t(vars: Seq<Seq<char>>, k: int) -> Seq<(Seq<char>, Term)>
    decreases vars.len() - k,
{
    if k >= vars.len() || k < 0 {
        Seq::empty()
    } else {
        pop_range_t(vars, k + 1) + seq![
            (vars[k], data_stack::top_t(v("S"@))),
            ("S"@, data_stack::pop_t(v("S"@))),
        ]
    }
}

/// The definitions that pushing `items` makes: the first item first.
pub open spec fn push_defs_t(items: Seq<Term>) -> Seq<(Seq<char>, Term)>
    decreases items.len(),
{
    if items.len() == 0 {
        Seq::empty()
    } else {
        push_defs_t(items.drop_last()).push(("S"@, data_stack::push_t(v("S"@), items.last())))
    }
}

/// Starts program execution at the given start function and with the given environment.
pub fn start(start_function: Expr, function_table: Expr, custom_table: Expr, globals: Expr) -> (e: Expr)
    ensures
        e@ == start_t(start_function@, function_table@, custom_table@, globals@),
{
    let e = apply4(start_function, pair::new(function_table, custom_table), memory::new(), globals, locals::new());
    apply2(e, data_stack::empty(), stack::empty())
}

pub fn nop() -> (e: Expr)
    ensures
        e@ == abs_t("nop"@, v("nop"@)),
{
    abs1("nop", var("nop"))
}

pub fn execute_next() -> (e: Expr)
    ensures
        e@ == execute_next_t(),
{
    let e = apply3(var("N"), var("F"), var("M"), var("G"));
    apply3(e, var("L"), var("S"), var("T"))
}

/// Runs the given code segment with the current context.
pub fn exec(code: Expr) -> (e: Expr)
    ensures
        e@ == exec_t(code@),
{
    let e = apply3(code, var("F"), var("M"), var("G"));
    apply3(e, var("L"), var("S"), var("T"))
}

fn wrap_with_context(body: Expr) -> (e: Expr)
    ensures
        e@ == wrap_t(body@),
{
    let body = abs1("T", body);
    let body = abs1("S", body);
    let body = abs1("L", body);
    let body = abs1("G", body);
    let body = abs1("M", body);
    let body = abs1("F", body);
    abs1("N", body)
}

pub struct InstructionBuilder {
    defs: LetExprBuilder,
}

impl View for InstructionBuilder {
    type V = Seq<(Seq<char>, Term)>;

    closed spec fn view(&self) -> Seq<(Seq<char>, Term)> {
        self.defs@
    }
}

impl InstructionBuilder {
    pub fn new() -> (b: Self)
        ensures
            b@ == Seq::<(Seq<char>, Term)>::empty(),
    {
        InstructionBuilder { defs: LetExprBuilder::new() }
    }

    pub fn def(&mut self, name: &str, value: Expr)
        ensures
            final(self)@ == old(self)@.push((name@, value@)),
    {
        self.defs.def(name, value);
    }

    pub fn def_string(&mut self, name: String, value: Expr)
        ensures
            final(self)@ == old(self)@.push((name@, value@)),
    {
        self.defs.def_string(name, value);
    }

    /// Builds a normal instruction that does not perform any I/O itself.
    pub fn build(self) -> (e: Expr)
        ensures
            e@ == build_t(self@),
    {
        let body = self.defs.build_in(execute_next());
        wrap_with_context(body)
    }

    /// Builds an instruction that performs the given I/O command after all other operations
    /// inside itself.
    pub fn build_with(self, cmd: Expr) -> (e: Expr)
        ensures
            e@ == build_with_t(self@, cmd@),
    {
        let body = self.defs.build_in(cmd);
        wrap_with_context(body)
    }

    /// Builds an instruction that unconditionally exits the program.
    /// The instruction body is discarded.
    pub fn build_exit(self) -> (e: Expr)
        ensures
            e@ == build_exit_t(),
    {
        wrap_with_context(io_command::exit())
    }

    /// Builds an instruction that writes the given byte to the output *after* performing
    /// all other operations inside itself.
    pub fn build_output(self, byte: Expr) -> (e: Expr)
        ensures
            e@ == build_output_t(self@, byte@),
    {
        let cmd = io_command::output(byte, execute_next());
        let body = self.defs.build_in(cmd);
        wrap_with_context(body)
    }

    /// Builds an instruction that reads an input byte and stores it into the given variable
    /// *before* performing all other operations inside itself.
    pub fn build_input(self, dest_var: &str) -> (e: Expr)
        ensures
            e@ == build_input_t(self@, dest_var@),
    {
        let body = self.defs.build_in(execute_next());
        let cmd = io_command::input(abs1(dest_var, body));
        wrap_with_context(cmd)
    }

    pub fn next(&self) -> (e: Expr)
        ensures
            e@ == v("N"@),
    {
        var("N")
    }

    pub fn set_next(&mut self, next: Expr)
        ensures
            final(self)@ == old(self)@.push(("N"@, next@)),
    {
        self.def("N", next);
    }

    pub fn memory(&self) -> (e: Expr)
        ensures
            e@ == v("M"@),
    {
        var("M")
    }

    pub fn set_memory(&mut self, memory: Expr)
        ensures
            final(self)@ == old(self)@.push(("M"@, memory@)),
    {
        self.def("M", memory);
    }

    pub fn globals(&self) -> (e: Expr)
        ensures
            e@ == v("G"@),
    {
        var("G")
    }

    pub fn set_globals(&mut self, globals: Expr)
        ensures
            final(self)@ == old(self)@.push(("G"@, globals@)),
    {
        self.def("G", globals);
    }

    pub fn locals(&self) -> (e: Expr)
        ensures
            e@ == v("L"@),
    {
        var("L")
    }

    pub fn set_locals(&mut self, locals: Expr)
        ensures
            final(self)@ == old(self)@.push(("L"@, locals@)),
    {
        self.def("L", locals);
    }

    pub fn stack(&self) -> (e: Expr)
        ensures
            e@ == v("S"@),
    {
        var("S")
    }

    pub fn set_stack(&mut self, stack: Expr)
        ensures
            final(self)@ == old(self)@.push(("S"@, stack@)),
    {
        self.def("S", stack);
    }

    pub fn trace(&self) -> (e: Expr)
        ensures
            e@ == v("T"@),
    {
        var("T")
    }

    pub fn set_trace(&mut self, trace: Expr)
        ensures
            final(self)@ == old(self)@.push(("T"@, trace@)),
    {
        self.def("T", trace);
    }

    fn function_tables(&self) -> (e: Expr)
        ensures
            e@ == v("F"@),
    {
        var("F")
    }

    pub fn function_table(&self) -> (e: Expr)
        ensures
            e@ == pair::first_t(v("F"@)),
    {
        pair::get_first(self.function_tables())
    }

    pub fn indirect_function_table(&self) -> (e: Expr)
        ensures
            e@ == pair::second_t(v("F"@)),
    {
        pair::get_second(self.function_tables())
    }

    /// Pushes the items onto the data stack, left to right as in WASM.
    pub fn push(&mut self, items: Vec<Expr>)
        ensures
            final(self)@ == old(self)@ + push_defs_t(items@.map_values(|i: Expr| i@)),
    {
        let ghost all = items@.map_values(|i: Expr| i@);
        let ghost start = self@;
        let mut items = items;
        let ghost mut done: int = 0;
        proof {
            assert(all.take(0) =~= Seq::<Term>::empty());
            assert(self@ =~= start + push_defs_t(all.take(0)));
        }
        while items.len() > 0
            invariant
                0 <= done <= all.len(),
                items.len() == all.len() - done,
                forall|i: int| 0 <= i < items.len() ==> items@[i]@ == all[done + i],
                self@ == start + push_defs_t(all.take(done)),
            decreases items.len(),
        {
            let ghost before = items@;
            let item = items.remove(0);
            proof {
                assert(all.take(done + 1).drop_last() =~= all.take(done));
                assert(before[0] == item);
                assert forall|i: int| 0 <= i < items.len() implies items@[i]@ == all[done + 1 + i] by {
                    assert(items@[i] == before[i + 1]);
                }
            }
            let s = data_stack::push(self.stack(), item);
            self.set_stack(s);
            proof {
                assert(self@ =~= start + push_defs_t(all.take(done + 1)));
                done = done + 1;
            }
        }
        proof {
            assert(all.take(done) =~= all);
        }
    }

    /// Pops values into the given variables, right to left as in WASM.
    pub fn pop(&mut self, dest_vars: &[&str])
        ensures
            final(self)@ == old(self)@ + pop_range_t(dest_vars@.map_values(|s: &str| s@), 0),
    {
        let ghost names = dest_vars@.map_values(|s: &str| s@);
        let ghost start = self@;
        let mut i = dest_vars.len();
        proof {
            assert(self@ =~= start + pop_range_t(names, i as int));
        }
        while i > 0
            invariant
                i <= dest_vars@.len(),
                names == dest_vars@.map_values(|s: &str| s@),
                self@ == start + pop_range_t(names, i as int),
            decreases i,
        {
            i = i - 1;
            let top = data_stack::top(self.stack());
            self.def(dest_vars[i], top);
            self.drop();
            proof {
                assert(self@ =~= start + pop_range_t(names, i as int));
            }
        }
    }

    /// Pops values into variables whose names were computed, right to left.
    pub fn pop_strings(&mut self, dest_vars: Vec<String>)
        ensures
            final(self)@ == old(self)@ + pop_range_t(dest_vars@.map_values(|s: String| s@), 0),
    {
        let ghost names = dest_vars@.map_values(|s: String| s@);
        let ghost start = self@;
        let mut dest_vars = dest_vars;
        proof {
            assert(self@ =~= start + pop_range_t(names, dest_vars.len() as int));
        }
        while dest_vars.len() > 0
            invariant
                dest_vars.len() <= names.len(),
                forall|j: int| 0 <= j < dest_vars.len() ==> dest_vars@[j]@ == names[j],
                self@ == start + pop_range_t(names, dest_vars.len() as int),
            decreases dest_vars.len(),
        {
            let ghost before = dest_vars@;
            let name = dest_vars.pop().unwrap();
            proof {
                assert(name == before[dest_vars.len() as int]);
            }
            let top = data_stack::top(self.stack());
            self.def_string(name, top);
            self.drop();
            proof {
                assert(self@ =~= start + pop_range_t(names, dest_vars.len() as int));
            }
        }
    }

    pub fn drop(&mut self)
        ensures
            final(self)@ == old(self)@.push(("S"@, data_stack::pop_t(v("S"@)))),
    {
        let s = data_stack::pop(self.stack());
        self.set_stack(s);
    }

    pub fn get_top(&mut self, dest_var: &str)
        ensures
            final(self)@ == old(self)@.push((dest_var@, data_stack::top_t(v("S"@)))),
    {
        let top = data_stack::top(self.stack());
        self.def(dest_var, top);
    }

    pub fn push_trace(&mut self, item: Expr)
        ensures
            final(self)@ == old(self)@.push(("T"@, stack::push_t(v("T"@), item@))),
    {
        let t = stack::push(self.trace(), item);
        self.set_trace(t);
    }

    pub fn pop_trace(&mut self, dest_var: &str)
        ensures
            final(self)@ == old(self)@.push((dest_var@, stack::top_t(v("T"@)))).push(("T"@, stack::pop_t(v("T"@)))),
    {
        let top = stack::top(self.trace());
        self.def(dest_var, top);
        let t = stack::pop(self.trace());
        self.set_trace(t);
    }

    pub fn get_trace_top(&mut self, dest_var: &str)
        ensures
            final(self)@ == old(self)@.push((dest_var@, stack::top_t(v("T"@)))),
    {
        let top = stack::top(self.trace());
        self.def(dest_var, top);
    }

    pub fn drop_trace(&mut self)
        ensures
            final(self)@ == old(self)@.push(("T"@, stack::pop_t(v("T"@)))),
    {
        let t = stack::pop(self.trace());
        self.set_trace(t);
    }

    pub fn get_global(&mut self, dest_var: &str, global_id: Expr)
        ensures
            final(self)@ == old(self)@.push((dest_var@, table::index_t(v("G"@), global_id@))),
    {
        let value = table::index(self.globals(), global_id);
        self.def(dest_var, value);
    }

    pub fn set_global(&mut self, global_id: Expr, value: Expr)
        ensures
            final(self)@ == old(self)@.push(("G"@, table::insert_t(v("G"@), global_id@, value@))),
    {
        let g = table::insert(self.globals(), global_id, value);
        self.set_globals(g);
    }

    pub fn get_local(&mut self, dest_var: &str, local_id: Expr)
        ensures
            final(self)@ == old(self)@.push((dest_var@, locals::index_t(v("L"@), local_id@))),
    {
        let value = locals::index(self.locals(), local_id);
        self.def(dest_var, value);
    }

    pub fn set_local(&mut self, local_id: Expr, value: Expr)
        ensures
            final(self)@ == old(self)@.push(("L"@, locals::insert_t(v("L"@), local_id@, value@))),
    {
        let l = locals::insert(self.locals(), local_id, value);
        self.set_locals(l);
    }

    pub fn load(&mut self, dest_var: &str, address: Expr)
        ensures
            final(self)@ == old(self)@.push((dest_var@, memory::index_t(v("M"@), address@))),
    {
        let value = memory::index(self.memory(), address);
        self.def(dest_var, value);
    }

    pub fn load_string(&mut self, dest_var: String, address: Expr)
        ensures
            final(self)@ == old(self)@.push((dest_var@, memory::index_t(v("M"@), address@))),
    {
        let value = memory::index(self.memory(), address);
        self.def_string(dest_var, value);
    }

    pub fn store(&mut self, address: Expr, value: Expr)
        ensures
            final(self)@ == old(self)@.push(("M"@, memory::insert_t(v("M"@), address@, value@))),
    {
        let m = memory::insert(self.memory(), address, value);
        self.set_memory(m);
    }

    /// Calls a function: the next segment goes on the trace.
    pub fn call(&mut self, function_id: Expr)
        ensures
            final(self)@ == old(self)@
                .push(("T"@, stack::push_t(v("T"@), v("N"@))))
                .push(("N"@, table::index_t(pair::first_t(v("F"@)), function_id@))),
    {
        self.push_trace(self.next());
        let next = table::index(self.function_table(), function_id);
        self.set_next(next);
    }

    pub fn call_indirect(&mut self, indirect_id: Expr)
        ensures
            final(self)@ == old(self)@
                .push(("T"@, stack::push_t(v("T"@), v("N"@))))
                .push(("N"@, table::index_t(pair::second_t(v("F"@)), indirect_id@))),
    {
        self.push_trace(self.next());
        let next = table::index(self.indirect_function_table(), indirect_id);
        self.set_next(next);
    }

    /// Returns to the code segment on top of the trace.
    pub fn ret(&mut self)
        ensures
            final(self)@ == old(self)@
                .push(("_ret"@, stack::top_t(v("T"@))))
                .push(("T"@, stack::pop_t(v("T"@))))
                .push(("N"@, v("_ret"@))),
    {
        self.pop_trace("_ret");
        self.set_next(var("_ret"));
    }

    pub fn push_locals_frame(&mut self, locals: Expr)
        ensures
            final(self)@ == old(self)@
                .push(("L"@, locals::push_frame_t(v("L"@), locals@)))
                .push(("S"@, data_stack::push_frame_t(v("S"@)))),
    {
        let l = locals::push_frame(self.locals(), locals);
        self.set_locals(l);
        let s = data_stack::push_frame(self.stack());
        self.set_stack(s);
    }

    pub fn pop_locals_frame(&mut self)
        ensures
            final(self)@ == old(self)@
                .push(("L"@, locals::pop_frame_t(v("L"@))))
                .push(("S"@, data_stack::pop_frame_t(v("S"@)))),
    {
        let l = locals::pop_frame(self.locals());
        self.set_locals(l);
        let s = data_stack::pop_frame(self.stack());
        self.set_stack(s);
    }

    pub fn push_stack_frame(&mut self)
        ensures
            final(self)@ == old(self)@.push(("S"@, data_stack::push_frame_t(v("S"@)))),
    {
        let s = data_stack::push_frame(self.stack());
        self.set_stack(s);
    }

    pub fn pop_stack_frame(&mut self)
        ensures
            final(self)@ == old(self)@.push(("S"@, data_stack::pop_frame_t(v("S"@)))),
    {
        let s = data_stack::pop_frame(self.stack());
        self.set_stack(s);
    }
}

} // verus!
