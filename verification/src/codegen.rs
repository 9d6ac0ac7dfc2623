//! The code generator: builds the lambda expression of a whole program.

pub mod closedness;
pub mod const_expr;
pub mod function;
pub mod lambda;
pub mod runtime;
pub mod text;

use vstd::prelude::*;

use crate::analyzer::{is_const_op, FuncType, FunctionInfo, Operator};
use crate::codegen::function::{entrypoint, entrypoint_items_t, entrypoint_st, function, function_st, sig_of, FuncSig};
use crate::codegen::lambda::code::build_t;
use crate::codegen::lambda::instruction::{start, start_t};
use crate::codegen::lambda::number::{byte_name_t, const_bits, is_32_bit_const};
use crate::codegen::lambda::{
    core_defs_t, generate_core_definitions, lets_t, list, table, unreachable_t, var,
    var_string, Expr, LetExprBuilder, Term,
};
use crate::codegen::runtime::instructions::locals_are_numbers;
use crate::codegen::runtime::{num_t, RtState, RuntimeGenerator};
use crate::codegen::lambda::number::constant_defs_t;
use crate::codegen::text::{hex_lower_name, hex_lower_t, str_eq};
use crate::codegen::function::{exit_function, input_function, output_function};
use crate::codegen::runtime::instructions::io::{exit_st, input_st, output_st};

verus! {

/// The program so far, as the contracts see it.
pub struct ProgramView {
    pub rt: RtState,
    pub functions: Seq<Term>,
    pub globals: Seq<Term>,
    pub data_segments: Seq<Term>,
    pub data_memory_offsets: Seq<Term>,
    pub main_id: Option<u32>,
    pub start_id: Option<u32>,
    pub custom_func_table: Seq<Option<u32>>,
    /// The size, in WASM pages, that the module's memory starts with.
    pub memory_pages: u32,
}

/// The variable of the `id`-th function.
pub open spec fn func_name_t(id: nat) -> Seq<char> {
    "Func"@ + hex_lower_t(id)
}

/// The definitions `Data0`, `Data1`, ... of the data segments.
pub open spec fn data_defs_t(data_segments: Seq<Term>) -> Seq<(Seq<char>, Term)> {
    Seq::new(data_segments.len(), |i: int| ("Data"@ + hex_lower_t(i as nat), data_segments[i]))
}

/// The definitions `Func0`, `Func1`, ... of the functions.
pub open spec fn func_defs_t(functions: Seq<Term>) -> Seq<(Seq<char>, Term)> {
    Seq::new(functions.len(), |i: int| (func_name_t(i as nat), functions[i]))
}

/// The entries of the table for indirect calls: a function, or `unreachable` where the
/// table has no function.
pub open spec fn custom_entries_t(table: Seq<Option<u32>>) -> Seq<Term> {
    table.map_values(|entry: Option<u32>| match entry {
        Some(id) => Term::Var(func_name_t(id as nat)),
        None => unreachable_t(),
    })
}

/// The tables of the program.
pub open spec fn table_defs_t(p: ProgramView) -> Seq<(Seq<char>, Term)> {
    seq![
        ("FunctionTable"@, table::from_t(Seq::new(p.functions.len(), |i: int| Term::Var(func_name_t(i as nat))))),
        ("CustomTable"@, table::from_t(custom_entries_t(p.custom_func_table))),
        ("Globals"@, table::from_t(p.globals)),
    ]
}

/// The whole program: the core definitions, the constants and utilities of the runtime, the
/// data segments, the functions and the tables, and the start of the execution at the
/// entrypoint.
pub open spec fn program_t(p: ProgramView) -> Term {
    let rt = entrypoint_st(p.rt, p.main_id->0, p.start_id, p.data_memory_offsets.len(), p.memory_pages);
    let start_function = build_t(entrypoint_items_t(p.main_id->0, p.start_id, p.data_memory_offsets, p.memory_pages));
    lets_t(
        core_defs_t() + constant_defs_t(rt.consts) + rt.defs + data_defs_t(p.data_segments)
            + func_defs_t(p.functions) + table_defs_t(p),
        start_t(start_function, Term::Var("FunctionTable"@), Term::Var("CustomTable"@), Term::Var("Globals"@)),
    )
}

/// The state after the bytes of a data segment are asked for, one after another.
pub open spec fn data_bytes_st(s: RtState, data: Seq<u8>) -> RtState
    decreases data.len(),
{
    if data.len() == 0 {
        s
    } else {
        data_bytes_st(s, data.drop_last()).with_byte(data.last() as u64)
    }
}

/// The offset of a data segment: a constant, or the value of a global.
pub open spec fn data_offset_ok(op: &Operator) -> bool {
    op is I32Const || op is GlobalGet
}

pub open spec fn data_offset_st(s: RtState, op: Operator) -> RtState {
    match op {
        Operator::I32Const { value } => s.with_i32((value as u32) as u64),
        Operator::GlobalGet { global_index } => s.with_i32(global_index as u64),
        _ => s,
    }
}

pub open spec fn data_offset_t(op: Operator) -> Term {
    match op {
        Operator::I32Const { value } => num_t(false, (value as u32) as u64),
        Operator::GlobalGet { global_index } => table::index_t(Term::Var("Globals"@), num_t(false, global_index as u64)),
        _ => unreachable_t(),
    }
}


/// The program after an imported function (`input`, `output` or `exit`) is added.
pub open spec fn with_import(p: ProgramView, name: Seq<char>) -> ProgramView {
    if name == "input"@ {
        ProgramView {
            rt: input_st(p.rt),
            functions: p.functions.push(crate::codegen::lambda::app_t(crate::codegen::lambda::var_t("Input"@), unreachable_t())),
            ..p
        }
    } else if name == "output"@ {
        ProgramView {
            rt: output_st(p.rt),
            functions: p.functions.push(crate::codegen::lambda::app_t(crate::codegen::lambda::var_t("Output"@), unreachable_t())),
            ..p
        }
    } else {
        ProgramView {
            rt: exit_st(p.rt),
            functions: p.functions.push(crate::codegen::lambda::app_t(crate::codegen::lambda::var_t("Exit"@), unreachable_t())),
            ..p
        }
    }
}

/// The program after a function of the module is added, where it can be compiled.
pub open spec fn with_function(p: ProgramView, sig: FuncSig, ops: Seq<Operator>, types: Seq<FuncType>) -> ProgramView {
    ProgramView {
        rt: (function_st(p.rt, sig, ops, types)->0).0,
        functions: p.functions.push((function_st(p.rt, sig, ops, types)->0).1),
        ..p
    }
}

/// Whether a function of the module can be compiled.
pub open spec fn function_st_ok(p: ProgramView, sig: FuncSig, ops: Seq<Operator>, types: Seq<FuncType>) -> bool {
    function_st(p.rt, sig, ops, types) is Some
}

/// The program after a global with the value of a constant instruction is added.
pub open spec fn with_global(p: ProgramView, init: Operator) -> ProgramView {
    ProgramView {
        rt: p.rt.with_num(!is_32_bit_const(&init), const_bits(&init)),
        globals: p.globals.push(num_t(!is_32_bit_const(&init), const_bits(&init))),
        ..p
    }
}

/// The program after the table for indirect calls is resized; new entries hold no function.
pub open spec fn with_table(p: ProgramView, size: u32) -> ProgramView {
    ProgramView {
        custom_func_table: if size <= p.custom_func_table.len() {
            p.custom_func_table.take(size as int)
        } else {
            p.custom_func_table + Seq::new((size - p.custom_func_table.len()) as nat, |i: int| None::<u32>)
        },
        ..p
    }
}

/// The program after functions are put into the table for indirect calls from `offset` on.
pub open spec fn with_elements(p: ProgramView, offset: u32, functions: Seq<u32>) -> ProgramView {
    ProgramView {
        custom_func_table: Seq::new(p.custom_func_table.len(), |k: int|
            if offset <= k < offset + functions.len() { Some(functions[k - offset]) } else { p.custom_func_table[k] }),
        ..p
    }
}

/// The program after a data segment is added.
pub open spec fn with_data(p: ProgramView, data: Seq<u8>, offset: Operator) -> ProgramView {
    ProgramView {
        rt: data_offset_st(data_bytes_st(p.rt, data), offset),
        data_segments: p.data_segments.push(list::from_t(data.map_values(|b: u8| Term::Var(byte_name_t(b as nat))))),
        data_memory_offsets: p.data_memory_offsets.push(data_offset_t(offset)),
        ..p
    }
}

/// Builds a program out of the parts of a module.
pub struct ProgramBuilder {
    runtime: RuntimeGenerator,
    functions: Vec<Expr>,
    globals: Vec<Expr>,
    data_segments: Vec<Expr>,
    data_memory_offsets: Vec<Expr>,
    main_id: Option<u32>,
    start_id: Option<u32>,
    custom_func_table: Vec<Option<u32>>,
    memory_pages: u32,
}

impl View for ProgramBuilder {
    type V = ProgramView;

    closed spec fn view(&self) -> ProgramView {
        ProgramView {
            rt: self.runtime.st(),
            functions: self.functions@.map_values(|e: Expr| e@),
            globals: self.globals@.map_values(|e: Expr| e@),
            data_segments: self.data_segments@.map_values(|e: Expr| e@),
            data_memory_offsets: self.data_memory_offsets@.map_values(|e: Expr| e@),
            main_id: self.main_id,
            start_id: self.start_id,
            custom_func_table: self.custom_func_table@,
            memory_pages: self.memory_pages,
        }
    }
}

impl ProgramBuilder {
    pub closed spec fn wf(&self) -> bool {
        self.runtime.wf()
    }

    /// The runtime of a program in order defines each utility once.
    pub proof fn lemma_names_distinct(&self)
        requires
            self.wf(),
        ensures
            crate::codegen::runtime::names_distinct(self@.rt.defs),
    {
        self.runtime.lemma_names_distinct();
    }

    pub fn new() -> (b: Self)
        ensures
            b.wf(),
            b@.rt.defs.len() == 0,
            b@.rt.consts.bytes.len() == 0,
            b@.rt.consts.ids.len() == 0,
            b@.rt.consts.i32s.len() == 0,
            b@.rt.consts.i64s.len() == 0,
            b@.functions.len() == 0,
            b@.globals.len() == 0,
            b@.data_segments.len() == 0,
            b@.data_memory_offsets.len() == 0,
            b@.main_id is None,
            b@.start_id is None,
            b@.custom_func_table.len() == 0,
            b@.memory_pages == 0,
            closedness::program_ok(b@),
    {
        let b = ProgramBuilder {
            runtime: RuntimeGenerator::new(),
            functions: Vec::new(),
            globals: Vec::new(),
            data_segments: Vec::new(),
            data_memory_offsets: Vec::new(),
            main_id: None,
            start_id: None,
            custom_func_table: Vec::new(),
            memory_pages: 0,
        };
        proof {
            closedness::lemma_empty_program_ok(b@);
        }
        b
    }

    /// The lambda expression of the program. The module must have a `main` function.
    pub fn build(self) -> (e: Expr)
        requires
            self.wf(),
            self@.main_id is Some,
        ensures
            e@ == program_t(self@),
            closedness::program_ok(self@) && closedness::table_ok(self@) ==> crate::codegen::lambda::scope::closed(e@),
    {
        let ghost p = self@;
        proof {
            if closedness::program_ok(p) && closedness::table_ok(p) {
                closedness::lemma_program_closed(p);
            }
        }
        let mut runtime = self.runtime;
        let main_id = match self.main_id {
            Some(id) => id,
            None => 0,
        };
        let start_function = entrypoint(&mut runtime, main_id, self.start_id, self.data_memory_offsets, self.memory_pages);
        let start = start(start_function, var("FunctionTable"), var("CustomTable"), var("Globals"));

        let func_count = self.functions.len();
        let mut defs = LetExprBuilder::new();
        generate_core_definitions(&mut defs);
        runtime.generate(&mut defs);
        let ghost before_data = defs@;

        let mut data_segments = self.data_segments;
        let mut id: usize = 0;
        let ghost all_data = p.data_segments;
        proof {
            assert(all_data.len() == data_segments.len());
            assert(data_defs_t(all_data.take(0)) =~= Seq::<(Seq<char>, Term)>::empty());
            assert(defs@ =~= before_data + data_defs_t(all_data.take(0)));
        }
        while data_segments.len() > 0
            invariant
                id + data_segments@.len() == all_data.len(),
                all_data.len() <= usize::MAX,
                forall|j: int| 0 <= j < data_segments@.len() ==> data_segments@[j]@ == all_data[id + j],
                defs@ == before_data + data_defs_t(all_data.take(id as int)),
            decreases data_segments@.len(),
        {
            let ghost before = data_segments@;
            let data = data_segments.remove(0);
            proof {
                assert forall|j: int| 0 <= j < data_segments@.len() implies data_segments@[j]@ == all_data[id + 1 + j] by {
                    assert(data_segments@[j] == before[j + 1]);
                }
                assert(data == before[0]);
            }
            defs.def_string(hex_lower_name("Data", id as u64), data);
            proof {
                assert(data_defs_t(all_data.take(id + 1)) =~= data_defs_t(all_data.take(id as int)).push(("Data"@ + hex_lower_t(id as nat), all_data[id as int])));
                assert(defs@ =~= before_data + data_defs_t(all_data.take(id + 1)));
            }
            id = id + 1;
        }
        proof {
            assert(all_data.take(id as int) =~= all_data);
        }
        let ghost before_funcs = defs@;

        let mut functions = self.functions;
        let mut id: usize = 0;
        let ghost all_funcs = p.functions;
        proof {
            assert(all_funcs.len() == functions.len());
            assert(func_defs_t(all_funcs.take(0)) =~= Seq::<(Seq<char>, Term)>::empty());
            assert(defs@ =~= before_funcs + func_defs_t(all_funcs.take(0)));
        }
        while functions.len() > 0
            invariant
                id + functions@.len() == all_funcs.len(),
                all_funcs.len() <= usize::MAX,
                forall|j: int| 0 <= j < functions@.len() ==> functions@[j]@ == all_funcs[id + j],
                defs@ == before_funcs + func_defs_t(all_funcs.take(id as int)),
            decreases functions@.len(),
        {
            let ghost before = functions@;
            let func = functions.remove(0);
            proof {
                assert forall|j: int| 0 <= j < functions@.len() implies functions@[j]@ == all_funcs[id + 1 + j] by {
                    assert(functions@[j] == before[j + 1]);
                }
                assert(func == before[0]);
            }
            defs.def_string(hex_lower_name("Func", id as u64), func);
            proof {
                assert(func_defs_t(all_funcs.take(id + 1)) =~= func_defs_t(all_funcs.take(id as int)).push((func_name_t(id as nat), all_funcs[id as int])));
                assert(defs@ =~= before_funcs + func_defs_t(all_funcs.take(id + 1)));
            }
            id = id + 1;
        }
        proof {
            assert(all_funcs.take(id as int) =~= all_funcs);
        }
        let ghost before_tables = defs@;

        let mut func_vars: Vec<Expr> = Vec::new();
        let mut i: usize = 0;
        while i < func_count
            invariant
                i <= func_count,
                func_count == all_funcs.len(),
                func_vars@.map_values(|e: Expr| e@) == Seq::new(i as nat, |k: int| Term::Var(func_name_t(k as nat))),
            decreases func_count - i,
        {
            let v = var_string(hex_lower_name("Func", i as u64));
            let ghost prev = func_vars@;
            func_vars.push(v);
            proof {
                assert(func_vars@.map_values(|e: Expr| e@) =~= prev.map_values(|e: Expr| e@).push(v@));
                assert(func_vars@.map_values(|e: Expr| e@) =~= Seq::new((i + 1) as nat, |k: int| Term::Var(func_name_t(k as nat))));
            }
            i = i + 1;
        }
        defs.def("FunctionTable", table::from(func_vars));

        let mut entries: Vec<Expr> = Vec::new();
        let mut i: usize = 0;
        while i < self.custom_func_table.len()
            invariant
                i <= self.custom_func_table@.len(),
                self.custom_func_table@ == p.custom_func_table,
                entries@.map_values(|e: Expr| e@) == custom_entries_t(p.custom_func_table.take(i as int)),
            decreases self.custom_func_table@.len() - i,
        {
            let entry = match self.custom_func_table[i] {
                Some(id) => var_string(hex_lower_name("Func", id as u64)),
                None => crate::codegen::lambda::unreachable(),
            };
            let ghost prev = entries@;
            entries.push(entry);
            proof {
                assert(p.custom_func_table.take(i + 1).drop_last() =~= p.custom_func_table.take(i as int));
                assert(entries@.map_values(|e: Expr| e@) =~= prev.map_values(|e: Expr| e@).push(entry@));
                assert(entries@.map_values(|e: Expr| e@) =~= custom_entries_t(p.custom_func_table.take(i + 1)));
            }
            i = i + 1;
        }
        proof {
            assert(p.custom_func_table.take(i as int) =~= p.custom_func_table);
        }
        defs.def("CustomTable", table::from(entries));
        defs.def("Globals", table::from(self.globals));
        proof {
            assert(defs@ =~= before_tables + table_defs_t(p));
        }
        defs.build_in(start)
    }

    /// The size of the table for indirect calls.
    pub fn custom_table_len(&self) -> (n: usize)
        ensures
            n == self@.custom_func_table.len(),
    {
        self.custom_func_table.len()
    }

    /// Whether the program has a `main` function.
    /// Whether every entry of the table for indirect calls is a function of the program.
    pub fn table_is_ok(&self) -> (b: bool)
        ensures
            b == closedness::table_ok(self@),
    {
        let n: usize = self.functions.len();
        let mut k: usize = 0;
        while k < self.custom_func_table.len()
            invariant
                k <= self.custom_func_table@.len(),
                n == self@.functions.len(),
                self@.custom_func_table == self.custom_func_table@,
                forall|j: int| 0 <= j < k && (#[trigger] self@.custom_func_table[j]) is Some
                    ==> self@.custom_func_table[j]->0 < n,
            decreases self.custom_func_table@.len() - k,
        {
            if let Some(id) = self.custom_func_table[k] {
                if id as usize >= n {
                    return false;
                }
            }
            k = k + 1;
        }
        true
    }

    pub fn has_main(&self) -> (b: bool)
        ensures
            b == self@.main_id is Some,
    {
        self.main_id.is_some()
    }

    pub fn handle_main(&mut self, id: u32)
        requires
            old(self).wf(),
        ensures
            final(self).wf(),
            final(self)@ == (ProgramView { main_id: Some(id), ..old(self)@ }),
    {
        self.main_id = Some(id);
    }

    pub fn handle_start(&mut self, id: u32)
        requires
            old(self).wf(),
        ensures
            final(self).wf(),
            final(self)@ == (ProgramView { start_id: Some(id), ..old(self)@ }),
    {
        self.start_id = Some(id);
    }

    /// Records the size, in WASM pages, that the module's memory starts with.
    pub fn handle_memory(&mut self, pages: u32)
        requires
            old(self).wf(),
        ensures
            final(self).wf(),
            final(self)@ == (ProgramView { memory_pages: pages, ..old(self)@ }),
    {
        self.memory_pages = pages;
    }

    /// Adds a data segment, to be copied into the memory at the offset that the given
    /// constant instruction (or global) gives.
    pub fn handle_data(&mut self, data: &[u8], target_memory_offset_expr: &Operator)
        requires
            old(self).wf(),
            data_offset_ok(target_memory_offset_expr),
        ensures
            final(self).wf(),
            final(self)@ == with_data(old(self)@, data@, *target_memory_offset_expr),
    {
        let ghost p = self@;
        let mut bytes: Vec<Expr> = Vec::new();
        let mut i: usize = 0;
        while i < data.len()
            invariant
                i <= data@.len(),
                self.runtime.wf(),
                self@ == (ProgramView { rt: data_bytes_st(p.rt, data@.take(i as int)), ..p }),
                bytes@.map_values(|e: Expr| e@) == data@.take(i as int).map_values(|b: u8| Term::Var(byte_name_t(b as nat))),
            decreases data@.len() - i,
        {
            let byte = self.runtime.byte_const(data[i]);
            let ghost prev = bytes@;
            bytes.push(byte);
            proof {
                assert(data@.take(i + 1).drop_last() =~= data@.take(i as int));
                assert(bytes@.map_values(|e: Expr| e@) =~= prev.map_values(|e: Expr| e@).push(byte@));
                assert(bytes@.map_values(|e: Expr| e@) =~= data@.take(i + 1).map_values(|b: u8| Term::Var(byte_name_t(b as nat))));
            }
            i = i + 1;
        }
        proof {
            assert(data@.take(i as int) =~= data@);
        }
        let data_list = list::from(bytes);
        let ghost prev_data = self.data_segments@;
        self.data_segments.push(data_list);
        let offset = match target_memory_offset_expr {
            Operator::I32Const { value } => self.runtime.i32_const(*value as u32),
            Operator::GlobalGet { global_index } => {
                let global_index = self.runtime.i32_const(*global_index);
                table::index(var("Globals"), global_index)
            },
            _ => crate::codegen::lambda::unreachable(),
        };
        let ghost prev_offsets = self.data_memory_offsets@;
        self.data_memory_offsets.push(offset);
        proof {
            assert(self.data_segments@.map_values(|e: Expr| e@) =~= prev_data.map_values(|e: Expr| e@).push(data_list@));
            assert(self.data_memory_offsets@.map_values(|e: Expr| e@) =~= prev_offsets.map_values(|e: Expr| e@).push(offset@));
        }
    }

    /// Adds an imported function: `input`, `output` or `exit`.
    pub fn handle_import(&mut self, name: &str)
        requires
            old(self).wf(),
            name@ == "input"@ || name@ == "output"@ || name@ == "exit"@,
        ensures
            final(self).wf(),
            final(self)@ == with_import(old(self)@, name@),
    {
        let func = if str_eq(name, "input") {
            input_function(&mut self.runtime)
        } else if str_eq(name, "output") {
            output_function(&mut self.runtime)
        } else {
            exit_function(&mut self.runtime)
        };
        let ghost prev = self.functions@;
        self.functions.push(func);
        proof {
            assert(self.functions@.map_values(|e: Expr| e@) =~= prev.map_values(|e: Expr| e@).push(func@));
        }
    }

    /// Adds a function of the module. Fails, leaving the program as it was but for the
    /// runtime, where a function cannot be compiled.
    pub fn handle_function(&mut self, func: &FunctionInfo, types: &Vec<FuncType>) -> (ok: bool)
        requires
            old(self).wf(),
            locals_are_numbers(func),
            func.function_type.params@.len() <= u32::MAX,
        ensures
            final(self).wf(),
            ok == function_st_ok(old(self)@, sig_of(*func), func.instructions@, types@),
            ok ==> final(self)@ == with_function(old(self)@, sig_of(*func), func.instructions@, types@),
            !ok ==> final(self)@ == (ProgramView { rt: final(self)@.rt, ..old(self)@ }),
    {
        match function(&mut self.runtime, func, types) {
            Some(code) => {
                let ghost prev = self.functions@;
                self.functions.push(code);
                proof {
                    assert(self.functions@.map_values(|e: Expr| e@) =~= prev.map_values(|e: Expr| e@).push(code@));
                }
                true
            },
            None => false,
        }
    }

    /// Adds a global with the value of the given constant instruction.
    pub fn handle_global(&mut self, init: Operator)
        requires
            old(self).wf(),
            is_const_op(&init),
        ensures
            final(self).wf(),
            final(self)@ == with_global(old(self)@, init),
    {
        let value = self.runtime.with_init_value(&init);
        let ghost prev = self.globals@;
        self.globals.push(value);
        proof {
            assert(self.globals@.map_values(|e: Expr| e@) =~= prev.map_values(|e: Expr| e@).push(value@));
        }
    }

    /// Resizes the table for indirect calls; new entries hold no function.
    pub fn handle_table(&mut self, size: u32)
        requires
            old(self).wf(),
        ensures
            final(self).wf(),
            final(self)@ == with_table(old(self)@, size),
    {
        let ghost start = self.custom_func_table@;
        let ghost p = self@;
        let target = size as usize;
        if target <= self.custom_func_table.len() {
            while self.custom_func_table.len() > target
                invariant
                    target <= self.custom_func_table@.len() <= start.len(),
                    self.wf(),
                    self@ == (ProgramView { custom_func_table: self@.custom_func_table, ..p }),
                    self.custom_func_table@ == start.take(self.custom_func_table@.len() as int),
                decreases self.custom_func_table@.len(),
            {
                self.custom_func_table.pop();
            }
        } else {
            while self.custom_func_table.len() < target
                invariant
                    start.len() <= self.custom_func_table@.len() <= target,
                    self.wf(),
                    self@ == (ProgramView { custom_func_table: self@.custom_func_table, ..p }),
                    self.custom_func_table@ == start + Seq::new((self.custom_func_table@.len() - start.len()) as nat, |i: int| None::<u32>),
                decreases target - self.custom_func_table@.len(),
            {
                self.custom_func_table.push(None);
            }
        }
    }

    /// Puts the given functions into the table for indirect calls, from the given offset on.
    pub fn handle_elements(&mut self, offset: u32, functions: &[u32])
        requires
            old(self).wf(),
            offset + functions@.len() <= old(self)@.custom_func_table.len(),
        ensures
            final(self).wf(),
            final(self)@ == with_elements(old(self)@, offset, functions@),
    {
        let ghost start = self.custom_func_table@;
        let ghost p = self@;
        proof {
            assert(start.len() == self.custom_func_table.len());
        }
        let mut i: usize = 0;
        while i < functions.len()
            invariant
                i <= functions@.len(),
                start.len() <= usize::MAX,
                self.wf(),
                self@ == (ProgramView { custom_func_table: self@.custom_func_table, ..p }),
                offset + functions@.len() <= start.len(),
                self.custom_func_table@.len() == start.len(),
                forall|k: int| 0 <= k < start.len() ==> self.custom_func_table@[k] == if offset <= k < offset + i {
                    Some(functions@[k - offset])
                } else {
                    start[k]
                },
            decreases functions@.len() - i,
        {
            self.custom_func_table.set(offset as usize + i, Some(functions[i]));
            i = i + 1;
        }
        proof {
            assert(self.custom_func_table@ =~= Seq::new(start.len(), |k: int|
                if offset <= k < offset + functions@.len() { Some(functions@[k - offset]) } else { start[k] }));
        }
    }
}

} // verus!
