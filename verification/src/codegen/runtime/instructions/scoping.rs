//! The instructions of the runtime refer only to utilities defined before them.

use vstd::prelude::*;

use crate::analyzer::Operator;
use crate::codegen::function::BlockT;
use crate::codegen::lambda::instruction::{
    build_exit_t, build_input_t, build_output_t, build_t, execute_next_t, pop_range_t, push_defs_t,
    v, wrap_t,
};
use crate::codegen::lambda::number::{const_bits, i32_name_t, id_name_t, is_32_bit_const};
use crate::codegen::lambda::scope::{
    defs_ok, env_with, lemma_apps_scoped, lemma_defs_concat, lemma_defs_ok_mono, lemma_env_with,
    lemma_lets_scoped, lemma_scoped_mono, scoped,
};
use crate::codegen::lambda::{
    app2_t, app3_t, app_t, apps_t, data_stack, io_command, lets_t, list, locals, memory, optional,
    pair, rec_t, select_t, stack, table, unreachable_t, var_t, Term,
};
use crate::codegen::runtime::instructions::control_flow::{
    begin_block_def_t, begin_block_st, block_entry_t, br_if_t, br_t, br_table_st, br_table_t,
    call_def_t, call_indirect_def_t, call_indirect_st, call_st, else_t, end_block_def_t,
    jump_arity, jump_defs_t, jump_target_t, loop_count, positions_st, repeat_t, ret_t,
    table_choice_t,
};
use crate::codegen::runtime::instructions::{hex_names_t, hex_vars_t};
use crate::codegen::runtime::math::bit_not_t;
use crate::codegen::function::LabelsT;
use crate::codegen::runtime::instructions::io::{
    exit_st, input_def_t, input_item_t, input_st, output_def_t, output_st, ret_defs_t,
};
use crate::codegen::runtime::instructions::memory::{
    addr0_defs_t, addr_defs_t, addr_name, be_load_bytes_t, byte_name, incs_st, load_def_t,
    load_defs_t, load_name, load_result_t, load_st, load_widths_ok, mem_init_def_t,
    mem_init_helper_t, memory_grow_def_t, memory_grow_st, memory_init_st, memory_size_def_t,
    memory_size_st, store_def_t, store_name, store_st, store_step_t, store_steps_t,
    mem_copy_back_helper_t, mem_copy_def_t, mem_copy_helper_t, mem_copy_vars, mem_fill_def_t,
    mem_fill_helper_t, mem_fill_vars, memory_copy_st, memory_fill_st, init_memory_size_def_t,
    init_memory_size_st, mem_size_get_t, mem_size_id_t, memory_grow_defs_t,
};
use crate::codegen::runtime::instructions::numeric;
use crate::codegen::runtime::instructions::numeric::{
    ab, binop_def_t, binop_math_st, binop_math_t, binop_name, binop_st, bool_t, compare_def_t,
    compare_instr_st, compare_math_st, compare_math_t, eqz_def_t, eqz_instr_st, extend_i32_def_t,
    extend_i32_name, extend_s_def_t, extend_s_name, extend_s_st, i32_wrap_i64_st,
    i64_extend_i32_st, push_const_st, push_def_t, unary_def_t, widened_t, wrap_def_t, BinOp,
    CompareOp, bit_count_def_t, bit_count_math_st, bit_count_math_t, bit_count_name, bit_count_st,
    BitCount, div_cmd_t, div_instr_def_t, div_instr_defs_t, div_instr_name, div_instr_st,
    div_math_st, div_q_t, all_ones, rem_cmd_t, rem_instr_def_t,
    rem_instr_defs_t, rem_instr_name, rem_instr_st, rem_math_st, rem_value_t,
};
use crate::codegen::runtime::instructions::op_instr;
use crate::codegen::runtime::instructions::parametric::{
    drop_def_t, drop_st, select_def_t, select_st, select_vars,
};
use crate::codegen::runtime::instructions::trap::{
    handler_id_t, init_trap_def_t, set_trap_handler_st, trap_cmd_t, trap_def_t, trap_defs_t,
    trap_st, TrapCode,
};
use crate::codegen::runtime::instructions::variable::{
    global_get_def_t, global_set_def_t, local_get_def_t, local_set_def_t, local_tee_def_t, pop_a,
    push_a, variable_st,
};
use crate::codegen::runtime::math::arithmetic::{
    add_st, div_name, div_s_name, div_s_st, div_st, inc_st, lemma_add_ordered, lemma_div_ordered,
    lemma_div_s_ordered, lemma_inc_ordered, lemma_mul_ordered, lemma_sub_ordered,
};
use crate::codegen::runtime::math::comparisons::{
    compare_st, eq_st, eqz_st, lemma_compare_ordered, lemma_compare_s_ordered, lemma_eq_ordered, lemma_eqz_ordered,
};
use crate::codegen::runtime::math::conversions::{
    extension_mask, lemma_sign_extend_ordered, lemma_split_ordered, lemma_widen_ordered,
    lemma_wrap_ordered, sign_extend_st, sign_extend_t, split_st, split_t, widen_st, wrap_st,
};
use crate::codegen::runtime::math::logical::{
    clz_name, count_name, lemma_bitop_ordered, lemma_clz_ordered, lemma_count_ordered,
    lemma_rot_ordered, lemma_shift_ordered, BitOp, ShiftOp,
};
use crate::codegen::runtime::{
    core_names_in, grows, in_scope, lemma_core_names, lemma_grows_def, lemma_grows_def_rec, lemma_grows_i32,
    lemma_grows_i64, lemma_grows_id, lemma_grows_num, lemma_grows_pair, lemma_grows_refl,
    lemma_grows_trans, lemma_has_in_scope, num_t, rt_ok, RtState,
};

verus! {

/// The names that the body of an instruction sees: the runtime's and the context `N F M G L S T`.
pub open spec fn ctx(env: Set<Seq<char>>) -> Set<Seq<char>> {
    env.insert("N"@).insert("F"@).insert("M"@).insert("G"@).insert("L"@).insert("S"@).insert("T"@)
}

/// The context names and the core definitions are in the context of the runtime's names.
pub proof fn lemma_ctx(env: Set<Seq<char>>)
    requires
        core_names_in(env),
    ensures
        core_names_in(ctx(env)),
        env.subset_of(ctx(env)),
        ctx(env).contains("N"@) && ctx(env).contains("F"@) && ctx(env).contains("M"@),
        ctx(env).contains("G"@) && ctx(env).contains("L"@) && ctx(env).contains("S"@),
        ctx(env).contains("T"@),
{
}

/// An instruction whose definitions refer only to names in scope is scoped.
pub proof fn lemma_build_scoped(defs: Seq<(Seq<char>, Term)>, env: Set<Seq<char>>)
    requires
        defs_ok(defs, ctx(env)),
    ensures
        scoped(build_t(defs), env),
{
    let e = ctx(env);
    lemma_env_with(e, defs);
    assert(scoped(execute_next_t(), env_with(e, defs))) by { reveal_with_fuel(scoped, 8); }
    lemma_lets_scoped(defs, execute_next_t(), e);
    assert(scoped(wrap_t(crate::codegen::lambda::lets_t(defs, execute_next_t())), env)) by {
        reveal_with_fuel(scoped, 8);
    }
}

/// Definitions followed by definitions that see the names of the first ones.
pub proof fn lemma_concat_ok(
    a: Seq<(Seq<char>, Term)>,
    b: Seq<(Seq<char>, Term)>,
    env: Set<Seq<char>>,
    env_b: Set<Seq<char>>,
)
    requires
        defs_ok(a, env),
        env_b.subset_of(env_with(env, a)),
        defs_ok(b, env_b),
    ensures
        defs_ok(a + b, env),
        env_with(env, a + b) == env_with(env_with(env, a), b),
{
    lemma_defs_ok_mono(b, env_b, env_with(env, a));
    lemma_defs_concat(a, b, env);
}

/// A single definition.
pub proof fn lemma_single_ok(x: Seq<char>, t: Term, env: Set<Seq<char>>)
    requires
        scoped(t, env),
    ensures
        defs_ok(seq![(x, t)], env),
        env_with(env, seq![(x, t)]) == env.insert(x),
{
    assert(seq![(x, t)].drop_first() =~= Seq::<(Seq<char>, Term)>::empty());
    reveal_with_fuel(defs_ok, 2);
    reveal_with_fuel(env_with, 2);
}

/// Popping into variables refers only to the data stack, and binds the variables.
pub proof fn lemma_pop_range_ok(vars: Seq<Seq<char>>, k: int, env: Set<Seq<char>>)
    requires
        0 <= k,
        env.contains("S"@),
        core_names_in(env),
    ensures
        defs_ok(pop_range_t(vars, k), env),
        env.subset_of(env_with(env, pop_range_t(vars, k))),
        forall|j: int| k <= j < vars.len() ==> env_with(env, pop_range_t(vars, k)).contains(#[trigger] vars[j]),
    decreases vars.len() - k,
{
    if k >= vars.len() {
        assert(defs_ok(pop_range_t(vars, k), env));
        assert(env_with(env, pop_range_t(vars, k)) == env);
    } else {
        let a = pop_range_t(vars, k + 1);
        lemma_pop_range_ok(vars, k + 1, env);
        let ea = env_with(env, a);
        let top = data_stack::top_t(Term::Var("S"@));
        let pop = data_stack::pop_t(Term::Var("S"@));
        assert(scoped(top, ea)) by { reveal_with_fuel(scoped, 6); }
        lemma_single_ok(vars[k], top, ea);
        assert(scoped(pop, ea.insert(vars[k]))) by { reveal_with_fuel(scoped, 8); }
        lemma_single_ok("S"@, pop, ea.insert(vars[k]));
        let b = seq![(vars[k], top), ("S"@, pop)];
        assert(b == seq![(vars[k], top)] + seq![("S"@, pop)]);
        lemma_concat_ok(seq![(vars[k], top)], seq![("S"@, pop)], ea, ea.insert(vars[k]));
        lemma_concat_ok(a, b, env, ea);
        lemma_env_with(env, a);
        assert(env_with(ea, b) == ea.insert(vars[k]).insert("S"@));
        assert(pop_range_t(vars, k) == a + b);
        assert forall|j: int| k <= j < vars.len() implies env_with(env, pop_range_t(vars, k)).contains(#[trigger] vars[j]) by {
            if j > k {
                assert(ea.contains(vars[j]));
            }
        }
    }
}

/// Pushing items refers only to the data stack and the items.
pub proof fn lemma_push_defs_ok(items: Seq<Term>, env: Set<Seq<char>>)
    requires
        env.contains("S"@),
        core_names_in(env),
        forall|i: int| 0 <= i < items.len() ==> scoped(#[trigger] items[i], env),
    ensures
        defs_ok(push_defs_t(items), env),
        env_with(env, push_defs_t(items)) == env,
    decreases items.len(),
{
    if items.len() == 0 {
        assert(defs_ok(push_defs_t(items), env));
    } else {
        let rest = items.drop_last();
        assert forall|i: int| 0 <= i < rest.len() implies scoped(#[trigger] rest[i], env) by {
            assert(rest[i] == items[i]);
        }
        lemma_push_defs_ok(rest, env);
        let t = data_stack::push_t(Term::Var("S"@), items.last());
        assert(scoped(items.last(), env));
        assert(scoped(t, env)) by { reveal_with_fuel(scoped, 10); }
        lemma_single_ok("S"@, t, env);
        assert(env.insert("S"@) =~= env);
        assert(push_defs_t(items) == push_defs_t(rest) + seq![("S"@, t)]);
        lemma_concat_ok(push_defs_t(rest), seq![("S"@, t)], env, env);
    }
}

/// A definition after others, seeing their names.
pub proof fn lemma_then_single(a: Seq<(Seq<char>, Term)>, x: Seq<char>, t: Term, env: Set<Seq<char>>)
    requires
        defs_ok(a, env),
        scoped(t, env_with(env, a)),
    ensures
        defs_ok(a + seq![(x, t)], env),
        env_with(env, a + seq![(x, t)]) == env_with(env, a).insert(x),
{
    lemma_single_ok(x, t, env_with(env, a));
    lemma_concat_ok(a, seq![(x, t)], env, env_with(env, a));
}

/// A definition before others, which see its name.
pub proof fn lemma_single_then(x: Seq<char>, t: Term, b: Seq<(Seq<char>, Term)>, env: Set<Seq<char>>)
    requires
        scoped(t, env),
        defs_ok(b, env.insert(x)),
    ensures
        defs_ok(seq![(x, t)] + b, env),
{
    lemma_single_ok(x, t, env);
    lemma_concat_ok(seq![(x, t)], b, env, env.insert(x));
}

/// The names of the runtime so far, seen from the body of an instruction.
pub proof fn lemma_body_env(s: RtState)
    ensures
        core_names_in(ctx(in_scope(s))),
        in_scope(s).subset_of(ctx(in_scope(s))),
        ctx(in_scope(s)).contains("N"@) && ctx(in_scope(s)).contains("F"@) && ctx(in_scope(s)).contains("M"@),
        ctx(in_scope(s)).contains("G"@) && ctx(in_scope(s)).contains("L"@) && ctx(in_scope(s)).contains("S"@),
        ctx(in_scope(s)).contains("T"@),
{
    lemma_core_names(s);
    lemma_ctx(in_scope(s));
}

/// `drop` is defined after what it refers to.
pub proof fn lemma_drop_ordered(s: RtState)
    requires
        rt_ok(s),
    ensures
        grows(s, drop_st(s)),
        in_scope(drop_st(s)).contains("Drop"@),
{
    lemma_body_env(s);
    lemma_pop_range_ok(seq!["a"@], 0, ctx(in_scope(s)));
    lemma_build_scoped(pop_range_t(seq!["a"@], 0), in_scope(s));
    lemma_grows_def(s, "Drop"@, drop_def_t());
}

/// `select` is defined after what it refers to.
pub proof fn lemma_select_ordered(s: RtState)
    requires
        rt_ok(s),
    ensures
        grows(s, select_st(s)),
        in_scope(select_st(s)).contains("Select"@),
{
    if s.has("Select"@) {
        lemma_grows_refl(s);
        lemma_has_in_scope(s, "Select"@);
    } else {
        lemma_eqz_ordered(s);
        let s1 = eqz_st(s);
        lemma_body_env(s1);
        let e = ctx(in_scope(s1));
        let a = pop_range_t(select_vars(), 0);
        lemma_pop_range_ok(select_vars(), 0, e);
        let ea = env_with(e, a);
        assert(ea.contains(select_vars()[0]) && ea.contains(select_vars()[1]) && ea.contains(select_vars()[2]));
        let item = select_t(app_t(var_t("EQZ"@), var_t("x"@)), var_t("val_if_not_zero"@), var_t("val_if_zero"@));
        assert(scoped(item, ea)) by { reveal_with_fuel(scoped, 6); }
        assert(seq![item][0] == item);
        lemma_push_defs_ok(seq![item], ea);
        lemma_concat_ok(a, push_defs_t(seq![item]), e, ea);
        lemma_build_scoped(a + push_defs_t(seq![item]), in_scope(s1));
        lemma_grows_def(s1, "Select"@, select_def_t());
        lemma_grows_trans(s, s1, select_st(s));
    }
}

/// `unreachable`, and every instruction that ends the program, refers to nothing.
pub proof fn lemma_exit_ordered(s: RtState)
    requires
        rt_ok(s),
    ensures
        grows(s, exit_st(s)),
        in_scope(exit_st(s)).contains("Exit"@),
{
    lemma_core_names(s);
    assert(scoped(build_exit_t(), in_scope(s))) by { reveal_with_fuel(scoped, 12); }
    lemma_grows_def(s, "Exit"@, build_exit_t());
}

/// `call` is defined after what it refers to.
pub proof fn lemma_call_ordered(s: RtState, function_index: u32)
    requires
        rt_ok(s),
    ensures
        grows(s, call_st(s, function_index)),
        in_scope(call_st(s, function_index)).contains("Call"@),
        in_scope(call_st(s, function_index)).contains(id_name_t((function_index as u16) as nat)),
{
    lemma_core_names(s);
    let e0 = in_scope(s).insert("funcid"@);
    assert(core_names_in(e0));
    lemma_ctx(e0);
    let e = ctx(e0);
    let t1 = stack::push_t(v("T"@), v("N"@));
    let t2 = table::index_t(pair::first_t(v("F"@)), var_t("funcid"@));
    assert(scoped(t1, e)) by { reveal_with_fuel(scoped, 6); }
    assert(scoped(t2, e.insert("T"@))) by { reveal_with_fuel(scoped, 6); }
    lemma_single_ok("N"@, t2, e.insert("T"@));
    lemma_single_then("T"@, t1, seq![("N"@, t2)], e);
    assert(seq![("T"@, t1), ("N"@, t2)] == seq![("T"@, t1)] + seq![("N"@, t2)]);
    lemma_build_scoped(seq![("T"@, t1), ("N"@, t2)], e0);
    assert(scoped(call_def_t(), in_scope(s)));
    lemma_grows_def(s, "Call"@, call_def_t());
    let s1 = s.def("Call"@, call_def_t());
    lemma_grows_id(s1, (function_index as u16) as u64);
    lemma_grows_trans(s, s1, call_st(s, function_index));
}

/// `call_indirect` is defined after what it refers to.
pub proof fn lemma_call_indirect_ordered(s: RtState)
    requires
        rt_ok(s),
    ensures
        grows(s, call_indirect_st(s)),
        in_scope(call_indirect_st(s)).contains("CallIndirect"@),
{
    lemma_body_env(s);
    let e = ctx(in_scope(s));
    let a = pop_range_t(seq!["a"@], 0);
    lemma_pop_range_ok(seq!["a"@], 0, e);
    let ea = env_with(e, a);
    assert(ea.contains(seq!["a"@][0]));
    let t1 = stack::push_t(v("T"@), v("N"@));
    let t2 = table::index_t(pair::second_t(v("F"@)), var_t("a"@));
    assert(scoped(t1, ea)) by { reveal_with_fuel(scoped, 6); }
    assert(scoped(t2, ea.insert("T"@))) by { reveal_with_fuel(scoped, 6); }
    lemma_single_ok("N"@, t2, ea.insert("T"@));
    lemma_single_then("T"@, t1, seq![("N"@, t2)], ea);
    let b = seq![("T"@, t1), ("N"@, t2)];
    assert(b == seq![("T"@, t1)] + seq![("N"@, t2)]);
    lemma_concat_ok(a, b, e, ea);
    lemma_build_scoped(a + b, in_scope(s));
    lemma_grows_def(s, "CallIndirect"@, call_indirect_def_t());
}

/// Entering a block asks only for what its condition needs.
pub proof fn lemma_begin_block_ordered(s: RtState, block: BlockT)
    requires
        rt_ok(s),
    ensures
        grows(s, begin_block_st(s, block)),
{
    if block.labels is If {
        lemma_eqz_ordered(s);
    } else {
        lemma_grows_refl(s);
    }
}

/// The accessors of locals and globals, each with the index it is applied to.
pub proof fn lemma_variable_ordered(s: RtState, name: Seq<char>, def: Term, index: u32)
    requires
        rt_ok(s),
        scoped(def, in_scope(s)),
    ensures
        grows(s, variable_st(s, name, def, index)),
        in_scope(variable_st(s, name, def, index)).contains(name),
        in_scope(variable_st(s, name, def, index)).contains(id_name_t((index as u16) as nat)),
{
    lemma_grows_def(s, name, def);
    let s1 = s.def(name, def);
    lemma_grows_id(s1, (index as u16) as u64);
    lemma_grows_trans(s, s1, variable_st(s, name, def, index));
}

/// The context of the body of an accessor: the runtime's names and the index `id`.
proof fn lemma_accessor_env(env: Set<Seq<char>>)
    requires
        core_names_in(env),
    ensures
        core_names_in(ctx(env.insert("id"@))),
        ctx(env.insert("id"@)).contains("id"@),
        ctx(env.insert("id"@)).contains("L"@) && ctx(env.insert("id"@)).contains("G"@),
        ctx(env.insert("id"@)).contains("S"@),
{
    assert(core_names_in(env.insert("id"@)));
    lemma_ctx(env.insert("id"@));
}

/// The accessors of locals and globals refer only to the core definitions.
pub proof fn lemma_accessors_scoped(env: Set<Seq<char>>)
    requires
        core_names_in(env),
    ensures
        scoped(local_get_def_t(), env),
        scoped(local_set_def_t(), env),
        scoped(local_tee_def_t(), env),
        scoped(global_get_def_t(), env),
        scoped(global_set_def_t(), env),
{
    let e0 = env.insert("id"@);
    lemma_accessor_env(env);
    let e = ctx(e0);
    let ea = e.insert("a"@);
    assert(core_names_in(ea));
    assert(seq![var_t("a"@)][0] == var_t("a"@));
    lemma_push_defs_ok(seq![var_t("a"@)], ea);
    let pa = pop_a();
    lemma_pop_range_ok(seq!["a"@], 0, e);
    assert(env_with(e, pa).contains(seq!["a"@][0]));

    let lget = locals::index_t(v("L"@), var_t("id"@));
    assert(scoped(lget, e)) by { reveal_with_fuel(scoped, 6); }
    lemma_single_then("a"@, lget, push_a(), e);
    lemma_build_scoped(seq![("a"@, lget)] + push_a(), e0);

    let gget = table::index_t(v("G"@), var_t("id"@));
    assert(scoped(gget, e)) by { reveal_with_fuel(scoped, 6); }
    lemma_single_then("a"@, gget, push_a(), e);
    lemma_build_scoped(seq![("a"@, gget)] + push_a(), e0);

    let lset = locals::insert_t(v("L"@), var_t("id"@), var_t("a"@));
    assert(scoped(lset, env_with(e, pa))) by { reveal_with_fuel(scoped, 10); }
    lemma_then_single(pa, "L"@, lset, e);
    lemma_build_scoped(pa + seq![("L"@, lset)], e0);

    let gset = table::insert_t(v("G"@), var_t("id"@), var_t("a"@));
    assert(scoped(gset, env_with(e, pa))) by { reveal_with_fuel(scoped, 6); }
    lemma_then_single(pa, "G"@, gset, e);
    lemma_build_scoped(pa + seq![("G"@, gset)], e0);

    let top = data_stack::top_t(v("S"@));
    assert(scoped(top, e)) by { reveal_with_fuel(scoped, 6); }
    assert(scoped(lset, ea)) by { reveal_with_fuel(scoped, 10); }
    lemma_single_ok("L"@, lset, ea);
    lemma_single_then("a"@, top, seq![("L"@, lset)], e);
    assert(seq![("a"@, top), ("L"@, lset)] == seq![("a"@, top)] + seq![("L"@, lset)]);
    lemma_build_scoped(seq![("a"@, top), ("L"@, lset)], e0);
}

/// An instruction that pops `a` and pushes a result computed from it.
pub proof fn lemma_unary_a_scoped(result: Term, env: Set<Seq<char>>)
    requires
        core_names_in(env),
        scoped(result, ctx(env).insert("a"@)),
    ensures
        scoped(unary_def_t(seq!["a"@], result), env),
{
    lemma_ctx(env);
    let e = ctx(env);
    let vars = seq!["a"@];
    lemma_pop_range_ok(vars, 0, e);
    let ea = env_with(e, pop_range_t(vars, 0));
    assert(ea.contains(vars[0]));
    lemma_scoped_mono(result, e.insert("a"@), ea);
    assert(seq![result][0] == result);
    lemma_push_defs_ok(seq![result], ea);
    lemma_concat_ok(pop_range_t(vars, 0), push_defs_t(seq![result]), e, ea);
    lemma_build_scoped(pop_range_t(vars, 0) + push_defs_t(seq![result]), env);
}

/// An instruction that pops `a` and `b` and pushes a result computed from them.
pub proof fn lemma_binary_scoped(result: Term, env: Set<Seq<char>>)
    requires
        core_names_in(env),
        scoped(result, ctx(env).insert("a"@).insert("b"@)),
    ensures
        scoped(unary_def_t(ab(), result), env),
{
    lemma_ctx(env);
    let e = ctx(env);
    let vars = ab();
    lemma_pop_range_ok(vars, 0, e);
    let ea = env_with(e, pop_range_t(vars, 0));
    assert(ea.contains(vars[0]) && ea.contains(vars[1]));
    lemma_scoped_mono(result, e.insert("a"@).insert("b"@), ea);
    assert(seq![result][0] == result);
    lemma_push_defs_ok(seq![result], ea);
    lemma_concat_ok(pop_range_t(vars, 0), push_defs_t(seq![result]), e, ea);
    lemma_build_scoped(pop_range_t(vars, 0) + push_defs_t(seq![result]), env);
}

/// Pushing a constant refers only to the constant.
pub proof fn lemma_push_const_ordered(s: RtState, op: Operator)
    requires
        rt_ok(s),
    ensures
        grows(s, push_const_st(s, op)),
        in_scope(push_const_st(s, op)).contains("Push"@),
        in_scope(push_const_st(s, op)).contains(num_t(!is_32_bit_const(&op), const_bits(&op))->Var_0),
{
    lemma_core_names(s);
    let e0 = in_scope(s).insert("item"@);
    assert(core_names_in(e0));
    lemma_ctx(e0);
    assert(seq![var_t("item"@)][0] == var_t("item"@));
    lemma_push_defs_ok(seq![var_t("item"@)], ctx(e0));
    lemma_build_scoped(push_defs_t(seq![var_t("item"@)]), e0);
    lemma_grows_def(s, "Push"@, push_def_t());
    let s1 = s.def("Push"@, push_def_t());
    lemma_grows_num(s1, !is_32_bit_const(&op), const_bits(&op));
    lemma_grows_trans(s, s1, push_const_st(s, op));
}

/// The constants `0` and `1` that booleans are pushed as.
proof fn lemma_bool_consts(s: RtState)
    requires
        rt_ok(s),
    ensures
        grows(s, s.with_i32(0).with_i32(1)),
        in_scope(s.with_i32(0).with_i32(1)).contains(i32_name_t(0)),
        in_scope(s.with_i32(0).with_i32(1)).contains(i32_name_t(1)),
{
    lemma_grows_i32(s, 0);
    lemma_grows_i32(s.with_i32(0), 1);
    lemma_grows_trans(s, s.with_i32(0), s.with_i32(0).with_i32(1));
}

/// `eqz` is defined after what it refers to.
pub proof fn lemma_eqz_instr_ordered(s: RtState)
    requires
        rt_ok(s),
    ensures
        grows(s, eqz_instr_st(s)),
        in_scope(eqz_instr_st(s)).contains("Eqz"@),
{
    if s.has("Eqz"@) {
        lemma_grows_refl(s);
        lemma_has_in_scope(s, "Eqz"@);
    } else {
        lemma_eqz_ordered(s);
        let s1 = eqz_st(s);
        lemma_bool_consts(s1);
        let s2 = s1.with_i32(0).with_i32(1);
        lemma_grows_trans(s, s1, s2);
        lemma_core_names(s2);
        assert(in_scope(s2).contains("EQZ"@));
        let r = bool_t(app_t(var_t("EQZ"@), var_t("a"@)));
        assert(scoped(r, ctx(in_scope(s2)).insert("a"@))) by { reveal_with_fuel(scoped, 6); }
        lemma_unary_a_scoped(r, in_scope(s2));
        lemma_grows_def(s2, "Eqz"@, eqz_def_t());
        lemma_grows_trans(s, s2, eqz_instr_st(s));
    }
}

/// The arithmetic and bitwise instructions are defined after what they refer to.
pub proof fn lemma_binop_ordered(s: RtState, op: BinOp)
    requires
        rt_ok(s),
    ensures
        grows(s, binop_st(s, op)),
        in_scope(binop_st(s, op)).contains(binop_name(op)),
{
    if s.has(binop_name(op)) {
        lemma_grows_refl(s);
        lemma_has_in_scope(s, binop_name(op));
    } else {
        let s1 = binop_math_st(s, op);
        match op {
            BinOp::And => lemma_bitop_ordered(s, BitOp::And),
            BinOp::Or => lemma_bitop_ordered(s, BitOp::Or),
            BinOp::Xor => lemma_bitop_ordered(s, BitOp::Xor),
            BinOp::Shl32 => lemma_shift_ordered(s, ShiftOp::Shl, 32),
            BinOp::ShrU32 => lemma_shift_ordered(s, ShiftOp::ShrU, 32),
            BinOp::ShrS32 => lemma_shift_ordered(s, ShiftOp::ShrS, 32),
            BinOp::Shl64 => lemma_shift_ordered(s, ShiftOp::Shl, 64),
            BinOp::ShrU64 => lemma_shift_ordered(s, ShiftOp::ShrU, 64),
            BinOp::ShrS64 => lemma_shift_ordered(s, ShiftOp::ShrS, 64),
            BinOp::Rotl32 => lemma_rot_ordered(s, true, 32),
            BinOp::Rotr32 => lemma_rot_ordered(s, false, 32),
            BinOp::Rotl64 => lemma_rot_ordered(s, true, 64),
            BinOp::Rotr64 => lemma_rot_ordered(s, false, 64),
            BinOp::Add => lemma_add_ordered(s),
            BinOp::Sub => lemma_sub_ordered(s),
            BinOp::Mul => lemma_mul_ordered(s),
        }
        lemma_core_names(s1);
        let r = binop_math_t(op, var_t("a"@), var_t("b"@));
        assert(scoped(r, ctx(in_scope(s1)).insert("a"@).insert("b"@))) by { reveal_with_fuel(scoped, 8); }
        lemma_binary_scoped(r, in_scope(s1));
        lemma_grows_def(s1, binop_name(op), binop_def_t(op));
        lemma_grows_trans(s, s1, binop_st(s, op));
    }
}

/// Going on or trapping after a division refers to the quotient, the trap and its code.
pub proof fn lemma_div_cmd_scoped(env: Set<Seq<char>>)
    requires
        core_names_in(env),
        env.contains("Trap"@),
        env.contains(i32_name_t(1)),
        env.contains("q"@),
        env.contains("N"@) && env.contains("F"@) && env.contains("M"@) && env.contains("G"@),
        env.contains("L"@) && env.contains("S"@) && env.contains("T"@),
    ensures
        scoped(div_cmd_t(), env),
{
    let trap = app_t(app_t(var_t("Trap"@), crate::codegen::runtime::num_t(false, 1)), v("N"@));
    assert(scoped(trap, env)) by { reveal_with_fuel(scoped, 4); }
    assert(scoped(crate::codegen::lambda::instruction::exec_t(trap), env)) by { reveal_with_fuel(scoped, 8); }
    assert(scoped(execute_next_t(), env)) by { reveal_with_fuel(scoped, 8); }
    assert(scoped(crate::codegen::lambda::optional::is_some_t(var_t("q"@)), env)) by { reveal_with_fuel(scoped, 4); }
    assert(scoped(div_cmd_t(), env)) by { reveal_with_fuel(scoped, 4); }
}

/// A division instruction refers only to the trap, its code and the division utility.
#[verifier::spinoff_prover]
pub proof fn lemma_div_instr_scoped(signed: bool, bits: u8, env: Set<Seq<char>>)
    requires
        core_names_in(env),
        env.contains("Trap"@),
        env.contains(i32_name_t(1)),
        env.contains(if signed { div_s_name(bits) } else { div_name(bits) }),
    ensures
        scoped(div_instr_def_t(signed, bits), env),
{
    let e = ctx(env);
    lemma_ctx(env);
    let pop = pop_range_t(ab(), 0);
    lemma_pop_range_ok(ab(), 0, e);
    let ea = env_with(e, pop);
    assert(ea.contains(ab()[0]) && ea.contains(ab()[1]));
    let q = div_q_t(signed, bits);
    assert(scoped(q, ea)) by { reveal_with_fuel(scoped, 4); }
    let qd = seq![("q"@, q)];
    assert(defs_ok(qd, ea)) by { reveal_with_fuel(defs_ok, 2); }
    lemma_concat_ok(pop, qd, e, ea);
    assert(pop.push(("q"@, q)) =~= pop + qd);
    let eq = env_with(e, pop + qd);
    lemma_env_with(ea, qd);
    assert(eq.contains(qd[0].0));
    let items = seq![crate::codegen::lambda::optional::unwrap_t(var_t("q"@))];
    assert(scoped(items[0], eq)) by { reveal_with_fuel(scoped, 4); }
    lemma_push_defs_ok(items, eq);
    lemma_concat_ok(pop + qd, push_defs_t(items), e, eq);
    assert(div_instr_defs_t(signed, bits) == pop + qd + push_defs_t(items));
    lemma_div_cmd_scoped(eq);
    lemma_wrap_lets_scoped(div_instr_defs_t(signed, bits), div_cmd_t(), env);
}

/// The division instructions are defined after what they refer to.
pub proof fn lemma_div_instr_ordered(s: RtState, signed: bool, bits: u8)
    requires
        rt_ok(s),
    ensures
        grows(s, div_instr_st(s, signed, bits)),
        in_scope(div_instr_st(s, signed, bits)).contains(div_instr_name(signed, bits)),
{
    let name = div_instr_name(signed, bits);
    if s.has(name) {
        lemma_grows_refl(s);
        lemma_has_in_scope(s, name);
    } else {
        lemma_trap_ordered(s, TrapCode::DivisionError);
        let s1 = trap_st(s, TrapCode::DivisionError);
        let s2 = div_math_st(s, signed, bits);
        if signed {
            lemma_div_s_ordered(s1, bits);
        } else {
            lemma_div_ordered(s1, bits);
        }
        lemma_grows_trans(s, s1, s2);
        lemma_core_names(s2);
        lemma_div_instr_scoped(signed, bits, in_scope(s2));
        lemma_grows_def(s2, name, div_instr_def_t(signed, bits));
        lemma_grows_trans(s, s2, div_instr_st(s, signed, bits));
    }
}

/// A remainder instruction refers only to the trap, its code, and the utilities that divide,
/// multiply, subtract and compare.
#[verifier::spinoff_prover]
pub proof fn lemma_rem_instr_scoped(signed: bool, bits: u8, env: Set<Seq<char>>)
    requires
        core_names_in(env),
        env.contains("Trap"@),
        env.contains(i32_name_t(1)),
        env.contains(if signed { div_s_name(bits) } else { div_name(bits) }),
        env.contains("MUL"@) && env.contains("ADD"@) && env.contains("INV"@) && env.contains("INC"@),
        signed ==> env.contains("EQ"@),
        signed ==> env.contains(num_t(bits == 64, all_ones(bits))->Var_0),
        signed ==> env.contains(num_t(bits == 64, 0)->Var_0),
    ensures
        scoped(rem_instr_def_t(signed, bits), env),
{
    let e = ctx(env);
    lemma_ctx(env);
    let pop = pop_range_t(ab(), 0);
    lemma_pop_range_ok(ab(), 0, e);
    let ea = env_with(e, pop);
    assert(ea.contains(ab()[0]) && ea.contains(ab()[1]));
    let q = div_q_t(signed, bits);
    assert(scoped(q, ea)) by { reveal_with_fuel(scoped, 4); }
    let qd = seq![("q"@, q)];
    assert(defs_ok(qd, ea)) by { reveal_with_fuel(defs_ok, 2); }
    lemma_concat_ok(pop, qd, e, ea);
    assert(pop.push(("q"@, q)) =~= pop + qd);
    let eq = env_with(e, pop + qd);
    lemma_env_with(ea, qd);
    assert(eq.contains(qd[0].0));
    let items = seq![rem_value_t(signed, bits)];
    assert(scoped(items[0], eq)) by { reveal_with_fuel(scoped, 10); }
    lemma_push_defs_ok(items, eq);
    lemma_concat_ok(pop + qd, push_defs_t(items), e, eq);
    assert(rem_instr_defs_t(signed, bits) == pop + qd + push_defs_t(items));
    lemma_div_cmd_scoped(eq);
    assert(scoped(execute_next_t(), eq)) by { reveal_with_fuel(scoped, 8); }
    assert(scoped(rem_cmd_t(signed, bits), eq)) by { reveal_with_fuel(scoped, 2); }
    lemma_wrap_lets_scoped(rem_instr_defs_t(signed, bits), rem_cmd_t(signed, bits), env);
}

/// The remainder instructions are defined after what they refer to.
pub proof fn lemma_rem_instr_ordered(s: RtState, signed: bool, bits: u8)
    requires
        rt_ok(s),
    ensures
        grows(s, rem_instr_st(s, signed, bits)),
        in_scope(rem_instr_st(s, signed, bits)).contains(rem_instr_name(signed, bits)),
{
    let name = rem_instr_name(signed, bits);
    if s.has(name) {
        lemma_grows_refl(s);
        lemma_has_in_scope(s, name);
    } else {
        lemma_trap_ordered(s, TrapCode::DivisionError);
        let s1 = trap_st(s, TrapCode::DivisionError);
        let s2 = div_math_st(s, signed, bits);
        if signed {
            lemma_div_s_ordered(s1, bits);
        } else {
            lemma_div_ordered(s1, bits);
        }
        lemma_grows_trans(s, s1, s2);
        lemma_mul_ordered(s2);
        let s3 = crate::codegen::runtime::math::arithmetic::mul_st(s2);
        lemma_grows_trans(s, s2, s3);
        lemma_sub_ordered(s3);
        let s4 = crate::codegen::runtime::math::arithmetic::sub_st(s3);
        lemma_grows_trans(s, s3, s4);
        let s5 = rem_math_st(s, signed, bits);
        if signed {
            lemma_grows_num(s4, bits == 64, all_ones(bits));
            let s41 = s4.with_num(bits == 64, all_ones(bits));
            lemma_eq_ordered(s41);
            let s42 = eq_st(s41);
            lemma_grows_num(s42, bits == 64, 0);
            lemma_grows_trans(s, s4, s41);
            lemma_grows_trans(s, s41, s42);
            lemma_grows_trans(s, s42, s5);
        }
        lemma_core_names(s5);
        lemma_rem_instr_scoped(signed, bits, in_scope(s5));
        lemma_grows_def(s5, name, rem_instr_def_t(signed, bits));
        lemma_grows_trans(s, s5, rem_instr_st(s, signed, bits));
    }
}

/// The bit-count instructions are defined after what they refer to.
pub proof fn lemma_bit_count_ordered(s: RtState, k: BitCount, bits: u8)
    requires
        rt_ok(s),
    ensures
        grows(s, bit_count_st(s, k, bits)),
        in_scope(bit_count_st(s, k, bits)).contains(bit_count_name(k, bits)),
{
    if s.has(bit_count_name(k, bits)) {
        lemma_grows_refl(s);
        lemma_has_in_scope(s, bit_count_name(k, bits));
    } else {
        let s1 = bit_count_math_st(s, k, bits);
        match k {
            BitCount::LeadingZeroes => lemma_clz_ordered(s, bits),
            BitCount::TrailingZeroes => lemma_count_ordered(s, false, bits),
            BitCount::Ones => lemma_count_ordered(s, true, bits),
        }
        lemma_core_names(s1);
        let r = bit_count_math_t(k, bits, var_t("a"@));
        assert(scoped(r, ctx(in_scope(s1)).insert("a"@))) by { reveal_with_fuel(scoped, 4); }
        lemma_unary_a_scoped(r, in_scope(s1));
        lemma_grows_def(s1, bit_count_name(k, bits), bit_count_def_t(k, bits));
        lemma_grows_trans(s, s1, bit_count_st(s, k, bits));
    }
}

/// The comparison instructions are defined after what they refer to.
pub proof fn lemma_compare_instr_ordered(s: RtState, op: CompareOp)
    requires
        rt_ok(s),
    ensures
        grows(s, compare_instr_st(s, op)),
        in_scope(compare_instr_st(s, op)).contains(numeric::compare_name(op)),
{
    if s.has(numeric::compare_name(op)) {
        lemma_grows_refl(s);
        lemma_has_in_scope(s, numeric::compare_name(op));
    } else {
        let s1 = compare_math_st(s, op);
        match op {
            CompareOp::Eq | CompareOp::Ne => lemma_eq_ordered(s),
            CompareOp::LtU | CompareOp::GeU => lemma_compare_ordered(s, true),
            CompareOp::LeU | CompareOp::GtU => lemma_compare_ordered(s, false),
            CompareOp::LtS | CompareOp::GeS => lemma_compare_s_ordered(s, true),
            CompareOp::LeS | CompareOp::GtS => lemma_compare_s_ordered(s, false),
        }
        lemma_bool_consts(s1);
        let s2 = s1.with_i32(0).with_i32(1);
        lemma_grows_trans(s, s1, s2);
        lemma_core_names(s2);
        let r = bool_t(compare_math_t(op, var_t("a"@), var_t("b"@)));
        assert(scoped(r, ctx(in_scope(s2)).insert("a"@).insert("b"@))) by { reveal_with_fuel(scoped, 10); }
        lemma_binary_scoped(r, in_scope(s2));
        lemma_grows_def(s2, numeric::compare_name(op), compare_def_t(op));
        lemma_grows_trans(s, s2, compare_instr_st(s, op));
    }
}

/// Wrapping a 64-bit integer to 32 bits is defined after what it refers to.
pub proof fn lemma_i32_wrap_i64_ordered(s: RtState)
    requires
        rt_ok(s),
    ensures
        grows(s, i32_wrap_i64_st(s)),
        in_scope(i32_wrap_i64_st(s)).contains("I32WrapI64"@),
{
    if s.has("I32WrapI64"@) {
        lemma_grows_refl(s);
        lemma_has_in_scope(s, "I32WrapI64"@);
    } else {
        lemma_wrap_ordered(s, false);
        let s1 = wrap_st(s, false);
        lemma_core_names(s1);
        let r = crate::codegen::runtime::math::conversions::wrap_t(var_t("a"@), false);
        assert(scoped(r, ctx(in_scope(s1)).insert("a"@))) by { reveal_with_fuel(scoped, 8); }
        lemma_unary_a_scoped(r, in_scope(s1));
        lemma_grows_def(s1, "I32WrapI64"@, wrap_def_t());
        lemma_grows_trans(s, s1, i32_wrap_i64_st(s));
    }
}

/// Extending a 32-bit integer to 64 bits is defined after what it refers to.
pub proof fn lemma_i64_extend_i32_ordered(s: RtState, signed: bool)
    requires
        rt_ok(s),
    ensures
        grows(s, i64_extend_i32_st(s, signed)),
        in_scope(i64_extend_i32_st(s, signed)).contains(extend_i32_name(signed)),
{
    if s.has(extend_i32_name(signed)) {
        lemma_grows_refl(s);
        lemma_has_in_scope(s, extend_i32_name(signed));
    } else {
        lemma_grows_i64(s, 0);
        let s0 = s.with_i64(0);
        lemma_widen_ordered(s0);
        let s1 = widen_st(s0);
        lemma_grows_trans(s, s0, s1);
        let s2 = if signed { sign_extend_st(s1, 64, 32) } else { s1 };
        if signed {
            lemma_sign_extend_ordered(s1, 64, 32);
            lemma_grows_trans(s, s1, s2);
        }
        lemma_core_names(s2);
        let r = if signed { sign_extend_t(widened_t(), 64, 32) } else { widened_t() };
        assert(in_scope(s2).contains(num_t(true, 0)->Var_0));
        assert(scoped(r, ctx(in_scope(s2)).insert("a"@))) by { reveal_with_fuel(scoped, 8); }
        lemma_unary_a_scoped(r, in_scope(s2));
        lemma_grows_def(s2, extend_i32_name(signed), extend_i32_def_t(signed));
        lemma_grows_trans(s, s2, i64_extend_i32_st(s, signed));
    }
}

/// Sign extension instructions are defined after what they refer to.
pub proof fn lemma_extend_s_ordered(s: RtState, target_bits: u8, source_bits: u8)
    requires
        rt_ok(s),
    ensures
        grows(s, extend_s_st(s, target_bits, source_bits)),
        in_scope(extend_s_st(s, target_bits, source_bits)).contains(extend_s_name(target_bits, source_bits)),
{
    if s.has(extend_s_name(target_bits, source_bits)) {
        lemma_grows_refl(s);
        lemma_has_in_scope(s, extend_s_name(target_bits, source_bits));
    } else {
        lemma_sign_extend_ordered(s, target_bits, source_bits);
        let s1 = sign_extend_st(s, target_bits, source_bits);
        lemma_core_names(s1);
        let r = sign_extend_t(var_t("a"@), target_bits, source_bits);
        assert(scoped(r, ctx(in_scope(s1)).insert("a"@))) by { reveal_with_fuel(scoped, 6); }
        lemma_unary_a_scoped(r, in_scope(s1));
        lemma_grows_def(s1, extend_s_name(target_bits, source_bits), extend_s_def_t(target_bits, source_bits));
        lemma_grows_trans(s, s1, extend_s_st(s, target_bits, source_bits));
    }
}

/// `memory.size` refers only to the global of the memory size.
pub proof fn lemma_memory_size_ordered(s: RtState)
    requires
        rt_ok(s),
    ensures
        grows(s, memory_size_st(s)),
        in_scope(memory_size_st(s)).contains("MemSize"@),
{
    if s.has("MemSize"@) {
        lemma_grows_refl(s);
        lemma_has_in_scope(s, "MemSize"@);
    } else {
        lemma_grows_id(s, 0xffff);
        let s1 = s.with_id(0xffff);
        lemma_body_env(s1);
        let e = ctx(in_scope(s1));
        assert(e.contains(id_name_t(0xffff)));
        let g = seq![mem_size_get_t()];
        assert(scoped(mem_size_get_t().1, e)) by { reveal_with_fuel(scoped, 6); }
        assert(defs_ok(g, e)) by { reveal_with_fuel(defs_ok, 2); }
        lemma_env_with(e, g);
        let eg = env_with(e, g);
        assert(eg.contains(g[0].0));
        assert(core_names_in(eg) && eg.contains("S"@));
        let item = var_t("size"@);
        assert(scoped(item, eg));
        assert(seq![item][0] == item);
        lemma_push_defs_ok(seq![item], eg);
        lemma_concat_ok(g, push_defs_t(seq![item]), e, eg);
        lemma_build_scoped(g + push_defs_t(seq![item]), in_scope(s1));
        lemma_grows_def(s1, "MemSize"@, memory_size_def_t());
        lemma_grows_trans(s, s1, memory_size_st(s));
    }
}

/// `memory.grow` refers only to the global of the memory size and to addition.
pub proof fn lemma_memory_grow_ordered(s: RtState)
    requires
        rt_ok(s),
    ensures
        grows(s, memory_grow_st(s)),
        in_scope(memory_grow_st(s)).contains("MemGrow"@),
{
    if s.has("MemGrow"@) {
        lemma_grows_refl(s);
        lemma_has_in_scope(s, "MemGrow"@);
    } else {
        lemma_grows_id(s, 0xffff);
        let s0 = s.with_id(0xffff);
        lemma_add_ordered(s0);
        let s1 = add_st(s0);
        lemma_grows_trans(s, s0, s1);
        lemma_body_env(s1);
        let e = ctx(in_scope(s1));
        assert(e.contains(id_name_t(0xffff)) && e.contains("ADD"@));
        let pop = pop_range_t(seq!["ngrow"@], 0);
        lemma_pop_range_ok(seq!["ngrow"@], 0, e);
        let ea = env_with(e, pop);
        assert(ea.contains(seq!["ngrow"@][0]));
        let mid = seq![
            mem_size_get_t(),
            ("G"@, table::insert_t(v("G"@), mem_size_id_t(), app2_t(var_t("ADD"@), var_t("size"@), var_t("ngrow"@)))),
        ];
        assert(scoped(mid[0].1, ea)) by { reveal_with_fuel(scoped, 6); }
        assert(scoped(mid[1].1, ea.insert(mid[0].0))) by { reveal_with_fuel(scoped, 8); }
        assert(defs_ok(mid, ea)) by {
            assert(mid.drop_first() =~= seq![mid[1]]);
            assert(mid.drop_first().drop_first() =~= Seq::<(Seq<char>, Term)>::empty());
            reveal_with_fuel(defs_ok, 3);
        }
        lemma_concat_ok(pop, mid, e, ea);
        lemma_env_with(ea, mid);
        let em = env_with(e, pop + mid);
        assert(em.contains(mid[0].0));
        assert(core_names_in(em) && em.contains("S"@));
        let item = var_t("size"@);
        assert(scoped(item, em));
        assert(seq![item][0] == item);
        lemma_push_defs_ok(seq![item], em);
        lemma_concat_ok(pop + mid, push_defs_t(seq![item]), e, em);
        assert(memory_grow_defs_t() == pop + mid + push_defs_t(seq![item]));
        lemma_build_scoped(memory_grow_defs_t(), in_scope(s1));
        lemma_grows_def(s1, "MemGrow"@, memory_grow_def_t());
        lemma_grows_trans(s, s1, memory_grow_st(s));
    }
}

/// Setting the memory size refers only to the global of the memory size and the size.
pub proof fn lemma_init_memory_size_ordered(s: RtState, pages: u32)
    requires
        rt_ok(s),
    ensures
        grows(s, init_memory_size_st(s, pages)),
        in_scope(init_memory_size_st(s, pages)).contains("InitMemSize"@),
        in_scope(init_memory_size_st(s, pages)).contains(i32_name_t(pages as nat)),
{
    let s1 = if s.has("InitMemSize"@) {
        s
    } else {
        s.with_id(0xffff).def("InitMemSize"@, init_memory_size_def_t())
    };
    if s.has("InitMemSize"@) {
        lemma_grows_refl(s);
        lemma_has_in_scope(s, "InitMemSize"@);
    } else {
        lemma_grows_id(s, 0xffff);
        let s0 = s.with_id(0xffff);
        lemma_core_names(s0);
        let e0 = in_scope(s0).insert("pages"@);
        assert(core_names_in(e0));
        lemma_ctx(e0);
        let d = seq![("G"@, table::insert_t(v("G"@), mem_size_id_t(), var_t("pages"@)))];
        assert(ctx(e0).contains(id_name_t(0xffff)));
        assert(scoped(d[0].1, ctx(e0))) by { reveal_with_fuel(scoped, 6); }
        assert(defs_ok(d, ctx(e0))) by { reveal_with_fuel(defs_ok, 2); }
        lemma_build_scoped(d, e0);
        assert(scoped(init_memory_size_def_t(), in_scope(s0))) by { reveal_with_fuel(scoped, 2); }
        lemma_grows_def(s0, "InitMemSize"@, init_memory_size_def_t());
        lemma_grows_trans(s, s0, s1);
    }
    lemma_grows_i32(s1, pages as u64);
    lemma_grows_trans(s, s1, init_memory_size_st(s, pages));
}

/// Incrementing, asked for `k` times.
pub proof fn lemma_incs_ordered(s: RtState, k: nat)
    requires
        rt_ok(s),
    ensures
        grows(s, incs_st(s, k)),
        k > 0 ==> in_scope(incs_st(s, k)).contains("INC"@),
    decreases k,
{
    if k == 0 {
        lemma_grows_refl(s);
    } else {
        lemma_incs_ordered(s, (k - 1) as nat);
        let s1 = incs_st(s, (k - 1) as nat);
        lemma_inc_ordered(s1);
        lemma_grows_trans(s, s1, incs_st(s, k));
    }
}

/// The addresses of the bytes after the first: each is one more than the previous.
pub proof fn lemma_addr_defs_ok(k: nat, env: Set<Seq<char>>)
    requires
        env.contains(addr_name(0)),
        k > 1 ==> env.contains("INC"@),
    ensures
        defs_ok(addr_defs_t(k), env),
        env.subset_of(env_with(env, addr_defs_t(k))),
        forall|j: nat| j < k ==> env_with(env, addr_defs_t(k)).contains(#[trigger] addr_name(j)),
    decreases k,
{
    if k <= 1 {
        assert(defs_ok(addr_defs_t(k), env));
        assert(env_with(env, addr_defs_t(k)) == env);
    } else {
        let p = addr_defs_t((k - 1) as nat);
        lemma_addr_defs_ok((k - 1) as nat, env);
        let ep = env_with(env, p);
        let t = app_t(var_t("INC"@), var_t(addr_name((k - 2) as nat)));
        assert(ep.contains(addr_name((k - 2) as nat)));
        assert(scoped(t, ep)) by { reveal_with_fuel(scoped, 3); }
        lemma_then_single(p, addr_name((k - 1) as nat), t, env);
        assert(addr_defs_t(k) == p + seq![(addr_name((k - 1) as nat), t)]);
    }
}

/// The bytes read from memory, one per address.
pub proof fn lemma_load_defs_ok(k: nat, env: Set<Seq<char>>)
    requires
        env.contains("M"@),
        env.contains("IdxLE"@),
        forall|j: nat| j < k ==> env.contains(#[trigger] addr_name(j)),
    ensures
        defs_ok(load_defs_t(k), env),
        env.subset_of(env_with(env, load_defs_t(k))),
        forall|j: nat| j < k ==> env_with(env, load_defs_t(k)).contains(#[trigger] byte_name(j)),
    decreases k,
{
    if k == 0 {
        assert(defs_ok(load_defs_t(k), env));
        assert(env_with(env, load_defs_t(k)) == env);
    } else {
        let p = load_defs_t((k - 1) as nat);
        lemma_load_defs_ok((k - 1) as nat, env);
        let ep = env_with(env, p);
        let t = memory::index_t(v("M"@), var_t(addr_name((k - 1) as nat)));
        assert(env.contains(addr_name((k - 1) as nat)));
        assert(scoped(t, ep)) by { reveal_with_fuel(scoped, 4); }
        lemma_then_single(p, byte_name((k - 1) as nat), t, env);
        assert(load_defs_t(k) == p + seq![(byte_name((k - 1) as nat), t)]);
        assert forall|j: nat| j < k implies env_with(env, load_defs_t(k)).contains(#[trigger] byte_name(j)) by {
            if j < k - 1 {
                assert(ep.contains(byte_name(j)));
            }
        }
    }
}

/// The number that a load builds from the bytes it read.
proof fn lemma_load_result_scoped(target_bits: u8, source_bits: u8, signed: bool, env: Set<Seq<char>>)
    requires
        core_names_in(env),
        forall|j: nat| j < (source_bits / 8) as nat ==> env.contains(#[trigger] byte_name(j)),
        signed ==> env.contains("SGNEXT"@),
        signed ==> env.contains(num_t(target_bits == 64, extension_mask(target_bits, source_bits))->Var_0),
    ensures
        scoped(load_result_t(target_bits, source_bits, signed), env),
{
    let n = (source_bits / 8) as nat;
    let pad = ((target_bits - source_bits) / 8) as nat;
    let args = be_load_bytes_t(n, pad);
    assert forall|i: int| 0 <= i < args.len() implies scoped(#[trigger] args[i], env) by {
        if i >= pad {
            assert(args[i] == var_t(byte_name((n - 1 - (i - pad)) as nat)));
            assert(env.contains(byte_name((n - 1 - (i - pad)) as nat)));
        } else {
            assert(args[i] == Term::Var("0b"@));
        }
    }
    let f = Term::Var(if target_bits == 32 { "I32"@ } else { "I64"@ });
    lemma_apps_scoped(f, args, env);
    if signed {
        let number = apps_t(f, args);
        assert(load_result_t(target_bits, source_bits, signed) == sign_extend_t(number, target_bits, source_bits));
        assert(scoped(sign_extend_t(number, target_bits, source_bits), env)) by { reveal_with_fuel(scoped, 4); }
    }
}

/// The first address of an access: the base address popped plus the offset.
proof fn lemma_access_start(base_vars: Seq<Seq<char>>, env0: Set<Seq<char>>)
    requires
        core_names_in(env0),
        env0.contains("ADD"@),
        env0.contains("offset"@),
        base_vars.len() > 0,
        base_vars[0] == "base_addr"@,
    ensures
        defs_ok(pop_range_t(base_vars, 0) + addr0_defs_t(), ctx(env0)),
        ctx(env0).subset_of(env_with(ctx(env0), pop_range_t(base_vars, 0) + addr0_defs_t())),
        env_with(ctx(env0), pop_range_t(base_vars, 0) + addr0_defs_t()).contains(addr_name(0)),
        forall|j: int| 0 <= j < base_vars.len() ==> env_with(ctx(env0), pop_range_t(base_vars, 0) + addr0_defs_t()).contains(#[trigger] base_vars[j]),
{
    lemma_ctx(env0);
    let e = ctx(env0);
    let a1 = pop_range_t(base_vars, 0);
    lemma_pop_range_ok(base_vars, 0, e);
    let e1 = env_with(e, a1);
    assert(e1.contains(base_vars[0]));
    let t0 = app2_t(var_t("ADD"@), var_t("base_addr"@), var_t("offset"@));
    assert(scoped(t0, e1)) by { reveal_with_fuel(scoped, 4); }
    lemma_then_single(a1, addr_name(0), t0, e);
    assert(addr0_defs_t() == seq![(addr_name(0), t0)]);
}

/// Loads are defined after what they refer to.
pub proof fn lemma_load_ordered(s: RtState, memory_offset: u32, target_bits: u8, source_bits: u8, signed: bool)
    requires
        rt_ok(s),
        load_widths_ok(target_bits, source_bits),
    ensures
        grows(s, load_st(s, memory_offset, target_bits, source_bits, signed)),
        in_scope(load_st(s, memory_offset, target_bits, source_bits, signed)).contains(load_name(target_bits, source_bits, signed)),
        in_scope(load_st(s, memory_offset, target_bits, source_bits, signed)).contains(i32_name_t(memory_offset as nat)),
{
    let name = load_name(target_bits, source_bits, signed);
    if s.has(name) {
        lemma_has_in_scope(s, name);
        lemma_grows_i32(s, memory_offset as u64);
    } else {
        let n = (source_bits / 8) as nat;
        lemma_add_ordered(s);
        let sa = add_st(s);
        lemma_incs_ordered(sa, (n - 1) as nat);
        let s1 = incs_st(sa, (n - 1) as nat);
        lemma_grows_trans(s, sa, s1);
        let s2 = if signed { sign_extend_st(s1, target_bits, source_bits) } else { s1 };
        if signed {
            lemma_sign_extend_ordered(s1, target_bits, source_bits);
            lemma_grows_trans(s, s1, s2);
        }
        lemma_core_names(s2);
        let r = in_scope(s2);
        let e0 = r.insert("offset"@);
        assert(core_names_in(e0));
        let e = ctx(e0);
        let base = seq!["base_addr"@];
        lemma_access_start(base, e0);
        let a12 = pop_range_t(base, 0) + addr0_defs_t();
        let e2 = env_with(e, a12);
        assert(n > 1 ==> e2.contains("INC"@));
        lemma_addr_defs_ok(n, e2);
        let a3 = addr_defs_t(n);
        lemma_concat_ok(a12, a3, e, e2);
        let e3 = env_with(e2, a3);
        lemma_load_defs_ok(n, e3);
        let a4 = load_defs_t(n);
        lemma_concat_ok(a12 + a3, a4, e, e3);
        let e4 = env_with(e3, a4);
        assert(core_names_in(e4));
        let result = load_result_t(target_bits, source_bits, signed);
        lemma_load_result_scoped(target_bits, source_bits, signed, e4);
        assert(seq![result][0] == result);
        lemma_push_defs_ok(seq![result], e4);
        let a5 = push_defs_t(seq![result]);
        lemma_concat_ok(a12 + a3 + a4, a5, e, e4);
        lemma_build_scoped(a12 + a3 + a4 + a5, e0);
        assert(scoped(load_def_t(target_bits, source_bits, signed), r));
        lemma_grows_def(s2, name, load_def_t(target_bits, source_bits, signed));
        let s3 = s2.def(name, load_def_t(target_bits, source_bits, signed));
        lemma_grows_i32(s3, memory_offset as u64);
        lemma_grows_trans(s, s2, s3);
        lemma_grows_trans(s, s3, load_st(s, memory_offset, target_bits, source_bits, signed));
    }
}

/// One byte of a store: take it from the list of bytes and write it at its address.
proof fn lemma_store_step_ok(i: nat, env: Set<Seq<char>>)
    requires
        core_names_in(env),
        env.contains("bytes"@),
        env.contains("M"@),
        env.contains(addr_name(i)),
    ensures
        defs_ok(store_step_t(i), env),
        env.subset_of(env_with(env, store_step_t(i))),
{
    let h = list::head_t(var_t("bytes"@));
    let x1 = seq![("b"@, h)];
    assert(scoped(h, env)) by { reveal_with_fuel(scoped, 6); }
    lemma_single_ok("b"@, h, env);
    let eb = env.insert("b"@);
    let x2: Seq<(Seq<char>, Term)> = if i != 0 { seq![("bytes"@, list::tail_t(var_t("bytes"@)))] } else { Seq::empty() };
    if i != 0 {
        assert(scoped(list::tail_t(var_t("bytes"@)), eb)) by { reveal_with_fuel(scoped, 6); }
        lemma_single_ok("bytes"@, list::tail_t(var_t("bytes"@)), eb);
    } else {
        assert(defs_ok(x2, eb));
        assert(env_with(eb, x2) == eb);
    }
    lemma_concat_ok(x1, x2, env, eb);
    let e2 = env_with(eb, x2);
    assert(eb.subset_of(e2));
    let ins = memory::insert_t(v("M"@), var_t(addr_name(i)), var_t("b"@));
    assert(scoped(ins, e2)) by { reveal_with_fuel(scoped, 5); }
    lemma_then_single(x1 + x2, "M"@, ins, env);
    assert(store_step_t(i) == x1 + x2 + seq![("M"@, ins)]);
    lemma_env_with(env, store_step_t(i));
}

/// The bytes of a store, the highest address first.
proof fn lemma_store_steps_ok(k: nat, env: Set<Seq<char>>)
    requires
        core_names_in(env),
        env.contains("bytes"@),
        env.contains("M"@),
        forall|j: nat| j < k ==> env.contains(#[trigger] addr_name(j)),
    ensures
        defs_ok(store_steps_t(k), env),
    decreases k,
{
    if k == 0 {
        assert(defs_ok(store_steps_t(k), env));
    } else {
        let i = (k - 1) as nat;
        lemma_store_step_ok(i, env);
        let e1 = env_with(env, store_step_t(i));
        assert(core_names_in(e1));
        assert forall|j: nat| j < i implies e1.contains(#[trigger] addr_name(j)) by {
            assert(env.contains(addr_name(j)));
        }
        lemma_store_steps_ok(i, e1);
        lemma_concat_ok(store_step_t(i), store_steps_t(i), env, e1);
    }
}

/// Stores are defined after what they refer to.
pub proof fn lemma_store_ordered(s: RtState, memory_offset: u32, source_bits: u8, target_bits: u8)
    requires
        rt_ok(s),
        target_bits >= 8,
    ensures
        grows(s, store_st(s, memory_offset, source_bits, target_bits)),
        in_scope(store_st(s, memory_offset, source_bits, target_bits)).contains(store_name(source_bits, target_bits)),
        in_scope(store_st(s, memory_offset, source_bits, target_bits)).contains(i32_name_t(memory_offset as nat)),
{
    let name = store_name(source_bits, target_bits);
    if s.has(name) {
        lemma_has_in_scope(s, name);
        lemma_grows_i32(s, memory_offset as u64);
    } else {
        let n = (target_bits / 8) as nat;
        lemma_add_ordered(s);
        let sa = add_st(s);
        lemma_incs_ordered(sa, (n - 1) as nat);
        let s1 = incs_st(sa, (n - 1) as nat);
        lemma_grows_trans(s, sa, s1);
        lemma_split_ordered(s1, source_bits, target_bits);
        let s2 = split_st(s1, source_bits, target_bits);
        lemma_grows_trans(s, s1, s2);
        lemma_core_names(s2);
        let r = in_scope(s2);
        let e0 = r.insert("offset"@);
        assert(core_names_in(e0));
        let e = ctx(e0);
        let base = seq!["base_addr"@, "val"@];
        lemma_access_start(base, e0);
        let a12 = pop_range_t(base, 0) + addr0_defs_t();
        let e2 = env_with(e, a12);
        assert(e2.contains(base[1]));
        assert(n > 1 ==> e2.contains("INC"@));
        lemma_addr_defs_ok(n, e2);
        let a3 = addr_defs_t(n);
        lemma_concat_ok(a12, a3, e, e2);
        let e3 = env_with(e2, a3);
        let split = split_t(var_t("val"@), source_bits, target_bits);
        assert(scoped(split, e3)) by { reveal_with_fuel(scoped, 4); }
        lemma_then_single(a12 + a3, "bytes"@, split, e);
        let a4 = seq![("bytes"@, split)];
        let e4 = env_with(e, a12 + a3 + a4);
        assert(e4 == e3.insert("bytes"@));
        assert(core_names_in(e4));
        assert forall|j: nat| j < n implies e4.contains(#[trigger] addr_name(j)) by {
            assert(e3.contains(addr_name(j)));
        }
        lemma_store_steps_ok(n, e4);
        let a5 = store_steps_t(n);
        lemma_concat_ok(a12 + a3 + a4, a5, e, e4);
        lemma_build_scoped(a12 + a3 + a4 + a5, e0);
        assert(scoped(store_def_t(source_bits, target_bits), r));
        lemma_grows_def(s2, name, store_def_t(source_bits, target_bits));
        let s3 = s2.def(name, store_def_t(source_bits, target_bits));
        lemma_grows_i32(s3, memory_offset as u64);
        lemma_grows_trans(s, s2, s3);
        lemma_grows_trans(s, s3, store_st(s, memory_offset, source_bits, target_bits));
    }
}

/// An instruction that pops three variables and sets the memory to a term over them.
proof fn lemma_pop3_set_memory_scoped(vars: Seq<Seq<char>>, t: Term, env: Set<Seq<char>>)
    requires
        core_names_in(env),
        vars.len() == 3,
        scoped(t, ctx(env).insert(vars[0]).insert(vars[1]).insert(vars[2])),
    ensures
        scoped(build_t(pop_range_t(vars, 0) + seq![("M"@, t)]), env),
{
    lemma_ctx(env);
    let e = ctx(env);
    lemma_pop_range_ok(vars, 0, e);
    let ea = env_with(e, pop_range_t(vars, 0));
    assert(ea.contains(vars[0]) && ea.contains(vars[1]) && ea.contains(vars[2]));
    lemma_scoped_mono(t, e.insert(vars[0]).insert(vars[1]).insert(vars[2]), ea);
    lemma_then_single(pop_range_t(vars, 0), "M"@, t, e);
    lemma_build_scoped(pop_range_t(vars, 0) + seq![("M"@, t)], env);
}

/// `memory.fill` is defined after what it refers to.
pub proof fn lemma_memory_fill_ordered(s: RtState)
    requires
        rt_ok(s),
    ensures
        grows(s, memory_fill_st(s)),
        in_scope(memory_fill_st(s)).contains("MemFill"@),
{
    if s.has("MemFill"@) {
        lemma_grows_refl(s);
        lemma_has_in_scope(s, "MemFill"@);
    } else {
        lemma_eq_ordered(s);
        let sa = eq_st(s);
        lemma_inc_ordered(sa);
        let sb = inc_st(sa);
        lemma_grows_trans(s, sa, sb);
        lemma_core_names(sb);
        assert(scoped(mem_fill_helper_t(), in_scope(sb).insert("_MemFill"@))) by { reveal_with_fuel(scoped, 20); }
        lemma_grows_def_rec(sb, "_MemFill"@, mem_fill_helper_t());
        let s1 = sb.def_rec("_MemFill"@, mem_fill_helper_t());
        lemma_grows_trans(s, sb, s1);
        lemma_add_ordered(s1);
        let sc = add_st(s1);
        lemma_split_ordered(sc, 32, 8);
        let sd = split_st(sc, 32, 8);
        lemma_grows_trans(s, s1, sc);
        lemma_grows_trans(s, sc, sd);
        lemma_core_names(sd);
        let vars = mem_fill_vars();
        let t = crate::codegen::lambda::app4_t(
            rec_t(var_t("_MemFill"@)),
            v("M"@),
            var_t("addr"@),
            list::head_t(split_t(var_t("val"@), 32, 8)),
            app2_t(var_t("ADD"@), var_t("addr"@), var_t("len"@)),
        );
        let e = in_scope(sd);
        assert(e.contains("_MemFill"@) && e.contains("ADD"@) && e.contains("CHOP"@));
        lemma_ctx(e);
        assert(scoped(t, ctx(e).insert(vars[0]).insert(vars[1]).insert(vars[2]))) by { reveal_with_fuel(scoped, 12); }
        lemma_pop3_set_memory_scoped(vars, t, e);
        lemma_grows_def(sd, "MemFill"@, mem_fill_def_t());
        lemma_grows_trans(s, sd, memory_fill_st(s));
    }
}

/// The copying helpers of `memory.copy`, forwards and backwards.
proof fn lemma_memory_copy_helpers(s: RtState)
    requires
        rt_ok(s),
        !s.has("MemCopy"@),
    ensures
        ({
            let s1 = inc_st(inc_st(eq_st(s))).def_rec("_MemCopy"@, mem_copy_helper_t());
            let s2 = add_st(add_st(eq_st(s1.with_i32(0xffff_ffff)))).def_rec("_MemCopyB"@, mem_copy_back_helper_t());
            &&& grows(s, s2)
            &&& in_scope(s2).contains("_MemCopy"@)
            &&& in_scope(s2).contains("_MemCopyB"@)
        }),
{
    lemma_eq_ordered(s);
    let sa = eq_st(s);
    lemma_inc_ordered(sa);
    let sb = inc_st(sa);
    lemma_inc_ordered(sb);
    let sc = inc_st(sb);
    lemma_grows_trans(s, sa, sb);
    lemma_grows_trans(s, sb, sc);
    lemma_core_names(sc);
    assert(scoped(mem_copy_helper_t(), in_scope(sc).insert("_MemCopy"@))) by { reveal_with_fuel(scoped, 20); }
    lemma_grows_def_rec(sc, "_MemCopy"@, mem_copy_helper_t());
    let s1 = sc.def_rec("_MemCopy"@, mem_copy_helper_t());
    lemma_grows_trans(s, sc, s1);
    lemma_grows_i32(s1, 0xffff_ffff);
    let sd = s1.with_i32(0xffff_ffff);
    lemma_eq_ordered(sd);
    let se = eq_st(sd);
    lemma_add_ordered(se);
    let sf = add_st(se);
    lemma_add_ordered(sf);
    let sg = add_st(sf);
    lemma_grows_trans(s, s1, sd);
    lemma_grows_trans(s, sd, se);
    lemma_grows_trans(s, se, sf);
    lemma_grows_trans(s, sf, sg);
    lemma_core_names(sg);
    let e = in_scope(sg).insert("_MemCopyB"@);
    assert(e.contains("EQ"@) && e.contains("ADD"@) && e.contains(i32_name_t(0xffff_ffff)));
    assert(scoped(mem_copy_back_helper_t(), e)) by { reveal_with_fuel(scoped, 24); }
    lemma_grows_def_rec(sg, "_MemCopyB"@, mem_copy_back_helper_t());
    lemma_grows_trans(s, sg, sg.def_rec("_MemCopyB"@, mem_copy_back_helper_t()));
}

/// `memory.copy` is defined after what it refers to.
pub proof fn lemma_memory_copy_ordered(s: RtState)
    requires
        rt_ok(s),
    ensures
        grows(s, memory_copy_st(s)),
        in_scope(memory_copy_st(s)).contains("MemCopy"@),
{
    if s.has("MemCopy"@) {
        lemma_grows_refl(s);
        lemma_has_in_scope(s, "MemCopy"@);
    } else {
        lemma_memory_copy_helpers(s);
        let s1 = inc_st(inc_st(eq_st(s))).def_rec("_MemCopy"@, mem_copy_helper_t());
        let s2 = add_st(add_st(eq_st(s1.with_i32(0xffff_ffff)))).def_rec("_MemCopyB"@, mem_copy_back_helper_t());
        lemma_add_ordered(s2);
        let sa = add_st(s2);
        lemma_add_ordered(sa);
        let sb = add_st(sa);
        lemma_add_ordered(sb);
        let sc = add_st(sb);
        lemma_compare_ordered(sc, true);
        let sd = compare_st(sc, true);
        lemma_grows_trans(s, s2, sa);
        lemma_grows_trans(s, sa, sb);
        lemma_grows_trans(s, sb, sc);
        lemma_grows_trans(s, sc, sd);
        lemma_core_names(sd);
        let e = in_scope(sd);
        assert(e.contains("_MemCopy"@) && e.contains("_MemCopyB"@) && e.contains("ADD"@) && e.contains("LT"@));
        let vars = mem_copy_vars();
        let forward = crate::codegen::lambda::app4_t(
            rec_t(var_t("_MemCopy"@)),
            v("M"@),
            var_t("dst"@),
            var_t("src"@),
            app2_t(var_t("ADD"@), var_t("src"@), var_t("len"@)),
        );
        let backward = crate::codegen::lambda::app4_t(
            rec_t(var_t("_MemCopyB"@)),
            v("M"@),
            app2_t(var_t("ADD"@), var_t("dst"@), var_t("len"@)),
            app2_t(var_t("ADD"@), var_t("src"@), var_t("len"@)),
            var_t("src"@),
        );
        let t = select_t(app2_t(var_t("LT"@), var_t("src"@), var_t("dst"@)), forward, backward);
        lemma_ctx(e);
        assert(scoped(t, ctx(e).insert(vars[0]).insert(vars[1]).insert(vars[2]))) by { reveal_with_fuel(scoped, 12); }
        lemma_pop3_set_memory_scoped(vars, t, e);
        lemma_grows_def(sd, "MemCopy"@, mem_copy_def_t());
        lemma_grows_trans(s, sd, memory_copy_st(s));
    }
}

/// Compiling an operator keeps the runtime's utilities in dependency order: every utility
/// that an instruction asks for refers only to the core definitions, the constants and the
/// utilities defined before it, and what was defined stays.
///
#[verifier::spinoff_prover]
#[verifier::rlimit(40)]
pub proof fn lemma_instruction_ordered(s: RtState, op: Operator, blocks: Seq<BlockT>)
    requires
        rt_ok(s),
    ensures
        op_instr(s, op, blocks) matches Some(res) ==> grows(s, res.0),
{
    match op {
        Operator::Drop => lemma_drop_ordered(s),
        Operator::Select => lemma_select_ordered(s),
        Operator::Nop => lemma_grows_refl(s),
        Operator::Unreachable => lemma_exit_ordered(s),
        Operator::Call { function_index } => lemma_call_ordered(s, function_index),
        Operator::CallIndirect { .. } => lemma_call_indirect_ordered(s),
        Operator::Loop { .. } | Operator::If { .. } | Operator::Block { .. } => if blocks.len() > 0 { lemma_begin_block_ordered(s, blocks.last()) },
        Operator::End => lemma_grows_refl(s),
        Operator::Else | Operator::Br { .. } | Operator::Return => lemma_grows_refl(s),
        Operator::BrIf { .. } => lemma_eqz_ordered(s),
        Operator::BrTable { targets, default } => if crate::codegen::runtime::instructions::targets_ok(targets@, default, blocks.len()) {
            lemma_br_table_ordered(s, targets@.len());
        },
        Operator::LocalGet { local_index } => { lemma_core_names(s); lemma_accessors_scoped(in_scope(s)); lemma_variable_ordered(s, "LGet"@, local_get_def_t(), local_index) },
        Operator::LocalSet { local_index } => { lemma_core_names(s); lemma_accessors_scoped(in_scope(s)); lemma_variable_ordered(s, "LSet"@, local_set_def_t(), local_index) },
        Operator::LocalTee { local_index } => { lemma_core_names(s); lemma_accessors_scoped(in_scope(s)); lemma_variable_ordered(s, "LTee"@, local_tee_def_t(), local_index) },
        Operator::GlobalGet { global_index } => { lemma_core_names(s); lemma_accessors_scoped(in_scope(s)); lemma_variable_ordered(s, "GGet"@, global_get_def_t(), global_index) },
        Operator::GlobalSet { global_index } => { lemma_core_names(s); lemma_accessors_scoped(in_scope(s)); lemma_variable_ordered(s, "GSet"@, global_set_def_t(), global_index) },
        Operator::MemorySize { .. } => lemma_memory_size_ordered(s),
        Operator::MemoryGrow { .. } => lemma_memory_grow_ordered(s),
        Operator::MemoryFill { .. } => lemma_memory_fill_ordered(s),
        Operator::MemoryCopy { .. } => lemma_memory_copy_ordered(s),
        Operator::I32Load { memarg } => lemma_load_ordered(s, memarg.offset as u32, 32, 32, false),
        Operator::I64Load { memarg } => lemma_load_ordered(s, memarg.offset as u32, 64, 64, false),
        Operator::I32Load8U { memarg } => lemma_load_ordered(s, memarg.offset as u32, 32, 8, false),
        Operator::I32Load8S { memarg } => lemma_load_ordered(s, memarg.offset as u32, 32, 8, true),
        Operator::I32Load16U { memarg } => lemma_load_ordered(s, memarg.offset as u32, 32, 16, false),
        Operator::I32Load16S { memarg } => lemma_load_ordered(s, memarg.offset as u32, 32, 16, true),
        Operator::I64Load8U { memarg } => lemma_load_ordered(s, memarg.offset as u32, 64, 8, false),
        Operator::I64Load8S { memarg } => lemma_load_ordered(s, memarg.offset as u32, 64, 8, true),
        Operator::I64Load16U { memarg } => lemma_load_ordered(s, memarg.offset as u32, 64, 16, false),
        Operator::I64Load16S { memarg } => lemma_load_ordered(s, memarg.offset as u32, 64, 16, true),
        Operator::I64Load32U { memarg } => lemma_load_ordered(s, memarg.offset as u32, 64, 32, false),
        Operator::I64Load32S { memarg } => lemma_load_ordered(s, memarg.offset as u32, 64, 32, true),
        Operator::F32Load { memarg } => lemma_load_ordered(s, memarg.offset as u32, 32, 32, false),
        Operator::F64Load { memarg } => lemma_load_ordered(s, memarg.offset as u32, 64, 64, false),
        Operator::I32Store { memarg } => lemma_store_ordered(s, memarg.offset as u32, 32, 32),
        Operator::I64Store { memarg } => lemma_store_ordered(s, memarg.offset as u32, 64, 64),
        Operator::I32Store8 { memarg } => lemma_store_ordered(s, memarg.offset as u32, 32, 8),
        Operator::I32Store16 { memarg } => lemma_store_ordered(s, memarg.offset as u32, 32, 16),
        Operator::I64Store8 { memarg } => lemma_store_ordered(s, memarg.offset as u32, 64, 8),
        Operator::I64Store16 { memarg } => lemma_store_ordered(s, memarg.offset as u32, 64, 16),
        Operator::I64Store32 { memarg } => lemma_store_ordered(s, memarg.offset as u32, 64, 32),
        Operator::F32Store { memarg } => lemma_store_ordered(s, memarg.offset as u32, 32, 32),
        Operator::F64Store { memarg } => lemma_store_ordered(s, memarg.offset as u32, 64, 64),
        Operator::I32Const { .. } | Operator::I64Const { .. } | Operator::F32Const { .. } | Operator::F64Const { .. } => lemma_push_const_ordered(s, op),
        Operator::I32WrapI64 => lemma_i32_wrap_i64_ordered(s),
        Operator::I64ExtendI32U => lemma_i64_extend_i32_ordered(s, false),
        Operator::I64ExtendI32S => lemma_i64_extend_i32_ordered(s, true),
        Operator::I32Extend8S => lemma_extend_s_ordered(s, 32, 8),
        Operator::I32Extend16S => lemma_extend_s_ordered(s, 32, 16),
        Operator::I64Extend8S => lemma_extend_s_ordered(s, 64, 8),
        Operator::I64Extend16S => lemma_extend_s_ordered(s, 64, 16),
        Operator::I64Extend32S => lemma_extend_s_ordered(s, 64, 32),
        Operator::I32Eqz | Operator::I64Eqz => lemma_eqz_instr_ordered(s),
        Operator::I32And | Operator::I64And => lemma_binop_ordered(s, BinOp::And),
        Operator::I32Or | Operator::I64Or => lemma_binop_ordered(s, BinOp::Or),
        Operator::I32Xor | Operator::I64Xor => lemma_binop_ordered(s, BinOp::Xor),
        Operator::I32Shl => lemma_binop_ordered(s, BinOp::Shl32),
        Operator::I32ShrU => lemma_binop_ordered(s, BinOp::ShrU32),
        Operator::I32ShrS => lemma_binop_ordered(s, BinOp::ShrS32),
        Operator::I64Shl => lemma_binop_ordered(s, BinOp::Shl64),
        Operator::I64ShrU => lemma_binop_ordered(s, BinOp::ShrU64),
        Operator::I64ShrS => lemma_binop_ordered(s, BinOp::ShrS64),
        Operator::I32Rotl => lemma_binop_ordered(s, BinOp::Rotl32),
        Operator::I32Rotr => lemma_binop_ordered(s, BinOp::Rotr32),
        Operator::I64Rotl => lemma_binop_ordered(s, BinOp::Rotl64),
        Operator::I64Rotr => lemma_binop_ordered(s, BinOp::Rotr64),
        Operator::I32Add | Operator::I64Add => lemma_binop_ordered(s, BinOp::Add),
        Operator::I32Mul | Operator::I64Mul => lemma_binop_ordered(s, BinOp::Mul),
        Operator::I32DivU => lemma_div_instr_ordered(s, false, 32),
        Operator::I32DivS => lemma_div_instr_ordered(s, true, 32),
        Operator::I64DivU => lemma_div_instr_ordered(s, false, 64),
        Operator::I64DivS => lemma_div_instr_ordered(s, true, 64),
        Operator::I32RemU => lemma_rem_instr_ordered(s, false, 32),
        Operator::I32RemS => lemma_rem_instr_ordered(s, true, 32),
        Operator::I64RemU => lemma_rem_instr_ordered(s, false, 64),
        Operator::I64RemS => lemma_rem_instr_ordered(s, true, 64),
        Operator::I32Clz => lemma_bit_count_ordered(s, BitCount::LeadingZeroes, 32),
        Operator::I32Ctz => lemma_bit_count_ordered(s, BitCount::TrailingZeroes, 32),
        Operator::I32Popcnt => lemma_bit_count_ordered(s, BitCount::Ones, 32),
        Operator::I64Clz => lemma_bit_count_ordered(s, BitCount::LeadingZeroes, 64),
        Operator::I64Ctz => lemma_bit_count_ordered(s, BitCount::TrailingZeroes, 64),
        Operator::I64Popcnt => lemma_bit_count_ordered(s, BitCount::Ones, 64),
        Operator::I32Sub | Operator::I64Sub => lemma_binop_ordered(s, BinOp::Sub),
        Operator::I32Eq | Operator::I64Eq => lemma_compare_instr_ordered(s, CompareOp::Eq),
        Operator::I32Ne | Operator::I64Ne => lemma_compare_instr_ordered(s, CompareOp::Ne),
        Operator::I32LtU | Operator::I64LtU => lemma_compare_instr_ordered(s, CompareOp::LtU),
        Operator::I32LtS | Operator::I64LtS => lemma_compare_instr_ordered(s, CompareOp::LtS),
        Operator::I32LeU | Operator::I64LeU => lemma_compare_instr_ordered(s, CompareOp::LeU),
        Operator::I32LeS | Operator::I64LeS => lemma_compare_instr_ordered(s, CompareOp::LeS),
        Operator::I32GtU | Operator::I64GtU => lemma_compare_instr_ordered(s, CompareOp::GtU),
        Operator::I32GtS | Operator::I64GtS => lemma_compare_instr_ordered(s, CompareOp::GtS),
        Operator::I32GeU | Operator::I64GeU => lemma_compare_instr_ordered(s, CompareOp::GeU),
        Operator::I32GeS | Operator::I64GeS => lemma_compare_instr_ordered(s, CompareOp::GeS),
        Operator::F32ReinterpretI32 | Operator::F64ReinterpretI64 | Operator::I32ReinterpretF32 | Operator::I64ReinterpretF64 => lemma_grows_refl(s),
        Operator::F32Abs | Operator::F64Abs | Operator::F32Neg | Operator::F64Neg | Operator::F32Ceil | Operator::F64Ceil | Operator::F32Floor | Operator::F64Floor | Operator::F32Trunc | Operator::F64Trunc | Operator::F32Nearest | Operator::F64Nearest | Operator::F32Sqrt | Operator::F64Sqrt | Operator::F32Add | Operator::F64Add | Operator::F32Sub | Operator::F64Sub | Operator::F32Mul | Operator::F64Mul | Operator::F32Div | Operator::F64Div | Operator::F32Min | Operator::F64Min | Operator::F32Max | Operator::F64Max | Operator::F32Copysign | Operator::F64Copysign | Operator::F32Eq | Operator::F64Eq | Operator::F32Ne | Operator::F64Ne | Operator::F32Lt | Operator::F64Lt | Operator::F32Le | Operator::F64Le | Operator::F32Gt | Operator::F64Gt | Operator::F32Ge | Operator::F64Ge | Operator::I32TruncF32S | Operator::I32TruncF32U | Operator::I32TruncF64S | Operator::I32TruncF64U | Operator::I64TruncF32S | Operator::I64TruncF32U | Operator::I64TruncF64S | Operator::I64TruncF64U | Operator::F32ConvertI32S | Operator::F32ConvertI32U | Operator::F32ConvertI64S | Operator::F32ConvertI64U | Operator::F64ConvertI32S | Operator::F64ConvertI32U | Operator::F64ConvertI64S | Operator::F64ConvertI64U | Operator::F32DemoteF64 | Operator::F64PromoteF32 => lemma_trap_ordered(s, TrapCode::UsedUnsupportedFloatArithmetic),
        _ => {},
    }
}

/// An instruction whose definitions and final term refer only to names in scope.
pub proof fn lemma_wrap_lets_scoped(defs: Seq<(Seq<char>, Term)>, body: Term, env: Set<Seq<char>>)
    requires
        defs_ok(defs, ctx(env)),
        scoped(body, env_with(ctx(env), defs)),
    ensures
        scoped(wrap_t(lets_t(defs, body)), env),
{
    lemma_lets_scoped(defs, body, ctx(env));
    assert(scoped(wrap_t(lets_t(defs, body)), env)) by { reveal_with_fuel(scoped, 8); }
}

/// Returning to the code segment on top of the trace refers only to the trace.
pub proof fn lemma_ret_defs_ok(env: Set<Seq<char>>)
    requires
        core_names_in(env),
        env.contains("T"@),
    ensures
        defs_ok(ret_defs_t(), env),
        env.subset_of(env_with(env, ret_defs_t())),
        env_with(env, ret_defs_t()).contains("N"@),
{
    let t1 = stack::top_t(v("T"@));
    let t2 = stack::pop_t(v("T"@));
    let t3 = v("_ret"@);
    let e1 = env.insert("_ret"@);
    let e2 = e1.insert("T"@);
    assert(scoped(t1, env)) by { reveal_with_fuel(scoped, 4); }
    assert(scoped(t2, e1)) by { reveal_with_fuel(scoped, 4); }
    assert(scoped(t3, e2));
    lemma_single_ok("N"@, t3, e2);
    lemma_single_then("T"@, t2, seq![("N"@, t3)], e1);
    lemma_single_then("_ret"@, t1, seq![("T"@, t2)] + seq![("N"@, t3)], env);
    assert(ret_defs_t() == seq![("_ret"@, t1)] + (seq![("T"@, t2)] + seq![("N"@, t3)]));
    lemma_env_with(env, ret_defs_t());
    assert(ret_defs_t()[2].0 == "N"@);
}

/// Output is defined after what it refers to.
#[verifier::spinoff_prover]
#[verifier::rlimit(40)]
pub proof fn lemma_output_ordered(s: RtState)
    requires
        rt_ok(s),
    ensures
        grows(s, output_st(s)),
        in_scope(output_st(s)).contains("Output"@),
{
    if s.has("Output"@) {
        lemma_grows_refl(s);
        lemma_has_in_scope(s, "Output"@);
    } else {
        lemma_split_ordered(s, 32, 8);
        let s1 = split_st(s, 32, 8);
        lemma_body_env(s1);
        let e = ctx(in_scope(s1));
        let a = pop_range_t(seq!["a"@], 0);
        lemma_pop_range_ok(seq!["a"@], 0, e);
        let ea = env_with(e, a);
        assert(ea.contains(seq!["a"@][0]));
        lemma_ret_defs_ok(ea);
        lemma_concat_ok(a, ret_defs_t(), e, ea);
        let er = env_with(ea, ret_defs_t());
        let byte = list::head_t(split_t(var_t("a"@), 32, 8));
        let body = io_command::output_t(byte, crate::codegen::lambda::instruction::execute_next_t());
        assert(scoped(body, er)) by { reveal_with_fuel(scoped, 14); }
        lemma_wrap_lets_scoped(a + ret_defs_t(), body, in_scope(s1));
        assert(output_def_t() == build_output_t(a + ret_defs_t(), byte));
        lemma_grows_def(s1, "Output"@, output_def_t());
        lemma_grows_trans(s, s1, output_st(s));
    }
}

/// Input is defined after what it refers to.
#[verifier::spinoff_prover]
#[verifier::rlimit(40)]
pub proof fn lemma_input_ordered(s: RtState)
    requires
        rt_ok(s),
    ensures
        grows(s, input_st(s)),
        in_scope(input_st(s)).contains("Input"@),
{
    if s.has("Input"@) {
        lemma_grows_refl(s);
        lemma_has_in_scope(s, "Input"@);
    } else {
        lemma_grows_i32(s, 0xffff_ffff);
        let s1 = s.with_i32(0xffff_ffff);
        lemma_core_names(s1);
        let e = ctx(in_scope(s1)).insert("inp"@);
        lemma_ctx(in_scope(s1));
        assert(core_names_in(e));
        let args = seq![Term::Var("0b"@), Term::Var("0b"@), Term::Var("0b"@), optional::unwrap_t(var_t("inp"@))];
        assert(scoped(optional::unwrap_t(var_t("inp"@)), e)) by { reveal_with_fuel(scoped, 3); }
        assert(forall|i: int| 0 <= i < args.len() ==> scoped(#[trigger] args[i], e));
        lemma_apps_scoped(Term::Var("I32"@), args, e);
        assert(e.contains(num_t(false, 0xffff_ffff)->Var_0));
        assert(scoped(input_item_t(), e)) by { reveal_with_fuel(scoped, 4); }
        assert(seq![input_item_t()][0] == input_item_t());
        lemma_push_defs_ok(seq![input_item_t()], e);
        let p = push_defs_t(seq![input_item_t()]);
        lemma_ret_defs_ok(e);
        lemma_concat_ok(p, ret_defs_t(), e, e);
        let defs = p + ret_defs_t();
        lemma_env_with(e, defs);
        assert(scoped(crate::codegen::lambda::instruction::execute_next_t(), env_with(e, defs))) by {
            reveal_with_fuel(scoped, 8);
        }
        lemma_lets_scoped(defs, crate::codegen::lambda::instruction::execute_next_t(), e);
        assert(scoped(build_input_t(defs, "inp"@), in_scope(s1))) by { reveal_with_fuel(scoped, 14); }
        lemma_grows_def(s1, "Input"@, input_def_t());
        lemma_grows_trans(s, s1, input_st(s));
    }
}

/// Installing a trap handler is defined after what it refers to.
pub proof fn lemma_set_trap_handler_ordered(s: RtState)
    requires
        rt_ok(s),
    ensures
        grows(s, set_trap_handler_st(s)),
{
    if s.has("InitTrap"@) {
        lemma_grows_refl(s);
    } else {
        lemma_grows_id(s, 0xfffe);
        let s1 = s.with_id(0xfffe);
        lemma_core_names(s1);
        let e0 = in_scope(s1).insert("handle_trap"@);
        assert(core_names_in(e0));
        lemma_ctx(e0);
        let t = table::insert_t(v("G"@), handler_id_t(), var_t("handle_trap"@));
        assert(scoped(t, ctx(e0))) by { reveal_with_fuel(scoped, 5); }
        lemma_single_ok("G"@, t, ctx(e0));
        lemma_build_scoped(seq![("G"@, t)], e0);
        lemma_grows_def(s1, "InitTrap"@, init_trap_def_t());
        lemma_grows_trans(s, s1, set_trap_handler_st(s));
    }
}

/// The first definitions of a trap: look up the handler and reset the context.
proof fn lemma_trap_reset_ok(e: Set<Seq<char>>)
    requires
        core_names_in(e),
        e.contains("G"@),
        e.contains("S"@),
        e.contains("L"@),
        e.contains("T"@),
        e.contains(handler_id_t()->Var_0),
    ensures
        defs_ok(trap_defs_t().take(4), e),
        e.subset_of(env_with(e, trap_defs_t().take(4))),
        env_with(e, trap_defs_t().take(4)).contains("handler"@),
{
    let h = table::index_t(v("G"@), handler_id_t());
    let ds = data_stack::empty_t();
    let ln = crate::codegen::lambda::locals::new_t();
    let st = stack::empty_t();
    assert(scoped(h, e)) by { reveal_with_fuel(scoped, 4); }
    let eh = e.insert("handler"@);
    assert(scoped(ds, eh) && scoped(ln, eh) && scoped(st, eh)) by { reveal_with_fuel(scoped, 2); }
    assert(eh.insert("S"@) =~= eh);
    assert(eh.insert("L"@) =~= eh);
    lemma_single_ok("T"@, st, eh);
    lemma_single_then("L"@, ln, seq![("T"@, st)], eh);
    lemma_single_then("S"@, ds, seq![("L"@, ln)] + seq![("T"@, st)], eh);
    lemma_single_then("handler"@, h, seq![("S"@, ds)] + (seq![("L"@, ln)] + seq![("T"@, st)]), e);
    let first = trap_defs_t().take(4);
    assert(first =~= seq![("handler"@, h)] + (seq![("S"@, ds)] + (seq![("L"@, ln)] + seq![("T"@, st)])));
    lemma_env_with(e, first);
    assert(first[0].0 == "handler"@);
}

/// What a trap does: run the handler, or end the program where there is none.
proof fn lemma_trap_cmd_scoped(e: Set<Seq<char>>)
    requires
        core_names_in(e),
        e.contains("handler"@),
        e.contains("F"@) && e.contains("M"@) && e.contains("G"@),
        e.contains("L"@) && e.contains("S"@) && e.contains("T"@),
    ensures
        scoped(trap_cmd_t(), e),
{
    reveal_with_fuel(scoped, 14);
}

/// The definitions of a trap: look up the handler, reset the context, push the code.
proof fn lemma_trap_defs_ok(e: Set<Seq<char>>)
    requires
        core_names_in(e),
        e.contains("G"@),
        e.contains("S"@),
        e.contains("L"@),
        e.contains("T"@),
        e.contains("F"@),
        e.contains("M"@),
        e.contains("Exit"@),
        e.contains("trap_code"@),
        e.contains(handler_id_t()->Var_0),
    ensures
        defs_ok(trap_defs_t(), e),
        scoped(trap_cmd_t(), env_with(e, trap_defs_t())),
{
    let first = trap_defs_t().take(4);
    lemma_trap_reset_ok(e);
    let e1 = env_with(e, first);
    assert(core_names_in(e1));
    assert(seq![var_t("trap_code"@)][0] == var_t("trap_code"@));
    lemma_push_defs_ok(seq![var_t("trap_code"@)], e1);
    let p = push_defs_t(seq![var_t("trap_code"@)]);
    lemma_concat_ok(first, p, e, e1);
    let last = stack::push_t(v("T"@), app_t(var_t("Exit"@), unreachable_t()));
    assert(scoped(last, e1)) by { reveal_with_fuel(scoped, 6); }
    lemma_then_single(first + p, "T"@, last, e);
    assert(trap_defs_t() =~= first + p + seq![("T"@, last)]);
    let ed = env_with(e, trap_defs_t());
    lemma_env_with(e, trap_defs_t());
    assert(ed.contains("handler"@));
    lemma_trap_cmd_scoped(ed);
}

/// Trapping is defined after what it refers to.
pub proof fn lemma_trap_ordered(s: RtState, code: TrapCode)
    requires
        rt_ok(s),
    ensures
        grows(s, trap_st(s, code)),
        in_scope(trap_st(s, code)).contains("Trap"@),
        in_scope(trap_st(s, code)).contains(i32_name_t(code.value() as nat)),
{
    if s.has("Trap"@) {
        lemma_has_in_scope(s, "Trap"@);
        lemma_grows_i32(s, code.value() as u64);
    } else {
        lemma_grows_id(s, 0xfffe);
        let s0 = s.with_id(0xfffe);
        lemma_exit_ordered(s0);
        let s1 = exit_st(s0);
        lemma_grows_trans(s, s0, s1);
        lemma_core_names(s1);
        let e0 = in_scope(s1).insert("trap_code"@);
        assert(core_names_in(e0));
        lemma_ctx(e0);
        assert(in_scope(s1).contains("Exit"@));
        assert(in_scope(s1).contains(handler_id_t()->Var_0));
        lemma_trap_defs_ok(ctx(e0));
        lemma_wrap_lets_scoped(trap_defs_t(), trap_cmd_t(), e0);
        assert(scoped(trap_def_t(), in_scope(s1))) by { reveal_with_fuel(scoped, 2); }
        lemma_grows_def(s1, "Trap"@, trap_def_t());
        let s2 = s1.def("Trap"@, trap_def_t());
        lemma_grows_i32(s2, code.value() as u64);
        lemma_grows_trans(s, s1, s2);
        lemma_grows_trans(s, s2, trap_st(s, code));
    }
}

/// Writing the data segments into memory is defined after what it refers to.
pub proof fn lemma_memory_init_ordered(s: RtState)
    requires
        rt_ok(s),
    ensures
        grows(s, memory_init_st(s)),
        in_scope(memory_init_st(s)).contains("MemInit"@),
{
    if s.has("MemInit"@) {
        lemma_grows_refl(s);
        lemma_has_in_scope(s, "MemInit"@);
    } else {
        lemma_inc_ordered(s);
        let s1 = inc_st(s);
        lemma_core_names(s1);
        let r = in_scope(s1).insert("_MemInit"@);
        assert(core_names_in(r));
        assert(scoped(mem_init_helper_t(), r)) by { reveal_with_fuel(scoped, 20); }
        let e0 = r.insert("dat"@).insert("offset"@);
        assert(core_names_in(e0));
        lemma_ctx(e0);
        let t = app3_t(rec_t(var_t("_MemInit"@)), var_t("dat"@), var_t("offset"@), v("M"@));
        assert(scoped(t, ctx(e0))) by { reveal_with_fuel(scoped, 6); }
        lemma_single_ok("M"@, t, ctx(e0));
        lemma_build_scoped(seq![("M"@, t)], e0);
        assert(scoped(mem_init_def_t(), r)) by { reveal_with_fuel(scoped, 3); }
        lemma_grows_pair(s1, "_MemInit"@, mem_init_helper_t(), "MemInit"@, mem_init_def_t());
        lemma_grows_trans(s, s1, memory_init_st(s));
    }
}

/// Popping into the names `prefix0, prefix1, ...` and pushing them back.
proof fn lemma_hex_frame_ok(prefix: Seq<char>, n: nat, env: Set<Seq<char>>)
    requires
        core_names_in(env),
        env.contains("S"@),
    ensures
        defs_ok(pop_range_t(hex_names_t(prefix, n), 0), env),
        env.subset_of(env_with(env, pop_range_t(hex_names_t(prefix, n), 0))),
        forall|e2: Set<Seq<char>>| env_with(env, pop_range_t(hex_names_t(prefix, n), 0)).subset_of(e2)
            && core_names_in(e2) && e2.contains("S"@)
            ==> defs_ok(#[trigger] push_defs_t(hex_vars_t(prefix, n)), e2) && env_with(e2, push_defs_t(hex_vars_t(prefix, n))) == e2,
{
    let names = hex_names_t(prefix, n);
    lemma_pop_range_ok(names, 0, env);
    let e1 = env_with(env, pop_range_t(names, 0));
    assert forall|e2: Set<Seq<char>>| e1.subset_of(e2) && core_names_in(e2) && e2.contains("S"@)
        implies defs_ok(#[trigger] push_defs_t(hex_vars_t(prefix, n)), e2) && env_with(e2, push_defs_t(hex_vars_t(prefix, n))) == e2 by {
        let vars = hex_vars_t(prefix, n);
        assert forall|i: int| 0 <= i < vars.len() implies scoped(#[trigger] vars[i], e2) by {
            assert(vars[i] == var_t(names[i]));
            assert(e1.contains(names[i]));
        }
        lemma_push_defs_ok(vars, e2);
    }
}

/// The same definition, repeated, of a name in scope.
proof fn lemma_repeat_ok(x: Seq<char>, t: Term, n: nat, env: Set<Seq<char>>)
    requires
        env.contains(x),
        scoped(t, env),
    ensures
        defs_ok(repeat_t(x, t, n), env),
        env_with(env, repeat_t(x, t, n)) == env,
    decreases n,
{
    if n > 0 {
        assert(repeat_t(x, t, n).drop_first() =~= repeat_t(x, t, (n - 1) as nat));
        assert(repeat_t(x, t, n)[0] == (x, t));
        assert(env.insert(x) =~= env);
        lemma_repeat_ok(x, t, (n - 1) as nat, env);
    } else {
        assert(repeat_t(x, t, n) =~= Seq::<(Seq<char>, Term)>::empty());
    }
}

/// Whether the ends of the enclosing blocks that are not loops are in scope: the places that
/// branches go to.
pub open spec fn jump_targets_scoped(blocks: Seq<BlockT>, env: Set<Seq<char>>) -> bool {
    forall|k: int| 0 <= k < blocks.len() && !(blocks[k].labels is Loop)
        ==> scoped(#[trigger] jump_target_t(blocks[k].labels), env)
}

/// A branch refers only to the core definitions and to the end of its target.
pub proof fn lemma_jump_scoped(target: BlockT, frames: nat, loops: nat, env: Set<Seq<char>>)
    requires
        core_names_in(env),
        !(target.labels is Loop) ==> scoped(jump_target_t(target.labels), env),
    ensures
        scoped(build_t(jump_defs_t(target, frames, loops)), env),
{
    lemma_ctx(env);
    let e = ctx(env);
    let is_loop = target.labels is Loop;
    let n = jump_arity(target);
    lemma_hex_frame_ok("r"@, n, e);
    let a1 = pop_range_t(hex_names_t("r"@, n), 0);
    let e1 = env_with(e, a1);
    assert(core_names_in(e1) && e1.contains("S"@) && e1.contains("T"@) && e1.contains("N"@));
    let sp = data_stack::pop_frame_t(v("S"@));
    assert(scoped(sp, e1)) by { reveal_with_fuel(scoped, 4); }
    let a2 = repeat_t("S"@, sp, if is_loop { frames + 1 } else { frames });
    lemma_repeat_ok("S"@, sp, if is_loop { frames + 1 } else { frames }, e1);
    lemma_concat_ok(a1, a2, e, e1);
    let a3: Seq<(Seq<char>, Term)> = if is_loop { seq![("S"@, data_stack::push_frame_t(v("S"@)))] } else { Seq::empty() };
    if is_loop {
        assert(scoped(data_stack::push_frame_t(v("S"@)), e1)) by { reveal_with_fuel(scoped, 4); }
        lemma_single_ok("S"@, data_stack::push_frame_t(v("S"@)), e1);
        assert(e1.insert("S"@) =~= e1);
    } else {
        assert(defs_ok(a3, e1));
        assert(env_with(e1, a3) == e1);
    }
    lemma_concat_ok(a1 + a2, a3, e, e1);
    let a4 = push_defs_t(hex_vars_t("r"@, n));
    assert(defs_ok(a4, e1) && env_with(e1, a4) == e1);
    lemma_concat_ok(a1 + a2 + a3, a4, e, e1);
    let tp = stack::pop_t(v("T"@));
    assert(scoped(tp, e1)) by { reveal_with_fuel(scoped, 4); }
    let a5 = repeat_t("T"@, tp, loops);
    lemma_repeat_ok("T"@, tp, loops, e1);
    lemma_concat_ok(a1 + a2 + a3 + a4, a5, e, e1);
    let jt = jump_target_t(target.labels);
    if is_loop {
        assert(scoped(jt, e1)) by { reveal_with_fuel(scoped, 4); }
    } else {
        lemma_scoped_mono(jt, env, e1);
    }
    lemma_single_ok("N"@, jt, e1);
    lemma_concat_ok(a1 + a2 + a3 + a4 + a5, seq![("N"@, jt)], e, e1);
    assert(jump_defs_t(target, frames, loops) == a1 + a2 + a3 + a4 + a5 + seq![("N"@, jt)]);
    lemma_build_scoped(jump_defs_t(target, frames, loops), env);
}

/// A branch to any enclosing block refers only to the core definitions and to block ends in
/// scope.
pub proof fn lemma_br_scoped(blocks: Seq<BlockT>, d: nat, env: Set<Seq<char>>)
    requires
        core_names_in(env),
        d < blocks.len(),
        jump_targets_scoped(blocks, env),
    ensures
        scoped(br_t(blocks, d), env),
{
    let t = blocks.len() - 1 - d;
    let target = blocks[t];
    if !(target.labels is Loop) {
        assert(scoped(jump_target_t(blocks[t].labels), env));
    }
    lemma_jump_scoped(target, d, loop_count(blocks.subrange(t + 1, blocks.len() as int)), env);
}

/// A conditional branch refers to the test for zero and the branch.
pub proof fn lemma_br_if_scoped(blocks: Seq<BlockT>, d: nat, env: Set<Seq<char>>)
    requires
        core_names_in(env),
        env.contains("EQZ"@),
        d < blocks.len(),
        jump_targets_scoped(blocks, env),
    ensures
        scoped(br_if_t(blocks, d), env),
{
    lemma_br_scoped(blocks, d, env);
    lemma_ctx(env);
    let e = ctx(env);
    let c = pop_range_t(seq!["cond"@], 0);
    lemma_pop_range_ok(seq!["cond"@], 0, e);
    let ec = env_with(e, c);
    assert(ec.contains(seq!["cond"@][0]));
    lemma_scoped_mono(br_t(blocks, d), env, ec);
    let t = select_t(bit_not_t(app_t(var_t("EQZ"@), var_t("cond"@))), v("N"@), app_t(br_t(blocks, d), v("N"@)));
    assert(scoped(t, ec)) by { reveal_with_fuel(scoped, 8); }
    lemma_then_single(c, "N"@, t, e);
    lemma_build_scoped(c + seq![("N"@, t)], env);
}

/// Asking for the positions of a branch table as constants keeps the runtime in order.
pub proof fn lemma_positions_ordered(s: RtState, n: nat)
    requires
        rt_ok(s),
        n <= 0x1_0000_0000,
    ensures
        grows(s, positions_st(s, n)),
        forall|k: nat| k < n ==> in_scope(positions_st(s, n)).contains(#[trigger] i32_name_t(k)),
    decreases n,
{
    if n == 0 {
        lemma_grows_refl(s);
    } else {
        lemma_grows_i32(s, (n - 1) as u64);
        let s1 = s.with_i32((n - 1) as u64);
        lemma_positions_ordered(s1, (n - 1) as nat);
        lemma_grows_trans(s, s1, positions_st(s, n));
        assert forall|k: nat| k < n implies in_scope(positions_st(s, n)).contains(#[trigger] i32_name_t(k)) by {
            if k == n - 1 {
                assert(in_scope(s1).contains(i32_name_t(k)));
            }
        }
    }
}

/// A branch table refers to the comparison, its positions and its branches.
pub proof fn lemma_br_table_ordered(s: RtState, n: nat)
    requires
        rt_ok(s),
        n <= 0x1_0000_0000,
    ensures
        grows(s, br_table_st(s, n)),
        in_scope(br_table_st(s, n)).contains("EQ"@),
        forall|k: nat| k < n ==> in_scope(br_table_st(s, n)).contains(#[trigger] i32_name_t(k)),
{
    lemma_eq_ordered(s);
    lemma_positions_ordered(eq_st(s), n);
    lemma_grows_trans(s, eq_st(s), br_table_st(s, n));
}

/// The choice among the targets of a branch table refers to the comparison, the positions
/// and the branches.
proof fn lemma_table_choice_scoped(blocks: Seq<BlockT>, targets: Seq<u32>, default: u32, k: nat, env: Set<Seq<char>>, e: Set<Seq<char>>)
    requires
        core_names_in(env),
        env.subset_of(e),
        e.contains("EQ"@) && e.contains("i"@) && e.contains("N"@),
        forall|j: nat| k <= j < targets.len() ==> e.contains(#[trigger] i32_name_t(j)),
        targets.len() <= u32::MAX,
        default < blocks.len(),
        forall|j: int| 0 <= j < targets.len() ==> targets[j] < blocks.len(),
        jump_targets_scoped(blocks, env),
    ensures
        scoped(table_choice_t(blocks, targets, default, k), e),
    decreases targets.len() - k,
{
    if k >= targets.len() {
        lemma_br_scoped(blocks, default as nat, env);
        lemma_scoped_mono(br_t(blocks, default as nat), env, e);
        assert(scoped(table_choice_t(blocks, targets, default, k), e)) by { reveal_with_fuel(scoped, 3); }
    } else {
        lemma_table_choice_scoped(blocks, targets, default, k + 1, env, e);
        lemma_br_scoped(blocks, targets[k as int] as nat, env);
        lemma_scoped_mono(br_t(blocks, targets[k as int] as nat), env, e);
        assert(e.contains(i32_name_t(k)));
        assert((k as u64) as nat == k);
        assert(scoped(crate::codegen::runtime::num_t(false, k as u64), e));
        assert(scoped(table_choice_t(blocks, targets, default, k), e)) by { reveal_with_fuel(scoped, 10); }
    }
}

/// A branch table refers only to the comparison, its positions and block ends in scope.
pub proof fn lemma_br_table_scoped(blocks: Seq<BlockT>, targets: Seq<u32>, default: u32, env: Set<Seq<char>>)
    requires
        core_names_in(env),
        env.contains("EQ"@),
        forall|j: nat| j < targets.len() ==> env.contains(#[trigger] i32_name_t(j)),
        targets.len() <= u32::MAX,
        default < blocks.len(),
        forall|j: int| 0 <= j < targets.len() ==> targets[j] < blocks.len(),
        jump_targets_scoped(blocks, env),
    ensures
        scoped(br_table_t(blocks, targets, default), env),
{
    lemma_ctx(env);
    let e = ctx(env);
    let c = pop_range_t(seq!["i"@], 0);
    lemma_pop_range_ok(seq!["i"@], 0, e);
    let ec = env_with(e, c);
    assert(ec.contains(seq!["i"@][0]));
    lemma_table_choice_scoped(blocks, targets, default, 0, env, ec);
    lemma_then_single(c, "N"@, table_choice_t(blocks, targets, default, 0), e);
    lemma_build_scoped(c + seq![("N"@, table_choice_t(blocks, targets, default, 0))], env);
}

/// Entering a block refers only to the test for zero (for `if`) and its else label.
pub proof fn lemma_begin_block_scoped(block: BlockT, env: Set<Seq<char>>)
    requires
        core_names_in(env),
        block.labels is If ==> env.contains("EQZ"@) && scoped(block.labels->else_label, env),
    ensures
        scoped(begin_block_def_t(block), env),
{
    lemma_ctx(env);
    let e = ctx(env);
    let a1 = block_entry_t(block.labels);
    match block.labels {
        LabelsT::Loop => {
            let t = stack::push_t(v("T"@), v("N"@));
            assert(scoped(t, e)) by { reveal_with_fuel(scoped, 5); }
            lemma_single_ok("T"@, t, e);
        },
        LabelsT::If { else_label, .. } => {
            let c = pop_range_t(seq!["cond"@], 0);
            lemma_pop_range_ok(seq!["cond"@], 0, e);
            let ec = env_with(e, c);
            assert(ec.contains(seq!["cond"@][0]));
            lemma_scoped_mono(else_label, env, ec);
            let t = select_t(bit_not_t(app_t(var_t("EQZ"@), var_t("cond"@))), else_label, v("N"@));
            assert(scoped(t, ec)) by { reveal_with_fuel(scoped, 8); }
            lemma_then_single(c, "N"@, t, e);
        },
        _ => {
            assert(defs_ok(a1, e));
        },
    }
    lemma_env_with(e, a1);
    let e1 = env_with(e, a1);
    assert(core_names_in(e1));
    let n = block.block_type.param_count as nat;
    lemma_hex_frame_ok("p"@, n, e1);
    let a2 = pop_range_t(hex_names_t("p"@, n), 0);
    lemma_concat_ok(a1, a2, e, e1);
    let e2 = env_with(e1, a2);
    let t3 = data_stack::push_frame_t(v("S"@));
    assert(scoped(t3, e2)) by { reveal_with_fuel(scoped, 6); }
    lemma_then_single(a1 + a2, "S"@, t3, e);
    let e3 = e2.insert("S"@);
    assert(core_names_in(e3));
    let a4 = push_defs_t(hex_vars_t("p"@, n));
    assert(defs_ok(a4, e3));
    lemma_concat_ok(a1 + a2 + seq![("S"@, t3)], a4, e, e3);
    lemma_build_scoped(a1 + a2 + seq![("S"@, t3)] + a4, env);
}

/// The frames a block leaves: its results are popped, its frame dropped, its results pushed.
proof fn lemma_end_frame_ok(n: nat, e: Set<Seq<char>>)
    requires
        core_names_in(e),
        e.contains("S"@),
        e.contains("T"@),
    ensures
        defs_ok(pop_range_t(hex_names_t("r"@, n), 0) + seq![("S"@, data_stack::pop_frame_t(v("S"@)))]
            + push_defs_t(hex_vars_t("r"@, n)), e),
        e.subset_of(env_with(e, pop_range_t(hex_names_t("r"@, n), 0) + seq![("S"@, data_stack::pop_frame_t(v("S"@)))]
            + push_defs_t(hex_vars_t("r"@, n)))),
{
    lemma_hex_frame_ok("r"@, n, e);
    let results = pop_range_t(hex_names_t("r"@, n), 0);
    let push_results = push_defs_t(hex_vars_t("r"@, n));
    let e1 = env_with(e, results);
    let sp = data_stack::pop_frame_t(v("S"@));
    assert(scoped(sp, e1)) by { reveal_with_fuel(scoped, 4); }
    lemma_then_single(results, "S"@, sp, e);
    let e2 = e1.insert("S"@);
    assert(e2 =~= e1);
    assert(core_names_in(e1));
    assert(e1.subset_of(e1));
    assert(defs_ok(push_results, e1) && env_with(e1, push_results) == e1);
    lemma_concat_ok(results + seq![("S"@, sp)], push_results, e, e1);
}

/// Leaving a block refers only to the core definitions.
pub proof fn lemma_end_block_scoped(block: BlockT, env: Set<Seq<char>>)
    requires
        core_names_in(env),
    ensures
        scoped(end_block_def_t(block), env),
{
    lemma_ctx(env);
    let e = ctx(env);
    let n = block.block_type.result_count as nat;
    match block.labels {
        LabelsT::Func { .. } => lemma_end_func_scoped(n, env),
        LabelsT::Loop => {
            lemma_end_frame_ok(n, e);
            let d = pop_range_t(hex_names_t("r"@, n), 0) + seq![("S"@, data_stack::pop_frame_t(v("S"@)))]
                + push_defs_t(hex_vars_t("r"@, n));
            let tp = stack::pop_t(v("T"@));
            assert(scoped(tp, env_with(e, d))) by { reveal_with_fuel(scoped, 4); }
            lemma_then_single(d, "T"@, tp, e);
            lemma_build_scoped(d + seq![("T"@, tp)], env);
        },
        _ => {
            lemma_end_frame_ok(n, e);
            let d = pop_range_t(hex_names_t("r"@, n), 0) + seq![("S"@, data_stack::pop_frame_t(v("S"@)))]
                + push_defs_t(hex_vars_t("r"@, n));
            lemma_build_scoped(d, env);
        },
    }
}

/// Leaving the block of a function: the locals, the frames, and the return.
proof fn lemma_end_func_scoped(n: nat, env: Set<Seq<char>>)
    requires
        core_names_in(env),
    ensures
        forall|block: BlockT| block.labels is Func && block.block_type.result_count as nat == n ==> scoped(#[trigger] end_block_def_t(block), env),
{
    lemma_ctx(env);
    let e = ctx(env);
    lemma_hex_frame_ok("r"@, n, e);
    let results = pop_range_t(hex_names_t("r"@, n), 0);
    let push_results = push_defs_t(hex_vars_t("r"@, n));
    let e1 = env_with(e, results);
    let sp = data_stack::pop_frame_t(v("S"@));
    let lp = locals::pop_frame_t(v("L"@));
    assert(scoped(lp, e1)) by { reveal_with_fuel(scoped, 4); }
    let e2 = e1.insert("L"@);
    assert(e2.insert("S"@) =~= e2);
    assert(scoped(sp, e2)) by { reveal_with_fuel(scoped, 4); }
    lemma_single_ok("S"@, sp, e2);
    lemma_single_then("S"@, sp, seq![("S"@, sp)], e2);
    lemma_single_then("L"@, lp, seq![("S"@, sp)] + seq![("S"@, sp)], e1);
    let mid = seq![("L"@, lp), ("S"@, sp), ("S"@, sp)];
    assert(mid == seq![("L"@, lp)] + (seq![("S"@, sp)] + seq![("S"@, sp)]));
    lemma_concat_ok(results, mid, e, e1);
    lemma_env_with(e1, mid);
    let em = env_with(e1, mid);
    assert(core_names_in(em));
    assert(em.subset_of(em));
    assert(defs_ok(push_results, em) && env_with(em, push_results) == em);
    lemma_concat_ok(results + mid, push_results, e, em);
    lemma_ret_defs_ok(em);
    lemma_concat_ok(results + mid + push_results, ret_defs_t(), e, em);
    lemma_build_scoped(results + mid + push_results + ret_defs_t(), env);
    assert forall|block: BlockT| block.labels is Func && block.block_type.result_count as nat == n implies scoped(#[trigger] end_block_def_t(block), env) by {
        assert(end_block_def_t(block) == build_t(results + mid + push_results + ret_defs_t()));
    }
}

/// The instruction of an operator refers only to utilities the runtime defines by then, and,
/// for `if`, to the else label of its block.
#[verifier::spinoff_prover]
#[verifier::rlimit(40)]
pub proof fn lemma_instruction_scoped(s: RtState, op: Operator, blocks: Seq<BlockT>, env: Set<Seq<char>>)
    requires
        rt_ok(s),
        op_instr(s, op, blocks) is Some,
        in_scope((op_instr(s, op, blocks)->0).0).subset_of(env),
        (op is Loop || op is If || op is Block) && blocks.len() > 0 && blocks.last().labels is If
            ==> scoped(blocks.last().labels->else_label, env),
        (op is Br || op is BrIf || op is BrTable || op is Return || op is Else) ==> jump_targets_scoped(blocks, env),
    ensures
        scoped((op_instr(s, op, blocks)->0).1, env),
{
    lemma_core_names((op_instr(s, op, blocks)->0).0);
    match op {
        Operator::Drop => { lemma_drop_ordered(s); reveal_with_fuel(scoped, 4); },
        Operator::Select => { lemma_select_ordered(s); reveal_with_fuel(scoped, 4); },
        Operator::Nop => { reveal_with_fuel(scoped, 3); },
        Operator::Unreachable => { lemma_exit_ordered(s); reveal_with_fuel(scoped, 4); },
        Operator::Call { function_index } => { lemma_call_ordered(s, function_index); reveal_with_fuel(scoped, 4); },
        Operator::CallIndirect { .. } => { lemma_call_indirect_ordered(s); reveal_with_fuel(scoped, 4); },
        Operator::Loop { .. } | Operator::If { .. } | Operator::Block { .. } => if blocks.len() > 0 { lemma_eqz_ordered(s); lemma_begin_block_scoped(blocks.last(), env); },
        Operator::End => if blocks.len() > 0 { lemma_end_block_scoped(blocks.last(), env); },
        Operator::Else => if blocks.len() > 0 && blocks.last().labels is If {
            let end_label = blocks.last().labels->If_end_label;
            assert(jump_target_t(blocks[blocks.len() - 1].labels) == end_label);
            assert(scoped(jump_target_t(blocks[blocks.len() - 1].labels), env));
            lemma_ctx(env);
            lemma_scoped_mono(end_label, env, ctx(env));
            lemma_single_ok("N"@, end_label, ctx(env));
            lemma_build_scoped(seq![("N"@, end_label)], env);
        },
        Operator::Br { relative_depth } => if relative_depth < blocks.len() {
            lemma_br_scoped(blocks, relative_depth as nat, env);
        },
        Operator::BrIf { relative_depth } => if relative_depth < blocks.len() {
            lemma_eqz_ordered(s);
            lemma_br_if_scoped(blocks, relative_depth as nat, env);
        },
        Operator::BrTable { targets, default } => if crate::codegen::runtime::instructions::targets_ok(targets@, default, blocks.len()) {
            lemma_br_table_ordered(s, targets@.len());
            lemma_br_table_scoped(blocks, targets@, default, env);
        },
        Operator::Return => if 0 < blocks.len() <= u32::MAX {
            lemma_br_scoped(blocks, (blocks.len() - 1) as nat, env);
        },
        Operator::LocalGet { local_index } => { lemma_core_names(s); lemma_accessors_scoped(in_scope(s)); lemma_variable_ordered(s, "LGet"@, local_get_def_t(), local_index); reveal_with_fuel(scoped, 4); },
        Operator::LocalSet { local_index } => { lemma_core_names(s); lemma_accessors_scoped(in_scope(s)); lemma_variable_ordered(s, "LSet"@, local_set_def_t(), local_index); reveal_with_fuel(scoped, 4); },
        Operator::LocalTee { local_index } => { lemma_core_names(s); lemma_accessors_scoped(in_scope(s)); lemma_variable_ordered(s, "LTee"@, local_tee_def_t(), local_index); reveal_with_fuel(scoped, 4); },
        Operator::GlobalGet { global_index } => { lemma_core_names(s); lemma_accessors_scoped(in_scope(s)); lemma_variable_ordered(s, "GGet"@, global_get_def_t(), global_index); reveal_with_fuel(scoped, 4); },
        Operator::GlobalSet { global_index } => { lemma_core_names(s); lemma_accessors_scoped(in_scope(s)); lemma_variable_ordered(s, "GSet"@, global_set_def_t(), global_index); reveal_with_fuel(scoped, 4); },
        Operator::MemorySize { .. } => { lemma_memory_size_ordered(s); reveal_with_fuel(scoped, 4); },
        Operator::MemoryGrow { .. } => { lemma_memory_grow_ordered(s); reveal_with_fuel(scoped, 4); },
        Operator::MemoryFill { .. } => { lemma_memory_fill_ordered(s); reveal_with_fuel(scoped, 4); },
        Operator::MemoryCopy { .. } => { lemma_memory_copy_ordered(s); reveal_with_fuel(scoped, 4); },
        Operator::I32Load { memarg } => { lemma_load_ordered(s, memarg.offset as u32, 32, 32, false); reveal_with_fuel(scoped, 4); },
        Operator::I64Load { memarg } => { lemma_load_ordered(s, memarg.offset as u32, 64, 64, false); reveal_with_fuel(scoped, 4); },
        Operator::I32Load8U { memarg } => { lemma_load_ordered(s, memarg.offset as u32, 32, 8, false); reveal_with_fuel(scoped, 4); },
        Operator::I32Load8S { memarg } => { lemma_load_ordered(s, memarg.offset as u32, 32, 8, true); reveal_with_fuel(scoped, 4); },
        Operator::I32Load16U { memarg } => { lemma_load_ordered(s, memarg.offset as u32, 32, 16, false); reveal_with_fuel(scoped, 4); },
        Operator::I32Load16S { memarg } => { lemma_load_ordered(s, memarg.offset as u32, 32, 16, true); reveal_with_fuel(scoped, 4); },
        Operator::I64Load8U { memarg } => { lemma_load_ordered(s, memarg.offset as u32, 64, 8, false); reveal_with_fuel(scoped, 4); },
        Operator::I64Load8S { memarg } => { lemma_load_ordered(s, memarg.offset as u32, 64, 8, true); reveal_with_fuel(scoped, 4); },
        Operator::I64Load16U { memarg } => { lemma_load_ordered(s, memarg.offset as u32, 64, 16, false); reveal_with_fuel(scoped, 4); },
        Operator::I64Load16S { memarg } => { lemma_load_ordered(s, memarg.offset as u32, 64, 16, true); reveal_with_fuel(scoped, 4); },
        Operator::I64Load32U { memarg } => { lemma_load_ordered(s, memarg.offset as u32, 64, 32, false); reveal_with_fuel(scoped, 4); },
        Operator::I64Load32S { memarg } => { lemma_load_ordered(s, memarg.offset as u32, 64, 32, true); reveal_with_fuel(scoped, 4); },
        Operator::F32Load { memarg } => { lemma_load_ordered(s, memarg.offset as u32, 32, 32, false); reveal_with_fuel(scoped, 4); },
        Operator::F64Load { memarg } => { lemma_load_ordered(s, memarg.offset as u32, 64, 64, false); reveal_with_fuel(scoped, 4); },
        Operator::I32Store { memarg } => { lemma_store_ordered(s, memarg.offset as u32, 32, 32); reveal_with_fuel(scoped, 4); },
        Operator::I64Store { memarg } => { lemma_store_ordered(s, memarg.offset as u32, 64, 64); reveal_with_fuel(scoped, 4); },
        Operator::I32Store8 { memarg } => { lemma_store_ordered(s, memarg.offset as u32, 32, 8); reveal_with_fuel(scoped, 4); },
        Operator::I32Store16 { memarg } => { lemma_store_ordered(s, memarg.offset as u32, 32, 16); reveal_with_fuel(scoped, 4); },
        Operator::I64Store8 { memarg } => { lemma_store_ordered(s, memarg.offset as u32, 64, 8); reveal_with_fuel(scoped, 4); },
        Operator::I64Store16 { memarg } => { lemma_store_ordered(s, memarg.offset as u32, 64, 16); reveal_with_fuel(scoped, 4); },
        Operator::I64Store32 { memarg } => { lemma_store_ordered(s, memarg.offset as u32, 64, 32); reveal_with_fuel(scoped, 4); },
        Operator::F32Store { memarg } => { lemma_store_ordered(s, memarg.offset as u32, 32, 32); reveal_with_fuel(scoped, 4); },
        Operator::F64Store { memarg } => { lemma_store_ordered(s, memarg.offset as u32, 64, 64); reveal_with_fuel(scoped, 4); },
        Operator::I32Const { .. } | Operator::I64Const { .. } | Operator::F32Const { .. } | Operator::F64Const { .. } => { lemma_push_const_ordered(s, op); reveal_with_fuel(scoped, 4); },
        Operator::I32WrapI64 => { lemma_i32_wrap_i64_ordered(s); reveal_with_fuel(scoped, 4); },
        Operator::I64ExtendI32U => { lemma_i64_extend_i32_ordered(s, false); reveal_with_fuel(scoped, 4); },
        Operator::I64ExtendI32S => { lemma_i64_extend_i32_ordered(s, true); reveal_with_fuel(scoped, 4); },
        Operator::I32Extend8S => { lemma_extend_s_ordered(s, 32, 8); reveal_with_fuel(scoped, 4); },
        Operator::I32Extend16S => { lemma_extend_s_ordered(s, 32, 16); reveal_with_fuel(scoped, 4); },
        Operator::I64Extend8S => { lemma_extend_s_ordered(s, 64, 8); reveal_with_fuel(scoped, 4); },
        Operator::I64Extend16S => { lemma_extend_s_ordered(s, 64, 16); reveal_with_fuel(scoped, 4); },
        Operator::I64Extend32S => { lemma_extend_s_ordered(s, 64, 32); reveal_with_fuel(scoped, 4); },
        Operator::I32Eqz | Operator::I64Eqz => { lemma_eqz_instr_ordered(s); reveal_with_fuel(scoped, 4); },
        Operator::I32And | Operator::I64And => { lemma_binop_ordered(s, BinOp::And); reveal_with_fuel(scoped, 4); },
        Operator::I32Or | Operator::I64Or => { lemma_binop_ordered(s, BinOp::Or); reveal_with_fuel(scoped, 4); },
        Operator::I32Xor | Operator::I64Xor => { lemma_binop_ordered(s, BinOp::Xor); reveal_with_fuel(scoped, 4); },
        Operator::I32Shl => { lemma_binop_ordered(s, BinOp::Shl32); reveal_with_fuel(scoped, 4); },
        Operator::I32ShrU => { lemma_binop_ordered(s, BinOp::ShrU32); reveal_with_fuel(scoped, 4); },
        Operator::I32ShrS => { lemma_binop_ordered(s, BinOp::ShrS32); reveal_with_fuel(scoped, 4); },
        Operator::I64Shl => { lemma_binop_ordered(s, BinOp::Shl64); reveal_with_fuel(scoped, 4); },
        Operator::I64ShrU => { lemma_binop_ordered(s, BinOp::ShrU64); reveal_with_fuel(scoped, 4); },
        Operator::I64ShrS => { lemma_binop_ordered(s, BinOp::ShrS64); reveal_with_fuel(scoped, 4); },
        Operator::I32Rotl => { lemma_binop_ordered(s, BinOp::Rotl32); reveal_with_fuel(scoped, 4); },
        Operator::I32Rotr => { lemma_binop_ordered(s, BinOp::Rotr32); reveal_with_fuel(scoped, 4); },
        Operator::I64Rotl => { lemma_binop_ordered(s, BinOp::Rotl64); reveal_with_fuel(scoped, 4); },
        Operator::I64Rotr => { lemma_binop_ordered(s, BinOp::Rotr64); reveal_with_fuel(scoped, 4); },
        Operator::I32Add | Operator::I64Add => { lemma_binop_ordered(s, BinOp::Add); reveal_with_fuel(scoped, 4); },
        Operator::I32Mul | Operator::I64Mul => { lemma_binop_ordered(s, BinOp::Mul); reveal_with_fuel(scoped, 4); },
        Operator::I32DivU => { lemma_div_instr_ordered(s, false, 32); reveal_with_fuel(scoped, 4); },
        Operator::I32DivS => { lemma_div_instr_ordered(s, true, 32); reveal_with_fuel(scoped, 4); },
        Operator::I64DivU => { lemma_div_instr_ordered(s, false, 64); reveal_with_fuel(scoped, 4); },
        Operator::I64DivS => { lemma_div_instr_ordered(s, true, 64); reveal_with_fuel(scoped, 4); },
        Operator::I32RemU => { lemma_rem_instr_ordered(s, false, 32); reveal_with_fuel(scoped, 4); },
        Operator::I32RemS => { lemma_rem_instr_ordered(s, true, 32); reveal_with_fuel(scoped, 4); },
        Operator::I64RemU => { lemma_rem_instr_ordered(s, false, 64); reveal_with_fuel(scoped, 4); },
        Operator::I64RemS => { lemma_rem_instr_ordered(s, true, 64); reveal_with_fuel(scoped, 4); },
        Operator::I32Clz => { lemma_bit_count_ordered(s, BitCount::LeadingZeroes, 32); reveal_with_fuel(scoped, 4); },
        Operator::I32Ctz => { lemma_bit_count_ordered(s, BitCount::TrailingZeroes, 32); reveal_with_fuel(scoped, 4); },
        Operator::I32Popcnt => { lemma_bit_count_ordered(s, BitCount::Ones, 32); reveal_with_fuel(scoped, 4); },
        Operator::I64Clz => { lemma_bit_count_ordered(s, BitCount::LeadingZeroes, 64); reveal_with_fuel(scoped, 4); },
        Operator::I64Ctz => { lemma_bit_count_ordered(s, BitCount::TrailingZeroes, 64); reveal_with_fuel(scoped, 4); },
        Operator::I64Popcnt => { lemma_bit_count_ordered(s, BitCount::Ones, 64); reveal_with_fuel(scoped, 4); },
        Operator::I32Sub | Operator::I64Sub => { lemma_binop_ordered(s, BinOp::Sub); reveal_with_fuel(scoped, 4); },
        Operator::I32Eq | Operator::I64Eq => { lemma_compare_instr_ordered(s, CompareOp::Eq); reveal_with_fuel(scoped, 4); },
        Operator::I32Ne | Operator::I64Ne => { lemma_compare_instr_ordered(s, CompareOp::Ne); reveal_with_fuel(scoped, 4); },
        Operator::I32LtU | Operator::I64LtU => { lemma_compare_instr_ordered(s, CompareOp::LtU); reveal_with_fuel(scoped, 4); },
        Operator::I32LtS | Operator::I64LtS => { lemma_compare_instr_ordered(s, CompareOp::LtS); reveal_with_fuel(scoped, 4); },
        Operator::I32LeU | Operator::I64LeU => { lemma_compare_instr_ordered(s, CompareOp::LeU); reveal_with_fuel(scoped, 4); },
        Operator::I32LeS | Operator::I64LeS => { lemma_compare_instr_ordered(s, CompareOp::LeS); reveal_with_fuel(scoped, 4); },
        Operator::I32GtU | Operator::I64GtU => { lemma_compare_instr_ordered(s, CompareOp::GtU); reveal_with_fuel(scoped, 4); },
        Operator::I32GtS | Operator::I64GtS => { lemma_compare_instr_ordered(s, CompareOp::GtS); reveal_with_fuel(scoped, 4); },
        Operator::I32GeU | Operator::I64GeU => { lemma_compare_instr_ordered(s, CompareOp::GeU); reveal_with_fuel(scoped, 4); },
        Operator::I32GeS | Operator::I64GeS => { lemma_compare_instr_ordered(s, CompareOp::GeS); reveal_with_fuel(scoped, 4); },
        Operator::F32ReinterpretI32 | Operator::F64ReinterpretI64 | Operator::I32ReinterpretF32 | Operator::I64ReinterpretF64 => { reveal_with_fuel(scoped, 3); },
        Operator::F32Abs | Operator::F64Abs | Operator::F32Neg | Operator::F64Neg | Operator::F32Ceil | Operator::F64Ceil | Operator::F32Floor | Operator::F64Floor | Operator::F32Trunc | Operator::F64Trunc | Operator::F32Nearest | Operator::F64Nearest | Operator::F32Sqrt | Operator::F64Sqrt | Operator::F32Add | Operator::F64Add | Operator::F32Sub | Operator::F64Sub | Operator::F32Mul | Operator::F64Mul | Operator::F32Div | Operator::F64Div | Operator::F32Min | Operator::F64Min | Operator::F32Max | Operator::F64Max | Operator::F32Copysign | Operator::F64Copysign | Operator::F32Eq | Operator::F64Eq | Operator::F32Ne | Operator::F64Ne | Operator::F32Lt | Operator::F64Lt | Operator::F32Le | Operator::F64Le | Operator::F32Gt | Operator::F64Gt | Operator::F32Ge | Operator::F64Ge | Operator::I32TruncF32S | Operator::I32TruncF32U | Operator::I32TruncF64S | Operator::I32TruncF64U | Operator::I64TruncF32S | Operator::I64TruncF32U | Operator::I64TruncF64S | Operator::I64TruncF64U | Operator::F32ConvertI32S | Operator::F32ConvertI32U | Operator::F32ConvertI64S | Operator::F32ConvertI64U | Operator::F64ConvertI32S | Operator::F64ConvertI32U | Operator::F64ConvertI64S | Operator::F64ConvertI64U | Operator::F32DemoteF64 | Operator::F64PromoteF32 => { lemma_trap_ordered(s, TrapCode::UsedUnsupportedFloatArithmetic); reveal_with_fuel(scoped, 4); },
        _ => {},
    }
}

} // verus!
