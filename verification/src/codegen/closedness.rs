//! The code that the compiler builds refers only to names it defines.

use vstd::prelude::*;

use crate::analyzer::{
    body_run, compile_result, data_error, data_offset, datas_run, elements_run, exports_result,
    exports_run, globals_result, globals_run, imports_run, payload_run, payloads_run, tables_run,
    AnalyzerView, Data, Element, Export, FuncType, Import, Operator, Payload, ValType,
};
use crate::codegen::function::{
    before_st, data_init_items_t, data_init_st, data_name_t, entrypoint_items_t, entrypoint_st,
    init_memory_item_t,
    after_st, function_st, label_t, prologue_st, run_st, step_st, BlockT, FnState, FuncSig, LabelsT,
};
use crate::codegen::runtime::instructions::control_flow::jump_target_t;
use crate::codegen::runtime::instructions::scoping::jump_targets_scoped;
use crate::codegen::lambda::code::{build_t, chain_t, ChainItemT};
use crate::codegen::lambda::instruction::{pop_range_t, start_t, v};
use crate::codegen::lambda::number::{
    be_bytes_t, byte_bits_t, byte_defs_t, byte_name_t, byte_t, byte_vars_t, bytes_closed,
    const_bits, constant_defs_t, i32_defs_t, i32_name_t, i32_t, i64_defs_t, i64_t, id_defs_t, id_t,
    is_32_bit_const, is_32_bit_type, le_bytes_t, lemma_byte_defs_names, lemma_le_bytes_bound,
    lemma_le_bytes_len, lemma_rev8_bound, rev8, NumberConstants,
};
use crate::codegen::lambda::scope::{
    closed, defs_ok, env_with, lemma_apps_scoped, lemma_core_defs_ok, lemma_defs_concat,
    lemma_env_with, lemma_lets_scoped, lemma_list_scoped, lemma_scoped_mono, scoped,
};
use crate::codegen::lambda::tree::{dummy_t, from_t, pair_up_t, rounds_t};
use crate::codegen::lambda::{
    apps_t, core_defs_t, data_stack, list, locals, render, table, unreachable_t, Term,
};
use crate::codegen::runtime::instructions::control_flow::call_st;
use crate::codegen::runtime::instructions::memory::init_memory_size_st;
use crate::codegen::runtime::instructions::scoping::{
    ctx, lemma_build_scoped, lemma_call_ordered, lemma_concat_ok, lemma_ctx, lemma_exit_ordered,
    lemma_input_ordered, lemma_instruction_ordered, lemma_instruction_scoped,
    lemma_init_memory_size_ordered, lemma_memory_init_ordered, lemma_output_ordered,
    lemma_pop_range_ok, lemma_single_ok,
    lemma_single_then, lemma_then_single,
};
use crate::codegen::runtime::instructions::{
    hex_names_t, hex_vars_t, local_defaults_st, local_defaults_t, op_instr, prologue_def_t,
};
use crate::codegen::runtime::{
    base_env, core_env, core_names_in, grows, in_scope, lemma_consts_in_scope,
    lemma_core_env_names, lemma_core_names, lemma_grows_byte, lemma_grows_i32, lemma_grows_num,
    lemma_grows_refl, lemma_grows_trans, num_t, rt_ok, RtState,
};
use crate::codegen::text::dec_t;
use crate::codegen::{
    custom_entries_t, data_bytes_st, data_defs_t, data_offset_ok, data_offset_t, func_defs_t,
    func_name_t, program_t, table_defs_t, with_data, with_elements, with_function, with_global,
    with_import, with_table, ProgramView,
};

verus! {

/// The labels placed among the items.
pub open spec fn labels_of(items: Seq<ChainItemT>) -> Set<Seq<char>>
    decreases items.len(),
{
    if items.len() == 0 {
        Set::empty()
    } else {
        let rest = labels_of(items.drop_first());
        match items[0] {
            ChainItemT::Label(x) => rest.insert(x),
            ChainItemT::Instruction(_) => rest,
        }
    }
}

/// Every instruction of the chain refers only to names of `env` and to labels placed after it.
pub open spec fn chain_ok(items: Seq<ChainItemT>, env: Set<Seq<char>>) -> bool
    decreases items.len(),
{
    if items.len() == 0 {
        true
    } else {
        let rest = items.drop_first();
        &&& match items[0] {
            ChainItemT::Instruction(t) => scoped(t, env + labels_of(rest)),
            ChainItemT::Label(_) => true,
        }
        &&& chain_ok(rest, env)
    }
}

/// More names in scope keep a chain in scope.
pub proof fn lemma_chain_ok_mono(items: Seq<ChainItemT>, e1: Set<Seq<char>>, e2: Set<Seq<char>>)
    requires
        chain_ok(items, e1),
        e1.subset_of(e2),
    ensures
        chain_ok(items, e2),
    decreases items.len(),
{
    if items.len() > 0 {
        let rest = items.drop_first();
        lemma_chain_ok_mono(rest, e1, e2);
        if let ChainItemT::Instruction(t) = items[0] {
            lemma_scoped_mono(t, e1 + labels_of(rest), e2 + labels_of(rest));
        }
    }
}

proof fn lemma_labels_of_push(items: Seq<ChainItemT>, item: ChainItemT)
    ensures
        labels_of(items.push(item)) == match item {
            ChainItemT::Label(x) => labels_of(items).insert(x),
            ChainItemT::Instruction(_) => labels_of(items),
        },
    decreases items.len(),
{
    if items.len() > 0 {
        lemma_labels_of_push(items.drop_first(), item);
        assert(items.push(item).drop_first() =~= items.drop_first().push(item));
        assert(items.push(item)[0] == items[0]);
    } else {
        assert(items.push(item).drop_first() =~= Seq::<ChainItemT>::empty());
        assert(items.push(item)[0] == item);
        reveal_with_fuel(labels_of, 2);
        assert(labels_of(items) == Set::<Seq<char>>::empty());
        assert(Set::<Seq<char>>::empty().insert(item->Label_0) =~= labels_of(items).insert(item->Label_0)) by {}
    }
}

/// An instruction at the end of a chain sees only `env`.
pub proof fn lemma_chain_ok_push_instr(items: Seq<ChainItemT>, t: Term, env: Set<Seq<char>>)
    requires
        chain_ok(items, env),
        scoped(t, env),
    ensures
        chain_ok(items.push(ChainItemT::Instruction(t)), env),
    decreases items.len(),
{
    let item = ChainItemT::Instruction(t);
    if items.len() == 0 {
        let c = seq![item];
        assert(c.drop_first() =~= Seq::<ChainItemT>::empty());
        assert(env + Set::<Seq<char>>::empty() =~= env);
        assert(items.push(item) =~= c);
        assert(labels_of(c.drop_first()) == Set::<Seq<char>>::empty());
        assert(chain_ok(c.drop_first(), env));
        assert(chain_ok(c, env));
    } else {
        let rest = items.drop_first();
        lemma_chain_ok_push_instr(rest, t, env);
        assert(items.push(item).drop_first() =~= rest.push(item));
        assert(items.push(item)[0] == items[0]);
        lemma_labels_of_push(rest, item);
    }
}

/// A label placed at the end of a chain brings its name into scope for what comes before.
pub proof fn lemma_chain_ok_push_label(items: Seq<ChainItemT>, x: Seq<char>, env: Set<Seq<char>>)
    requires
        chain_ok(items, env.insert(x)),
    ensures
        chain_ok(items.push(ChainItemT::Label(x)), env),
    decreases items.len(),
{
    let item = ChainItemT::Label(x);
    if items.len() == 0 {
        assert(items.push(item).drop_first() =~= Seq::<ChainItemT>::empty());
        assert(items.push(item)[0] == item);
        assert(chain_ok(items.push(item).drop_first(), env));
    } else {
        let rest = items.drop_first();
        lemma_chain_ok_push_label(rest, x, env);
        assert(items.push(item).drop_first() =~= rest.push(item));
        assert(items.push(item)[0] == items[0]);
        lemma_labels_of_push(rest, item);
        if let ChainItemT::Instruction(t) = items[0] {
            assert(env.insert(x) + labels_of(rest) =~= env + labels_of(rest).insert(x));
        }
    }
}

/// The labels of a chain are bound by its definitions, and each label's segment is in scope.
proof fn lemma_chain_defs(items: Seq<ChainItemT>, env: Set<Seq<char>>)
    requires
        chain_ok(items, env),
        env.contains("_"@),
    ensures
        defs_ok(chain_t(items).0, env),
        scoped(chain_t(items).1, env_with(env, chain_t(items).0)),
        (env + labels_of(items)).subset_of(env_with(env, chain_t(items).0)),
    decreases items.len(),
{
    if items.len() == 0 {
        assert(env_with(env, Seq::<(Seq<char>, Term)>::empty()) == env);
        assert(scoped(unreachable_t(), env));
        assert(env + Set::<Seq<char>>::empty() =~= env);
    } else {
        let rest = items.drop_first();
        lemma_chain_defs(rest, env);
        let (defs, c) = chain_t(rest);
        let er = env_with(env, defs);
        match items[0] {
            ChainItemT::Instruction(t) => {
                lemma_scoped_mono(t, env + labels_of(rest), er);
                assert(scoped(chain_t(items).1, er));
            },
            ChainItemT::Label(x) => {
                let d = seq![(x, c)];
                assert(d.drop_first() =~= Seq::<(Seq<char>, Term)>::empty());
                assert(defs_ok(d, er)) by { reveal_with_fuel(defs_ok, 2); }
                assert(env_with(er, d) == er.insert(x)) by { reveal_with_fuel(env_with, 2); }
                lemma_defs_concat(defs, d, env);
                assert(defs.push((x, c)) == defs + d);
                assert(scoped(chain_t(items).1, er.insert(x)));
            },
        }
    }
}

/// A chain whose instructions refer only to names in scope and to labels placed after them.
pub proof fn lemma_chain_scoped(items: Seq<ChainItemT>, env: Set<Seq<char>>)
    requires
        chain_ok(items, env),
        env.contains("_"@),
    ensures
        scoped(build_t(items), env),
{
    lemma_chain_defs(items, env);
    lemma_lets_scoped(chain_t(items).0, chain_t(items).1, env);
}

/// The dummy subtrees of the core definitions are in scope everywhere in the runtime.
pub proof fn lemma_dummy_names(s: RtState)
    ensures
        forall|i: nat| i < 33 ==> in_scope(s).contains(#[trigger] dummy_t(i)->Var_0),
        in_scope(s).contains("P"@),
{
    let d = core_defs_t();
    lemma_env_with(Set::empty(), d);
    lemma_consts_in_scope(s);
    let t = crate::codegen::lambda::tree::defs_t();
    let pre = seq![
        ("_"@, crate::codegen::lambda::abs_t("_"@, Term::Var("_"@))),
        ("0"@, crate::codegen::lambda::abs_t("x0"@, crate::codegen::lambda::abs_t("x1"@, Term::Var("x0"@)))),
        ("1"@, crate::codegen::lambda::abs_t("x0"@, crate::codegen::lambda::abs_t("x1"@, Term::Var("x1"@)))),
    ] + crate::codegen::lambda::pair::defs_t() + crate::codegen::lambda::list::defs_t()
        + crate::codegen::lambda::number::defs_t();
    assert(d == pre + t);
    assert(pre.len() == 13);
    assert forall|i: nat| i < 33 implies in_scope(s).contains(#[trigger] dummy_t(i)->Var_0) by {
        assert(d[13 + i as int] == t[i as int]);
        assert(t[i as int] == crate::codegen::lambda::tree::dummy_defs_t(33)[i as int]);
        if i == 0 {
            reveal_strlit("T0");
            reveal_strlit("T");
            assert(dec_t(0) == seq!['0']);
            assert("T0"@ =~= "T"@ + dec_t(0));
        }
        assert(t[i as int].0 == dummy_t(i)->Var_0);
        assert(env_with(Set::empty(), d).contains(d[13 + i as int].0));
        assert(crate::codegen::runtime::core_env().contains(dummy_t(i)->Var_0));
    }
    assert(d[3].0 == "P"@);
}

proof fn lemma_pair_up_scoped(items: Seq<Term>, pad: Term, env: Set<Seq<char>>)
    requires
        forall|i: int| 0 <= i < items.len() ==> scoped(#[trigger] items[i], env),
        scoped(pad, env),
        env.contains("P"@),
    ensures
        forall|j: int| 0 <= j < pair_up_t(items, pad).len() ==> scoped(#[trigger] pair_up_t(items, pad)[j], env),
{
    assert forall|j: int| 0 <= j < pair_up_t(items, pad).len() implies scoped(#[trigger] pair_up_t(items, pad)[j], env) by {
        assert(scoped(items[2 * j], env));
        if 2 * j + 1 < items.len() {
            assert(scoped(items[2 * j + 1], env));
        }
        reveal_with_fuel(scoped, 4);
    }
}

proof fn lemma_rounds_scoped(items: Seq<Term>, from: nat, to: nat, env: Set<Seq<char>>)
    requires
        forall|i: int| 0 <= i < items.len() ==> scoped(#[trigger] items[i], env),
        forall|i: nat| from <= i < to ==> env.contains(#[trigger] dummy_t(i)->Var_0),
        env.contains("P"@),
        items.len() > 0,
    ensures
        forall|j: int| 0 <= j < rounds_t(items, from, to).len() ==> scoped(#[trigger] rounds_t(items, from, to)[j], env),
        rounds_t(items, from, to).len() > 0,
    decreases to - from,
{
    if from < to {
        assert(env.contains(dummy_t(from)->Var_0));
        lemma_pair_up_scoped(items, dummy_t(from), env);
        lemma_rounds_scoped(pair_up_t(items, dummy_t(from)), from + 1, to, env);
    }
}

/// A tree is in scope when its leaves are, with the dummy subtrees of its depth in scope.
pub proof fn lemma_tree_scoped(bitness: nat, items: Seq<Term>, env: Set<Seq<char>>)
    requires
        forall|i: int| 0 <= i < items.len() ==> scoped(#[trigger] items[i], env),
        forall|i: nat| i <= bitness ==> env.contains(#[trigger] dummy_t(i)->Var_0),
        env.contains("P"@),
    ensures
        scoped(from_t(bitness, items), env),
{
    if items.len() == 0 {
        assert(env.contains(dummy_t(bitness)->Var_0));
    } else {
        lemma_rounds_scoped(items, 0, bitness, env);
    }
}

/// The zeroes of the locals are asked for after what comes before.
pub proof fn lemma_local_defaults_ordered(s: RtState, tys: Seq<ValType>)
    requires
        rt_ok(s),
    ensures
        grows(s, local_defaults_st(s, tys)),
        forall|i: int| 0 <= i < tys.len() ==> in_scope(local_defaults_st(s, tys)).contains(
            #[trigger] local_defaults_t(tys)[i]->Var_0),
    decreases tys.len(),
{
    if tys.len() == 0 {
        lemma_grows_refl(s);
    } else {
        let rest = tys.drop_last();
        lemma_local_defaults_ordered(s, rest);
        let s1 = local_defaults_st(s, rest);
        lemma_grows_num(s1, !is_32_bit_type(tys.last()), 0);
        lemma_grows_trans(s, s1, local_defaults_st(s, tys));
        assert forall|i: int| 0 <= i < tys.len() implies in_scope(local_defaults_st(s, tys)).contains(
            #[trigger] local_defaults_t(tys)[i]->Var_0) by {
            if i < rest.len() {
                assert(local_defaults_t(tys)[i] == local_defaults_t(rest)[i]);
                assert(in_scope(s1).contains(local_defaults_t(rest)[i]->Var_0));
            } else {
                assert(local_defaults_t(tys)[i] == num_t(!is_32_bit_type(tys.last()), 0));
            }
        }
    }
}

/// The first instruction of a function refers to the zeroes of its locals and to the core.
pub proof fn lemma_prologue_scoped(param_count: nat, tys: Seq<ValType>, env: Set<Seq<char>>)
    requires
        core_names_in(env),
        forall|i: nat| i < 33 ==> env.contains(#[trigger] dummy_t(i)->Var_0),
        forall|i: int| 0 <= i < tys.len() ==> env.contains(#[trigger] local_defaults_t(tys)[i]->Var_0),
    ensures
        scoped(prologue_def_t(param_count, tys), env),
{
    lemma_ctx(env);
    let e = ctx(env);
    let names = hex_names_t("p"@, param_count);
    let pops = pop_range_t(names, 0);
    lemma_pop_range_ok(names, 0, e);
    let e1 = env_with(e, pops);
    let items = hex_vars_t("p"@, param_count) + local_defaults_t(tys);
    assert forall|i: int| 0 <= i < items.len() implies scoped(#[trigger] items[i], e1) by {
        if i < param_count {
            assert(items[i] == Term::Var(names[i]));
            assert(e1.contains(names[i]));
        } else {
            let k = i - param_count;
            assert(items[i] == local_defaults_t(tys)[k]);
            assert(env.contains(local_defaults_t(tys)[k]->Var_0));
        }
    }
    assert forall|i: nat| i <= 16 implies e1.contains(#[trigger] dummy_t(i)->Var_0) by {
        assert(env.contains(dummy_t(i)->Var_0));
    }
    lemma_tree_scoped(16, items, e1);
    let lf = locals::push_frame_t(v("L"@), table::from_t(items));
    assert(scoped(lf, e1)) by { reveal_with_fuel(scoped, 4); }
    let sf = data_stack::push_frame_t(v("S"@));
    let e2 = e1.insert("L"@);
    assert(e2.insert("S"@) =~= e2);
    assert(scoped(sf, e2)) by { reveal_with_fuel(scoped, 6); }
    lemma_single_ok("S"@, sf, e2);
    lemma_single_then("S"@, sf, seq![("S"@, sf)], e2);
    lemma_single_then("L"@, lf, seq![("S"@, sf)] + seq![("S"@, sf)], e1);
    let rest = seq![("L"@, lf), ("S"@, sf), ("S"@, sf)];
    assert(rest == seq![("L"@, lf)] + (seq![("S"@, sf)] + seq![("S"@, sf)]));
    lemma_concat_ok(pops, rest, e, e1);
    lemma_build_scoped(pops + rest, env);
}

/// Whether the labels of a block are variables.
pub open spec fn block_labels_vars(b: BlockT) -> bool {
    match b.labels {
        LabelsT::Func { end_label } => end_label is Var,
        LabelsT::Block { end_label } => end_label is Var,
        LabelsT::If { end_label, else_label } => end_label is Var && else_label is Var,
        LabelsT::Loop => true,
    }
}

/// Every label of the blocks is a variable.
pub open spec fn labels_are_vars(blocks: Seq<BlockT>) -> bool {
    forall|k: int| 0 <= k < blocks.len() ==> #[trigger] block_labels_vars(blocks[k])
}

/// The labels of a block still to be placed: its end, and for an `if` that has not met its
/// `else`, its else label.
pub open spec fn block_pending(b: BlockT, has_else: bool) -> Set<Seq<char>> {
    match b.labels {
        LabelsT::Func { end_label } => set![render(end_label)],
        LabelsT::Block { end_label } => set![render(end_label)],
        LabelsT::If { end_label, else_label } => if has_else {
            set![render(end_label)]
        } else {
            set![render(end_label), render(else_label)]
        },
        LabelsT::Loop => Set::empty(),
    }
}

/// The labels that the enclosing blocks place after what is compiled so far; `has_else` tells,
/// for each enclosing `if`, the innermost last, whether it has met its `else`.
pub open spec fn pending(blocks: Seq<BlockT>, has_else: Seq<bool>) -> Set<Seq<char>>
    decreases blocks.len(),
{
    if blocks.len() == 0 {
        Set::empty()
    } else if blocks.last().labels is If && has_else.len() > 0 {
        pending(blocks.drop_last(), has_else.drop_last()) + block_pending(blocks.last(), has_else.last())
    } else {
        pending(blocks.drop_last(), has_else) + block_pending(blocks.last(), false)
    }
}

/// Entering a block adds its labels to those still to be placed.
proof fn lemma_pending_push(blocks: Seq<BlockT>, has_else: Seq<bool>, b: BlockT)
    ensures
        b.labels is If ==> pending(blocks.push(b), has_else.push(false)) == pending(blocks, has_else) + block_pending(b, false),
        !(b.labels is If) ==> pending(blocks.push(b), has_else) == pending(blocks, has_else) + block_pending(b, false),
{
    assert(blocks.push(b).drop_last() =~= blocks);
    assert(blocks.push(b).last() == b);
    assert(has_else.push(false).drop_last() =~= has_else);
}

/// The end of an enclosing block that is not a loop is still to be placed.
proof fn lemma_pending_targets(blocks: Seq<BlockT>, has_else: Seq<bool>, k: int)
    requires
        0 <= k < blocks.len(),
        !(blocks[k].labels is Loop),
    ensures
        pending(blocks, has_else).contains(render(jump_target_t(blocks[k].labels))),
    decreases blocks.len(),
{
    if k < blocks.len() - 1 {
        let rest = blocks.drop_last();
        assert(rest[k] == blocks[k]);
        if blocks.last().labels is If && has_else.len() > 0 {
            lemma_pending_targets(rest, has_else.drop_last(), k);
        } else {
            lemma_pending_targets(rest, has_else, k);
        }
    } else {
        assert(blocks.last() == blocks[k]);
    }
}

/// Where the labels to be placed are in scope, so are the places that branches go to.
proof fn lemma_targets_scoped(blocks: Seq<BlockT>, has_else: Seq<bool>, env: Set<Seq<char>>)
    requires
        labels_are_vars(blocks),
        pending(blocks, has_else).subset_of(env),
    ensures
        jump_targets_scoped(blocks, env),
{
    assert forall|k: int| 0 <= k < blocks.len() && !(blocks[k].labels is Loop)
        implies scoped(#[trigger] jump_target_t(blocks[k].labels), env) by {
        lemma_pending_targets(blocks, has_else, k);
        assert(block_labels_vars(blocks[k]));
    }
}

/// What holds of the state of the compilation of a function after every step: the runtime is
/// in order, every instruction so far refers only to the runtime, to labels placed after it
/// and to labels that the enclosing blocks still place, and every label is a variable.
pub open spec fn fn_inv(st: FnState) -> bool {
    &&& rt_ok(st.rt)
    &&& chain_ok(st.items, in_scope(st.rt) + pending(st.blocks, st.if_has_else))
    &&& labels_are_vars(st.blocks)
}

/// The labels that the instruction of `op` may refer to, after what comes before it: those of
/// all enclosing blocks, but for `end`, whose block has placed its own.
pub open spec fn pending_after(st: FnState, op: Operator) -> Set<Seq<char>> {
    if op is End && st.blocks.len() > 0 {
        pending(st.blocks.drop_last(), st.if_has_else)
    } else {
        pending(st.blocks, st.if_has_else)
    }
}

/// Entering a block keeps its labels variables.
proof fn lemma_labels_vars_push(blocks: Seq<BlockT>, b: BlockT)
    requires
        labels_are_vars(blocks),
        block_labels_vars(b),
    ensures
        labels_are_vars(blocks.push(b)),
{
    assert forall|k: int| 0 <= k < blocks.push(b).len() implies #[trigger] block_labels_vars(blocks.push(b)[k]) by {
        if k < blocks.len() {
            assert(blocks.push(b)[k] == blocks[k]);
        }
    }
}

/// What comes before the instruction of an operator keeps the chain in scope.
proof fn lemma_before_inv(st: FnState, op: Operator, types: Seq<FuncType>)
    requires
        fn_inv(st),
        before_st(st, op, types) is Some,
    ensures
        (before_st(st, op, types)->0).rt == st.rt,
        labels_are_vars((before_st(st, op, types)->0).blocks),
        chain_ok((before_st(st, op, types)->0).items,
            in_scope(st.rt) + pending_after(before_st(st, op, types)->0, op)),
        op is End ==> (before_st(st, op, types)->0).blocks == st.blocks,
        op is If ==> pending_after(before_st(st, op, types)->0, op).contains(
            render((before_st(st, op, types)->0).blocks.last().labels->If_else_label)),
        op is If ==> (before_st(st, op, types)->0).blocks.last().labels->If_else_label is Var,
        op is Loop || op is Block ==> !((before_st(st, op, types)->0).blocks.last().labels is If),
{
    let st1 = before_st(st, op, types)->0;
    let e = in_scope(st.rt);
    let p = pending(st.blocks, st.if_has_else);
    match op {
        Operator::Loop { blockty } => {
            let b = st1.blocks.last();
            assert(st1.blocks == st.blocks.push(b));
            lemma_pending_push(st.blocks, st.if_has_else, b);
            assert(pending(st1.blocks, st1.if_has_else) =~= p);
            lemma_labels_vars_push(st.blocks, b);
        },
        Operator::Block { blockty } => {
            let b = st1.blocks.last();
            assert(st1.blocks == st.blocks.push(b));
            lemma_pending_push(st.blocks, st.if_has_else, b);
            lemma_chain_ok_mono(st.items, e + p, e + pending(st1.blocks, st1.if_has_else));
            lemma_labels_vars_push(st.blocks, b);
        },
        Operator::If { blockty } => {
            let b = st1.blocks.last();
            assert(st1.blocks == st.blocks.push(b));
            assert(st1.if_has_else == st.if_has_else.push(false));
            lemma_pending_push(st.blocks, st.if_has_else, b);
            lemma_chain_ok_mono(st.items, e + p, e + pending(st1.blocks, st1.if_has_else));
            lemma_labels_vars_push(st.blocks, b);
        },
        Operator::End => {
            let b = st.blocks.last();
            let rest = st.blocks.drop_last();
            match b.labels {
                LabelsT::If { end_label, else_label } => {
                    let he = st.if_has_else.last();
                    let p2 = pending(rest, st.if_has_else.drop_last());
                    assert(st1.if_has_else == st.if_has_else.drop_last());
                    let items1 = if !he {
                        let x = render(else_label);
                        assert(e + p =~= (e + p2).insert(render(end_label)).insert(x));
                        lemma_chain_ok_push_label(st.items, x, (e + p2).insert(render(end_label)));
                        st.items.push(ChainItemT::Label(x))
                    } else {
                        assert(e + p =~= (e + p2).insert(render(end_label)));
                        st.items
                    };
                    lemma_chain_ok_push_label(items1, render(end_label), e + p2);
                    assert(st1.items =~= items1.push(ChainItemT::Label(render(end_label))));
                },
                LabelsT::Block { end_label } => {
                    assert(e + p =~= (e + pending(rest, st.if_has_else)).insert(render(end_label)));
                    lemma_chain_ok_push_label(st.items, render(end_label), e + pending(rest, st.if_has_else));
                },
                LabelsT::Func { end_label } => {
                    assert(e + p =~= (e + pending(rest, st.if_has_else)).insert(render(end_label)));
                    lemma_chain_ok_push_label(st.items, render(end_label), e + pending(rest, st.if_has_else));
                },
                LabelsT::Loop => {
                    assert(p =~= pending(rest, st.if_has_else));
                },
            }
        },
        _ => {},
    }
}

/// Each operator keeps what holds of the state of the compilation of a function.
pub proof fn lemma_step_inv(st: FnState, op: Operator, types: Seq<FuncType>)
    requires
        fn_inv(st),
        step_st(st, op, types) is Some,
    ensures
        fn_inv(step_st(st, op, types)->0),
        grows(st.rt, (step_st(st, op, types)->0).rt),
{
    reveal(step_st);
    lemma_before_inv(st, op, types);
    let st1 = before_st(st, op, types)->0;
    let r = op_instr(st1.rt, op, st1.blocks)->0;
    lemma_instruction_ordered(st1.rt, op, st1.blocks);
    let pa = pending_after(st1, op);
    let env = in_scope(r.0) + pa;
    if !(op is End) {
        lemma_targets_scoped(st1.blocks, st1.if_has_else, env);
    }
    if op is If {
        let x = st1.blocks.last().labels->If_else_label;
        assert(env.contains(render(x)));
    }
    lemma_instruction_scoped(st1.rt, op, st1.blocks, env);
    lemma_chain_ok_mono(st1.items, in_scope(st.rt) + pa, env);
    lemma_chain_ok_push_instr(st1.items, r.1, env);
    let st2 = FnState { items: st1.items.push(ChainItemT::Instruction(r.1)), rt: r.0, ..st1 };
    let st3 = step_st(st, op, types)->0;
    assert(st3 == after_st(st2, op)->0);
    match op {
        Operator::End => {
            let bs = st1.blocks.drop_last();
            assert forall|k: int| 0 <= k < bs.len() implies #[trigger] block_labels_vars(bs[k]) by {
                assert(bs[k] == st1.blocks[k]);
            }
        },
        Operator::Else => {
            let b = st1.blocks.last();
            if let LabelsT::If { end_label, else_label } = b.labels {
                let hes = st1.if_has_else;
                let hes2 = hes.update(hes.len() - 1, true);
                let rest = st1.blocks.drop_last();
                assert(hes2.drop_last() =~= hes.drop_last());
                let p_new = pending(st1.blocks, hes2);
                assert(p_new == pending(rest, hes.drop_last()) + block_pending(b, true));
                let x = render(else_label);
                assert(pa.subset_of(p_new.insert(x)));
                lemma_chain_ok_mono(st2.items, env, (in_scope(r.0) + p_new).insert(x));
                lemma_chain_ok_push_label(st2.items, x, in_scope(r.0) + p_new);
            }
        },
        _ => {},
    }
}

/// The operators one after another keep what holds of the state of the compilation.
pub proof fn lemma_run_inv(st: FnState, ops: Seq<Operator>, types: Seq<FuncType>)
    requires
        fn_inv(st),
        run_st(st, ops, types) is Some,
    ensures
        fn_inv(run_st(st, ops, types)->0),
        grows(st.rt, (run_st(st, ops, types)->0).rt),
    decreases ops.len(),
{
    if ops.len() == 0 {
        lemma_grows_refl(st.rt);
    } else {
        let prefix = ops.drop_last();
        lemma_run_inv(st, prefix, types);
        let st1 = run_st(st, prefix, types)->0;
        assert(ops[ops.len() - 1] == ops.last());
        lemma_step_inv(st1, ops.last(), types);
        lemma_grows_trans(st.rt, st1.rt, (run_st(st, ops, types)->0).rt);
    }
}

/// The code of a function refers only to the utilities of the runtime after it, once its body
/// has closed every block it opened: its labels are bound inside it.
pub proof fn lemma_function_closed(s: RtState, sig: FuncSig, ops: Seq<Operator>, types: Seq<FuncType>)
    requires
        rt_ok(s),
        run_st(prologue_st(s, sig), ops, types) matches Some(st) && st.blocks.len() == 0,
    ensures
        function_st(s, sig, ops, types) matches Some(res) && grows(s, res.0) && scoped(res.1, in_scope(res.0)),
{
    let st0 = prologue_st(s, sig);
    lemma_local_defaults_ordered(s, sig.local_types);
    let rt0 = st0.rt;
    lemma_core_names(rt0);
    lemma_dummy_names(rt0);
    lemma_prologue_scoped(sig.param_count, sig.local_types, in_scope(rt0));
    let first = prologue_def_t(sig.param_count, sig.local_types);
    let p0 = pending(st0.blocks, st0.if_has_else);
    lemma_scoped_mono(first, in_scope(rt0), in_scope(rt0) + p0);
    assert(chain_ok(Seq::<ChainItemT>::empty(), in_scope(rt0) + p0));
    lemma_chain_ok_push_instr(Seq::empty(), first, in_scope(rt0) + p0);
    assert(st0.items == Seq::<ChainItemT>::empty().push(ChainItemT::Instruction(first)));
    assert(block_labels_vars(st0.blocks[0]));
    assert(fn_inv(st0));
    lemma_run_inv(st0, ops, types);
    let st = run_st(st0, ops, types)->0;
    lemma_grows_trans(s, rt0, st.rt);
    assert(pending(st.blocks, st.if_has_else) =~= Set::<Seq<char>>::empty());
    assert(in_scope(st.rt) + pending(st.blocks, st.if_has_else) =~= in_scope(st.rt));
    lemma_core_names(st.rt);
    lemma_chain_scoped(st.items, in_scope(st.rt));
}

proof fn lemma_byte_defs_ok(bytes: Seq<u64>, env: Set<Seq<char>>)
    requires
        env.contains("Byte"@) && env.contains("0"@) && env.contains("1"@),
    ensures
        defs_ok(byte_defs_t(bytes), env),
    decreases bytes.len(),
{
    if bytes.len() > 0 {
        let rest = bytes.drop_last();
        lemma_byte_defs_ok(rest, env);
        if bytes.last() != 0 {
            let d = byte_defs_t(rest);
            let e = env_with(env, d);
            lemma_env_with(env, d);
            let n = bytes.last() as nat;
            let bits = byte_bits_t(n);
            assert forall|j: int| 0 <= j < bits.len() implies scoped(#[trigger] bits[j], e) by {}
            lemma_apps_scoped(Term::Var("Byte"@), bits, e);
            lemma_then_single(d, byte_name_t(n), byte_t(n), env);
            assert(byte_defs_t(bytes) == d + seq![(byte_name_t(n), byte_t(n))]);
        }
    }
}

proof fn lemma_id_defs_ok(ids: Seq<u64>, env: Set<Seq<char>>)
    requires
        env.contains("Id"@),
        forall|n: u64| #![trigger ids.contains(n)] ids.contains(n) ==> env.contains(byte_name_t(rev8(n as nat % 256)))
            && env.contains(byte_name_t(rev8((n as nat / 256) % 256))),
    ensures
        defs_ok(id_defs_t(ids), env),
    decreases ids.len(),
{
    if ids.len() > 0 {
        let rest = ids.drop_last();
        assert forall|n: u64| #![trigger rest.contains(n)] rest.contains(n) implies ids.contains(n) by {
            let i = choose|i: int| 0 <= i < rest.len() && rest[i] == n;
            assert(ids[i] == n);
        }
        lemma_id_defs_ok(rest, env);
        let d = id_defs_t(rest);
        lemma_env_with(env, d);
        let n = ids.last();
        assert(ids.contains(n)) by { assert(ids[ids.len() - 1] == n); }
        assert(scoped(id_t(n as nat), env_with(env, d))) by { reveal_with_fuel(scoped, 4); }
        lemma_then_single(d, crate::codegen::lambda::number::id_name_t(n as nat), id_t(n as nat), env);
        assert(id_defs_t(ids) == d + seq![(crate::codegen::lambda::number::id_name_t(n as nat), id_t(n as nat))]);
    }
}

/// A number made of the bytes of `n`, most significant first.
proof fn lemma_number_scoped(f: Seq<char>, n: nat, count: nat, env: Set<Seq<char>>)
    requires
        env.contains(f),
        forall|k: int| 0 <= k < count ==> env.contains(#[trigger] byte_name_t(le_bytes_t(n, count)[k])),
    ensures
        scoped(apps_t(Term::Var(f), byte_vars_t(be_bytes_t(n, count))), env),
{
    lemma_le_bytes_len(n, count);
    let args = byte_vars_t(be_bytes_t(n, count));
    assert forall|j: int| 0 <= j < args.len() implies scoped(#[trigger] args[j], env) by {
        assert(be_bytes_t(n, count)[j] == le_bytes_t(n, count)[count - 1 - j]);
        assert(env.contains(byte_name_t(le_bytes_t(n, count)[count - 1 - j])));
    }
    lemma_apps_scoped(Term::Var(f), args, env);
}

proof fn lemma_i32_defs_ok(ns: Seq<u64>, env: Set<Seq<char>>)
    requires
        env.contains("I32"@),
        forall|n: u64, k: int| #![trigger ns.contains(n), le_bytes_t(n as nat, 4)[k]]
            ns.contains(n) && 0 <= k < 4 ==> env.contains(byte_name_t(le_bytes_t(n as nat, 4)[k])),
    ensures
        defs_ok(i32_defs_t(ns), env),
    decreases ns.len(),
{
    if ns.len() > 0 {
        let rest = ns.drop_last();
        assert forall|n: u64| #![trigger rest.contains(n)] rest.contains(n) implies ns.contains(n) by {
            let i = choose|i: int| 0 <= i < rest.len() && rest[i] == n;
            assert(ns[i] == n);
        }
        lemma_i32_defs_ok(rest, env);
        let d = i32_defs_t(rest);
        lemma_env_with(env, d);
        let n = ns.last();
        assert(ns.contains(n)) by { assert(ns[ns.len() - 1] == n); }
        assert forall|k: int| 0 <= k < 4 implies env.contains(#[trigger] byte_name_t(le_bytes_t(n as nat, 4)[k])) by {}
        lemma_number_scoped("I32"@, n as nat, 4, env);
        lemma_scoped_mono(i32_t(n as nat), env, env_with(env, d));
        lemma_then_single(d, crate::codegen::lambda::number::i32_name_t(n as nat), i32_t(n as nat), env);
        assert(i32_defs_t(ns) == d + seq![(crate::codegen::lambda::number::i32_name_t(n as nat), i32_t(n as nat))]);
    }
}

proof fn lemma_i64_defs_ok(ns: Seq<u64>, env: Set<Seq<char>>)
    requires
        env.contains("I64"@),
        forall|n: u64, k: int| #![trigger ns.contains(n), le_bytes_t(n as nat, 8)[k]]
            ns.contains(n) && 0 <= k < 8 ==> env.contains(byte_name_t(le_bytes_t(n as nat, 8)[k])),
    ensures
        defs_ok(i64_defs_t(ns), env),
    decreases ns.len(),
{
    if ns.len() > 0 {
        let rest = ns.drop_last();
        assert forall|n: u64| #![trigger rest.contains(n)] rest.contains(n) implies ns.contains(n) by {
            let i = choose|i: int| 0 <= i < rest.len() && rest[i] == n;
            assert(ns[i] == n);
        }
        lemma_i64_defs_ok(rest, env);
        let d = i64_defs_t(rest);
        lemma_env_with(env, d);
        let n = ns.last();
        assert(ns.contains(n)) by { assert(ns[ns.len() - 1] == n); }
        assert forall|k: int| 0 <= k < 8 implies env.contains(#[trigger] byte_name_t(le_bytes_t(n as nat, 8)[k])) by {}
        lemma_number_scoped("I64"@, n as nat, 8, env);
        lemma_scoped_mono(i64_t(n as nat), env, env_with(env, d));
        lemma_then_single(d, crate::codegen::lambda::number::i64_name_t(n as nat), i64_t(n as nat), env);
        assert(i64_defs_t(ns) == d + seq![(crate::codegen::lambda::number::i64_name_t(n as nat), i64_t(n as nat))]);
    }
}

/// The bytes of the constants are named after the byte definitions.
proof fn lemma_byte_names(c: NumberConstants)
    ensures
        forall|x: u64| c.bytes.contains(x) ==> env_with(core_env(), byte_defs_t(c.bytes)).contains(#[trigger] byte_name_t(x as nat)),
{
    lemma_core_env_names();
    let b = byte_defs_t(c.bytes);
    lemma_env_with(core_env(), b);
    let e1 = env_with(core_env(), b);
    assert forall|x: u64| c.bytes.contains(x) implies e1.contains(#[trigger] byte_name_t(x as nat)) by {
        if x == 0 {
            reveal_strlit("0b");
            reveal_strlit("b");
            assert(crate::codegen::text::hex_upper_t(0) == seq!['0']);
            assert(byte_name_t(0) =~= "0b"@);
        } else {
            lemma_byte_defs_names(c.bytes, byte_name_t(x as nat));
            let i = choose|i: int| 0 <= i < b.len() && #[trigger] b[i].0 == byte_name_t(x as nat);
        }
    }
}

/// The bytes of the ID constants are named after the byte definitions.
proof fn lemma_id_bytes_named(c: NumberConstants)
    requires
        bytes_closed(c),
    ensures
        forall|n: u64| #![trigger c.ids.contains(n)] c.ids.contains(n) ==> env_with(core_env(), byte_defs_t(c.bytes)).contains(byte_name_t(rev8(n as nat % 256)))
            && env_with(core_env(), byte_defs_t(c.bytes)).contains(byte_name_t(rev8((n as nat / 256) % 256))),
{
    lemma_byte_names(c);
    let e1 = env_with(core_env(), byte_defs_t(c.bytes));
    assert forall|n: u64| #![trigger c.ids.contains(n)] c.ids.contains(n) implies e1.contains(byte_name_t(rev8(n as nat % 256)))
        && e1.contains(byte_name_t(rev8((n as nat / 256) % 256))) by {
        assert(le_bytes_t(n as nat, 2)[0] == n as nat % 256 && le_bytes_t(n as nat, 2)[1] == (n as nat / 256) % 256) by {
            reveal_with_fuel(le_bytes_t, 3);
        }
        let r0 = rev8(n as nat % 256);
        let r1 = rev8((n as nat / 256) % 256);
        lemma_rev8_bound(n as nat % 256);
        lemma_rev8_bound((n as nat / 256) % 256);
        assert(c.bytes.contains(r0 as u64));
        assert(c.bytes.contains(r1 as u64));
        assert(e1.contains(byte_name_t((r0 as u64) as nat)));
        assert(e1.contains(byte_name_t((r1 as u64) as nat)));
    }
}

/// The constant definitions refer only to the core definitions and to the bytes before them.
pub proof fn lemma_constants_ok(c: NumberConstants)
    requires
        bytes_closed(c),
    ensures
        defs_ok(constant_defs_t(c), core_env()),
{
    lemma_core_env_names();
    let e0 = core_env();
    let b = byte_defs_t(c.bytes);
    lemma_byte_defs_ok(c.bytes, e0);
    lemma_env_with(e0, b);
    let e1 = env_with(e0, b);
    lemma_byte_names(c);
    lemma_id_bytes_named(c);
    lemma_id_defs_ok(c.ids, e1);
    let d = id_defs_t(c.ids);
    lemma_concat_ok(b, d, e0, e1);
    lemma_env_with(e1, d);
    let e2 = env_with(e1, d);
    assert forall|n: u64, k: int| #![trigger c.i32s.contains(n), le_bytes_t(n as nat, 4)[k]]
        c.i32s.contains(n) && 0 <= k < 4 implies e2.contains(byte_name_t(le_bytes_t(n as nat, 4)[k])) by {
        lemma_le_bytes_len(n as nat, 4);
        lemma_le_bytes_bound(n as nat, 4, k);
        let x = le_bytes_t(n as nat, 4)[k] as u64;
        assert(c.bytes.contains(x));
        assert(env_with(core_env(), byte_defs_t(c.bytes)).contains(byte_name_t(x as nat)));
    }
    lemma_i32_defs_ok(c.i32s, e2);
    let f = i32_defs_t(c.i32s);
    lemma_concat_ok(b + d, f, e0, e2);
    lemma_env_with(e2, f);
    let e3 = env_with(e2, f);
    assert forall|n: u64, k: int| #![trigger c.i64s.contains(n), le_bytes_t(n as nat, 8)[k]]
        c.i64s.contains(n) && 0 <= k < 8 implies e3.contains(byte_name_t(le_bytes_t(n as nat, 8)[k])) by {
        lemma_le_bytes_len(n as nat, 8);
        lemma_le_bytes_bound(n as nat, 8, k);
        let x = le_bytes_t(n as nat, 8)[k] as u64;
        assert(c.bytes.contains(x));
        assert(env_with(core_env(), byte_defs_t(c.bytes)).contains(byte_name_t(x as nat)));
    }
    lemma_i64_defs_ok(c.i64s, e3);
    lemma_concat_ok(b + d + f, i64_defs_t(c.i64s), e0, e3);
}

/// What holds of a program as it is built: the runtime is in order, every function, global
/// and data segment refers only to names the runtime has in scope, and the offsets of the data
/// segments may also refer to the globals.
pub open spec fn program_ok(p: ProgramView) -> bool {
    &&& rt_ok(p.rt)
    &&& forall|i: int| 0 <= i < p.functions.len() ==> scoped(#[trigger] p.functions[i], in_scope(p.rt))
    &&& forall|i: int| 0 <= i < p.globals.len() ==> scoped(#[trigger] p.globals[i], in_scope(p.rt))
    &&& forall|i: int| 0 <= i < p.data_segments.len() ==> scoped(#[trigger] p.data_segments[i], in_scope(p.rt))
    &&& forall|i: int| 0 <= i < p.data_memory_offsets.len()
        ==> scoped(#[trigger] p.data_memory_offsets[i], in_scope(p.rt).insert("Globals"@))
    &&& p.data_memory_offsets.len() == p.data_segments.len()
}

/// Whether the table for indirect calls holds only functions of the program.
pub open spec fn table_ok(p: ProgramView) -> bool {
    forall|k: int| 0 <= k < p.custom_func_table.len() && (#[trigger] p.custom_func_table[k]) is Some
        ==> p.custom_func_table[k]->0 < p.functions.len()
}

/// Definitions whose values refer only to names in scope before all of them.
pub proof fn lemma_flat_defs_ok(defs: Seq<(Seq<char>, Term)>, env: Set<Seq<char>>)
    requires
        forall|i: int| 0 <= i < defs.len() ==> scoped(#[trigger] defs[i].1, env),
    ensures
        defs_ok(defs, env),
        env.subset_of(env_with(env, defs)),
        forall|i: int| 0 <= i < defs.len() ==> env_with(env, defs).contains(#[trigger] defs[i].0),
    decreases defs.len(),
{
    lemma_env_with(env, defs);
    if defs.len() > 0 {
        let rest = defs.drop_first();
        let e1 = env.insert(defs[0].0);
        assert forall|i: int| 0 <= i < rest.len() implies scoped(#[trigger] rest[i].1, e1) by {
            assert(rest[i] == defs[i + 1]);
            lemma_scoped_mono(defs[i + 1].1, env, e1);
        }
        lemma_flat_defs_ok(rest, e1);
        assert(scoped(defs[0].1, env));
    }
}

/// A chain of instructions without labels, each in scope.
pub proof fn lemma_chain_ok_flat(items: Seq<ChainItemT>, env: Set<Seq<char>>)
    requires
        forall|i: int| 0 <= i < items.len() ==> (#[trigger] items[i] matches ChainItemT::Instruction(t) && scoped(t, env)),
    ensures
        chain_ok(items, env),
    decreases items.len(),
{
    if items.len() > 0 {
        let rest = items.drop_first();
        assert forall|i: int| 0 <= i < rest.len() implies (#[trigger] rest[i] matches ChainItemT::Instruction(t) && scoped(t, env)) by {
            assert(rest[i] == items[i + 1]);
        }
        lemma_chain_ok_flat(rest, env);
        assert(items[0] matches ChainItemT::Instruction(t) && scoped(t, env));
        if let ChainItemT::Instruction(t) = items[0] {
            lemma_scoped_mono(t, env, env + labels_of(rest));
        }
    }
}

/// Copying the data segments into memory is defined after what it refers to.
pub proof fn lemma_data_init_ordered(s: RtState, k: nat)
    requires
        rt_ok(s),
    ensures
        grows(s, data_init_st(s, k)),
        k > 0 ==> in_scope(data_init_st(s, k)).contains("MemInit"@),
    decreases k,
{
    if k == 0 {
        lemma_grows_refl(s);
    } else {
        lemma_data_init_ordered(s, (k - 1) as nat);
        let s1 = data_init_st(s, (k - 1) as nat);
        lemma_memory_init_ordered(s1);
        lemma_grows_trans(s, s1, data_init_st(s, k));
    }
}

/// The start of the program is defined after what it refers to.
pub proof fn lemma_entrypoint_ordered(s: RtState, main_id: u32, start_id: Option<u32>, k: nat, pages: u32)
    requires
        rt_ok(s),
    ensures
        grows(s, entrypoint_st(s, main_id, start_id, k, pages)),
        in_scope(entrypoint_st(s, main_id, start_id, k, pages)).contains("InitMemSize"@),
        in_scope(entrypoint_st(s, main_id, start_id, k, pages)).contains(i32_name_t(pages as nat)),
        k > 0 ==> in_scope(entrypoint_st(s, main_id, start_id, k, pages)).contains("MemInit"@),
        in_scope(entrypoint_st(s, main_id, start_id, k, pages)).contains("Call"@),
        in_scope(entrypoint_st(s, main_id, start_id, k, pages)).contains("Exit"@),
        in_scope(entrypoint_st(s, main_id, start_id, k, pages)).contains(crate::codegen::lambda::number::id_name_t((main_id as u16) as nat)),
        start_id matches Some(id) ==> in_scope(entrypoint_st(s, main_id, start_id, k, pages)).contains(
            crate::codegen::lambda::number::id_name_t((id as u16) as nat)),
{
    lemma_init_memory_size_ordered(s, pages);
    let s0 = init_memory_size_st(s, pages);
    lemma_data_init_ordered(s0, k);
    let s1 = data_init_st(s0, k);
    lemma_grows_trans(s, s0, s1);
    let s2 = match start_id {
        Some(id) => call_st(s1, id),
        None => s1,
    };
    match start_id {
        Some(id) => {
            lemma_call_ordered(s1, id);
            lemma_grows_trans(s, s1, s2);
        },
        None => {},
    }
    lemma_call_ordered(s2, main_id);
    let s3 = call_st(s2, main_id);
    lemma_exit_ordered(s3);
    lemma_grows_trans(s, s2, s3);
    lemma_grows_trans(s, s3, entrypoint_st(s, main_id, start_id, k, pages));
}

/// The core definitions, the constants and the utilities of a runtime in order.
proof fn lemma_runtime_defs_ok(rt: RtState)
    requires
        rt_ok(rt),
    ensures
        defs_ok(core_defs_t() + constant_defs_t(rt.consts) + rt.defs, Set::empty()),
        env_with(Set::empty(), core_defs_t() + constant_defs_t(rt.consts) + rt.defs) == in_scope(rt),
{
    lemma_core_defs_ok();
    lemma_constants_ok(rt.consts);
    let e0 = Set::<Seq<char>>::empty();
    lemma_concat_ok(core_defs_t(), constant_defs_t(rt.consts), e0, core_env());
    lemma_concat_ok(core_defs_t() + constant_defs_t(rt.consts), rt.defs, e0, base_env(rt.consts));
}

/// The tables of a program refer to its functions and globals.
proof fn lemma_tables_ok(p: ProgramView, env: Set<Seq<char>>)
    requires
        forall|i: nat| i < p.functions.len() ==> env.contains(#[trigger] func_name_t(i)),
        forall|k: int| 0 <= k < p.custom_func_table.len() && (#[trigger] p.custom_func_table[k]) is Some
            ==> p.custom_func_table[k]->0 < p.functions.len(),
        forall|i: int| 0 <= i < p.globals.len() ==> scoped(#[trigger] p.globals[i], env),
        forall|i: nat| i < 33 ==> env.contains(#[trigger] dummy_t(i)->Var_0),
        env.contains("P"@),
        env.contains("_"@),
    ensures
        defs_ok(table_defs_t(p), env),
        env.subset_of(env_with(env, table_defs_t(p))),
        env_with(env, table_defs_t(p)).contains("FunctionTable"@),
        env_with(env, table_defs_t(p)).contains("CustomTable"@),
        env_with(env, table_defs_t(p)).contains("Globals"@),
{
    assert forall|i: nat| i <= 16 implies env.contains(#[trigger] dummy_t(i)->Var_0) by {}
    let fs = Seq::new(p.functions.len(), |i: int| Term::Var(func_name_t(i as nat)));
    assert forall|i: int| 0 <= i < fs.len() implies scoped(#[trigger] fs[i], env) by {
        assert(env.contains(func_name_t(i as nat)));
    }
    lemma_tree_scoped(16, fs, env);
    let cs = custom_entries_t(p.custom_func_table);
    assert forall|k: int| 0 <= k < cs.len() implies scoped(#[trigger] cs[k], env) by {
        if p.custom_func_table[k] is Some {
            let id = p.custom_func_table[k]->0;
            assert(env.contains(func_name_t(id as nat)));
        }
    }
    lemma_tree_scoped(16, cs, env);
    lemma_tree_scoped(16, p.globals, env);
    let d = table_defs_t(p);
    assert forall|i: int| 0 <= i < d.len() implies scoped(#[trigger] d[i].1, env) by {}
    lemma_flat_defs_ok(d, env);
    assert(d[0].0 == "FunctionTable"@ && d[1].0 == "CustomTable"@ && d[2].0 == "Globals"@);
}

/// The code that starts a program: the data segments are copied, `start` and `main` are called.
proof fn lemma_start_scoped(p: ProgramView, env: Set<Seq<char>>)
    requires
        p.main_id is Some,
        p.data_memory_offsets.len() <= p.data_segments.len(),
        forall|i: int| 0 <= i < p.data_memory_offsets.len() ==> scoped(#[trigger] p.data_memory_offsets[i], env),
        forall|i: nat| i < p.data_segments.len() ==> env.contains(#[trigger] data_name_t(i)),
        p.data_memory_offsets.len() > 0 ==> env.contains("MemInit"@),
        env.contains("InitMemSize"@) && env.contains(i32_name_t(p.memory_pages as nat)),
        env.contains("Call"@) && env.contains("Exit"@),
        env.contains(crate::codegen::lambda::number::id_name_t((p.main_id->0 as u16) as nat)),
        p.start_id matches Some(id) ==> env.contains(crate::codegen::lambda::number::id_name_t((id as u16) as nat)),
        env.contains("FunctionTable"@) && env.contains("CustomTable"@) && env.contains("Globals"@),
        core_names_in(env),
        forall|i: nat| i < 33 ==> env.contains(#[trigger] dummy_t(i)->Var_0),
    ensures
        scoped(start_t(build_t(entrypoint_items_t(p.main_id->0, p.start_id, p.data_memory_offsets, p.memory_pages)),
            Term::Var("FunctionTable"@), Term::Var("CustomTable"@), Term::Var("Globals"@)), env),
{
    let offsets = p.data_memory_offsets;
    let items = entrypoint_items_t(p.main_id->0, p.start_id, offsets, p.memory_pages);
    let di = data_init_items_t(offsets);
    assert forall|i: int| 0 <= i < items.len() implies (#[trigger] items[i] matches ChainItemT::Instruction(t) && scoped(t, env)) by {
        if i == 0 {
            assert(items[i] == init_memory_item_t(p.memory_pages));
            reveal_with_fuel(scoped, 4);
        } else if i < di.len() + 1 {
            assert(items[i] == di[i - 1]);
            assert(env.contains(data_name_t((i - 1) as nat)));
            assert(scoped(offsets[i - 1], env));
            reveal_with_fuel(scoped, 4);
        } else {
            reveal_with_fuel(scoped, 4);
        }
    }
    lemma_chain_ok_flat(items, env);
    lemma_chain_scoped(items, env);
    assert(env.contains(dummy_t(32)->Var_0));
    reveal_with_fuel(scoped, 12);
}

/// The program is a closed term: every name it refers to is defined in it.
pub proof fn lemma_program_closed(p: ProgramView)
    requires
        program_ok(p),
        table_ok(p),
        p.main_id is Some,
    ensures
        closed(program_t(p)),
{
    let rt = entrypoint_st(p.rt, p.main_id->0, p.start_id, p.data_memory_offsets.len(), p.memory_pages);
    lemma_entrypoint_ordered(p.rt, p.main_id->0, p.start_id, p.data_memory_offsets.len(), p.memory_pages);
    lemma_runtime_defs_ok(rt);
    let a = core_defs_t() + constant_defs_t(rt.consts) + rt.defs;
    let e3 = in_scope(rt);
    lemma_core_names(rt);
    lemma_dummy_names(rt);
    // The data segments.
    let dd = data_defs_t(p.data_segments);
    assert forall|i: int| 0 <= i < dd.len() implies scoped(#[trigger] dd[i].1, e3) by {
        lemma_scoped_mono(p.data_segments[i], in_scope(p.rt), e3);
    }
    lemma_flat_defs_ok(dd, e3);
    let e4 = env_with(e3, dd);
    lemma_concat_ok(a, dd, Set::empty(), e3);
    // The functions.
    let fd = func_defs_t(p.functions);
    assert forall|i: int| 0 <= i < fd.len() implies scoped(#[trigger] fd[i].1, e4) by {
        lemma_scoped_mono(p.functions[i], in_scope(p.rt), e4);
    }
    lemma_flat_defs_ok(fd, e4);
    let e5 = env_with(e4, fd);
    lemma_concat_ok(a + dd, fd, Set::empty(), e4);
    // The tables.
    assert forall|i: nat| i < p.functions.len() implies e5.contains(#[trigger] func_name_t(i)) by {
        assert(fd[i as int].0 == func_name_t(i));
    }
    assert forall|i: int| 0 <= i < p.globals.len() implies scoped(#[trigger] p.globals[i], e5) by {
        lemma_scoped_mono(p.globals[i], in_scope(p.rt), e5);
    }
    lemma_tables_ok(p, e5);
    let td = table_defs_t(p);
    let e6 = env_with(e5, td);
    lemma_concat_ok(a + dd + fd, td, Set::empty(), e5);
    // The start.
    assert forall|i: int| 0 <= i < p.data_memory_offsets.len() implies scoped(#[trigger] p.data_memory_offsets[i], e6) by {
        lemma_scoped_mono(p.data_memory_offsets[i], in_scope(p.rt).insert("Globals"@), e6);
    }
    assert forall|i: nat| i < p.data_segments.len() implies e6.contains(#[trigger] data_name_t(i)) by {
        assert(dd[i as int].0 == data_name_t(i));
    }
    lemma_start_scoped(p, e6);
    let all = a + dd + fd + td;
    let body = start_t(build_t(entrypoint_items_t(p.main_id->0, p.start_id, p.data_memory_offsets, p.memory_pages)),
        Term::Var("FunctionTable"@), Term::Var("CustomTable"@), Term::Var("Globals"@));
    lemma_lets_scoped(all, body, Set::empty());
}

/// An empty program.
pub proof fn lemma_empty_program_ok(p: ProgramView)
    requires
        p.rt.defs.len() == 0,
        p.rt.consts.bytes.len() == 0,
        p.rt.consts.ids.len() == 0,
        p.rt.consts.i32s.len() == 0,
        p.rt.consts.i64s.len() == 0,
        p.functions.len() == 0,
        p.globals.len() == 0,
        p.data_segments.len() == 0,
        p.data_memory_offsets.len() == 0,
        p.custom_func_table.len() == 0,
    ensures
        program_ok(p),
{
    assert(defs_ok(p.rt.defs, base_env(p.rt.consts)));
}

/// A program stays as it was when its runtime grows.
pub proof fn lemma_program_grows(p: ProgramView, rt: RtState)
    requires
        program_ok(p),
        grows(p.rt, rt),
    ensures
        program_ok(ProgramView { rt, ..p }),
{
    assert forall|i: int| 0 <= i < p.functions.len() implies scoped(#[trigger] p.functions[i], in_scope(rt)) by {
        lemma_scoped_mono(p.functions[i], in_scope(p.rt), in_scope(rt));
    }
    assert forall|i: int| 0 <= i < p.globals.len() implies scoped(#[trigger] p.globals[i], in_scope(rt)) by {
        lemma_scoped_mono(p.globals[i], in_scope(p.rt), in_scope(rt));
    }
    assert forall|i: int| 0 <= i < p.data_segments.len() implies scoped(#[trigger] p.data_segments[i], in_scope(rt)) by {
        lemma_scoped_mono(p.data_segments[i], in_scope(p.rt), in_scope(rt));
    }
    assert forall|i: int| 0 <= i < p.data_memory_offsets.len()
        implies scoped(#[trigger] p.data_memory_offsets[i], in_scope(rt).insert("Globals"@)) by {
        lemma_scoped_mono(p.data_memory_offsets[i], in_scope(p.rt).insert("Globals"@), in_scope(rt).insert("Globals"@));
    }
}

/// A program with one more function that refers only to its runtime.
proof fn lemma_program_push_function(p: ProgramView, rt: RtState, f: Term)
    requires
        program_ok(p),
        grows(p.rt, rt),
        scoped(f, in_scope(rt)),
    ensures
        program_ok(ProgramView { rt, functions: p.functions.push(f), ..p }),
{
    lemma_program_grows(p, rt);
    let q = ProgramView { rt, ..p };
    let fs = p.functions.push(f);
    assert forall|i: int| 0 <= i < fs.len() implies scoped(#[trigger] fs[i], in_scope(rt)) by {
        if i < p.functions.len() {
            assert(fs[i] == q.functions[i]);
        }
    }
    let q2 = ProgramView { rt, functions: fs, ..p };
    assert forall|i: int| 0 <= i < q2.globals.len() implies scoped(#[trigger] q2.globals[i], in_scope(rt)) by {
        assert(q.globals[i] == q2.globals[i]);
    }
    assert forall|i: int| 0 <= i < q2.data_segments.len() implies scoped(#[trigger] q2.data_segments[i], in_scope(rt)) by {
        assert(q.data_segments[i] == q2.data_segments[i]);
    }
    assert forall|i: int| 0 <= i < q2.data_memory_offsets.len()
        implies scoped(#[trigger] q2.data_memory_offsets[i], in_scope(rt).insert("Globals"@)) by {
        assert(q.data_memory_offsets[i] == q2.data_memory_offsets[i]);
    }
}

/// Adding an imported function keeps the program in scope.
pub proof fn lemma_with_import_ok(p: ProgramView, name: Seq<char>)
    requires
        program_ok(p),
    ensures
        program_ok(with_import(p, name)),
{
    let q = with_import(p, name);
    let f = q.functions.last();
    if name == "input"@ {
        lemma_input_ordered(p.rt);
    } else if name == "output"@ {
        lemma_output_ordered(p.rt);
    } else {
        lemma_exit_ordered(p.rt);
    }
    lemma_core_names(q.rt);
    assert(scoped(f, in_scope(q.rt))) by { reveal_with_fuel(scoped, 3); }
    lemma_program_push_function(p, q.rt, f);
    assert(q == ProgramView { rt: q.rt, functions: p.functions.push(f), ..p });
}

/// Adding a function of the module keeps the program in scope.
pub proof fn lemma_with_function_ok(p: ProgramView, sig: FuncSig, ops: Seq<Operator>, types: Seq<FuncType>)
    requires
        program_ok(p),
        function_st(p.rt, sig, ops, types) is Some,
    ensures
        program_ok(with_function(p, sig, ops, types)),
{
    lemma_function_closed(p.rt, sig, ops, types);
    let r = function_st(p.rt, sig, ops, types)->0;
    lemma_program_push_function(p, r.0, r.1);
}

/// Adding a global keeps the program in scope.
pub proof fn lemma_with_global_ok(p: ProgramView, init: Operator)
    requires
        program_ok(p),
    ensures
        program_ok(with_global(p, init)),
{
    let q = with_global(p, init);
    lemma_grows_num(p.rt, !is_32_bit_const(&init), const_bits(&init));
    lemma_program_grows(p, q.rt);
    let g = num_t(!is_32_bit_const(&init), const_bits(&init));
    assert forall|i: int| 0 <= i < q.globals.len() implies scoped(#[trigger] q.globals[i], in_scope(q.rt)) by {
        if i < p.globals.len() {
            lemma_scoped_mono(p.globals[i], in_scope(p.rt), in_scope(q.rt));
        } else {
            assert(q.globals[i] == g);
        }
    }
    let r = ProgramView { rt: q.rt, ..p };
    assert forall|i: int| 0 <= i < q.data_segments.len() implies scoped(#[trigger] q.data_segments[i], in_scope(q.rt)) by {
        assert(r.data_segments[i] == q.data_segments[i]);
    }
    assert forall|i: int| 0 <= i < q.functions.len() implies scoped(#[trigger] q.functions[i], in_scope(q.rt)) by {
        assert(r.functions[i] == q.functions[i]);
    }
    assert forall|i: int| 0 <= i < q.data_memory_offsets.len()
        implies scoped(#[trigger] q.data_memory_offsets[i], in_scope(q.rt).insert("Globals"@)) by {
        assert(r.data_memory_offsets[i] == q.data_memory_offsets[i]);
    }
}

/// Resizing the table for indirect calls keeps the program in scope.
pub proof fn lemma_with_table_ok(p: ProgramView, size: u32)
    requires
        program_ok(p),
    ensures
        program_ok(with_table(p, size)),
        table_ok(p) ==> table_ok(with_table(p, size)),
{
    let q = with_table(p, size);
    if table_ok(p) {
        assert forall|k: int| 0 <= k < q.custom_func_table.len() && (#[trigger] q.custom_func_table[k]) is Some
            implies q.custom_func_table[k]->0 < q.functions.len() by {
            assert(k < p.custom_func_table.len());
            assert(q.custom_func_table[k] == p.custom_func_table[k]);
        }
    }
}

/// Putting functions into the table for indirect calls keeps the program in scope.
pub proof fn lemma_with_elements_ok(p: ProgramView, offset: u32, functions: Seq<u32>)
    requires
        program_ok(p),
    ensures
        program_ok(with_elements(p, offset, functions)),
{
}

/// Asking for the bytes of a data segment brings them into scope.
proof fn lemma_data_bytes_ordered(s: RtState, data: Seq<u8>)
    requires
        rt_ok(s),
    ensures
        grows(s, data_bytes_st(s, data)),
        forall|i: int| 0 <= i < data.len() ==> in_scope(data_bytes_st(s, data)).contains(#[trigger] byte_name_t(data[i] as nat)),
    decreases data.len(),
{
    if data.len() == 0 {
        lemma_grows_refl(s);
    } else {
        let rest = data.drop_last();
        lemma_data_bytes_ordered(s, rest);
        let s1 = data_bytes_st(s, rest);
        lemma_grows_byte(s1, data.last() as u64);
        lemma_grows_trans(s, s1, data_bytes_st(s, data));
        assert forall|i: int| 0 <= i < data.len() implies in_scope(data_bytes_st(s, data)).contains(#[trigger] byte_name_t(data[i] as nat)) by {
            if i < rest.len() {
                assert(rest[i] == data[i]);
                assert(in_scope(s1).contains(byte_name_t(rest[i] as nat)));
            }
        }
    }
}

/// Adding a data segment keeps the program in scope.
pub proof fn lemma_with_data_ok(p: ProgramView, data: Seq<u8>, offset: Operator)
    requires
        program_ok(p),
        data_offset_ok(&offset),
    ensures
        program_ok(with_data(p, data, offset)),
{
    let q = with_data(p, data, offset);
    lemma_data_bytes_ordered(p.rt, data);
    let s1 = data_bytes_st(p.rt, data);
    match offset {
        Operator::I32Const { value } => lemma_grows_i32(s1, (value as u32) as u64),
        Operator::GlobalGet { global_index } => lemma_grows_i32(s1, global_index as u64),
        _ => {},
    }
    lemma_grows_trans(p.rt, s1, q.rt);
    lemma_program_grows(p, q.rt);
    lemma_core_names(q.rt);
    let items = data.map_values(|b: u8| Term::Var(byte_name_t(b as nat)));
    assert forall|i: int| 0 <= i < items.len() implies scoped(#[trigger] items[i], in_scope(q.rt)) by {
        assert(in_scope(s1).contains(byte_name_t(data[i] as nat)));
    }
    lemma_list_scoped(items, in_scope(q.rt));
    let seg = list::from_t(items);
    assert forall|i: int| 0 <= i < q.data_segments.len() implies scoped(#[trigger] q.data_segments[i], in_scope(q.rt)) by {
        if i < p.data_segments.len() {
            lemma_scoped_mono(p.data_segments[i], in_scope(p.rt), in_scope(q.rt));
        } else {
            assert(q.data_segments[i] == seg);
        }
    }
    let off = data_offset_t(offset);
    let g = in_scope(q.rt).insert("Globals"@);
    assert(scoped(off, g)) by { reveal_with_fuel(scoped, 4); }
    assert forall|i: int| 0 <= i < q.data_memory_offsets.len() implies scoped(#[trigger] q.data_memory_offsets[i], g) by {
        if i < p.data_memory_offsets.len() {
            lemma_scoped_mono(p.data_memory_offsets[i], in_scope(p.rt).insert("Globals"@), g);
        } else {
            assert(q.data_memory_offsets[i] == off);
        }
    }
    let r = ProgramView { rt: q.rt, ..p };
    assert forall|i: int| 0 <= i < q.globals.len() implies scoped(#[trigger] q.globals[i], in_scope(q.rt)) by {
        assert(r.globals[i] == q.globals[i]);
    }
    assert forall|i: int| 0 <= i < q.functions.len() implies scoped(#[trigger] q.functions[i], in_scope(q.rt)) by {
        assert(r.functions[i] == q.functions[i]);
    }
}


proof fn lemma_imports_ok(p: ProgramView, imports: Seq<Import>, types: Seq<FuncType>)
    requires
        program_ok(p),
    ensures
        program_ok(imports_run(p, imports, types).0),
    decreases imports.len(),
{
    if imports.len() > 0 {
        lemma_imports_ok(p, imports.drop_last(), types);
        lemma_with_import_ok(imports_run(p, imports.drop_last(), types).0, imports.last().name@);
    }
}

proof fn lemma_globals_ok(p: ProgramView, inits: Seq<Operator>)
    requires
        program_ok(p),
    ensures
        program_ok(globals_run(p, inits).0),
    decreases inits.len(),
{
    if inits.len() > 0 {
        lemma_globals_ok(p, inits.drop_last());
        lemma_with_global_ok(globals_run(p, inits.drop_last()).0, inits.last());
    }
}

proof fn lemma_tables_run_ok(p: ProgramView, sizes: Seq<u32>)
    requires
        program_ok(p),
    ensures
        program_ok(tables_run(p, sizes)),
    decreases sizes.len(),
{
    if sizes.len() > 0 {
        lemma_tables_run_ok(p, sizes.drop_last());
        lemma_with_table_ok(tables_run(p, sizes.drop_last()), sizes.last());
    }
}

proof fn lemma_exports_ok(p: ProgramView, exports: Seq<Export>, types: Seq<FuncType>, ids: Seq<u32>)
    requires
        program_ok(p),
    ensures
        program_ok(exports_run(p, exports, types, ids).0),
    decreases exports.len(),
{
    if exports.len() > 0 {
        lemma_exports_ok(p, exports.drop_last(), types, ids);
    }
}

proof fn lemma_elements_ok(p: ProgramView, elements: Seq<Element>)
    requires
        program_ok(p),
    ensures
        program_ok(elements_run(p, elements).0),
    decreases elements.len(),
{
    if elements.len() > 0 {
        lemma_elements_ok(p, elements.drop_last());
    }
}

proof fn lemma_datas_ok(p: ProgramView, datas: Seq<Data>)
    requires
        program_ok(p),
    ensures
        program_ok(datas_run(p, datas).0),
    decreases datas.len(),
{
    if datas.len() > 0 {
        lemma_datas_ok(p, datas.drop_last());
        let d = datas.last();
        if data_error(d) is None {
            lemma_with_data_ok(datas_run(p, datas.drop_last()).0, d.data@, data_offset(d));
        }
    }
}

proof fn lemma_body_ok(a: AnalyzerView, body: crate::analyzer::FunctionBody)
    requires
        program_ok(a.prog),
    ensures
        program_ok(body_run(a, body).0.prog),
{
    if body_run(a, body).1 is None {
        let id = a.function_type_ids.last();
        let t = a.function_types[id as int];
        let sig = FuncSig {
            param_count: t.params@.len(),
            result_count: t.results@.len(),
            local_types: crate::analyzer::local_types_of(body.locals@),
        };
        let a1 = AnalyzerView { function_type_ids: a.function_type_ids.drop_last(), ..a };
        assert(a1.prog == a.prog);
        lemma_with_function_ok(a.prog, sig, body.operators@, a.function_types);
    }
}

proof fn lemma_globals_result_ok(p: ProgramView, inits: Seq<Operator>)
    requires
        program_ok(p),
    ensures
        program_ok(globals_result(p, inits).0),
{
    lemma_globals_ok(p, inits);
}

proof fn lemma_exports_result_ok(p: ProgramView, exports: Seq<Export>, types: Seq<FuncType>, ids: Seq<u32>)
    requires
        program_ok(p),
    ensures
        program_ok(exports_result(p, exports, types, ids).0),
{
    lemma_exports_ok(p, exports, types, ids);
}

proof fn lemma_start_ok(p: ProgramView, func: u32)
    requires
        program_ok(p),
    ensures
        program_ok(ProgramView { start_id: Some(func), ..p }),
{
}

#[verifier::spinoff_prover]
proof fn lemma_payload_ok(a: AnalyzerView, payload: Payload)
    requires
        program_ok(a.prog),
    ensures
        program_ok(payload_run(a, payload).0.prog),
{
    reveal(payload_run);
    match payload {
        Payload::ImportSection(imports) => {
            lemma_imports_ok(a.prog, imports@, a.function_types);
            assert(payload_run(a, payload).0.prog == imports_run(a.prog, imports@, a.function_types).0);
        },
        Payload::TableSection(sizes) => {
            lemma_tables_run_ok(a.prog, sizes@);
            assert(payload_run(a, payload).0.prog == tables_run(a.prog, sizes@));
        },
        Payload::GlobalSection(inits) => {
            lemma_globals_result_ok(a.prog, inits@);
            assert(payload_run(a, payload).0.prog == globals_result(a.prog, inits@).0);
        },
        Payload::ExportSection(exports) => {
            lemma_exports_result_ok(a.prog, exports@, a.function_types, a.func_type_ids);
            assert(payload_run(a, payload).0.prog == exports_result(a.prog, exports@, a.function_types, a.func_type_ids).0);
        },
        Payload::StartSection(func) => {
            lemma_start_ok(a.prog, func);
            assert(payload_run(a, payload).0.prog == ProgramView { start_id: Some(func), ..a.prog });
        },
        Payload::ElementSection(elements) => {
            lemma_elements_ok(a.prog, elements@);
            assert(payload_run(a, payload).0.prog == elements_run(a.prog, elements@).0);
        },
        Payload::DataSection(datas) => {
            lemma_datas_ok(a.prog, datas@);
            assert(payload_run(a, payload).0.prog == datas_run(a.prog, datas@).0);
        },
        Payload::CodeSectionEntry(body) => {
            lemma_body_ok(a, body);
            assert(payload_run(a, payload) == body_run(a, body));
        },
        Payload::TypeSection(types) => {
            assert(payload_run(a, payload).0.prog == a.prog);
        },
        Payload::FunctionSection(ids) => {
            assert(payload_run(a, payload).0.prog == a.prog);
        },
        Payload::MemorySection(pages) => {
            assert(payload_run(a, payload).0.prog == crate::analyzer::memory_run(a.prog, pages@));
        },
        _ => {
            assert(payload_run(a, payload).0.prog == a.prog);
        },
    }
}

/// The payloads one after another keep the program in scope.
pub proof fn lemma_payloads_ok(a: AnalyzerView, payloads: Seq<Payload>)
    requires
        program_ok(a.prog),
    ensures
        program_ok(payloads_run(a, payloads).0.prog),
    decreases payloads.len(),
{
    if payloads.len() > 0 {
        let rest = payloads.drop_last();
        lemma_payloads_ok(a, rest);
        let a1 = payloads_run(a, rest).0;
        if payloads_run(a, rest).1 is None {
            assert(payloads[payloads.len() - 1] == payloads.last());
            lemma_payload_ok(a1, payloads.last());
        }
    }
}

/// What the compiler gives for a module is a closed lambda expression.
pub proof fn lemma_compile_closed(a: AnalyzerView, payloads: Seq<Payload>)
    requires
        program_ok(a.prog),
    ensures
        compile_result(a, payloads) matches Ok(t) ==> closed(t),
{
    lemma_payloads_ok(a, payloads);
    let p = payloads_run(a, payloads).0.prog;
    if compile_result(a, payloads) is Ok {
        lemma_program_closed(p);
    }
}

} // verus!
