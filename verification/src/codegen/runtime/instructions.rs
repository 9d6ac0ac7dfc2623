//! The instructions of the runtime: each is defined once, on demand, and referred to by name.

pub mod branching;
pub mod control_flow;
pub mod io;
pub mod memory;
pub mod numeric;
pub mod parametric;
pub mod scoping;
pub mod trap;
pub mod variable;

use vstd::prelude::*;

use crate::analyzer::{is_num_type, FunctionInfo, Operator, ValType};
use crate::codegen::function::{BlockStack, BlockT};
use crate::codegen::lambda::instruction::nop;
use crate::codegen::lambda::abs_t;
use crate::codegen::lambda::instruction::{build_t, pop_range_t, v, InstructionBuilder};
use crate::codegen::lambda::number::is_32_bit_type;
use crate::codegen::lambda::{data_stack, locals, table, var_string, var_t, Expr, Term};
use crate::codegen::runtime::{num_t, RtState, RuntimeGenerator};
use crate::codegen::text::{hex_lower_name, hex_lower_t};
use crate::codegen::lambda::app_t;
use crate::codegen::lambda::number::{const_bits, is_32_bit_const};
use crate::codegen::runtime::instructions::control_flow::{
    begin_block_def_t, begin_block_st, br_if_t, br_t, br_table_st, br_table_t, call_indirect_st,
    call_st, call_t, else_t, end_block_def_t, ret_t,
};
use crate::codegen::runtime::math::comparisons::eqz_st;
use crate::codegen::runtime::instructions::io::exit_st;
use crate::codegen::runtime::instructions::trap::{trap_st, TrapCode};
use crate::codegen::runtime::instructions::memory::{
    load_name, load_st, memory_copy_st, memory_fill_st, memory_grow_st, memory_size_st, store_name,
    store_st,
};
use crate::codegen::runtime::instructions::numeric::{
    binop_name, binop_st, bit_count_name, bit_count_st, compare_instr_st, compare_name, eqz_instr_st,
    extend_i32_name, extend_s_name, extend_s_st, i32_wrap_i64_st, i64_extend_i32_st, push_const_st,
    BinOp, BitCount, CompareOp, div_instr_name, div_instr_st, rem_instr_name, rem_instr_st,
};
use crate::codegen::runtime::instructions::parametric::{drop_st, select_st};
use crate::codegen::runtime::instructions::variable::{
    global_get_def_t, global_set_def_t, local_get_def_t, local_set_def_t, local_tee_def_t,
    variable_st, variable_t,
};

verus! {

/// `prefix` followed by `0` to `n - 1` in lower-case hexadecimal notation.
pub open spec fn hex_names_t(prefix: Seq<char>, n: nat) -> Seq<Seq<char>> {
    Seq::new(n, |i: int| prefix + hex_lower_t(i as nat))
}

/// The variables named by [`hex_names_t`].
pub open spec fn hex_vars_t(prefix: Seq<char>, n: nat) -> Seq<Term> {
    Seq::new(n, |i: int| var_t(prefix + hex_lower_t(i as nat)))
}

/// The names of the parameters (and results) of a block are distinct.
pub proof fn lemma_hex_names_distinct(prefix: Seq<char>, n: nat)
    ensures
        forall|i: int, j: int| 0 <= i < j < n ==> hex_names_t(prefix, n)[i] != hex_names_t(prefix, n)[j],
{
    assert forall|i: int, j: int| 0 <= i < j < n implies hex_names_t(prefix, n)[i] != hex_names_t(prefix, n)[j] by {
        crate::codegen::text::lemma_number_names_distinct(prefix, i as nat, j as nat, 16, false, Seq::empty());
        assert(prefix + hex_lower_t(i as nat) + Seq::<char>::empty() =~= prefix + hex_lower_t(i as nat));
        assert(prefix + hex_lower_t(j as nat) + Seq::<char>::empty() =~= prefix + hex_lower_t(j as nat));
    }
}

pub fn hex_names(prefix: &str, n: u32) -> (names: Vec<String>)
    ensures
        names@.map_values(|s: String| s@) == hex_names_t(prefix@, n as nat),
{
    let mut names: Vec<String> = Vec::new();
    let mut i: u32 = 0;
    while i < n
        invariant
            i <= n,
            names@.map_values(|s: String| s@) == hex_names_t(prefix@, i as nat),
        decreases n - i,
    {
        let name = hex_lower_name(prefix, i as u64);
        let ghost prev = names@;
        names.push(name);
        proof {
            assert(names@.map_values(|s: String| s@) =~= prev.map_values(|s: String| s@).push(name@));
            assert(names@.map_values(|s: String| s@) =~= hex_names_t(prefix@, (i + 1) as nat));
        }
        i = i + 1;
    }
    names
}

pub fn hex_vars(prefix: &str, n: u32) -> (vars: Vec<Expr>)
    ensures
        vars@.map_values(|e: Expr| e@) == hex_vars_t(prefix@, n as nat),
{
    let mut vars: Vec<Expr> = Vec::new();
    let mut i: u32 = 0;
    while i < n
        invariant
            i <= n,
            vars@.map_values(|e: Expr| e@) == hex_vars_t(prefix@, i as nat),
        decreases n - i,
    {
        let item = var_string(hex_lower_name(prefix, i as u64));
        let ghost prev = vars@;
        vars.push(item);
        proof {
            assert(vars@.map_values(|e: Expr| e@) =~= prev.map_values(|e: Expr| e@).push(item@));
            assert(vars@.map_values(|e: Expr| e@) =~= hex_vars_t(prefix@, (i + 1) as nat));
        }
        i = i + 1;
    }
    vars
}

/// The zeroes that the locals of a function start with.
pub open spec fn local_defaults_t(local_types: Seq<ValType>) -> Seq<Term> {
    local_types.map_values(|ty: ValType| num_t(!is_32_bit_type(ty), 0))
}

/// The state after the zeroes of the locals are asked for.
pub open spec fn local_defaults_st(s: RtState, local_types: Seq<ValType>) -> RtState
    decreases local_types.len(),
{
    if local_types.len() == 0 {
        s
    } else {
        local_defaults_st(s, local_types.drop_last()).with_num(!is_32_bit_type(local_types.last()), 0)
    }
}

/// The parameters and the zeroed locals of a function form its locals frame; the function
/// also gets a stack frame.
pub open spec fn prologue_def_t(param_count: nat, local_types: Seq<ValType>) -> Term {
    build_t(pop_range_t(hex_names_t("p"@, param_count), 0) + seq![
        ("L"@, locals::push_frame_t(v("L"@), table::from_t(hex_vars_t("p"@, param_count) + local_defaults_t(local_types)))),
        ("S"@, data_stack::push_frame_t(v("S"@))),
        ("S"@, data_stack::push_frame_t(v("S"@))),
    ])
}

/// Whether every local of a function has a number type.
pub open spec fn locals_are_numbers(func: &FunctionInfo) -> bool {
    forall|i: int| 0 <= i < func.local_types@.len() ==> is_num_type(#[trigger] func.local_types@[i])
}

/// The instruction that a function starts with.
pub fn func_prologue(rt: &mut RuntimeGenerator, func: &FunctionInfo) -> (e: Expr)
    requires
        old(rt).wf(),
        locals_are_numbers(func),
        func.function_type.params@.len() <= u32::MAX,
    ensures
        final(rt).wf(),
        final(rt).st() == local_defaults_st(old(rt).st(), func.local_types@),
        e@ == prologue_def_t(func.function_type.params@.len(), func.local_types@),
{
    let mut b = InstructionBuilder::new();
    let param_count = func.function_type.params().len() as u32;
    b.pop_strings(hex_names("p", param_count));

    let mut locals = hex_vars("p", param_count);
    let ghost s0 = rt.st();
    let mut i: usize = 0;
    while i < func.local_types.len()
        invariant
            i <= func.local_types@.len(),
            locals_are_numbers(func),
            rt.wf(),
            rt.st() == local_defaults_st(s0, func.local_types@.take(i as int)),
            locals@.map_values(|e: Expr| e@)
                == hex_vars_t("p"@, param_count as nat) + local_defaults_t(func.local_types@.take(i as int)),
        decreases func.local_types@.len() - i,
    {
        let ty = func.local_types[i];
        let zero = rt.default_const(ty);
        let ghost prev = locals@;
        locals.push(zero);
        proof {
            let tys = func.local_types@.take(i + 1);
            assert(tys.drop_last() =~= func.local_types@.take(i as int));
            assert(local_defaults_t(tys) =~= local_defaults_t(func.local_types@.take(i as int)).push(zero@));
            assert(locals@.map_values(|e: Expr| e@) =~= prev.map_values(|e: Expr| e@).push(zero@));
        }
        i = i + 1;
    }
    proof {
        assert(func.local_types@.take(i as int) =~= func.local_types@);
    }
    let ghost popped = b@;
    let ghost frame = locals@.map_values(|e: Expr| e@);
    b.push_locals_frame(table::from(locals));
    b.push_stack_frame();
    proof {
        assert(b@ =~= popped + seq![
            ("L"@, locals::push_frame_t(v("L"@), table::from_t(frame))),
            ("S"@, data_stack::push_frame_t(v("S"@))),
            ("S"@, data_stack::push_frame_t(v("S"@))),
        ]);
    }
    b.build()
}

/// Whether the targets of a branch table are among the enclosing blocks. Their number is
/// a WASM `u32`.
pub open spec fn targets_ok(targets: Seq<u32>, default: u32, block_count: nat) -> bool {
    &&& default < block_count
    &&& forall|k: int| 0 <= k < targets.len() ==> targets[k] < block_count
    &&& targets.len() <= u32::MAX
}

fn check_targets(targets: &Vec<u32>, default: u32, block_count: usize) -> (r: bool)
    ensures
        r == targets_ok(targets@, default, block_count as nat),
{
    if default as usize >= block_count || targets.len() > u32::MAX as usize {
        return false;
    }
    let mut k: usize = 0;
    while k < targets.len()
        invariant
            k <= targets@.len(),
            forall|j: int| 0 <= j < k ==> targets@[j] < block_count,
        decreases targets@.len() - k,
    {
        if targets[k] as usize >= block_count {
            return false;
        }
        k = k + 1;
    }
    true
}

/// The instruction `nop`, which goes on with the next one.
pub open spec fn nop_t() -> Term {
    abs_t("nop"@, v("nop"@))
}

/// What compiling an operator gives: the state after its definitions and the instruction, or
/// nothing where the operator has no instruction (what WASM 1.0 lacks), where a block or
/// branch operator finds no enclosing block to refer to, where `else` is not in an `if`, or
/// where the number of branch targets or enclosing blocks does not fit in a WASM `u32`.
/// Floating-point arithmetic is not supported: to avoid as many compilation problems as
/// possible, floats are stored as integers, reinterpreting conversions are nops, and every
/// other float operation is replaced with a trap whose code says that float arithmetic was
/// used, so that a trap handler, if the program installed one, runs.
pub open spec fn op_instr(s: RtState, op: Operator, blocks: Seq<BlockT>) -> Option<(RtState, Term)> {
    match op {
        Operator::Drop => Some((drop_st(s), var_t("Drop"@))),
        Operator::Select => Some((select_st(s), var_t("Select"@))),
        Operator::Nop => Some((s, nop_t())),
        Operator::Unreachable => Some((exit_st(s), var_t("Exit"@))),
        Operator::Call { function_index } => Some((call_st(s, function_index), call_t(function_index))),
        Operator::CallIndirect { .. } => Some((call_indirect_st(s), var_t("CallIndirect"@))),
        Operator::Loop { .. } | Operator::If { .. } | Operator::Block { .. } => if blocks.len() > 0 { Some((begin_block_st(s, blocks.last()), begin_block_def_t(blocks.last()))) } else { None },
        Operator::End => if blocks.len() > 0 { Some((s, end_block_def_t(blocks.last()))) } else { None },
        Operator::Else => if blocks.len() > 0 && blocks.last().labels is If {
            Some((s, else_t(blocks.last().labels->If_end_label)))
        } else {
            None
        },
        Operator::Br { relative_depth } => if relative_depth < blocks.len() { Some((s, br_t(blocks, relative_depth as nat))) } else { None },
        Operator::BrIf { relative_depth } => if relative_depth < blocks.len() {
            Some((eqz_st(s), br_if_t(blocks, relative_depth as nat)))
        } else {
            None
        },
        Operator::BrTable { targets, default } => if targets_ok(targets@, default, blocks.len()) {
            Some((br_table_st(s, targets@.len()), br_table_t(blocks, targets@, default)))
        } else {
            None
        },
        Operator::Return => if 0 < blocks.len() <= u32::MAX { Some((s, ret_t(blocks))) } else { None },
        Operator::LocalGet { local_index } => Some((variable_st(s, "LGet"@, local_get_def_t(), local_index), variable_t("LGet"@, local_index))),
        Operator::LocalSet { local_index } => Some((variable_st(s, "LSet"@, local_set_def_t(), local_index), variable_t("LSet"@, local_index))),
        Operator::LocalTee { local_index } => Some((variable_st(s, "LTee"@, local_tee_def_t(), local_index), variable_t("LTee"@, local_index))),
        Operator::GlobalGet { global_index } => Some((variable_st(s, "GGet"@, global_get_def_t(), global_index), variable_t("GGet"@, global_index))),
        Operator::GlobalSet { global_index } => Some((variable_st(s, "GSet"@, global_set_def_t(), global_index), variable_t("GSet"@, global_index))),
        Operator::MemorySize { .. } => Some((memory_size_st(s), var_t("MemSize"@))),
        Operator::MemoryGrow { .. } => Some((memory_grow_st(s), var_t("MemGrow"@))),
        Operator::MemoryFill { .. } => Some((memory_fill_st(s), var_t("MemFill"@))),
        Operator::MemoryCopy { .. } => Some((memory_copy_st(s), var_t("MemCopy"@))),
        Operator::I32Load { memarg } => Some((load_st(s, memarg.offset as u32, 32, 32, false), app_t(var_t(load_name(32, 32, false)), num_t(false, (memarg.offset as u32) as u64)))),
        Operator::I64Load { memarg } => Some((load_st(s, memarg.offset as u32, 64, 64, false), app_t(var_t(load_name(64, 64, false)), num_t(false, (memarg.offset as u32) as u64)))),
        Operator::I32Load8U { memarg } => Some((load_st(s, memarg.offset as u32, 32, 8, false), app_t(var_t(load_name(32, 8, false)), num_t(false, (memarg.offset as u32) as u64)))),
        Operator::I32Load8S { memarg } => Some((load_st(s, memarg.offset as u32, 32, 8, true), app_t(var_t(load_name(32, 8, true)), num_t(false, (memarg.offset as u32) as u64)))),
        Operator::I32Load16U { memarg } => Some((load_st(s, memarg.offset as u32, 32, 16, false), app_t(var_t(load_name(32, 16, false)), num_t(false, (memarg.offset as u32) as u64)))),
        Operator::I32Load16S { memarg } => Some((load_st(s, memarg.offset as u32, 32, 16, true), app_t(var_t(load_name(32, 16, true)), num_t(false, (memarg.offset as u32) as u64)))),
        Operator::I64Load8U { memarg } => Some((load_st(s, memarg.offset as u32, 64, 8, false), app_t(var_t(load_name(64, 8, false)), num_t(false, (memarg.offset as u32) as u64)))),
        Operator::I64Load8S { memarg } => Some((load_st(s, memarg.offset as u32, 64, 8, true), app_t(var_t(load_name(64, 8, true)), num_t(false, (memarg.offset as u32) as u64)))),
        Operator::I64Load16U { memarg } => Some((load_st(s, memarg.offset as u32, 64, 16, false), app_t(var_t(load_name(64, 16, false)), num_t(false, (memarg.offset as u32) as u64)))),
        Operator::I64Load16S { memarg } => Some((load_st(s, memarg.offset as u32, 64, 16, true), app_t(var_t(load_name(64, 16, true)), num_t(false, (memarg.offset as u32) as u64)))),
        Operator::I64Load32U { memarg } => Some((load_st(s, memarg.offset as u32, 64, 32, false), app_t(var_t(load_name(64, 32, false)), num_t(false, (memarg.offset as u32) as u64)))),
        Operator::I64Load32S { memarg } => Some((load_st(s, memarg.offset as u32, 64, 32, true), app_t(var_t(load_name(64, 32, true)), num_t(false, (memarg.offset as u32) as u64)))),
        Operator::F32Load { memarg } => Some((load_st(s, memarg.offset as u32, 32, 32, false), app_t(var_t(load_name(32, 32, false)), num_t(false, (memarg.offset as u32) as u64)))),
        Operator::F64Load { memarg } => Some((load_st(s, memarg.offset as u32, 64, 64, false), app_t(var_t(load_name(64, 64, false)), num_t(false, (memarg.offset as u32) as u64)))),
        Operator::I32Store { memarg } => Some((store_st(s, memarg.offset as u32, 32, 32), app_t(var_t(store_name(32, 32)), num_t(false, (memarg.offset as u32) as u64)))),
        Operator::I64Store { memarg } => Some((store_st(s, memarg.offset as u32, 64, 64), app_t(var_t(store_name(64, 64)), num_t(false, (memarg.offset as u32) as u64)))),
        Operator::I32Store8 { memarg } => Some((store_st(s, memarg.offset as u32, 32, 8), app_t(var_t(store_name(32, 8)), num_t(false, (memarg.offset as u32) as u64)))),
        Operator::I32Store16 { memarg } => Some((store_st(s, memarg.offset as u32, 32, 16), app_t(var_t(store_name(32, 16)), num_t(false, (memarg.offset as u32) as u64)))),
        Operator::I64Store8 { memarg } => Some((store_st(s, memarg.offset as u32, 64, 8), app_t(var_t(store_name(64, 8)), num_t(false, (memarg.offset as u32) as u64)))),
        Operator::I64Store16 { memarg } => Some((store_st(s, memarg.offset as u32, 64, 16), app_t(var_t(store_name(64, 16)), num_t(false, (memarg.offset as u32) as u64)))),
        Operator::I64Store32 { memarg } => Some((store_st(s, memarg.offset as u32, 64, 32), app_t(var_t(store_name(64, 32)), num_t(false, (memarg.offset as u32) as u64)))),
        Operator::F32Store { memarg } => Some((store_st(s, memarg.offset as u32, 32, 32), app_t(var_t(store_name(32, 32)), num_t(false, (memarg.offset as u32) as u64)))),
        Operator::F64Store { memarg } => Some((store_st(s, memarg.offset as u32, 64, 64), app_t(var_t(store_name(64, 64)), num_t(false, (memarg.offset as u32) as u64)))),
        Operator::I32Const { .. } | Operator::I64Const { .. } | Operator::F32Const { .. } | Operator::F64Const { .. } => Some((push_const_st(s, op), app_t(var_t("Push"@), num_t(!is_32_bit_const(&op), const_bits(&op))))),
        Operator::I32WrapI64 => Some((i32_wrap_i64_st(s), var_t("I32WrapI64"@))),
        Operator::I64ExtendI32U => Some((i64_extend_i32_st(s, false), var_t(extend_i32_name(false)))),
        Operator::I64ExtendI32S => Some((i64_extend_i32_st(s, true), var_t(extend_i32_name(true)))),
        Operator::I32Extend8S => Some((extend_s_st(s, 32, 8), var_t(extend_s_name(32, 8)))),
        Operator::I32Extend16S => Some((extend_s_st(s, 32, 16), var_t(extend_s_name(32, 16)))),
        Operator::I64Extend8S => Some((extend_s_st(s, 64, 8), var_t(extend_s_name(64, 8)))),
        Operator::I64Extend16S => Some((extend_s_st(s, 64, 16), var_t(extend_s_name(64, 16)))),
        Operator::I64Extend32S => Some((extend_s_st(s, 64, 32), var_t(extend_s_name(64, 32)))),
        Operator::I32Eqz | Operator::I64Eqz => Some((eqz_instr_st(s), var_t("Eqz"@))),
        Operator::I32And | Operator::I64And => Some((binop_st(s, BinOp::And), var_t(binop_name(BinOp::And)))),
        Operator::I32Or | Operator::I64Or => Some((binop_st(s, BinOp::Or), var_t(binop_name(BinOp::Or)))),
        Operator::I32Xor | Operator::I64Xor => Some((binop_st(s, BinOp::Xor), var_t(binop_name(BinOp::Xor)))),
        Operator::I32Shl => Some((binop_st(s, BinOp::Shl32), var_t(binop_name(BinOp::Shl32)))),
        Operator::I32ShrU => Some((binop_st(s, BinOp::ShrU32), var_t(binop_name(BinOp::ShrU32)))),
        Operator::I32ShrS => Some((binop_st(s, BinOp::ShrS32), var_t(binop_name(BinOp::ShrS32)))),
        Operator::I64Shl => Some((binop_st(s, BinOp::Shl64), var_t(binop_name(BinOp::Shl64)))),
        Operator::I64ShrU => Some((binop_st(s, BinOp::ShrU64), var_t(binop_name(BinOp::ShrU64)))),
        Operator::I64ShrS => Some((binop_st(s, BinOp::ShrS64), var_t(binop_name(BinOp::ShrS64)))),
        Operator::I32Rotl => Some((binop_st(s, BinOp::Rotl32), var_t(binop_name(BinOp::Rotl32)))),
        Operator::I32Rotr => Some((binop_st(s, BinOp::Rotr32), var_t(binop_name(BinOp::Rotr32)))),
        Operator::I64Rotl => Some((binop_st(s, BinOp::Rotl64), var_t(binop_name(BinOp::Rotl64)))),
        Operator::I64Rotr => Some((binop_st(s, BinOp::Rotr64), var_t(binop_name(BinOp::Rotr64)))),
        Operator::I32Add | Operator::I64Add => Some((binop_st(s, BinOp::Add), var_t(binop_name(BinOp::Add)))),
        Operator::I32Sub | Operator::I64Sub => Some((binop_st(s, BinOp::Sub), var_t(binop_name(BinOp::Sub)))),
        Operator::I32Mul | Operator::I64Mul => Some((binop_st(s, BinOp::Mul), var_t(binop_name(BinOp::Mul)))),
        Operator::I32DivU => Some((div_instr_st(s, false, 32), var_t(div_instr_name(false, 32)))),
        Operator::I32DivS => Some((div_instr_st(s, true, 32), var_t(div_instr_name(true, 32)))),
        Operator::I64DivU => Some((div_instr_st(s, false, 64), var_t(div_instr_name(false, 64)))),
        Operator::I64DivS => Some((div_instr_st(s, true, 64), var_t(div_instr_name(true, 64)))),
        Operator::I32RemU => Some((rem_instr_st(s, false, 32), var_t(rem_instr_name(false, 32)))),
        Operator::I32RemS => Some((rem_instr_st(s, true, 32), var_t(rem_instr_name(true, 32)))),
        Operator::I64RemU => Some((rem_instr_st(s, false, 64), var_t(rem_instr_name(false, 64)))),
        Operator::I64RemS => Some((rem_instr_st(s, true, 64), var_t(rem_instr_name(true, 64)))),
        Operator::I32Clz => Some((bit_count_st(s, BitCount::LeadingZeroes, 32), var_t(bit_count_name(BitCount::LeadingZeroes, 32)))),
        Operator::I32Ctz => Some((bit_count_st(s, BitCount::TrailingZeroes, 32), var_t(bit_count_name(BitCount::TrailingZeroes, 32)))),
        Operator::I32Popcnt => Some((bit_count_st(s, BitCount::Ones, 32), var_t(bit_count_name(BitCount::Ones, 32)))),
        Operator::I64Clz => Some((bit_count_st(s, BitCount::LeadingZeroes, 64), var_t(bit_count_name(BitCount::LeadingZeroes, 64)))),
        Operator::I64Ctz => Some((bit_count_st(s, BitCount::TrailingZeroes, 64), var_t(bit_count_name(BitCount::TrailingZeroes, 64)))),
        Operator::I64Popcnt => Some((bit_count_st(s, BitCount::Ones, 64), var_t(bit_count_name(BitCount::Ones, 64)))),
        Operator::I32Eq | Operator::I64Eq => Some((compare_instr_st(s, CompareOp::Eq), var_t(compare_name(CompareOp::Eq)))),
        Operator::I32Ne | Operator::I64Ne => Some((compare_instr_st(s, CompareOp::Ne), var_t(compare_name(CompareOp::Ne)))),
        Operator::I32LtU | Operator::I64LtU => Some((compare_instr_st(s, CompareOp::LtU), var_t(compare_name(CompareOp::LtU)))),
        Operator::I32LtS | Operator::I64LtS => Some((compare_instr_st(s, CompareOp::LtS), var_t(compare_name(CompareOp::LtS)))),
        Operator::I32LeU | Operator::I64LeU => Some((compare_instr_st(s, CompareOp::LeU), var_t(compare_name(CompareOp::LeU)))),
        Operator::I32LeS | Operator::I64LeS => Some((compare_instr_st(s, CompareOp::LeS), var_t(compare_name(CompareOp::LeS)))),
        Operator::I32GtU | Operator::I64GtU => Some((compare_instr_st(s, CompareOp::GtU), var_t(compare_name(CompareOp::GtU)))),
        Operator::I32GtS | Operator::I64GtS => Some((compare_instr_st(s, CompareOp::GtS), var_t(compare_name(CompareOp::GtS)))),
        Operator::I32GeU | Operator::I64GeU => Some((compare_instr_st(s, CompareOp::GeU), var_t(compare_name(CompareOp::GeU)))),
        Operator::I32GeS | Operator::I64GeS => Some((compare_instr_st(s, CompareOp::GeS), var_t(compare_name(CompareOp::GeS)))),
        Operator::F32ReinterpretI32 | Operator::F64ReinterpretI64 | Operator::I32ReinterpretF32 | Operator::I64ReinterpretF64 => Some((s, nop_t())),
        Operator::F32Abs | Operator::F64Abs | Operator::F32Neg | Operator::F64Neg | Operator::F32Ceil | Operator::F64Ceil | Operator::F32Floor | Operator::F64Floor | Operator::F32Trunc | Operator::F64Trunc | Operator::F32Nearest | Operator::F64Nearest | Operator::F32Sqrt | Operator::F64Sqrt | Operator::F32Add | Operator::F64Add | Operator::F32Sub | Operator::F64Sub | Operator::F32Mul | Operator::F64Mul | Operator::F32Div | Operator::F64Div | Operator::F32Min | Operator::F64Min | Operator::F32Max | Operator::F64Max | Operator::F32Copysign | Operator::F64Copysign | Operator::F32Eq | Operator::F64Eq | Operator::F32Ne | Operator::F64Ne | Operator::F32Lt | Operator::F64Lt | Operator::F32Le | Operator::F64Le | Operator::F32Gt | Operator::F64Gt | Operator::F32Ge | Operator::F64Ge | Operator::I32TruncF32S | Operator::I32TruncF32U | Operator::I32TruncF64S | Operator::I32TruncF64U | Operator::I64TruncF32S | Operator::I64TruncF32U | Operator::I64TruncF64S | Operator::I64TruncF64U | Operator::F32ConvertI32S | Operator::F32ConvertI32U | Operator::F32ConvertI64S | Operator::F32ConvertI64U | Operator::F64ConvertI32S | Operator::F64ConvertI32U | Operator::F64ConvertI64S | Operator::F64ConvertI64U | Operator::F32DemoteF64 | Operator::F64PromoteF32 => Some((trap_st(s, TrapCode::UsedUnsupportedFloatArithmetic), app_t(var_t("Trap"@), num_t(false, 2)))),
        _ => None,
    }
}

/// The instruction of a branch, `return` or `else`, where there is one.
#[verifier::spinoff_prover]
#[verifier::rlimit(60)]
fn branch_instruction(rt: &mut RuntimeGenerator, op: &Operator, blocks: &BlockStack) -> (r: Option<Expr>)
    requires
        old(rt).wf(),
        op is Else || op is Br || op is BrIf || op is BrTable || op is Return,
    ensures
        final(rt).wf(),
        op_instr(old(rt).st(), *op, blocks@) matches Some(res) ==> r matches Some(e) && e@ == res.1
            && final(rt).st() == res.0,
        op_instr(old(rt).st(), *op, blocks@) is None ==> r is None && final(rt).st() == old(rt).st(),
{
    match op {
        Operator::Else => if blocks.len() > 0 { control_flow::block_else(blocks) } else { None },
        Operator::Br { relative_depth } => if (*relative_depth as usize) < blocks.len() {
            Some(control_flow::br(blocks, *relative_depth))
        } else {
            None
        },
        Operator::BrIf { relative_depth } => if (*relative_depth as usize) < blocks.len() {
            Some(control_flow::br_if(rt, blocks, *relative_depth))
        } else {
            None
        },
        Operator::BrTable { targets, default } => if check_targets(targets, *default, blocks.len()) {
            Some(control_flow::br_table(rt, blocks, targets, *default))
        } else {
            None
        },
        Operator::Return => if blocks.len() > 0 && blocks.len() <= u32::MAX as usize {
            let outermost: u32 = blocks.get_outermost_index();
            Some(control_flow::br(blocks, outermost))
        } else {
            None
        },
        _ => None,
    }
}

/// The instruction of an operator, where there is one (see [`op_instr`]).
#[verifier::spinoff_prover]
#[verifier::rlimit(60)]
pub fn instruction(rt: &mut RuntimeGenerator, op: &Operator, blocks: &BlockStack) -> (r: Option<Expr>)
    requires
        old(rt).wf(),
    ensures
        final(rt).wf(),
        op_instr(old(rt).st(), *op, blocks@) matches Some(res) ==> r matches Some(e) && e@ == res.1
            && final(rt).st() == res.0,
        op_instr(old(rt).st(), *op, blocks@) is None ==> r is None && final(rt).st() == old(rt).st(),
{
    match op {
        Operator::Drop => Some(parametric::drop(rt)),
        Operator::Select => Some(parametric::select(rt)),
        Operator::Nop => Some(nop()),
        Operator::Unreachable => Some(io::exit(rt)),
        Operator::Call { function_index } => Some(control_flow::call(rt, *function_index)),
        Operator::CallIndirect { .. } => Some(control_flow::call_indirect(rt)),
        Operator::Loop { .. } | Operator::If { .. } | Operator::Block { .. } => if blocks.len() > 0 { Some(control_flow::begin_block(rt, blocks)) } else { None },
        Operator::End => if blocks.len() > 0 { Some(control_flow::end_block(blocks)) } else { None },
        Operator::Else | Operator::Br { .. } | Operator::BrIf { .. } | Operator::BrTable { .. } | Operator::Return => {
            branch_instruction(rt, op, blocks)
        },
        Operator::LocalGet { local_index } => Some(variable::local_get(rt, *local_index)),
        Operator::LocalSet { local_index } => Some(variable::local_set(rt, *local_index)),
        Operator::LocalTee { local_index } => Some(variable::local_tee(rt, *local_index)),
        Operator::GlobalGet { global_index } => Some(variable::global_get(rt, *global_index)),
        Operator::GlobalSet { global_index } => Some(variable::global_set(rt, *global_index)),
        Operator::MemorySize { .. } => Some(memory::memory_size(rt)),
        Operator::MemoryGrow { .. } => Some(memory::memory_grow(rt)),
        Operator::MemoryFill { .. } => Some(memory::memory_fill(rt)),
        Operator::MemoryCopy { .. } => Some(memory::memory_copy(rt)),
        Operator::I32Load { memarg } => Some(memory::i_load(rt, memarg.offset as u32, 32, 32, false)),
        Operator::I64Load { memarg } => Some(memory::i_load(rt, memarg.offset as u32, 64, 64, false)),
        Operator::I32Load8U { memarg } => Some(memory::i_load(rt, memarg.offset as u32, 32, 8, false)),
        Operator::I32Load8S { memarg } => Some(memory::i_load(rt, memarg.offset as u32, 32, 8, true)),
        Operator::I32Load16U { memarg } => Some(memory::i_load(rt, memarg.offset as u32, 32, 16, false)),
        Operator::I32Load16S { memarg } => Some(memory::i_load(rt, memarg.offset as u32, 32, 16, true)),
        Operator::I64Load8U { memarg } => Some(memory::i_load(rt, memarg.offset as u32, 64, 8, false)),
        Operator::I64Load8S { memarg } => Some(memory::i_load(rt, memarg.offset as u32, 64, 8, true)),
        Operator::I64Load16U { memarg } => Some(memory::i_load(rt, memarg.offset as u32, 64, 16, false)),
        Operator::I64Load16S { memarg } => Some(memory::i_load(rt, memarg.offset as u32, 64, 16, true)),
        Operator::I64Load32U { memarg } => Some(memory::i_load(rt, memarg.offset as u32, 64, 32, false)),
        Operator::I64Load32S { memarg } => Some(memory::i_load(rt, memarg.offset as u32, 64, 32, true)),
        Operator::F32Load { memarg } => Some(memory::i_load(rt, memarg.offset as u32, 32, 32, false)),
        Operator::F64Load { memarg } => Some(memory::i_load(rt, memarg.offset as u32, 64, 64, false)),
        Operator::I32Store { memarg } => Some(memory::i_store(rt, memarg.offset as u32, 32, 32)),
        Operator::I64Store { memarg } => Some(memory::i_store(rt, memarg.offset as u32, 64, 64)),
        Operator::I32Store8 { memarg } => Some(memory::i_store(rt, memarg.offset as u32, 32, 8)),
        Operator::I32Store16 { memarg } => Some(memory::i_store(rt, memarg.offset as u32, 32, 16)),
        Operator::I64Store8 { memarg } => Some(memory::i_store(rt, memarg.offset as u32, 64, 8)),
        Operator::I64Store16 { memarg } => Some(memory::i_store(rt, memarg.offset as u32, 64, 16)),
        Operator::I64Store32 { memarg } => Some(memory::i_store(rt, memarg.offset as u32, 64, 32)),
        Operator::F32Store { memarg } => Some(memory::i_store(rt, memarg.offset as u32, 32, 32)),
        Operator::F64Store { memarg } => Some(memory::i_store(rt, memarg.offset as u32, 64, 64)),
        Operator::I32Const { .. } | Operator::I64Const { .. } | Operator::F32Const { .. } | Operator::F64Const { .. } => Some(numeric::push_const(rt, op)),
        Operator::I32WrapI64 => Some(numeric::i32_wrap_i64(rt)),
        Operator::I64ExtendI32U => Some(numeric::i64_extend_i32(rt, false)),
        Operator::I64ExtendI32S => Some(numeric::i64_extend_i32(rt, true)),
        Operator::I32Extend8S => Some(numeric::extend_s(rt, 32, 8)),
        Operator::I32Extend16S => Some(numeric::extend_s(rt, 32, 16)),
        Operator::I64Extend8S => Some(numeric::extend_s(rt, 64, 8)),
        Operator::I64Extend16S => Some(numeric::extend_s(rt, 64, 16)),
        Operator::I64Extend32S => Some(numeric::extend_s(rt, 64, 32)),
        Operator::I32Eqz | Operator::I64Eqz => Some(numeric::eqz(rt)),
        Operator::I32And | Operator::I64And => Some(numeric::and(rt)),
        Operator::I32Or | Operator::I64Or => Some(numeric::or(rt)),
        Operator::I32Xor | Operator::I64Xor => Some(numeric::xor(rt)),
        Operator::I32Shl => Some(numeric::i32_shl(rt)),
        Operator::I32ShrU => Some(numeric::i32_shr_u(rt)),
        Operator::I32ShrS => Some(numeric::i32_shr_s(rt)),
        Operator::I64Shl => Some(numeric::i64_shl(rt)),
        Operator::I64ShrU => Some(numeric::i64_shr_u(rt)),
        Operator::I64ShrS => Some(numeric::i64_shr_s(rt)),
        Operator::I32Rotl => Some(numeric::i32_rotate_left(rt)),
        Operator::I32Rotr => Some(numeric::i32_rotate_right(rt)),
        Operator::I64Rotl => Some(numeric::i64_rotate_left(rt)),
        Operator::I64Rotr => Some(numeric::i64_rotate_right(rt)),
        Operator::I32Add | Operator::I64Add => Some(numeric::add(rt)),
        Operator::I32Sub | Operator::I64Sub => Some(numeric::sub(rt)),
        Operator::I32Mul | Operator::I64Mul => Some(numeric::mul(rt)),
        Operator::I32DivU => Some(numeric::div(rt, false, 32)),
        Operator::I32DivS => Some(numeric::div(rt, true, 32)),
        Operator::I64DivU => Some(numeric::div(rt, false, 64)),
        Operator::I64DivS => Some(numeric::div(rt, true, 64)),
        Operator::I32RemU => Some(numeric::rem(rt, false, 32)),
        Operator::I32RemS => Some(numeric::rem(rt, true, 32)),
        Operator::I64RemU => Some(numeric::rem(rt, false, 64)),
        Operator::I64RemS => Some(numeric::rem(rt, true, 64)),
        Operator::I32Clz => Some(numeric::bit_count(rt, BitCount::LeadingZeroes, 32)),
        Operator::I32Ctz => Some(numeric::bit_count(rt, BitCount::TrailingZeroes, 32)),
        Operator::I32Popcnt => Some(numeric::bit_count(rt, BitCount::Ones, 32)),
        Operator::I64Clz => Some(numeric::bit_count(rt, BitCount::LeadingZeroes, 64)),
        Operator::I64Ctz => Some(numeric::bit_count(rt, BitCount::TrailingZeroes, 64)),
        Operator::I64Popcnt => Some(numeric::bit_count(rt, BitCount::Ones, 64)),
        Operator::I32Eq | Operator::I64Eq => Some(numeric::eq(rt)),
        Operator::I32Ne | Operator::I64Ne => Some(numeric::ne(rt)),
        Operator::I32LtU | Operator::I64LtU => Some(numeric::lt_u(rt)),
        Operator::I32LtS | Operator::I64LtS => Some(numeric::lt_s(rt)),
        Operator::I32LeU | Operator::I64LeU => Some(numeric::le_u(rt)),
        Operator::I32LeS | Operator::I64LeS => Some(numeric::le_s(rt)),
        Operator::I32GtU | Operator::I64GtU => Some(numeric::gt_u(rt)),
        Operator::I32GtS | Operator::I64GtS => Some(numeric::gt_s(rt)),
        Operator::I32GeU | Operator::I64GeU => Some(numeric::ge_u(rt)),
        Operator::I32GeS | Operator::I64GeS => Some(numeric::ge_s(rt)),
        Operator::F32ReinterpretI32 | Operator::F64ReinterpretI64 | Operator::I32ReinterpretF32 | Operator::I64ReinterpretF64 => Some(nop()),
        Operator::F32Abs | Operator::F64Abs | Operator::F32Neg | Operator::F64Neg | Operator::F32Ceil | Operator::F64Ceil | Operator::F32Floor | Operator::F64Floor | Operator::F32Trunc | Operator::F64Trunc | Operator::F32Nearest | Operator::F64Nearest | Operator::F32Sqrt | Operator::F64Sqrt | Operator::F32Add | Operator::F64Add | Operator::F32Sub | Operator::F64Sub | Operator::F32Mul | Operator::F64Mul | Operator::F32Div | Operator::F64Div | Operator::F32Min | Operator::F64Min | Operator::F32Max | Operator::F64Max | Operator::F32Copysign | Operator::F64Copysign | Operator::F32Eq | Operator::F64Eq | Operator::F32Ne | Operator::F64Ne | Operator::F32Lt | Operator::F64Lt | Operator::F32Le | Operator::F64Le | Operator::F32Gt | Operator::F64Gt | Operator::F32Ge | Operator::F64Ge | Operator::I32TruncF32S | Operator::I32TruncF32U | Operator::I32TruncF64S | Operator::I32TruncF64U | Operator::I64TruncF32S | Operator::I64TruncF32U | Operator::I64TruncF64S | Operator::I64TruncF64U | Operator::F32ConvertI32S | Operator::F32ConvertI32U | Operator::F32ConvertI64S | Operator::F32ConvertI64U | Operator::F64ConvertI32S | Operator::F64ConvertI32U | Operator::F64ConvertI64S | Operator::F64ConvertI64U | Operator::F32DemoteF64 | Operator::F64PromoteF32 => Some(trap::trap(rt, TrapCode::UsedUnsupportedFloatArithmetic)),
        _ => None,
    }
}

} // verus!
