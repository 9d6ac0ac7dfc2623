//! Control flow instructions: calls, the instructions that begin and end blocks, and the
//! branches.

use vstd::prelude::*;

use crate::codegen::function::{BlockLabels, BlockStack, BlockT, LabelsT};
use crate::codegen::lambda::instruction::{build_t, pop_range_t, push_defs_t, v, InstructionBuilder};
use crate::codegen::lambda::number::id_name_t;
use crate::codegen::lambda::{
    abs1, abs_t, app2_t, app_t, apply1, apply2, data_stack, locals, pair, select, select_t, stack,
    table, var, var_t, Expr, Term,
};
use crate::codegen::runtime::math::comparisons::{eq_st, equal};
use crate::codegen::runtime::num_t;
use crate::codegen::runtime::instructions::{hex_names, hex_names_t, hex_vars, hex_vars_t};
use crate::codegen::runtime::math::comparisons::{eqz_st, is_not_zero};
use crate::codegen::runtime::math::bit_not_t;
use crate::codegen::runtime::{RtState, RuntimeGenerator};

verus! {

pub open spec fn call_def_t() -> Term {
    abs_t("funcid"@, build_t(seq![
        ("T"@, stack::push_t(v("T"@), v("N"@))),
        ("N"@, table::index_t(pair::first_t(v("F"@)), var_t("funcid"@))),
    ]))
}

pub open spec fn call_st(s: RtState, function_index: u32) -> RtState {
    s.def("Call"@, call_def_t()).with_id((function_index as u16) as u64)
}

pub open spec fn call_t(function_index: u32) -> Term {
    app_t(var_t("Call"@), Term::Var(id_name_t((function_index as u16) as nat)))
}

/// `call`: calls a function of the function table; the next segment goes on the trace.
pub fn call(rt: &mut RuntimeGenerator, function_index: u32) -> (e: Expr)
    requires
        old(rt).wf(),
    ensures
        final(rt).wf(),
        final(rt).st() == call_st(old(rt).st(), function_index),
        e@ == call_t(function_index),
{
    if !rt.has("Call") {
        let mut b = InstructionBuilder::new();
        b.call(var("funcid"));
        proof {
            assert(b@ =~= seq![
                ("T"@, stack::push_t(v("T"@), v("N"@))),
                ("N"@, table::index_t(pair::first_t(v("F"@)), var_t("funcid"@))),
            ]);
        }
        rt.def("Call", abs1("funcid", b.build()));
    }
    let id = rt.id_const(function_index as u16);
    apply1(var("Call"), id)
}

pub open spec fn call_indirect_def_t() -> Term {
    build_t(pop_range_t(seq!["a"@], 0) + seq![
        ("T"@, stack::push_t(v("T"@), v("N"@))),
        ("N"@, table::index_t(pair::second_t(v("F"@)), var_t("a"@))),
    ])
}

pub open spec fn call_indirect_st(s: RtState) -> RtState {
    s.def("CallIndirect"@, call_indirect_def_t())
}

/// `call_indirect`: pops an index into the table of the module and calls that function.
pub fn call_indirect(rt: &mut RuntimeGenerator) -> (e: Expr)
    requires
        old(rt).wf(),
    ensures
        final(rt).wf(),
        final(rt).st() == call_indirect_st(old(rt).st()),
        e@ == var_t("CallIndirect"@),
{
    if !rt.has("CallIndirect") {
        let mut b = InstructionBuilder::new();
        b.pop(&["a"]);
        proof {
            assert(["a"]@.map_values(|s: &str| s@) =~= seq!["a"@]);
        }
        b.call_indirect(var("a"));
        proof {
            assert(b@ =~= pop_range_t(seq!["a"@], 0) + seq![
                ("T"@, stack::push_t(v("T"@), v("N"@))),
                ("N"@, table::index_t(pair::second_t(v("F"@)), var_t("a"@))),
            ]);
        }
        rt.def("CallIndirect", b.build());
    }
    var("CallIndirect")
}

/// What beginning a block of this kind does before it takes its parameters: a loop puts the
/// segment that follows it on the trace, an `if` pops its condition and goes on at its else
/// label when the condition is zero.
pub open spec fn block_entry_t(labels: LabelsT) -> Seq<(Seq<char>, Term)> {
    match labels {
        LabelsT::Loop => seq![("T"@, stack::push_t(v("T"@), v("N"@)))],
        LabelsT::If { else_label, .. } => pop_range_t(seq!["cond"@], 0) + seq![(
            "N"@,
            select_t(bit_not_t(app_t(var_t("EQZ"@), var_t("cond"@))), else_label, v("N"@)),
        )],
        _ => Seq::empty(),
    }
}

/// The parameters of a block move into a new stack frame.
pub open spec fn begin_block_def_t(block: BlockT) -> Term {
    let n = block.block_type.param_count as nat;
    build_t(block_entry_t(block.labels) + pop_range_t(hex_names_t("p"@, n), 0)
        + seq![("S"@, data_stack::push_frame_t(v("S"@)))] + push_defs_t(hex_vars_t("p"@, n)))
}

pub open spec fn begin_block_st(s: RtState, block: BlockT) -> RtState {
    if block.labels is If { eqz_st(s) } else { s }
}

/// `block`, `loop`, `if`: begins the innermost block.
pub fn begin_block(rt: &mut RuntimeGenerator, blocks: &BlockStack) -> (e: Expr)
    requires
        old(rt).wf(),
        blocks@.len() > 0,
    ensures
        final(rt).wf(),
        final(rt).st() == begin_block_st(old(rt).st(), blocks@.last()),
        e@ == begin_block_def_t(blocks@.last()),
{
    let block = blocks.get(0);
    let param_count = block.block_type.param_count;
    let mut b = InstructionBuilder::new();
    match &block.labels {
        BlockLabels::Loop => {
            b.push_trace(b.next());
        },
        BlockLabels::If { else_label, .. } => {
            b.pop(&["cond"]);
            proof {
                assert(["cond"]@.map_values(|s: &str| s@) =~= seq!["cond"@]);
            }
            let cond = is_not_zero(rt, var("cond"));
            let next = select(cond, else_label.duplicate(), b.next());
            b.set_next(next);
        },
        _ => {},
    }
    proof {
        assert(b@ =~= block_entry_t(blocks@.last().labels));
    }
    let ghost entry = b@;
    b.pop_strings(hex_names("p", param_count));
    b.push_stack_frame();
    b.push(hex_vars("p", param_count));
    proof {
        assert(b@ =~= entry + pop_range_t(hex_names_t("p"@, param_count as nat), 0)
            + seq![("S"@, data_stack::push_frame_t(v("S"@)))] + push_defs_t(hex_vars_t("p"@, param_count as nat)));
    }
    b.build()
}

/// How ending a block of this kind leaves the frame of the block: a function also drops its
/// locals and returns, a loop also drops the segment it put on the trace.
pub open spec fn end_block_def_t(block: BlockT) -> Term {
    let n = block.block_type.result_count as nat;
    let results = pop_range_t(hex_names_t("r"@, n), 0);
    let push_results = push_defs_t(hex_vars_t("r"@, n));
    match block.labels {
        LabelsT::Func { .. } => build_t(results + seq![
            ("L"@, locals::pop_frame_t(v("L"@))),
            ("S"@, data_stack::pop_frame_t(v("S"@))),
            ("S"@, data_stack::pop_frame_t(v("S"@))),
        ] + push_results + seq![
            ("_ret"@, stack::top_t(v("T"@))),
            ("T"@, stack::pop_t(v("T"@))),
            ("N"@, v("_ret"@)),
        ]),
        LabelsT::Loop => build_t(results + seq![("S"@, data_stack::pop_frame_t(v("S"@)))] + push_results
            + seq![("T"@, stack::pop_t(v("T"@)))]),
        _ => build_t(results + seq![("S"@, data_stack::pop_frame_t(v("S"@)))] + push_results),
    }
}

/// `end`: ends the innermost block, keeping its results.
pub fn end_block(blocks: &BlockStack) -> (e: Expr)
    requires
        blocks@.len() > 0,
    ensures
        e@ == end_block_def_t(blocks@.last()),
{
    let block = blocks.get(0);
    let result_count = block.block_type.result_count;
    let mut b = InstructionBuilder::new();
    b.pop_strings(hex_names("r", result_count));
    let ghost results = b@;
    match &block.labels {
        BlockLabels::Func { .. } => {
            b.pop_locals_frame();
            b.pop_stack_frame();
            b.push(hex_vars("r", result_count));
            b.ret();
            proof {
                assert(b@ =~= results + seq![
                    ("L"@, locals::pop_frame_t(v("L"@))),
                    ("S"@, data_stack::pop_frame_t(v("S"@))),
                    ("S"@, data_stack::pop_frame_t(v("S"@))),
                ] + push_defs_t(hex_vars_t("r"@, result_count as nat)) + seq![
                    ("_ret"@, stack::top_t(v("T"@))),
                    ("T"@, stack::pop_t(v("T"@))),
                    ("N"@, v("_ret"@)),
                ]);
            }
        },
        BlockLabels::Loop => {
            b.pop_stack_frame();
            b.push(hex_vars("r", result_count));
            b.drop_trace();
            proof {
                assert(b@ =~= results + seq![("S"@, data_stack::pop_frame_t(v("S"@)))]
                    + push_defs_t(hex_vars_t("r"@, result_count as nat)) + seq![("T"@, stack::pop_t(v("T"@)))]);
            }
        },
        _ => {
            b.pop_stack_frame();
            b.push(hex_vars("r", result_count));
            proof {
                assert(b@ =~= results + seq![("S"@, data_stack::pop_frame_t(v("S"@)))]
                    + push_defs_t(hex_vars_t("r"@, result_count as nat)));
            }
        },
    }
    b.build()
}

/// `n` times the same definition.
pub open spec fn repeat_t(x: Seq<char>, t: Term, n: nat) -> Seq<(Seq<char>, Term)> {
    Seq::new(n, |i: int| (x, t))
}

/// The number of loops among the blocks.
pub open spec fn loop_count(blocks: Seq<BlockT>) -> nat
    decreases blocks.len(),
{
    if blocks.len() == 0 {
        0
    } else {
        (if blocks[0].labels is Loop { 1nat } else { 0nat }) + loop_count(blocks.drop_first())
    }
}

/// Where a branch to a block goes on: the start of a loop, which the loop put on the trace,
/// or the end of any other block.
pub open spec fn jump_target_t(labels: LabelsT) -> Term {
    match labels {
        LabelsT::Loop => stack::top_t(v("T"@)),
        LabelsT::Block { end_label } => end_label,
        LabelsT::If { end_label, .. } => end_label,
        LabelsT::Func { end_label } => end_label,
    }
}

/// How many values a branch to a block carries: the parameters of a loop, the results of any
/// other block.
pub open spec fn jump_arity(target: BlockT) -> nat {
    if target.labels is Loop {
        target.block_type.param_count as nat
    } else {
        target.block_type.result_count as nat
    }
}

/// A branch to `target` from inside `frames` further blocks, `loops` of them loops: the values
/// it carries are popped, the frames of the blocks it leaves are dropped (for a loop, its own
/// frame is made anew), the values are pushed, the loops left drop their trace entries, and
/// the branch goes on at the target.
pub open spec fn jump_defs_t(target: BlockT, frames: nat, loops: nat) -> Seq<(Seq<char>, Term)> {
    let is_loop = target.labels is Loop;
    let n = jump_arity(target);
    pop_range_t(hex_names_t("r"@, n), 0)
        + repeat_t("S"@, data_stack::pop_frame_t(v("S"@)), if is_loop { frames + 1 } else { frames })
        + (if is_loop { seq![("S"@, data_stack::push_frame_t(v("S"@)))] } else { Seq::empty() })
        + push_defs_t(hex_vars_t("r"@, n))
        + repeat_t("T"@, stack::pop_t(v("T"@)), loops)
        + seq![("N"@, jump_target_t(target.labels))]
}

/// `br d`: a branch to the block `d` levels out from the innermost one.
pub open spec fn br_t(blocks: Seq<BlockT>, d: nat) -> Term {
    let t = blocks.len() - 1 - d;
    build_t(jump_defs_t(blocks[t], d, loop_count(blocks.subrange(t + 1, blocks.len() as int))))
}

/// A branch, where the blocks have the target.
pub fn br(blocks: &BlockStack, d: u32) -> (e: Expr)
    requires
        d < blocks@.len(),
    ensures
        e@ == br_t(blocks@, d as nat),
{
    let ghost bs = blocks@;
    let ghost t = bs.len() - 1 - d;
    let target = blocks.get(d);
    let is_loop = match &target.labels {
        BlockLabels::Loop => true,
        _ => false,
    };
    let n: u32 = if is_loop { target.block_type.param_count } else { target.block_type.result_count };
    let mut b = InstructionBuilder::new();
    b.pop_strings(hex_names("r", n));
    let ghost d0 = b@;
    let frames: u64 = if is_loop { d as u64 + 1 } else { d as u64 };
    let mut k: u64 = 0;
    while k < frames
        invariant
            k <= frames,
            b@ == d0 + repeat_t("S"@, data_stack::pop_frame_t(v("S"@)), k as nat),
        decreases frames - k,
    {
        b.pop_stack_frame();
        k = k + 1;
        proof {
            assert(b@ =~= d0 + repeat_t("S"@, data_stack::pop_frame_t(v("S"@)), k as nat));
        }
    }
    let ghost d1 = b@;
    if is_loop {
        b.push_stack_frame();
    }
    let ghost d2 = b@;
    b.push(hex_vars("r", n));
    let ghost d3 = b@;
    let mut loops: u32 = 0;
    let mut j: u32 = 0;
    proof {
        assert(bs.subrange(bs.len() - j, bs.len() as int) =~= Seq::<BlockT>::empty());
    }
    while j < d
        invariant
            j <= d,
            d < bs.len(),
            bs == blocks@,
            loops <= j,
            loops == loop_count(bs.subrange(bs.len() - j, bs.len() as int)),
            b@ == d3 + repeat_t("T"@, stack::pop_t(v("T"@)), loops as nat),
        decreases d - j,
    {
        let inner = blocks.get(j);
        let ghost sub = bs.subrange(bs.len() - j - 1, bs.len() as int);
        proof {
            assert(sub.drop_first() =~= bs.subrange(bs.len() - j, bs.len() as int));
            assert(sub[0] == bs[bs.len() - 1 - j]);
        }
        if let BlockLabels::Loop = &inner.labels {
            b.drop_trace();
            loops = loops + 1;
        }
        j = j + 1;
        proof {
            assert(b@ =~= d3 + repeat_t("T"@, stack::pop_t(v("T"@)), loops as nat));
        }
    }
    let next = match &target.labels {
        BlockLabels::Loop => stack::top(b.trace()),
        BlockLabels::Block { end_label } => end_label.duplicate(),
        BlockLabels::If { end_label, .. } => end_label.duplicate(),
        BlockLabels::Func { end_label } => end_label.duplicate(),
    };
    b.set_next(next);
    proof {
        assert(t + 1 == bs.len() - j);
        assert(b@ =~= jump_defs_t(bs[t], d as nat, loop_count(bs.subrange(t + 1, bs.len() as int))));
    }
    b.build()
}

/// `return`: a branch to the block of the function.
pub open spec fn ret_t(blocks: Seq<BlockT>) -> Term {
    br_t(blocks, (blocks.len() - 1) as nat)
}

/// `br_if d`: pops the condition and branches where it is not zero.
pub open spec fn br_if_t(blocks: Seq<BlockT>, d: nat) -> Term {
    build_t(pop_range_t(seq!["cond"@], 0) + seq![(
        "N"@,
        select_t(bit_not_t(app_t(var_t("EQZ"@), var_t("cond"@))), v("N"@), app_t(br_t(blocks, d), v("N"@))),
    )])
}

/// A conditional branch, where the blocks have the target.
pub fn br_if(rt: &mut RuntimeGenerator, blocks: &BlockStack, d: u32) -> (e: Expr)
    requires
        old(rt).wf(),
        d < blocks@.len(),
    ensures
        final(rt).wf(),
        final(rt).st() == eqz_st(old(rt).st()),
        e@ == br_if_t(blocks@, d as nat),
{
    let mut b = InstructionBuilder::new();
    b.pop(&["cond"]);
    proof {
        assert(["cond"]@.map_values(|s: &str| s@) =~= seq!["cond"@]);
    }
    let cond = is_not_zero(rt, var("cond"));
    let taken = apply1(br(blocks, d), b.next());
    let next = select(cond, b.next(), taken);
    b.set_next(next);
    proof {
        assert(b@ =~= pop_range_t(seq!["cond"@], 0) + seq![(
            "N"@,
            select_t(bit_not_t(app_t(var_t("EQZ"@), var_t("cond"@))), v("N"@), app_t(br_t(blocks@, d as nat), v("N"@))),
        )]);
    }
    b.build()
}

/// The choice of `br_table` among its targets from the `k`-th on: the target whose position
/// is the popped index `i`, or the default one.
pub open spec fn table_choice_t(blocks: Seq<BlockT>, targets: Seq<u32>, default: u32, k: nat) -> Term
    decreases targets.len() - k,
{
    if k >= targets.len() {
        app_t(br_t(blocks, default as nat), v("N"@))
    } else {
        select_t(
            app2_t(var_t("EQ"@), var_t("i"@), num_t(false, k as u64)),
            table_choice_t(blocks, targets, default, k + 1),
            app_t(br_t(blocks, targets[k as int] as nat), v("N"@)),
        )
    }
}

/// `br_table`: pops an index and branches to the target at that position, or to the default
/// target where the index is past them.
pub open spec fn br_table_t(blocks: Seq<BlockT>, targets: Seq<u32>, default: u32) -> Term {
    build_t(pop_range_t(seq!["i"@], 0) + seq![("N"@, table_choice_t(blocks, targets, default, 0))])
}

/// The state after the positions `0 .. n` are asked for as constants, the last first.
pub open spec fn positions_st(s: RtState, n: nat) -> RtState
    decreases n,
{
    if n == 0 {
        s
    } else {
        positions_st(s.with_i32((n - 1) as u64), (n - 1) as nat)
    }
}

pub open spec fn br_table_st(s: RtState, n: nat) -> RtState {
    positions_st(eq_st(s), n)
}

/// A branch table, where the blocks have every target.
pub fn br_table(rt: &mut RuntimeGenerator, blocks: &BlockStack, targets: &Vec<u32>, default: u32) -> (e: Expr)
    requires
        old(rt).wf(),
        default < blocks@.len(),
        forall|k: int| 0 <= k < targets@.len() ==> targets@[k] < blocks@.len(),
        targets@.len() <= u32::MAX,
    ensures
        final(rt).wf(),
        final(rt).st() == br_table_st(old(rt).st(), targets@.len()),
        e@ == br_table_t(blocks@, targets@, default),
{
    let ghost s0 = rt.st();
    let mut b = InstructionBuilder::new();
    b.pop(&["i"]);
    proof {
        assert(["i"]@.map_values(|s: &str| s@) =~= seq!["i"@]);
    }
    // Makes sure that the comparison is defined before the positions are asked for
    let _ = equal(rt, var("i"), var("i"));
    let ghost s1 = rt.st();
    let mut choice = apply1(br(blocks, default), b.next());
    let mut k: usize = targets.len();
    while k > 0
        invariant
            k <= targets@.len(),
            targets@.len() <= u32::MAX,
            default < blocks@.len(),
            forall|j: int| 0 <= j < targets@.len() ==> targets@[j] < blocks@.len(),
            rt.wf(),
            positions_st(rt.st(), k as nat) == positions_st(s1, targets@.len()),
            choice@ == table_choice_t(blocks@, targets@, default, k as nat),
        decreases k,
    {
        let position = rt.i32_const((k - 1) as u32);
        let is_here = apply2(var("EQ"), var("i"), position);
        let taken = apply1(br(blocks, targets[k - 1]), b.next());
        choice = select(is_here, choice, taken);
        k = k - 1;
    }
    b.set_next(choice);
    proof {
        assert(b@ =~= pop_range_t(seq!["i"@], 0) + seq![("N"@, table_choice_t(blocks@, targets@, default, 0))]);
    }
    b.build()
}

/// `else`: the branch that the condition chose is over; goes on at the end of the `if`.
pub open spec fn else_t(end_label: Term) -> Term {
    build_t(seq![("N"@, end_label)])
}

/// The instruction of `else`, where the innermost block is an `if`.
pub fn block_else(blocks: &BlockStack) -> (e: Option<Expr>)
    requires
        blocks@.len() > 0,
    ensures
        blocks@.last().labels matches LabelsT::If { end_label, .. } ==> e matches Some(x) && x@ == else_t(end_label),
        !(blocks@.last().labels is If) ==> e is None,
{
    let block = blocks.get(0);
    match &block.labels {
        BlockLabels::If { end_label, .. } => {
            let mut b = InstructionBuilder::new();
            b.set_next(end_label.duplicate());
            proof {
                assert(b@ =~= seq![("N"@, end_label@)]);
            }
            Some(b.build())
        },
        _ => None,
    }
}

} // verus!
