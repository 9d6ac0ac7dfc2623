//! Compiles one function of the module into a code segment.

use vstd::prelude::*;

use crate::analyzer::{BlockType, FuncType, FunctionInfo, Operator, ValType};
use crate::codegen::lambda::code::{build_t, label_name_t, single, ChainItemT, CodeBuilder};
use crate::codegen::lambda::{app_t, render, unreachable_t, var_t, Expr, Term};
use crate::codegen::runtime::instructions::io::{exit, exit_st, input_and_return, input_st, output_and_return, output_st};
use crate::codegen::runtime::instructions::{
    func_prologue, instruction, local_defaults_st, locals_are_numbers, op_instr, prologue_def_t,
};
use crate::codegen::runtime::instructions::control_flow::{call, call_st, call_t};
use crate::codegen::runtime::instructions::memory::{
    init_memory_size, init_memory_size_st, memory_init_st, memory_init_with_data,
};
use crate::codegen::runtime::{num_t, RtState, RuntimeGenerator};
use crate::codegen::lambda::{app2_t, var_string};
use crate::codegen::text::{hex_lower_name, hex_lower_t};

verus! {

/// No control flow instruction needs the parameter or result types of a block, just the counts.
#[derive(PartialEq, Eq, Structural, Clone, Copy)]
pub struct BlockTypeInfo {
    pub param_count: u32,
    pub result_count: u32,
}

impl BlockTypeInfo {
    pub fn from_func_type(func_type: &FuncType) -> (info: Self)
        ensures
            info.param_count == func_type.params@.len() as u32,
            info.result_count == func_type.results@.len() as u32,
    {
        BlockTypeInfo {
            param_count: func_type.params().len() as u32,
            result_count: func_type.results().len() as u32,
        }
    }

    /// The counts of a block type: an empty type, a single result, or a function type of the
    /// module.
    pub fn from_block_type(block_type: &BlockType, types: &Vec<FuncType>) -> (info: Self)
        requires
            block_type matches BlockType::FuncType(id) ==> id < types@.len(),
        ensures
            info == block_type_info(*block_type, types@),
    {
        match block_type {
            BlockType::Empty => BlockTypeInfo { param_count: 0, result_count: 0 },
            BlockType::Type(_) => BlockTypeInfo { param_count: 0, result_count: 1 },
            BlockType::FuncType(type_id) => Self::from_func_type(&types[*type_id as usize]),
        }
    }
}

/// The counts of a block type, given the function types of the module.
pub open spec fn block_type_info(block_type: BlockType, types: Seq<FuncType>) -> BlockTypeInfo {
    match block_type {
        BlockType::Empty => BlockTypeInfo { param_count: 0, result_count: 0 },
        BlockType::Type(_) => BlockTypeInfo { param_count: 0, result_count: 1 },
        BlockType::FuncType(id) => BlockTypeInfo {
            param_count: types[id as int].params@.len() as u32,
            result_count: types[id as int].results@.len() as u32,
        },
    }
}

/// The labels that a block needs: the variables of the code segments that jumps go to.
pub enum BlockLabels {
    Func { end_label: Expr },
    Block { end_label: Expr },
    If { end_label: Expr, else_label: Expr },
    /// `loop` performs a backward jump, i.e. it only pushes the instruction following it
    /// to the trace, so no labels are needed.
    Loop,
}

/// The labels of a block, as terms.
pub enum LabelsT {
    Func { end_label: Term },
    Block { end_label: Term },
    If { end_label: Term, else_label: Term },
    Loop,
}

impl View for BlockLabels {
    type V = LabelsT;

    open spec fn view(&self) -> LabelsT {
        match self {
            BlockLabels::Func { end_label } => LabelsT::Func { end_label: end_label@ },
            BlockLabels::Block { end_label } => LabelsT::Block { end_label: end_label@ },
            BlockLabels::If { end_label, else_label } => LabelsT::If {
                end_label: end_label@,
                else_label: else_label@,
            },
            BlockLabels::Loop => LabelsT::Loop,
        }
    }
}

pub struct Block {
    pub labels: BlockLabels,
    pub block_type: BlockTypeInfo,
}

/// A block, as the contracts see it.
pub struct BlockT {
    pub labels: LabelsT,
    pub block_type: BlockTypeInfo,
}

impl View for Block {
    type V = BlockT;

    open spec fn view(&self) -> BlockT {
        BlockT { labels: self.labels@, block_type: self.block_type }
    }
}

/// The blocks that enclose the current instruction, the outermost first.
pub struct BlockStack {
    blocks: Vec<Block>,
}

impl View for BlockStack {
    type V = Seq<BlockT>;

    closed spec fn view(&self) -> Seq<BlockT> {
        self.blocks@.map_values(|b: Block| b@)
    }
}

impl BlockStack {
    pub fn new() -> (s: Self)
        ensures
            s@ == Seq::<BlockT>::empty(),
    {
        let s = BlockStack { blocks: Vec::new() };
        proof {
            assert(s@ =~= Seq::<BlockT>::empty());
        }
        s
    }

    pub fn push(&mut self, block_info: Block)
        ensures
            final(self)@ == old(self)@.push(block_info@),
    {
        self.blocks.push(block_info);
        proof {
            assert(self@ =~= old(self)@.push(block_info@));
        }
    }

    /// Removes the innermost block, if there is one.
    pub fn pop(&mut self)
        ensures
            final(self)@ == if old(self)@.len() == 0 { old(self)@ } else { old(self)@.drop_last() },
    {
        if self.blocks.len() > 0 {
            self.blocks.pop();
            proof {
                assert(self@ =~= old(self)@.drop_last());
            }
        }
    }

    pub fn len(&self) -> (n: usize)
        ensures
            n == self@.len(),
    {
        self.blocks.len()
    }

    /// Gets the block at the given relative index counting from the innermost block,
    /// i.e. `get(0)` returns the innermost block, `get(1)` returns the next outer block, etc.
    pub fn get(&self, relative_index: u32) -> (b: &Block)
        requires
            relative_index < self@.len(),
        ensures
            b@ == self@[self@.len() - 1 - relative_index],
    {
        let idx = self.blocks.len() - 1 - relative_index as usize;
        &self.blocks[idx]
    }

    /// Gets the relative index of the outermost block.
    pub fn get_outermost_index(&self) -> (i: u32)
        requires
            0 < self@.len() <= u32::MAX,
        ensures
            i == self@.len() - 1,
    {
        self.blocks.len() as u32 - 1
    }
}

/// Entering a block and leaving it gives back the blocks that were there.
pub proof fn lemma_push_pop(blocks: Seq<BlockT>, block: BlockT)
    ensures
        blocks.push(block).drop_last() == blocks,
        blocks.push(block).last() == block,
{
    assert(blocks.push(block).drop_last() =~= blocks);
}

/// The state of the compilation of a function: the chain so far, the number of labels made,
/// the enclosing blocks, whether each enclosing `if` has met its `else`, and the runtime.
pub struct FnState {
    pub items: Seq<ChainItemT>,
    pub next_label: nat,
    pub blocks: Seq<BlockT>,
    pub if_has_else: Seq<bool>,
    pub rt: RtState,
}

/// The `n`-th label made.
pub open spec fn label_t(n: nat) -> Term {
    Term::Var(label_name_t(n))
}

/// Whether a block type refers only to function types of the module.
pub open spec fn block_type_ok(block_type: BlockType, types: Seq<FuncType>) -> bool {
    block_type matches BlockType::FuncType(id) ==> id < types.len()
}

/// What happens before the instruction of an operator: a new block is entered, with the
/// labels it needs, or the labels that point to an `end` are placed. `None` where the
/// operator does not fit the blocks, or where no label can be made.
pub open spec fn before_st(st: FnState, op: Operator, types: Seq<FuncType>) -> Option<FnState> {
    match op {
        Operator::Loop { blockty } => if block_type_ok(blockty, types) {
            Some(FnState {
                blocks: st.blocks.push(BlockT { labels: LabelsT::Loop, block_type: block_type_info(blockty, types) }),
                ..st
            })
        } else {
            None
        },
        Operator::If { blockty } => if block_type_ok(blockty, types) && st.next_label + 2 <= u32::MAX {
            Some(FnState {
                next_label: st.next_label + 2,
                blocks: st.blocks.push(BlockT {
                    labels: LabelsT::If { end_label: label_t(st.next_label + 1), else_label: label_t(st.next_label) },
                    block_type: block_type_info(blockty, types),
                }),
                if_has_else: st.if_has_else.push(false),
                ..st
            })
        } else {
            None
        },
        Operator::Block { blockty } => if block_type_ok(blockty, types) && st.next_label + 1 <= u32::MAX {
            Some(FnState {
                next_label: st.next_label + 1,
                blocks: st.blocks.push(BlockT {
                    labels: LabelsT::Block { end_label: label_t(st.next_label) },
                    block_type: block_type_info(blockty, types),
                }),
                ..st
            })
        } else {
            None
        },
        Operator::End => if st.blocks.len() == 0 {
            None
        } else {
            match st.blocks.last().labels {
                LabelsT::If { end_label, else_label } => if st.if_has_else.len() == 0 {
                    None
                } else {
                    let else_items: Seq<ChainItemT> = if st.if_has_else.last() {
                        Seq::empty()
                    } else {
                        seq![ChainItemT::Label(render(else_label))]
                    };
                    Some(FnState {
                        items: st.items + else_items + seq![ChainItemT::Label(render(end_label))],
                        if_has_else: st.if_has_else.drop_last(),
                        ..st
                    })
                },
                LabelsT::Block { end_label } => Some(FnState { items: st.items.push(ChainItemT::Label(render(end_label))), ..st }),
                LabelsT::Func { end_label } => Some(FnState { items: st.items.push(ChainItemT::Label(render(end_label))), ..st }),
                LabelsT::Loop => Some(st),
            }
        },
        _ => Some(st),
    }
}

/// What happens after the instruction of an operator: `end` leaves the block, `else` places
/// the else label of its `if` after itself.
pub open spec fn after_st(st: FnState, op: Operator) -> Option<FnState> {
    match op {
        Operator::End => if st.blocks.len() == 0 {
            Some(st)
        } else {
            Some(FnState { blocks: st.blocks.drop_last(), ..st })
        },
        Operator::Else => if st.blocks.len() == 0 {
            None
        } else {
            match st.blocks.last().labels {
                LabelsT::If { else_label, .. } => if st.if_has_else.len() == 0 {
                    None
                } else {
                    Some(FnState {
                        items: st.items.push(ChainItemT::Label(render(else_label))),
                        if_has_else: st.if_has_else.update(st.if_has_else.len() - 1, true),
                        ..st
                    })
                },
                _ => Some(st),
            }
        },
        _ => Some(st),
    }
}

/// One operator of the function body: what comes before, its instruction, what comes after.
#[verifier::opaque]
pub open spec fn step_st(st: FnState, op: Operator, types: Seq<FuncType>) -> Option<FnState> {
    match before_st(st, op, types) {
        None => None,
        Some(st1) => match op_instr(st1.rt, op, st1.blocks) {
            None => None,
            Some((rt2, instr)) => after_st(
                FnState { items: st1.items.push(ChainItemT::Instruction(instr)), rt: rt2, ..st1 },
                op,
            ),
        },
    }
}

/// The operators one after another.
pub open spec fn run_st(st: FnState, ops: Seq<Operator>, types: Seq<FuncType>) -> Option<FnState>
    decreases ops.len(),
{
    if ops.len() == 0 {
        Some(st)
    } else {
        match run_st(st, ops.drop_last(), types) {
            None => None,
            Some(st1) => step_st(st1, ops.last(), types),
        }
    }
}

/// What the code of a function depends on but for its instructions: the numbers of its
/// parameters and results, and the types of its locals.
pub struct FuncSig {
    pub param_count: nat,
    pub result_count: nat,
    pub local_types: Seq<ValType>,
}

/// The signature of a function body.
pub open spec fn sig_of(func: FunctionInfo) -> FuncSig {
    FuncSig {
        param_count: func.function_type.params@.len(),
        result_count: func.function_type.results@.len(),
        local_types: func.local_types@,
    }
}

/// The state after the prologue: the function block, and the instruction that sets up the
/// frames of the function.
pub open spec fn prologue_st(s: RtState, sig: FuncSig) -> FnState {
    FnState {
        items: seq![ChainItemT::Instruction(prologue_def_t(sig.param_count, sig.local_types))],
        next_label: 1,
        blocks: seq![BlockT {
            labels: LabelsT::Func { end_label: label_t(0) },
            block_type: BlockTypeInfo {
                param_count: sig.param_count as u32,
                result_count: sig.result_count as u32,
            },
        }],
        if_has_else: Seq::empty(),
        rt: local_defaults_st(s, sig.local_types),
    }
}

/// What compiling a function gives: the state of the runtime after it and its code, or
/// `None` where one of its operators has no instruction or does not fit its blocks, or where
/// the body does not close every block it opens (the function's own block included).
pub open spec fn function_st(s: RtState, sig: FuncSig, ops: Seq<Operator>, types: Seq<FuncType>) -> Option<(RtState, Term)> {
    match run_st(prologue_st(s, sig), ops, types) {
        None => None,
        Some(st) => if st.blocks.len() == 0 { Some((st.rt, build_t(st.items))) } else { None },
    }
}

struct FunctionBuilder {
    code: CodeBuilder,
    blocks: BlockStack,
    /// Whether each enclosing `if` block has an else branch.
    /// If an `if` lacks an `else`, its else label goes right before its `end`.
    if_has_else: Vec<bool>,
}

impl FunctionBuilder {
    spec fn state(&self, rt: RtState) -> FnState {
        FnState {
            items: self.code@.items,
            next_label: self.code@.next_label_id,
            blocks: self.blocks@,
            if_has_else: self.if_has_else@,
            rt,
        }
    }

    fn before_instruction(&mut self, op: &Operator, types: &Vec<FuncType>, Ghost(rt): Ghost<RtState>) -> (ok: bool)
        ensures
            ok ==> before_st(old(self).state(rt), *op, types@) == Some(final(self).state(rt)),
            !ok ==> before_st(old(self).state(rt), *op, types@) is None,
    {
        match op {
            Operator::Loop { blockty } => {
                if let BlockType::FuncType(id) = blockty {
                    if *id as usize >= types.len() {
                        return false;
                    }
                }
                let block_type = BlockTypeInfo::from_block_type(blockty, types);
                self.blocks.push(Block { labels: BlockLabels::Loop, block_type });
                true
            },
            Operator::If { blockty } => {
                if let BlockType::FuncType(id) = blockty {
                    if *id as usize >= types.len() {
                        return false;
                    }
                }
                if self.code.next_label_id() >= u32::MAX - 1 {
                    return false;
                }
                let else_label = self.code.make_label();
                let end_label = self.code.make_label();
                let block_type = BlockTypeInfo::from_block_type(blockty, types);
                self.blocks.push(Block { labels: BlockLabels::If { end_label, else_label }, block_type });
                self.if_has_else.push(false);
                true
            },
            Operator::Block { blockty } => {
                if let BlockType::FuncType(id) = blockty {
                    if *id as usize >= types.len() {
                        return false;
                    }
                }
                if self.code.next_label_id() >= u32::MAX {
                    return false;
                }
                let end_label = self.code.make_label();
                let block_type = BlockTypeInfo::from_block_type(blockty, types);
                self.blocks.push(Block { labels: BlockLabels::Block { end_label }, block_type });
                true
            },
            Operator::End => {
                if self.blocks.len() == 0 {
                    return false;
                }
                let block = self.blocks.get(0);
                match &block.labels {
                    BlockLabels::If { end_label, else_label } => {
                        if self.if_has_else.len() == 0 {
                            return false;
                        }
                        let else_label = else_label.duplicate();
                        let end_label = end_label.duplicate();
                        let has_else = self.if_has_else.pop().unwrap();
                        let ghost before = self.code@.items;
                        if !has_else {
                            self.code.push_label(else_label);
                        }
                        self.code.push_label(end_label);
                        proof {
                            let else_items: Seq<ChainItemT> = if has_else {
                                Seq::empty()
                            } else {
                                seq![ChainItemT::Label(render(else_label@))]
                            };
                            assert(self.code@.items =~= before + else_items + seq![ChainItemT::Label(render(end_label@))]);
                        }
                    },
                    BlockLabels::Block { end_label } | BlockLabels::Func { end_label } => {
                        let end_label = end_label.duplicate();
                        self.code.push_label(end_label);
                    },
                    BlockLabels::Loop => {},
                }
                true
            },
            _ => true,
        }
    }

    /// Compiles one operator.
    fn step(&mut self, rt: &mut RuntimeGenerator, op: &Operator, types: &Vec<FuncType>) -> (ok: bool)
        requires
            old(rt).wf(),
        ensures
            final(rt).wf(),
            ok ==> step_st(old(self).state(old(rt).st()), *op, types@) == Some(final(self).state(final(rt).st())),
            !ok ==> step_st(old(self).state(old(rt).st()), *op, types@) is None,
    {
        proof {
            reveal(step_st);
        }
        if !self.before_instruction(op, types, Ghost(rt.st())) {
            return false;
        }
        let instr = instruction(rt, op, &self.blocks);
        match instr {
            None => {
                return false;
            },
            Some(instr) => {
                self.code.push(instr);
            },
        }
        self.after_instruction(op, Ghost(rt.st()))
    }

    fn after_instruction(&mut self, op: &Operator, Ghost(rt): Ghost<RtState>) -> (ok: bool)
        ensures
            ok ==> after_st(old(self).state(rt), *op) == Some(final(self).state(rt)),
            !ok ==> after_st(old(self).state(rt), *op) is None,
    {
        match op {
            Operator::End => {
                self.blocks.pop();
                true
            },
            Operator::Else => {
                if self.blocks.len() == 0 {
                    return false;
                }
                let block = self.blocks.get(0);
                match &block.labels {
                    BlockLabels::If { else_label, .. } => {
                        if self.if_has_else.len() == 0 {
                            return false;
                        }
                        let else_label = else_label.duplicate();
                        self.code.push_label(else_label);
                        let last = self.if_has_else.len() - 1;
                        self.if_has_else.set(last, true);
                        true
                    },
                    _ => true,
                }
            },
            _ => true,
        }
    }
}

/// Compiles a function body into a code segment.
pub fn function(rt: &mut RuntimeGenerator, func: &FunctionInfo, types: &Vec<FuncType>) -> (r: Option<Expr>)
    requires
        old(rt).wf(),
        locals_are_numbers(func),
        func.function_type.params@.len() <= u32::MAX,
    ensures
        final(rt).wf(),
        function_st(old(rt).st(), sig_of(*func), func.instructions@, types@) matches Some(res) ==> r matches Some(code) && code@ == res.1
            && final(rt).st() == res.0,
        function_st(old(rt).st(), sig_of(*func), func.instructions@, types@) is None ==> r is None,
{
    let ghost s0 = rt.st();
    let mut b = FunctionBuilder { code: CodeBuilder::new(), blocks: BlockStack::new(), if_has_else: Vec::new() };

    // The prologue
    let end_label = b.code.make_label();
    let block_type = BlockTypeInfo::from_func_type(&func.function_type);
    b.blocks.push(Block { block_type, labels: BlockLabels::Func { end_label } });
    let prologue = func_prologue(rt, func);
    b.code.push(prologue);
    proof {
        assert(b.state(rt.st()).items =~= prologue_st(s0, sig_of(*func)).items);
        assert(b.state(rt.st()).blocks =~= prologue_st(s0, sig_of(*func)).blocks);
        assert(b.state(rt.st()).if_has_else =~= prologue_st(s0, sig_of(*func)).if_has_else);
        assert(func.instructions@.take(0) =~= Seq::<Operator>::empty());
    }

    // The body
    let mut i: usize = 0;
    while i < func.instructions.len()
        invariant
            i <= func.instructions@.len(),
            rt.wf(),
            s0 == old(rt).st(),
            run_st(prologue_st(s0, sig_of(*func)), func.instructions@.take(i as int), types@) == Some(b.state(rt.st())),
        decreases func.instructions@.len() - i,
    {
        let op = &func.instructions[i];
        proof {
            assert(func.instructions@.take(i + 1).drop_last() =~= func.instructions@.take(i as int));
            assert(func.instructions@.take(i + 1).last() == func.instructions@[i as int]);
        }
        if !b.step(rt, op, types) {
            proof {
                assert(run_st(prologue_st(s0, sig_of(*func)), func.instructions@.take(i + 1), types@) is None);
                lemma_run_none(prologue_st(s0, sig_of(*func)), func.instructions@, types@, (i + 1) as nat);
            }
            return None;
        }
        i = i + 1;
    }
    proof {
        assert(func.instructions@.take(i as int) =~= func.instructions@);
    }
    if b.blocks.len() > 0 {
        return None;
    }
    Some(b.code.build())
}

/// Once the operators fail, they fail whatever follows.
proof fn lemma_run_none(st: FnState, ops: Seq<Operator>, types: Seq<FuncType>, k: nat)
    requires
        k <= ops.len(),
        run_st(st, ops.take(k as int), types) is None,
    ensures
        run_st(st, ops, types) is None,
    decreases ops.len() - k,
{
    if k < ops.len() {
        assert(ops.take((k + 1) as int).drop_last() =~= ops.take(k as int));
        lemma_run_none(st, ops, types, k + 1);
    } else {
        assert(ops.take(k as int) =~= ops);
    }
}

/// The code of the imported `input` function.
pub fn input_function(rt: &mut RuntimeGenerator) -> (e: Expr)
    requires
        old(rt).wf(),
    ensures
        final(rt).wf(),
        final(rt).st() == input_st(old(rt).st()),
        e@ == app_t(var_t("Input"@), unreachable_t()),
{
    single(input_and_return(rt))
}

/// The code of the imported `output` function.
pub fn output_function(rt: &mut RuntimeGenerator) -> (e: Expr)
    requires
        old(rt).wf(),
    ensures
        final(rt).wf(),
        final(rt).st() == output_st(old(rt).st()),
        e@ == app_t(var_t("Output"@), unreachable_t()),
{
    single(output_and_return(rt))
}

/// The code of the imported `exit` function.
pub fn exit_function(rt: &mut RuntimeGenerator) -> (e: Expr)
    requires
        old(rt).wf(),
    ensures
        final(rt).wf(),
        final(rt).st() == exit_st(old(rt).st()),
        e@ == app_t(var_t("Exit"@), unreachable_t()),
{
    single(exit(rt))
}

/// The state after `k` data segments are copied into the memory.
pub open spec fn data_init_st(s: RtState, k: nat) -> RtState
    decreases k,
{
    if k == 0 {
        s
    } else {
        memory_init_st(data_init_st(s, (k - 1) as nat))
    }
}

/// The name of the `id`-th data segment.
pub open spec fn data_name_t(id: nat) -> Seq<char> {
    "Data"@ + hex_lower_t(id)
}

/// The instructions that copy the data segments to their offsets.
pub open spec fn data_init_items_t(offsets: Seq<Term>) -> Seq<ChainItemT> {
    Seq::new(offsets.len(), |i: int| ChainItemT::Instruction(
        app2_t(var_t("MemInit"@), Term::Var(data_name_t(i as nat)), offsets[i]),
    ))
}

/// The first instruction of a program: the tracked memory size is that of the module's memory.
pub open spec fn init_memory_item_t(pages: u32) -> ChainItemT {
    ChainItemT::Instruction(app_t(var_t("InitMemSize"@), num_t(false, pages as u64)))
}

/// The instructions that the program starts with: the memory size is set, the data segments
/// are copied into the memory, the start function (if any) and `main` are called, and the
/// program exits.
pub open spec fn entrypoint_items_t(main_id: u32, start_id: Option<u32>, offsets: Seq<Term>, pages: u32) -> Seq<ChainItemT> {
    seq![init_memory_item_t(pages)] + data_init_items_t(offsets)
        + (match start_id {
            Some(id) => seq![ChainItemT::Instruction(call_t(id))],
            None => Seq::empty(),
        })
        + seq![ChainItemT::Instruction(call_t(main_id)), ChainItemT::Instruction(var_t("Exit"@))]
}

pub open spec fn entrypoint_st(s: RtState, main_id: u32, start_id: Option<u32>, data_count: nat, pages: u32) -> RtState {
    let s1 = data_init_st(init_memory_size_st(s, pages), data_count);
    let s2 = match start_id {
        Some(id) => call_st(s1, id),
        None => s1,
    };
    exit_st(call_st(s2, main_id))
}

/// The code that the program starts with.
pub fn entrypoint(rt: &mut RuntimeGenerator, main_id: u32, start_id: Option<u32>, data_memory_offsets: Vec<Expr>, pages: u32) -> (e: Expr)
    requires
        old(rt).wf(),
    ensures
        final(rt).wf(),
        final(rt).st() == entrypoint_st(old(rt).st(), main_id, start_id, data_memory_offsets@.len(), pages),
        e@ == build_t(entrypoint_items_t(main_id, start_id, data_memory_offsets@.map_values(|o: Expr| o@), pages)),
{
    let ghost offsets = data_memory_offsets@.map_values(|o: Expr| o@);
    let mut code = CodeBuilder::new();
    let instr = init_memory_size(rt, pages);
    code.push(instr);
    let ghost s0 = rt.st();
    let ghost first = code@.items;
    let mut data_memory_offsets = data_memory_offsets;
    let mut data_id: usize = 0;
    proof {
        assert(first =~= seq![init_memory_item_t(pages)]);
        assert(code@.items =~= first + data_init_items_t(offsets.take(0)));
        assert(offsets.len() == data_memory_offsets.len());
    }
    while data_memory_offsets.len() > 0
        invariant
            data_id + data_memory_offsets@.len() == offsets.len(),
            offsets.len() <= usize::MAX,
            forall|j: int| 0 <= j < data_memory_offsets@.len() ==> data_memory_offsets@[j]@ == offsets[data_id + j],
            rt.wf(),
            rt.st() == data_init_st(s0, data_id as nat),
            code@.items == first + data_init_items_t(offsets.take(data_id as int)),
            first == seq![init_memory_item_t(pages)],
        decreases data_memory_offsets@.len(),
    {
        let ghost before = data_memory_offsets@;
        let target_offset = data_memory_offsets.remove(0);
        proof {
            assert forall|j: int| 0 <= j < data_memory_offsets@.len() implies data_memory_offsets@[j]@ == offsets[data_id + 1 + j] by {
                assert(data_memory_offsets@[j] == before[j + 1]);
            }
            assert(target_offset == before[0]);
        }
        let data = var_string(hex_lower_name("Data", data_id as u64));
        let instr = memory_init_with_data(rt, data, target_offset);
        code.push(instr);
        proof {
            assert(code@.items =~= first + data_init_items_t(offsets.take(data_id + 1)));
        }
        data_id = data_id + 1;
    }
    proof {
        assert(offsets.take(data_id as int) =~= offsets);
    }
    let ghost after_data = code@.items;
    if let Some(start_id) = start_id {
        let instr = call(rt, start_id);
        code.push(instr);
    }
    let instr = call(rt, main_id);
    code.push(instr);
    let instr = exit(rt);
    code.push(instr);
    proof {
        assert(code@.items =~= entrypoint_items_t(main_id, start_id, offsets, pages));
    }
    code.build()
}

} // verus!
