use walc::analyzer::{BlockType, FuncType, FunctionInfo, MemArg, Operator, ValType};
use walc::codegen::const_expr::eval;
use walc::codegen::function::{function, BlockLabels, BlockStack, BlockTypeInfo, Block};
use walc::codegen::lambda::{var, LetExprBuilder};
use walc::codegen::runtime::instructions::control_flow::call;
use walc::codegen::runtime::instructions::memory::{i_load, i_store, init_memory_size, memory_size};
use walc::codegen::runtime::instructions::numeric::{eqz, extend_s, i64_extend_i32, push_const};
use walc::codegen::runtime::instructions::trap::{trap, TrapCode};
use walc::codegen::runtime::instructions::variable::{global_set, local_get};
use walc::codegen::runtime::instructions::{func_prologue, instruction};
use walc::codegen::runtime::RuntimeGenerator;
use walc::codegen::ProgramBuilder;

fn text_of(rt: RuntimeGenerator) -> String {
    let mut b = LetExprBuilder::new();
    rt.generate(&mut b);
    b.build_in(var("body")).to_text()
}

#[test]
fn utility_is_defined_once() {
    let mut rt = RuntimeGenerator::new();
    rt.def("X", var("a"));
    rt.def("X", var("b"));
    assert!(rt.has("X"));
    assert!(!rt.has("Y"));
    assert_eq!(text_of(rt), "([X body]a)");
}

#[test]
fn instructions_are_referred_to_by_name() {
    let mut rt = RuntimeGenerator::new();
    assert_eq!(eqz(&mut rt).to_text(), "Eqz");
    assert!(rt.has("Eqz"));
    // The test for zero is defined before the instruction that uses it
    assert!(rt.has("EQZ"));
    assert_eq!(walc::codegen::runtime::instructions::numeric::add(&mut rt).to_text(), "Add");
    assert!(rt.has("ADD"));
    assert_eq!(extend_s(&mut rt, 32, 8).to_text(), "I32Extend8S");
    assert_eq!(i64_extend_i32(&mut rt, true).to_text(), "I64ExtendI32S");
    assert_eq!(i64_extend_i32(&mut rt, false).to_text(), "I64ExtendI32U");
}

#[test]
fn instructions_with_an_immediate_apply_it() {
    let mut rt = RuntimeGenerator::new();
    assert_eq!(i_load(&mut rt, 4, 64, 32, true).to_text(), "(I64Load32S 4i)");
    assert_eq!(i_store(&mut rt, 0, 64, 16).to_text(), "(I64Store16 0i)");
    assert_eq!(local_get(&mut rt, 3).to_text(), "(LGet 3x)");
    // Variable indexes are 16-bit
    assert_eq!(local_get(&mut rt, 0x1_0003).to_text(), "(LGet 3x)");
    assert_eq!(global_set(&mut rt, 0x2a).to_text(), "(GSet 2Ax)");
    assert_eq!(call(&mut rt, 2).to_text(), "(Call 2x)");
    assert_eq!(trap(&mut rt, TrapCode::DivisionError).to_text(), "(Trap 1i)");
    assert_eq!(push_const(&mut rt, &Operator::I64Const { value: -1 }).to_text(), "(Push FFFFFFFFFFFFFFFFI)");
    assert_eq!(memory_size(&mut rt).to_text(), "MemSize");
    assert_eq!(init_memory_size(&mut rt, 17).to_text(), "(InitMemSize 11i)");
}

#[test]
fn dispatch_of_operators() {
    let mut rt = RuntimeGenerator::new();
    let blocks = BlockStack::new();
    let add = instruction(&mut rt, &Operator::I32Add, &blocks).unwrap();
    assert_eq!(add.to_text(), "Add");
    let load = instruction(&mut rt, &Operator::I32Load8S { memarg: MemArg { offset: 8 } }, &blocks).unwrap();
    assert_eq!(load.to_text(), "(I32Load8S 8i)");
    // Floating-point arithmetic traps with the code of unsupported float arithmetic
    let fadd = instruction(&mut rt, &Operator::F32Add, &blocks).unwrap();
    assert_eq!(fadd.to_text(), "(Trap 2i)");
    // Reinterpretations change nothing
    let nop = instruction(&mut rt, &Operator::I32ReinterpretF32, &blocks).unwrap();
    assert_eq!(nop.to_text(), "[nop nop]");
    // No branch and no `end` outside of a block
    assert!(instruction(&mut rt, &Operator::Br { relative_depth: 0 }, &blocks).is_none());
    assert!(instruction(&mut rt, &Operator::End, &blocks).is_none());
    let remu = instruction(&mut rt, &Operator::I32RemU, &blocks).unwrap();
    assert_eq!(remu.to_text(), "RemU32");
    let rems = instruction(&mut rt, &Operator::I64RemS, &blocks).unwrap();
    assert_eq!(rems.to_text(), "RemS64");
    // Divisions, which trap on a division error
    let divu = instruction(&mut rt, &Operator::I32DivU, &blocks).unwrap();
    assert_eq!(divu.to_text(), "DivU32");
    let divs = instruction(&mut rt, &Operator::I64DivS, &blocks).unwrap();
    assert_eq!(divs.to_text(), "DivS64");
    // Multiplication and the bit counts
    let mul = instruction(&mut rt, &Operator::I64Mul, &blocks).unwrap();
    assert_eq!(mul.to_text(), "Mul");
    let clz = instruction(&mut rt, &Operator::I32Clz, &blocks).unwrap();
    assert_eq!(clz.to_text(), "Clz32");
    let ctz = instruction(&mut rt, &Operator::I64Ctz, &blocks).unwrap();
    assert_eq!(ctz.to_text(), "Ctz64");
    let popcnt = instruction(&mut rt, &Operator::I32Popcnt, &blocks).unwrap();
    assert_eq!(popcnt.to_text(), "Popcnt32");
}

#[test]
fn block_types() {
    let types = vec![FuncType::new(vec![ValType::I32, ValType::I64], vec![ValType::I32])];
    let empty = BlockTypeInfo::from_block_type(&BlockType::Empty, &types);
    assert_eq!((empty.param_count, empty.result_count), (0, 0));
    let single = BlockTypeInfo::from_block_type(&BlockType::Type(ValType::I64), &types);
    assert_eq!((single.param_count, single.result_count), (0, 1));
    let func = BlockTypeInfo::from_block_type(&BlockType::FuncType(0), &types);
    assert_eq!((func.param_count, func.result_count), (2, 1));
}

#[test]
fn block_stack_counts_from_the_innermost() {
    let mut blocks = BlockStack::new();
    blocks.push(Block { labels: BlockLabels::Func { end_label: var("_0") }, block_type: BlockTypeInfo { param_count: 0, result_count: 0 } });
    blocks.push(Block { labels: BlockLabels::Loop, block_type: BlockTypeInfo { param_count: 1, result_count: 2 } });
    assert_eq!(blocks.get(0).block_type.param_count, 1);
    assert_eq!(blocks.get(1).block_type.param_count, 0);
    assert_eq!(blocks.get_outermost_index(), 1);
    blocks.pop();
    assert_eq!(blocks.len(), 1);
    assert_eq!(blocks.get_outermost_index(), 0);
}

#[test]
fn prologue_moves_parameters_into_locals() {
    let mut rt = RuntimeGenerator::new();
    let func = FunctionInfo {
        function_type: FuncType::new(vec![ValType::I32, ValType::I64], vec![]),
        local_types: vec![ValType::I64],
        instructions: vec![],
    };
    let text = func_prologue(&mut rt, &func).to_text();
    assert!(text.contains("p0"));
    assert!(text.contains("p1"));
    // The local starts as a 64-bit zero
    assert!(text.contains("0I"));
}

fn main_function(instructions: Vec<Operator>) -> FunctionInfo {
    FunctionInfo { function_type: FuncType::new(vec![], vec![]), local_types: vec![], instructions }
}

#[test]
fn function_compiles_to_a_chain() {
    let mut rt = RuntimeGenerator::new();
    let types = vec![FuncType::new(vec![], vec![])];
    let code = function(&mut rt, &main_function(vec![Operator::I32Const { value: 1 }, Operator::Drop, Operator::End]), &types);
    let text = code.unwrap().to_text();
    assert!(text.contains("Drop"));
    assert!(text.contains("(Push 1i)"));
    assert!(text.contains("_0"));
}

#[test]
fn function_with_branches_compiles() {
    let mut rt = RuntimeGenerator::new();
    let types = vec![FuncType::new(vec![], vec![])];
    let body = vec![
        Operator::Block { blockty: BlockType::Empty },
        Operator::I32Const { value: 1 },
        Operator::BrIf { relative_depth: 0 },
        Operator::Br { relative_depth: 0 },
        Operator::End,
        Operator::Loop { blockty: BlockType::Empty },
        Operator::I32Const { value: 0 },
        Operator::BrIf { relative_depth: 0 },
        Operator::End,
        Operator::I32Const { value: 1 },
        Operator::If { blockty: BlockType::Empty },
        Operator::Nop,
        Operator::Else,
        Operator::Nop,
        Operator::End,
        Operator::I32Const { value: 0 },
        Operator::BrTable { targets: vec![0, 0], default: 0 },
        Operator::Return,
        Operator::End,
    ];
    let code = function(&mut rt, &main_function(body), &types);
    let text = code.unwrap().to_text();
    assert!(text.contains("EQZ"));
    assert!(text.contains("EQ "));
    // A branch out of the outermost block has no target
    let code = function(&mut rt, &main_function(vec![Operator::Br { relative_depth: 1 }, Operator::End]), &types);
    assert!(code.is_none());
}

#[test]
fn branches_go_to_the_ends_of_blocks_and_the_starts_of_loops() {
    let mut rt = RuntimeGenerator::new();
    let mut blocks = BlockStack::new();
    blocks.push(Block { labels: BlockLabels::Func { end_label: var("_0") }, block_type: BlockTypeInfo { param_count: 0, result_count: 1 } });
    blocks.push(Block { labels: BlockLabels::Block { end_label: var("_1") }, block_type: BlockTypeInfo { param_count: 0, result_count: 0 } });
    blocks.push(Block { labels: BlockLabels::Loop, block_type: BlockTypeInfo { param_count: 1, result_count: 0 } });
    // To the block: it goes on at the block's end label
    let to_block = instruction(&mut rt, &Operator::Br { relative_depth: 1 }, &blocks).unwrap().to_text();
    assert!(to_block.contains("_1"));
    // To the loop: it carries the loop's parameter back to the start on the trace
    let to_loop = instruction(&mut rt, &Operator::Br { relative_depth: 0 }, &blocks).unwrap().to_text();
    assert!(to_loop.contains("r0"));
    assert!(!to_loop.contains("_1"));
    // `return` goes to the end of the function with its result
    let ret = instruction(&mut rt, &Operator::Return, &blocks).unwrap().to_text();
    assert!(ret.contains("_0"));
    assert!(ret.contains("r0"));
    // `br_if` tests its condition
    let br_if = instruction(&mut rt, &Operator::BrIf { relative_depth: 1 }, &blocks).unwrap().to_text();
    assert!(br_if.contains("EQZ"));
    assert!(br_if.contains("_1"));
    // `br_table` compares the index with the positions of its targets
    let table = instruction(&mut rt, &Operator::BrTable { targets: vec![2, 0], default: 1 }, &blocks).unwrap().to_text();
    assert!(table.contains("EQ "));
    assert!(table.contains("_0"));
    assert!(table.contains("_1"));
    assert!(table.contains("0i"));
    assert!(table.contains("1i"));
    // No branch beyond the enclosing blocks, and `else` only in an `if`
    assert!(instruction(&mut rt, &Operator::Br { relative_depth: 3 }, &blocks).is_none());
    assert!(instruction(&mut rt, &Operator::BrTable { targets: vec![3], default: 0 }, &blocks).is_none());
    assert!(instruction(&mut rt, &Operator::Else, &blocks).is_none());
    blocks.push(Block {
        labels: BlockLabels::If { end_label: var("_3"), else_label: var("_2") },
        block_type: BlockTypeInfo { param_count: 0, result_count: 0 },
    });
    let else_instr = instruction(&mut rt, &Operator::Else, &blocks).unwrap().to_text();
    assert!(else_instr.contains("_3"));
    assert!(!else_instr.contains("_2"));
}

#[test]
fn program_defines_functions_and_tables() {
    let mut p = ProgramBuilder::new();
    p.handle_import("output");
    let types = vec![FuncType::new(vec![], vec![])];
    assert!(p.handle_function(&main_function(vec![Operator::End]), &types));
    p.handle_main(1);
    p.handle_table(2);
    p.handle_elements(1, &[0]);
    p.handle_global(Operator::I32Const { value: 7 });
    let text = p.build().to_text();
    assert!(text.contains("[Func0"));
    assert!(text.contains("[Func1"));
    assert!(text.contains("[FunctionTable"));
    assert!(text.contains("[CustomTable"));
    assert!(text.contains("[Globals"));
    assert!(text.contains("Output"));
    assert!(text.contains("7i"));
}

#[test]
fn constant_expressions() {
    let e = eval(&[Operator::I32Const { value: 5 }, Operator::I32Const { value: 7 }, Operator::I32Add, Operator::End], &[]);
    assert!(matches!(e, Operator::I32Const { value: 12 }));
    let e = eval(&[Operator::I32Const { value: i32::MAX }, Operator::I32Const { value: 1 }, Operator::I32Add], &[]);
    assert!(matches!(e, Operator::I32Const { value: i32::MIN }));
    let e = eval(&[Operator::I64Const { value: 3 }, Operator::I64Const { value: 4 }, Operator::I64Mul], &[]);
    assert!(matches!(e, Operator::I64Const { value: 12 }));
    let e = eval(&[Operator::GlobalGet { global_index: 0 }, Operator::I32Const { value: 1 }, Operator::I32Sub, Operator::End], &[Operator::I32Const { value: 10 }]);
    assert!(matches!(e, Operator::I32Const { value: 9 }));
    // A global that holds a float is read as it is
    let e = eval(&[Operator::GlobalGet { global_index: 1 }, Operator::End], &[Operator::I32Const { value: 0 }, Operator::F32Const { value: 0x3f80_0000 }]);
    assert!(matches!(e, Operator::F32Const { value: 0x3f80_0000 }));
    // Evaluation stops at `end`
    let e = eval(&[Operator::I32Const { value: 1 }, Operator::End, Operator::I32Const { value: 2 }], &[]);
    assert!(matches!(e, Operator::I32Const { value: 1 }));
    // The value is the first one on the stack
    let e = eval(&[Operator::I32Const { value: 1 }, Operator::I32Const { value: 2 }], &[]);
    assert!(matches!(e, Operator::I32Const { value: 1 }));
}

#[test]
fn utilities_follow_their_dependencies() {
    let mut rt = RuntimeGenerator::new();
    let blocks = BlockStack::new();
    let sub = instruction(&mut rt, &Operator::I64Sub, &blocks).unwrap();
    assert_eq!(sub.to_text(), "Sub");
    let text = text_of(rt);
    // The position where `name` is first bound
    let at = |name: &str| {
        let pattern = format!("[{}", name);
        text.match_indices(&pattern)
            .map(|(i, _)| i)
            .find(|&i| matches!(text.as_bytes().get(i + pattern.len()), Some(b'(') | Some(b'[') | Some(b' ')))
            .unwrap()
    };
    assert!(at("_INV") < at("INV"));
    assert!(at("INV") < at("INC"));
    assert!(at("INC") < at("ADD"));
    assert!(at("_ADD") < at("ADD"));
    assert!(at("ADD") < at("Sub"));
}
