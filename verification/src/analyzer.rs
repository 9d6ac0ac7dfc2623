//! The WebAssembly module as the code generator sees it, and the checks that decide whether
//! a module can be compiled.

use vstd::prelude::*;

use crate::codegen::lambda::{Expr, Term};
use crate::codegen::runtime::instructions::locals_are_numbers;
use crate::codegen::text::{dec_t, str_eq, write_radix};
use crate::codegen::function::FuncSig;
use crate::codegen::{
    function_st_ok, program_t, with_data, with_elements, with_function, with_global, with_import,
    with_table, ProgramBuilder, ProgramView,
};

verus! {

pub type FuncId = u32;

pub type TypeId = u32;

pub type DataSegmentId = u32;

/// A WebAssembly value type.
#[derive(PartialEq, Eq, Structural, Clone, Copy, Debug)]
pub enum ValType {
    I32,
    I64,
    F32,
    F64,
    V128,
    Ref,
}

/// A WebAssembly function type.
pub struct FuncType {
    pub params: Vec<ValType>,
    pub results: Vec<ValType>,
}

impl FuncType {
    pub fn new(params: Vec<ValType>, results: Vec<ValType>) -> (t: FuncType)
        ensures
            t.params@ == params@,
            t.results@ == results@,
    {
        FuncType { params, results }
    }

    pub fn params(&self) -> (p: &[ValType])
        ensures
            p@ == self.params@,
    {
        self.params.as_slice()
    }

    /// A copy of the type.
    pub fn duplicate(&self) -> (t: FuncType)
        ensures
            t.params@ == self.params@,
            t.results@ == self.results@,
    {
        FuncType { params: copy_types(&self.params), results: copy_types(&self.results) }
    }

    pub fn results(&self) -> (r: &[ValType])
        ensures
            r@ == self.results@,
    {
        self.results.as_slice()
    }
}

/// A function body of the module: its type, the types of its locals (the parameters
/// excluded) and its instructions.
pub struct FunctionInfo {
    pub function_type: FuncType,
    pub local_types: Vec<ValType>,
    pub instructions: Vec<Operator>,
}

fn copy_types(types: &Vec<ValType>) -> (r: Vec<ValType>)
    ensures
        r@ == types@,
{
    let mut r: Vec<ValType> = Vec::new();
    let mut i: usize = 0;
    while i < types.len()
        invariant
            i <= types@.len(),
            r@ == types@.take(i as int),
        decreases types@.len() - i,
    {
        r.push(types[i]);
        proof {
            assert(r@ =~= types@.take(i + 1));
        }
        i = i + 1;
    }
    proof {
        assert(types@.take(i as int) =~= types@);
    }
    r
}

/// The type of a `block`, `loop` or `if`.
#[derive(PartialEq, Eq, Structural, Clone, Copy, Debug)]
pub enum BlockType {
    Empty,
    Type(ValType),
    FuncType(u32),
}

/// The immediate of a memory access.
#[derive(PartialEq, Eq, Structural, Clone, Copy, Debug)]
pub struct MemArg {
    pub offset: u64,
}

/// The WebAssembly instructions that the code generator knows of.
/// The payload of a float constant is its IEEE 754 bit pattern.
#[allow(inconsistent_fields)]
pub enum Operator {
    Unreachable,
    Nop,
    Block { blockty: BlockType },
    Loop { blockty: BlockType },
    If { blockty: BlockType },
    Else,
    End,
    Br { relative_depth: u32 },
    BrIf { relative_depth: u32 },
    BrTable { targets: Vec<u32>, default: u32 },
    Return,
    Call { function_index: u32 },
    CallIndirect { type_index: u32, table_index: u32 },
    Drop,
    Select,
    LocalGet { local_index: u32 },
    LocalSet { local_index: u32 },
    LocalTee { local_index: u32 },
    GlobalGet { global_index: u32 },
    GlobalSet { global_index: u32 },
    I32Load { memarg: MemArg },
    I64Load { memarg: MemArg },
    F32Load { memarg: MemArg },
    F64Load { memarg: MemArg },
    I32Load8S { memarg: MemArg },
    I32Load8U { memarg: MemArg },
    I32Load16S { memarg: MemArg },
    I32Load16U { memarg: MemArg },
    I64Load8S { memarg: MemArg },
    I64Load8U { memarg: MemArg },
    I64Load16S { memarg: MemArg },
    I64Load16U { memarg: MemArg },
    I64Load32S { memarg: MemArg },
    I64Load32U { memarg: MemArg },
    I32Store { memarg: MemArg },
    I64Store { memarg: MemArg },
    F32Store { memarg: MemArg },
    F64Store { memarg: MemArg },
    I32Store8 { memarg: MemArg },
    I32Store16 { memarg: MemArg },
    I64Store8 { memarg: MemArg },
    I64Store16 { memarg: MemArg },
    I64Store32 { memarg: MemArg },
    MemorySize { mem: u32 },
    MemoryGrow { mem: u32 },
    MemoryFill { mem: u32 },
    MemoryCopy { dst_mem: u32, src_mem: u32 },
    I32Const { value: i32 },
    I64Const { value: i64 },
    F32Const { value: u32 },
    F64Const { value: u64 },
    I32Eqz,
    I32Eq,
    I32Ne,
    I32LtS,
    I32LtU,
    I32GtS,
    I32GtU,
    I32LeS,
    I32LeU,
    I32GeS,
    I32GeU,
    I64Eqz,
    I64Eq,
    I64Ne,
    I64LtS,
    I64LtU,
    I64GtS,
    I64GtU,
    I64LeS,
    I64LeU,
    I64GeS,
    I64GeU,
    F32Eq,
    F32Ne,
    F32Lt,
    F32Gt,
    F32Le,
    F32Ge,
    F64Eq,
    F64Ne,
    F64Lt,
    F64Gt,
    F64Le,
    F64Ge,
    I32Clz,
    I32Ctz,
    I32Popcnt,
    I32Add,
    I32Sub,
    I32Mul,
    I32DivS,
    I32DivU,
    I32RemS,
    I32RemU,
    I32And,
    I32Or,
    I32Xor,
    I32Shl,
    I32ShrS,
    I32ShrU,
    I32Rotl,
    I32Rotr,
    I64Clz,
    I64Ctz,
    I64Popcnt,
    I64Add,
    I64Sub,
    I64Mul,
    I64DivS,
    I64DivU,
    I64RemS,
    I64RemU,
    I64And,
    I64Or,
    I64Xor,
    I64Shl,
    I64ShrS,
    I64ShrU,
    I64Rotl,
    I64Rotr,
    F32Abs,
    F32Neg,
    F32Ceil,
    F32Floor,
    F32Trunc,
    F32Nearest,
    F32Sqrt,
    F32Add,
    F32Sub,
    F32Mul,
    F32Div,
    F32Min,
    F32Max,
    F32Copysign,
    F64Abs,
    F64Neg,
    F64Ceil,
    F64Floor,
    F64Trunc,
    F64Nearest,
    F64Sqrt,
    F64Add,
    F64Sub,
    F64Mul,
    F64Div,
    F64Min,
    F64Max,
    F64Copysign,
    I32WrapI64,
    I32TruncF32S,
    I32TruncF32U,
    I32TruncF64S,
    I32TruncF64U,
    I64ExtendI32S,
    I64ExtendI32U,
    I64TruncF32S,
    I64TruncF32U,
    I64TruncF64S,
    I64TruncF64U,
    F32ConvertI32S,
    F32ConvertI32U,
    F32ConvertI64S,
    F32ConvertI64U,
    F32DemoteF64,
    F64ConvertI32S,
    F64ConvertI32U,
    F64ConvertI64S,
    F64ConvertI64U,
    F64PromoteF32,
    I32ReinterpretF32,
    I64ReinterpretF64,
    F32ReinterpretI32,
    F64ReinterpretI64,
    I32Extend8S,
    I32Extend16S,
    I64Extend8S,
    I64Extend16S,
    I64Extend32S,
    /// Any instruction that the code generator does not support.
    Unsupported,
}

/// Whether the operator is one of the constant instructions.
pub open spec fn is_const_op(op: &Operator) -> bool {
    ||| op is I32Const
    ||| op is I64Const
    ||| op is F32Const
    ||| op is F64Const
}

/// Whether the value type is a number type.
pub open spec fn is_num_type(ty: ValType) -> bool {
    ||| ty == ValType::I32
    ||| ty == ValType::I64
    ||| ty == ValType::F32
    ||| ty == ValType::F64
}

/// What an import brings in.
pub enum TypeRef {
    /// A function of the given type.
    Func(u32),
    /// A table, a memory, a global or a tag.
    Other,
}

pub struct Import {
    pub module: String,
    pub name: String,
    pub ty: TypeRef,
}

pub struct Export {
    pub name: String,
    /// The index of what is exported.
    pub index: u32,
}

pub enum DataKind {
    /// Copied into the memory at the offset that the constant instruction gives.
    Active { offset: Operator },
    Passive,
}

pub struct Data {
    pub kind: DataKind,
    pub data: Vec<u8>,
}

pub enum ElementKind {
    /// Put into the table at the offset that the constant instruction gives.
    Active { offset: Operator },
    Other,
}

pub struct Element {
    pub kind: ElementKind,
    /// The indexes of the functions, where the items are functions.
    pub functions: Option<Vec<u32>>,
}

/// A function body: the local declarations (a count and a type each) and the instructions.
pub struct FunctionBody {
    pub locals: Vec<(u32, ValType)>,
    pub operators: Vec<Operator>,
}

/// A part of a module, as the parser reads it.
pub enum Payload {
    TypeSection(Vec<FuncType>),
    ImportSection(Vec<Import>),
    /// The type of each function body.
    FunctionSection(Vec<u32>),
    /// The initial size of each table.
    TableSection(Vec<u32>),
    /// The initializer of each global.
    GlobalSection(Vec<Operator>),
    ExportSection(Vec<Export>),
    StartSection(u32),
    ElementSection(Vec<Element>),
    CodeSectionEntry(FunctionBody),
    DataSection(Vec<Data>),
    /// The size, in WASM pages, that each memory starts with. WASM 1.0 modules have at most
    /// one memory; the runtime's memory always has its 4 GiB, but tracks the size that the
    /// program starts with and grows by.
    MemorySection(Vec<u32>),
    /// The other sections, which the validator checks.
    Other,
}

/// The greatest number of functions, globals, and locals in a function.
pub const MAX_COUNT: u32 = 0x1_0000;

/// Whether a module is a valid WebAssembly 1.0 module, as `wasmparser`'s validator decides.
pub uninterp spec fn wasm1_valid(bytes: Seq<u8>) -> bool;

/// Validates a module with `wasmparser::Validator`, restricted to the features of
/// WebAssembly 1.0. What is trusted: the result is `Ok` exactly for the modules that the
/// validator accepts, which depends on the bytes alone. The validator's message of an error
/// is left unsaid.
#[verifier::external_body]
fn validate_module(source: &[u8]) -> (r: Result<(), String>)
    ensures
        r is Ok <==> wasm1_valid(source@),
{
    match wasmparser::Validator::new_with_features(wasmparser::WasmFeatures::WASM1).validate_all(source) {
        Ok(_) => Ok(()),
        Err(e) => Err(format!("{e}")),
    }
}

/// The start of the message of a module that the validator refuses.
pub open spec fn validation_prefix() -> Seq<char> {
    "validation failed: "@
}

/// Validates a module: only valid WebAssembly 1.0 modules are compiled. The error message is
/// `validation failed: ` followed by the validator's message.
pub fn validate(source: &[u8]) -> (r: Result<(), String>)
    ensures
        r is Ok <==> wasm1_valid(source@),
        r matches Err(m) ==> m@.len() >= validation_prefix().len()
            && m@.subrange(0, validation_prefix().len() as int) == validation_prefix(),
{
    match validate_module(source) {
        Ok(()) => Ok(()),
        Err(e) => {
            let mut m = String::from_str("validation failed: ");
            m.append(e.as_str());
            proof {
                reveal_strlit("validation failed: ");
                assert(m@.subrange(0, validation_prefix().len() as int) =~= validation_prefix());
            }
            Err(m)
        },
    }
}

pub open spec fn module_msg(module: Seq<char>) -> Seq<char> {
    "Unknown import module: '"@ + module + "', only 'walc' is supported"@
}

pub open spec fn unknown_import_msg(name: Seq<char>) -> Seq<char> {
    "Unknown import: '"@ + name + "' (only 'input', 'output', and 'exit' are supported)"@
}

/// `Too many <what>: <count> (max is 65536)`.
pub open spec fn too_many_msg(what: Seq<char>, count: nat) -> Seq<char> {
    "Too many "@ + what + ": "@ + dec_t(count) + " (max is "@ + dec_t(MAX_COUNT as nat) + ")"@
}

/// The message of a module that refers to what it does not have, or uses what the compiler
/// does not support.
pub open spec fn unsupported_msg(what: Seq<char>) -> Seq<char> {
    "unsupported module: "@ + what
}

pub open spec fn has_type(t: FuncType, params: Seq<ValType>, results: Seq<ValType>) -> bool {
    t.params@ == params && t.results@ == results
}

/// Why an import cannot be compiled, if it cannot.
pub open spec fn import_error(imp: Import, types: Seq<FuncType>) -> Option<Seq<char>> {
    if imp.module@ != "walc"@ {
        Some(module_msg(imp.module@))
    } else {
        match imp.ty {
            TypeRef::Other => Some("Only function imports are supported"@),
            TypeRef::Func(id) => if id >= types.len() {
                Some(unsupported_msg("missing type"@))
            } else if imp.name@ == "input"@ {
                if has_type(types[id as int], seq![], seq![ValType::I32]) { None } else { Some("'walc.input' must have type () -> (i32)"@) }
            } else if imp.name@ == "output"@ {
                if has_type(types[id as int], seq![ValType::I32], seq![]) { None } else { Some("'walc.output' must have type (i32) -> ()"@) }
            } else if imp.name@ == "exit"@ {
                if has_type(types[id as int], seq![], seq![]) { None } else { Some("'walc.exit' must have type () -> ()"@) }
            } else {
                Some(unknown_import_msg(imp.name@))
            },
        }
    }
}

/// The imports one after another, up to the first that cannot be compiled.
pub open spec fn imports_run(p: ProgramView, imports: Seq<Import>, types: Seq<FuncType>) -> (ProgramView, Option<Seq<char>>)
    decreases imports.len(),
{
    if imports.len() == 0 {
        (p, None)
    } else {
        let (p1, e) = imports_run(p, imports.drop_last(), types);
        if e is Some {
            (p1, e)
        } else {
            match import_error(imports.last(), types) {
                Some(m) => (p1, Some(m)),
                None => (with_import(p1, imports.last().name@), None),
            }
        }
    }
}


/// The type IDs of imported functions, in the order of the imports.
pub open spec fn import_type_ids(imports: Seq<Import>) -> Seq<u32> {
    imports.map_values(|imp: Import| match imp.ty {
        TypeRef::Func(id) => id,
        TypeRef::Other => 0,
    })
}

/// The result of an export: whether it is `main`, and why it cannot be compiled, if it cannot.
/// `main` is looked up among the functions (imports first) and must have type `() -> ()`.
pub open spec fn export_error(e: Export, types: Seq<FuncType>, func_type_ids: Seq<u32>) -> Option<Seq<char>> {
    if e.name@ != "main"@ {
        None
    } else if e.index >= func_type_ids.len() || func_type_ids[e.index as int] >= types.len() {
        Some(unsupported_msg("missing type"@))
    } else if has_type(types[func_type_ids[e.index as int] as int], seq![], seq![]) {
        None
    } else {
        Some("'main' must have type () -> ()"@)
    }
}

/// The exports one after another, up to the first that cannot be compiled, and whether one of
/// them is `main`. Other exports are ignored because they will not be used in any way.
pub open spec fn exports_run(p: ProgramView, exports: Seq<Export>, types: Seq<FuncType>, ids: Seq<u32>) -> (ProgramView, bool, Option<Seq<char>>)
    decreases exports.len(),
{
    if exports.len() == 0 {
        (p, false, None)
    } else {
        let (p1, has_main, e) = exports_run(p, exports.drop_last(), types, ids);
        let ex = exports.last();
        if e is Some {
            (p1, has_main, e)
        } else if ex.name@ != "main"@ {
            (p1, has_main, None)
        } else {
            match export_error(ex, types, ids) {
                Some(m) => (p1, has_main, Some(m)),
                None => (ProgramView { main_id: Some(ex.index), ..p1 }, true, None),
            }
        }
    }
}

/// What handling the exports gives: the program, and the error if there is one.
pub open spec fn exports_result(p: ProgramView, exports: Seq<Export>, types: Seq<FuncType>, ids: Seq<u32>) -> (ProgramView, Option<Seq<char>>) {
    let (p1, has_main, e) = exports_run(p, exports, types, ids);
    if e is Some {
        (p1, e)
    } else if !has_main {
        (p1, Some("The module does not export a 'main' function"@))
    } else {
        (p1, None)
    }
}

/// Why a data segment cannot be compiled, if it cannot: WASM 1.0 has only active segments,
/// whose offsets are constants.
pub open spec fn data_error(d: Data) -> Option<Seq<char>> {
    match d.kind {
        DataKind::Active { offset } => if offset is I32Const { None } else { Some(unsupported_msg("data offset"@)) },
        DataKind::Passive => Some(unsupported_msg("passive data"@)),
    }
}

pub open spec fn data_offset(d: Data) -> Operator {
    match d.kind {
        DataKind::Active { offset } => offset,
        DataKind::Passive => Operator::Unsupported,
    }
}

/// The data segments one after another, up to the first that cannot be compiled.
pub open spec fn datas_run(p: ProgramView, datas: Seq<Data>) -> (ProgramView, Option<Seq<char>>)
    decreases datas.len(),
{
    if datas.len() == 0 {
        (p, None)
    } else {
        let (p1, e) = datas_run(p, datas.drop_last());
        let d = datas.last();
        if e is Some {
            (p1, e)
        } else {
            match data_error(d) {
                Some(m) => (p1, Some(m)),
                None => (with_data(p1, d.data@, data_offset(d)), None),
            }
        }
    }
}

/// The number of locals that the declarations declare.
pub open spec fn local_count(locals: Seq<(u32, ValType)>) -> nat
    decreases locals.len(),
{
    if locals.len() == 0 {
        0
    } else {
        local_count(locals.drop_last()) + locals.last().0 as nat
    }
}

/// The types of the locals that the declarations declare, in order.
pub open spec fn local_types_of(locals: Seq<(u32, ValType)>) -> Seq<ValType>
    decreases locals.len(),
{
    if locals.len() == 0 {
        Seq::empty()
    } else {
        local_types_of(locals.drop_last()) + Seq::new(locals.last().0 as nat, |i: int| locals.last().1)
    }
}

pub open spec fn all_numbers(types: Seq<ValType>) -> bool {
    forall|i: int| 0 <= i < types.len() ==> is_num_type(#[trigger] types[i])
}

/// What handling a function body gives: the analyzer, and the error if there is one.
pub open spec fn body_run(a: AnalyzerView, body: FunctionBody) -> (AnalyzerView, Option<Seq<char>>) {
    if a.function_type_ids.len() == 0 {
        (a, Some(unsupported_msg("function body without a type"@)))
    } else {
        let id = a.function_type_ids.last();
        let a1 = AnalyzerView { function_type_ids: a.function_type_ids.drop_last(), ..a };
        if id >= a.function_types.len() {
            (a1, Some(unsupported_msg("missing type"@)))
        } else if body.locals@.len() > u32::MAX {
            (a1, Some(unsupported_msg("local declarations"@)))
        } else if local_count(body.locals@) > MAX_COUNT {
            (a1, Some(too_many_msg("locals in a function"@, local_count(body.locals@))))
        } else if !all_numbers(local_types_of(body.locals@)) || a.function_types[id as int].params@.len() > u32::MAX {
            (a1, Some(unsupported_msg("local type"@)))
        } else {
            let t = a.function_types[id as int];
            let sig = FuncSig {
                param_count: t.params@.len(),
                result_count: t.results@.len(),
                local_types: local_types_of(body.locals@),
            };
            if function_st_ok(a1.prog, sig, body.operators@, a.function_types) {
                (AnalyzerView { prog: with_function(a1.prog, sig, body.operators@, a.function_types), ..a1 }, None)
            } else {
                (a1, Some(unsupported_msg("instruction"@)))
            }
        }
    }
}

/// The globals one after another, up to the first whose initializer is not a constant.
pub open spec fn globals_run(p: ProgramView, inits: Seq<Operator>) -> (ProgramView, Option<Seq<char>>)
    decreases inits.len(),
{
    if inits.len() == 0 {
        (p, None)
    } else {
        let (p1, e) = globals_run(p, inits.drop_last());
        if e is Some {
            (p1, e)
        } else if is_const_op(&inits.last()) {
            (with_global(p1, inits.last()), None)
        } else {
            (p1, Some(unsupported_msg("global initializer"@)))
        }
    }
}

pub open spec fn globals_result(p: ProgramView, inits: Seq<Operator>) -> (ProgramView, Option<Seq<char>>) {
    if inits.len() > MAX_COUNT {
        (p, Some(too_many_msg("globals"@, inits.len())))
    } else {
        globals_run(p, inits)
    }
}

/// The tables one after another.
pub open spec fn tables_run(p: ProgramView, sizes: Seq<u32>) -> ProgramView
    decreases sizes.len(),
{
    if sizes.len() == 0 {
        p
    } else {
        with_table(tables_run(p, sizes.drop_last()), sizes.last())
    }
}

/// Why an element segment cannot be compiled, if it cannot: in WASM 1.0 the offsets are
/// constants and the items are functions; the functions must fit in the table.
pub open spec fn element_error(p: ProgramView, e: Element) -> Option<Seq<char>> {
    match e.kind {
        ElementKind::Active { offset } => match offset {
            Operator::I32Const { value } => match e.functions {
                Some(fs) => if (value as u32) + fs@.len() <= p.custom_func_table.len() {
                    None
                } else {
                    Some(unsupported_msg("element out of the table"@))
                },
                None => Some(unsupported_msg("element items"@)),
            },
            _ => Some(unsupported_msg("element offset"@)),
        },
        ElementKind::Other => None,
    }
}

/// The element segments one after another, up to the first that cannot be compiled. Only
/// active segments put functions into the table.
pub open spec fn elements_run(p: ProgramView, elements: Seq<Element>) -> (ProgramView, Option<Seq<char>>)
    decreases elements.len(),
{
    if elements.len() == 0 {
        (p, None)
    } else {
        let (p1, err) = elements_run(p, elements.drop_last());
        let e = elements.last();
        if err is Some {
            (p1, err)
        } else {
            match element_error(p1, e) {
                Some(m) => (p1, Some(m)),
                None => match e.kind {
                    ElementKind::Active { offset: Operator::I32Const { value } } =>
                        (with_elements(p1, value as u32, e.functions->0@), None),
                    _ => (p1, None),
                },
            }
        }
    }
}

/// What handling a payload gives: the analyzer, and the error if there is one.
#[verifier::opaque]
pub open spec fn payload_run(a: AnalyzerView, payload: Payload) -> (AnalyzerView, Option<Seq<char>>) {
    match payload {
        Payload::TypeSection(types) => (AnalyzerView { function_types: a.function_types + types@, ..a }, None),
        Payload::ImportSection(imports) => {
            let (p, e) = imports_run(a.prog, imports@, a.function_types);
            if e is None {
                (AnalyzerView { prog: p, func_type_ids: a.func_type_ids + import_type_ids(imports@), ..a }, e)
            } else {
                (AnalyzerView { prog: p, ..a }, e)
            }
        },
        Payload::FunctionSection(ids) => if ids@.len() > MAX_COUNT {
            (a, Some(too_many_msg("functions"@, ids@.len())))
        } else {
            (AnalyzerView { function_type_ids: ids@.reverse(), func_type_ids: a.func_type_ids + ids@, ..a }, None)
        },
        Payload::TableSection(sizes) => (AnalyzerView { prog: tables_run(a.prog, sizes@), ..a }, None),
        Payload::GlobalSection(inits) => {
            let (p, e) = globals_result(a.prog, inits@);
            (AnalyzerView { prog: p, ..a }, e)
        },
        Payload::ExportSection(exports) => {
            let (p, e) = exports_result(a.prog, exports@, a.function_types, a.func_type_ids);
            (AnalyzerView { prog: p, ..a }, e)
        },
        Payload::StartSection(func) => (AnalyzerView { prog: ProgramView { start_id: Some(func), ..a.prog }, ..a }, None),
        Payload::ElementSection(elements) => {
            let (p, e) = elements_run(a.prog, elements@);
            (AnalyzerView { prog: p, ..a }, e)
        },
        Payload::CodeSectionEntry(body) => body_run(a, body),
        Payload::DataSection(datas) => {
            let (p, e) = datas_run(a.prog, datas@);
            (AnalyzerView { prog: p, ..a }, e)
        },
        Payload::MemorySection(pages) => (AnalyzerView { prog: memory_run(a.prog, pages@), ..a }, None),
        Payload::Other => (a, None),
    }
}

/// The payloads one after another, up to the first error.
pub open spec fn payloads_run(a: AnalyzerView, payloads: Seq<Payload>) -> (AnalyzerView, Option<Seq<char>>)
    decreases payloads.len(),
{
    if payloads.len() == 0 {
        (a, None)
    } else {
        let (a1, e) = payloads_run(a, payloads.drop_last());
        if e is Some {
            (a1, e)
        } else {
            payload_run(a1, payloads.last())
        }
    }
}

/// What compiling a module gives, from its parts: its lambda expression, or the error. The
/// parts are what the caller read from the module's bytes; nothing here ties them to the bytes.
pub open spec fn compile_result(a: AnalyzerView, payloads: Seq<Payload>) -> Result<Term, Seq<char>> {
    let (a1, e) = payloads_run(a, payloads);
    match e {
        Some(m) => Err(m),
        None => if a1.prog.main_id is None {
            Err("The module does not export a 'main' function"@)
        } else if !crate::codegen::closedness::table_ok(a1.prog) {
            Err(unsupported_msg("table element"@))
        } else {
            Ok(program_t(a1.prog))
        },
    }
}

/// The program after the memory section: the size of the first memory, if there is one.
pub open spec fn memory_run(p: ProgramView, pages: Seq<u32>) -> ProgramView {
    if pages.len() > 0 {
        ProgramView { memory_pages: pages[0], ..p }
    } else {
        p
    }
}

/// The state of the analyzer: the program so far, the function types of the module, the
/// types of the function bodies still to come, the next one last, and the type of each
/// function of the module, imports first.
pub struct AnalyzerView {
    pub prog: ProgramView,
    pub function_types: Seq<FuncType>,
    pub function_type_ids: Seq<u32>,
    pub func_type_ids: Seq<u32>,
}

pub struct Analyzer {
    prog_builder: ProgramBuilder,
    /// Indexed by type ID
    function_types: Vec<FuncType>,
    /// Stack of function type IDs: the last one is that of the next function body.
    function_type_ids: Vec<u32>,
    /// The type ID of each function, indexed by function index: imports first.
    func_type_ids: Vec<u32>,
}

impl View for Analyzer {
    type V = AnalyzerView;

    closed spec fn view(&self) -> AnalyzerView {
        AnalyzerView {
            prog: self.prog_builder@,
            function_types: self.function_types@,
            function_type_ids: self.function_type_ids@,
            func_type_ids: self.func_type_ids@,
        }
    }
}

impl Analyzer {
    pub closed spec fn wf(&self) -> bool {
        self.prog_builder.wf()
    }

    pub fn new() -> (a: Self)
        ensures
            a.wf(),
            a@.prog.main_id is None,
            a@.function_types.len() == 0,
            a@.function_type_ids.len() == 0,
            a@.func_type_ids.len() == 0,
            crate::codegen::closedness::program_ok(a@.prog),
    {
        Analyzer {
            prog_builder: ProgramBuilder::new(),
            function_types: Vec::new(),
            function_type_ids: Vec::new(),
            func_type_ids: Vec::new(),
        }
    }

    fn import_check(&self, imp: &Import) -> (r: Option<String>)
        ensures
            match import_error(*imp, self@.function_types) {
                Some(m) => r matches Some(s) && s@ == m,
                None => r is None,
            },
    {
        if !str_eq(imp.module.as_str(), "walc") {
            let mut m = String::from_str("Unknown import module: '");
            m.append(imp.module.as_str());
            m.append("', only 'walc' is supported");
            return Some(m);
        }
        let type_id = match imp.ty {
            TypeRef::Func(type_id) => type_id,
            TypeRef::Other => {
                return Some(String::from_str("Only function imports are supported"));
            },
        };
        if type_id as usize >= self.function_types.len() {
            return Some(unsupported("missing type"));
        }
        let func_type = &self.function_types[type_id as usize];
        let name = imp.name.as_str();
        if str_eq(name, "input") {
            if func_type.params().len() == 0 && func_type.results().len() == 1 && func_type.results()[0] == ValType::I32 {
                proof {
                    assert(func_type.results@ =~= seq![ValType::I32]);
                    assert(func_type.params@ =~= Seq::<ValType>::empty());
                }
                None
            } else {
                proof {
                    if func_type.results@ == seq![ValType::I32] {
                        assert(func_type.results@[0] == ValType::I32);
                    }
                }
                Some(String::from_str("'walc.input' must have type () -> (i32)"))
            }
        } else if str_eq(name, "output") {
            if func_type.params().len() == 1 && func_type.params()[0] == ValType::I32 && func_type.results().len() == 0 {
                proof {
                    assert(func_type.params@ =~= seq![ValType::I32]);
                    assert(func_type.results@ =~= Seq::<ValType>::empty());
                }
                None
            } else {
                proof {
                    if func_type.params@ == seq![ValType::I32] {
                        assert(func_type.params@[0] == ValType::I32);
                    }
                }
                Some(String::from_str("'walc.output' must have type (i32) -> ()"))
            }
        } else if str_eq(name, "exit") {
            if func_type.params().len() == 0 && func_type.results().len() == 0 {
                proof {
                    assert(func_type.params@ =~= Seq::<ValType>::empty());
                    assert(func_type.results@ =~= Seq::<ValType>::empty());
                }
                None
            } else {
                Some(String::from_str("'walc.exit' must have type () -> ()"))
            }
        } else {
            let mut m = String::from_str("Unknown import: '");
            m.append(name);
            m.append("' (only 'input', 'output', and 'exit' are supported)");
            Some(m)
        }
    }

    /// Checks that `main` is exported with the type `() -> ()`.
    pub fn handle_exports(&mut self, exports: Vec<Export>) -> (r: Result<(), String>)
        requires
            old(self).wf(),
        ensures
            final(self).wf(),
            final(self)@ == (AnalyzerView { prog: exports_result(old(self)@.prog, exports@, old(self)@.function_types, old(self)@.func_type_ids).0, ..old(self)@ }),
            match exports_result(old(self)@.prog, exports@, old(self)@.function_types, old(self)@.func_type_ids).1 {
                Some(m) => r matches Err(s) && s@ == m,
                None => r is Ok,
            },
    {
        let ghost a0 = self@;
        let mut has_main = false;
        let mut i: usize = 0;
        while i < exports.len()
            invariant
                i <= exports@.len(),
                self.wf(),
                a0 == old(self)@,
                exports_run(a0.prog, exports@.take(i as int), a0.function_types, a0.func_type_ids) == (self@.prog, has_main, None::<Seq<char>>),
                self@ == (AnalyzerView { prog: self@.prog, ..a0 }),
            decreases exports@.len() - i,
        {
            let export = &exports[i];
            proof {
                assert(exports@.take(i + 1).drop_last() =~= exports@.take(i as int));
                assert(exports@.take(i + 1).last() == exports@[i as int]);
            }
            if str_eq(export.name.as_str(), "main") {
                if export.index as usize >= self.func_type_ids.len()
                    || self.func_type_ids[export.index as usize] as usize >= self.function_types.len() {
                    proof {
                        lemma_exports_stop(a0.prog, exports@, a0.function_types, a0.func_type_ids, (i + 1) as nat);
                    }
                    return Err(unsupported("missing type"));
                }
                let func_type = &self.function_types[self.func_type_ids[export.index as usize] as usize];
                if !(func_type.params().len() == 0 && func_type.results().len() == 0) {
                    proof {
                        lemma_exports_stop(a0.prog, exports@, a0.function_types, a0.func_type_ids, (i + 1) as nat);
                    }
                    return Err(String::from_str("'main' must have type () -> ()"));
                }
                proof {
                    assert(func_type.params@ =~= Seq::<ValType>::empty());
                    assert(func_type.results@ =~= Seq::<ValType>::empty());
                }
                has_main = true;
                self.prog_builder.handle_main(export.index);
            }
            i = i + 1;
        }
        proof {
            assert(exports@.take(i as int) =~= exports@);
        }
        if !has_main {
            return Err(String::from_str("The module does not export a 'main' function"));
        }
        Ok(())
    }

    /// Records the size that the first memory starts with; a module without a memory has none.
    pub fn handle_memory(&mut self, pages: Vec<u32>)
        requires
            old(self).wf(),
        ensures
            final(self).wf(),
            final(self)@ == (AnalyzerView { prog: memory_run(old(self)@.prog, pages@), ..old(self)@ }),
    {
        if pages.len() > 0 {
            self.prog_builder.handle_memory(pages[0]);
        }
    }

    pub fn handle_start(&mut self, func: u32)
        requires
            old(self).wf(),
        ensures
            final(self).wf(),
            final(self)@ == (AnalyzerView { prog: ProgramView { start_id: Some(func), ..old(self)@.prog }, ..old(self)@ }),
    {
        self.prog_builder.handle_start(func);
    }

    /// Adds the data segments, which must be active with constant offsets.
    pub fn handle_data(&mut self, datas: Vec<Data>) -> (r: Result<(), String>)
        requires
            old(self).wf(),
        ensures
            final(self).wf(),
            final(self)@ == (AnalyzerView { prog: datas_run(old(self)@.prog, datas@).0, ..old(self)@ }),
            match datas_run(old(self)@.prog, datas@).1 {
                Some(m) => r matches Err(s) && s@ == m,
                None => r is Ok,
            },
    {
        let ghost a0 = self@;
        let mut i: usize = 0;
        while i < datas.len()
            invariant
                i <= datas@.len(),
                self.wf(),
                a0 == old(self)@,
                datas_run(a0.prog, datas@.take(i as int)) == (self@.prog, None::<Seq<char>>),
                self@ == (AnalyzerView { prog: self@.prog, ..a0 }),
            decreases datas@.len() - i,
        {
            let d = &datas[i];
            proof {
                assert(datas@.take(i + 1).drop_last() =~= datas@.take(i as int));
                assert(datas@.take(i + 1).last() == datas@[i as int]);
            }
            match &d.kind {
                DataKind::Active { offset } => {
                    if let Operator::I32Const { .. } = offset {
                        self.prog_builder.handle_data(d.data.as_slice(), offset);
                    } else {
                        proof {
                            lemma_datas_stop(a0.prog, datas@, (i + 1) as nat);
                        }
                        return Err(unsupported("data offset"));
                    }
                },
                DataKind::Passive => {
                    proof {
                        lemma_datas_stop(a0.prog, datas@, (i + 1) as nat);
                    }
                    return Err(unsupported("passive data"));
                },
            }
            i = i + 1;
        }
        proof {
            assert(datas@.take(i as int) =~= datas@);
        }
        Ok(())
    }

    pub fn handle_types(&mut self, types: Vec<FuncType>)
        requires
            old(self).wf(),
        ensures
            final(self).wf(),
            final(self)@ == (AnalyzerView { function_types: old(self)@.function_types + types@, ..old(self)@ }),
    {
        let mut types = types;
        self.function_types.append(&mut types);
    }

    /// Takes the types of the function bodies, the first last.
    pub fn handle_function_types(&mut self, type_ids: Vec<u32>) -> (r: Result<(), String>)
        requires
            old(self).wf(),
        ensures
            final(self).wf(),
            type_ids@.len() > MAX_COUNT ==> final(self)@ == old(self)@
                && (r matches Err(s) && s@ == too_many_msg("functions"@, type_ids@.len())),
            type_ids@.len() <= MAX_COUNT ==> r is Ok
                && final(self)@ == (AnalyzerView {
                    function_type_ids: type_ids@.reverse(),
                    func_type_ids: old(self)@.func_type_ids + type_ids@,
                    ..old(self)@
                }),
    {
        if type_ids.len() > MAX_COUNT as usize {
            return Err(too_many("functions", type_ids.len() as u64));
        }
        let mut reversed: Vec<u32> = Vec::new();
        let mut i: usize = type_ids.len();
        while i > 0
            invariant
                i <= type_ids@.len(),
                reversed@ == type_ids@.skip(i as int).reverse(),
            decreases i,
        {
            i = i - 1;
            reversed.push(type_ids[i]);
            proof {
                assert(type_ids@.skip(i as int).reverse() =~= type_ids@.skip(i + 1).reverse().push(type_ids@[i as int]));
            }
        }
        proof {
            assert(type_ids@.skip(0) =~= type_ids@);
        }
        self.function_type_ids = reversed;
        let ghost before = self.func_type_ids@;
        let ghost mid = self@;
        let mut j: usize = 0;
        while j < type_ids.len()
            invariant
                j <= type_ids@.len(),
                self.wf(),
                mid.function_type_ids == type_ids@.reverse(),
                mid == (AnalyzerView { function_type_ids: type_ids@.reverse(), ..old(self)@ }),
                self@ == (AnalyzerView { func_type_ids: self.func_type_ids@, ..mid }),
                self.func_type_ids@ == before + type_ids@.take(j as int),
            decreases type_ids@.len() - j,
        {
            self.func_type_ids.push(type_ids[j]);
            proof {
                assert(type_ids@.take(j + 1) =~= type_ids@.take(j as int).push(type_ids@[j as int]));
            }
            j = j + 1;
        }
        proof {
            assert(type_ids@.take(j as int) =~= type_ids@);
        }
        Ok(())
    }

    /// Compiles the next function body.
    pub fn handle_function(&mut self, body: FunctionBody) -> (r: Result<(), String>)
        requires
            old(self).wf(),
        ensures
            final(self).wf(),
            body_run(old(self)@, body).1 is None ==> final(self)@ == body_run(old(self)@, body).0,
            body_run(old(self)@, body).1 is Some ==> final(self)@ == (AnalyzerView {
                prog: ProgramView { rt: final(self)@.prog.rt, ..body_run(old(self)@, body).0.prog },
                ..body_run(old(self)@, body).0
            }),
            match body_run(old(self)@, body).1 {
                Some(m) => r matches Err(s) && s@ == m,
                None => r is Ok,
            },
    {
        if self.function_type_ids.len() == 0 {
            return Err(unsupported("function body without a type"));
        }
        let type_id = self.function_type_ids.pop().unwrap();
        if type_id as usize >= self.function_types.len() {
            return Err(unsupported("missing type"));
        }
        if body.locals.len() > 0xffff_ffff {
            return Err(unsupported("local declarations"));
        }
        let total = count_locals(&body.locals);
        if total > MAX_COUNT as u64 {
            return Err(too_many("locals in a function", total));
        }
        let local_types = read_local_types(&body.locals);
        if !all_number_types(&local_types) {
            return Err(unsupported("local type"));
        }
        let func_type = self.function_types[type_id as usize].duplicate();
        if func_type.params().len() > 0xffff_ffff {
            return Err(unsupported("local type"));
        }
        let info = FunctionInfo { function_type: func_type, local_types, instructions: body.operators };
        proof {
            assert(locals_are_numbers(&info));
        }
        if !self.prog_builder.handle_function(&info, &self.function_types) {
            return Err(unsupported("instruction"));
        }
        Ok(())
    }

    /// Adds the globals, whose initializers must be constants.
    #[verifier::loop_isolation(false)]
    pub fn handle_globals(&mut self, inits: Vec<Operator>) -> (r: Result<(), String>)
        requires
            old(self).wf(),
        ensures
            final(self).wf(),
            final(self)@ == (AnalyzerView { prog: globals_result(old(self)@.prog, inits@).0, ..old(self)@ }),
            match globals_result(old(self)@.prog, inits@).1 {
                Some(m) => r matches Err(s) && s@ == m,
                None => r is Ok,
            },
    {
        if inits.len() > MAX_COUNT as usize {
            return Err(too_many("globals", inits.len() as u64));
        }
        let ghost a0 = self@;
        let ghost all = inits@;
        let mut inits = inits;
        let mut i: usize = 0;
        proof {
            assert(all.len() == inits.len());
        }
        while inits.len() > 0
            invariant
                i + inits@.len() == all.len(),
                all.len() <= MAX_COUNT,
                forall|j: int| 0 <= j < inits@.len() ==> inits@[j] == all[i + j],
                self.wf(),
                a0 == old(self)@,
                globals_run(a0.prog, all.take(i as int)) == (self@.prog, None::<Seq<char>>),
                self@ == (AnalyzerView { prog: self@.prog, ..a0 }),
            decreases inits@.len(),
        {
            let ghost before = inits@;
            let init = inits.remove(0);
            proof {
                assert forall|j: int| 0 <= j < inits@.len() implies inits@[j] == all[i + 1 + j] by {
                    assert(inits@[j] == before[j + 1]);
                }
                assert(init == before[0]);
                assert(all.take(i + 1).drop_last() =~= all.take(i as int));
                assert(all.take(i + 1).last() == all[i as int]);
            }
            if !is_const(&init) {
                proof {
                    lemma_globals_stop(a0.prog, all, (i + 1) as nat);
                }
                return Err(unsupported("global initializer"));
            }
            self.prog_builder.handle_global(init);
            i = i + 1;
        }
        proof {
            assert(all.take(i as int) =~= all);
        }
        Ok(())
    }

    /// Resizes the table for indirect calls to the initial size of each table.
    pub fn handle_tables(&mut self, sizes: Vec<u32>)
        requires
            old(self).wf(),
        ensures
            final(self).wf(),
            final(self)@ == (AnalyzerView { prog: tables_run(old(self)@.prog, sizes@), ..old(self)@ }),
    {
        let ghost a0 = self@;
        let mut i: usize = 0;
        while i < sizes.len()
            invariant
                i <= sizes@.len(),
                self.wf(),
                self@ == (AnalyzerView { prog: tables_run(a0.prog, sizes@.take(i as int)), ..a0 }),
            decreases sizes@.len() - i,
        {
            proof {
                assert(sizes@.take(i + 1).drop_last() =~= sizes@.take(i as int));
            }
            self.prog_builder.handle_table(sizes[i]);
            i = i + 1;
        }
        proof {
            assert(sizes@.take(i as int) =~= sizes@);
        }
    }

    /// Puts the functions of the active element segments into the table for indirect calls.
    pub fn handle_elements(&mut self, elements: Vec<Element>) -> (r: Result<(), String>)
        requires
            old(self).wf(),
        ensures
            final(self).wf(),
            final(self)@ == (AnalyzerView { prog: elements_run(old(self)@.prog, elements@).0, ..old(self)@ }),
            match elements_run(old(self)@.prog, elements@).1 {
                Some(m) => r matches Err(s) && s@ == m,
                None => r is Ok,
            },
    {
        let ghost a0 = self@;
        let mut i: usize = 0;
        while i < elements.len()
            invariant
                i <= elements@.len(),
                self.wf(),
                a0 == old(self)@,
                elements_run(a0.prog, elements@.take(i as int)) == (self@.prog, None::<Seq<char>>),
                self@ == (AnalyzerView { prog: self@.prog, ..a0 }),
            decreases elements@.len() - i,
        {
            let element = &elements[i];
            proof {
                assert(elements@.take(i + 1).drop_last() =~= elements@.take(i as int));
                assert(elements@.take(i + 1).last() == elements@[i as int]);
            }
            if let ElementKind::Active { offset } = &element.kind {
                let value = match offset {
                    Operator::I32Const { value } => *value,
                    _ => {
                        proof {
                            lemma_elements_stop(a0.prog, elements@, (i + 1) as nat);
                        }
                        return Err(unsupported("element offset"));
                    },
                };
                let functions = match &element.functions {
                    Some(functions) => functions,
                    None => {
                        proof {
                            lemma_elements_stop(a0.prog, elements@, (i + 1) as nat);
                        }
                        return Err(unsupported("element items"));
                    },
                };
                let table_len = self.prog_builder.custom_table_len();
                if functions.len() > table_len || value as u32 as usize > table_len - functions.len() {
                    proof {
                        lemma_elements_stop(a0.prog, elements@, (i + 1) as nat);
                    }
                    return Err(unsupported("element out of the table"));
                }
                self.prog_builder.handle_elements(value as u32, functions.as_slice());
            }
            i = i + 1;
        }
        proof {
            assert(elements@.take(i as int) =~= elements@);
        }
        Ok(())
    }

    /// Handles one part of the module.
    pub fn handle_payload(&mut self, payload: Payload) -> (r: Result<(), String>)
        requires
            old(self).wf(),
        ensures
            final(self).wf(),
            payload_run(old(self)@, payload).1 is None ==> final(self)@ == payload_run(old(self)@, payload).0,
            match payload_run(old(self)@, payload).1 {
                Some(m) => r matches Err(s) && s@ == m,
                None => r is Ok,
            },
    {
        proof {
            reveal(payload_run);
        }
        match payload {
            Payload::TypeSection(types) => {
                self.handle_types(types);
                Ok(())
            },
            Payload::ImportSection(imports) => self.handle_imports(imports),
            Payload::FunctionSection(type_ids) => self.handle_function_types(type_ids),
            Payload::TableSection(sizes) => {
                self.handle_tables(sizes);
                Ok(())
            },
            Payload::GlobalSection(inits) => self.handle_globals(inits),
            Payload::ExportSection(exports) => self.handle_exports(exports),
            Payload::StartSection(func) => {
                self.handle_start(func);
                Ok(())
            },
            Payload::ElementSection(elements) => self.handle_elements(elements),
            Payload::CodeSectionEntry(body) => self.handle_function(body),
            Payload::DataSection(datas) => self.handle_data(datas),
            Payload::MemorySection(pages) => {
                self.handle_memory(pages);
                Ok(())
            },
            Payload::Other => Ok(()),
        }
    }

    #[verifier::loop_isolation(false)]
    /// Compiles a module: validates its bytes, then handles the parts that the parser read from
    /// them, in order, and builds the lambda expression of the program.
    pub fn compile(self, source: &[u8], payloads: Vec<Payload>) -> (r: Result<Expr, String>)
        requires
            self.wf(),
            crate::codegen::closedness::program_ok(self@.prog),
        ensures
            !wasm1_valid(source@) ==> (r matches Err(m) && m@.len() >= validation_prefix().len()
                && m@.subrange(0, validation_prefix().len() as int) == validation_prefix()),
            wasm1_valid(source@) ==> match compile_result(self@, payloads@) {
                Ok(t) => r matches Ok(e) && e@ == t,
                Err(m) => r matches Err(s) && s@ == m,
            },
            r matches Ok(e) ==> crate::codegen::lambda::scope::closed(e@),
    {
        proof {
            crate::codegen::closedness::lemma_compile_closed(self@, payloads@);
        }
        match validate(source) {
            Err(e) => {
                return Err(e);
            },
            Ok(()) => {},
        }
        let mut analyzer = self;
        let ghost a0 = analyzer@;
        let ghost all = payloads@;
        let mut payloads = payloads;
        let mut i: usize = 0;
        proof {
            assert(all.len() == payloads.len());
        }
        while payloads.len() > 0
            invariant
                i + payloads@.len() == all.len(),
                all.len() <= usize::MAX,
                forall|j: int| 0 <= j < payloads@.len() ==> payloads@[j] == all[i + j],
                analyzer.wf(),
                payloads_run(a0, all.take(i as int)) == (analyzer@, None::<Seq<char>>),
            decreases payloads@.len(),
        {
            let ghost before = payloads@;
            let payload = payloads.remove(0);
            proof {
                assert forall|j: int| 0 <= j < payloads@.len() implies payloads@[j] == all[i + 1 + j] by {
                    assert(payloads@[j] == before[j + 1]);
                }
                assert(payload == before[0]);
                assert(all.take(i + 1).drop_last() =~= all.take(i as int));
                assert(all.take(i + 1).last() == all[i as int]);
            }
            match analyzer.handle_payload(payload) {
                Err(e) => {
                    proof {
                        lemma_payloads_stop(a0, all, (i + 1) as nat);
                    }
                    return Err(e);
                },
                Ok(()) => {},
            }
            i = i + 1;
        }
        proof {
            assert(all.take(i as int) =~= all);
        }
        if !analyzer.prog_builder.has_main() {
            return Err(String::from_str("The module does not export a 'main' function"));
        }
        if !analyzer.prog_builder.table_is_ok() {
            return Err(unsupported("table element"));
        }
        Ok(analyzer.prog_builder.build())
    }

    /// Adds the imported functions, which must be `walc.input`, `walc.output` or `walc.exit`
    /// with their types.
    pub fn handle_imports(&mut self, imports: Vec<Import>) -> (r: Result<(), String>)
        requires
            old(self).wf(),
        ensures
            final(self).wf(),
            imports_run(old(self)@.prog, imports@, old(self)@.function_types).1 is None ==> final(self)@ == (AnalyzerView {
                prog: imports_run(old(self)@.prog, imports@, old(self)@.function_types).0,
                func_type_ids: old(self)@.func_type_ids + import_type_ids(imports@),
                ..old(self)@
            }),
            imports_run(old(self)@.prog, imports@, old(self)@.function_types).1 is Some ==> final(self)@ == (AnalyzerView {
                prog: imports_run(old(self)@.prog, imports@, old(self)@.function_types).0,
                ..old(self)@
            }),
            match imports_run(old(self)@.prog, imports@, old(self)@.function_types).1 {
                Some(m) => r matches Err(s) && s@ == m,
                None => r is Ok,
            },
    {
        let ghost a0 = self@;
        let mut i: usize = 0;
        while i < imports.len()
            invariant
                i <= imports@.len(),
                self.wf(),
                a0 == old(self)@,
                imports_run(a0.prog, imports@.take(i as int), a0.function_types) == (self@.prog, None::<Seq<char>>),
                self@ == (AnalyzerView { prog: self@.prog, ..a0 }),
            decreases imports@.len() - i,
        {
            let imp = &imports[i];
            proof {
                assert(imports@.take(i + 1).drop_last() =~= imports@.take(i as int));
            }
            match self.import_check(imp) {
                Some(m) => {
                    proof {
                        assert(imports@.take(i + 1).last() == imports@[i as int]);
                        assert(imports_run(a0.prog, imports@.take(i + 1), a0.function_types) == (self@.prog, Some(m@)));
                        lemma_imports_stop(a0.prog, imports@, a0.function_types, (i + 1) as nat);
                    }
                    return Err(m);
                },
                None => {
                    self.prog_builder.handle_import(imp.name.as_str());
                },
            }
            i = i + 1;
        }
        proof {
            assert(imports@.take(i as int) =~= imports@);
        }
        let ghost before = self.func_type_ids@;
        let ghost mid = self@;
        let mut j: usize = 0;
        while j < imports.len()
            invariant
                j <= imports@.len(),
                self.func_type_ids@ == before + import_type_ids(imports@.take(j as int)),
                self@ == (AnalyzerView { func_type_ids: self.func_type_ids@, ..mid }),
                self.wf(),
            decreases imports@.len() - j,
        {
            let id = match imports[j].ty {
                TypeRef::Func(id) => id,
                TypeRef::Other => 0,
            };
            self.func_type_ids.push(id);
            proof {
                assert(import_type_ids(imports@.take(j + 1)) =~= import_type_ids(imports@.take(j as int)).push(id));
            }
            j = j + 1;
        }
        proof {
            assert(imports@.take(j as int) =~= imports@);
        }
        Ok(())
    }
}

/// Once an import fails, what follows is not looked at.
proof fn lemma_imports_stop(p: ProgramView, imports: Seq<Import>, types: Seq<FuncType>, k: nat)
    requires
        k <= imports.len(),
        imports_run(p, imports.take(k as int), types).1 is Some,
    ensures
        imports_run(p, imports, types) == imports_run(p, imports.take(k as int), types),
    decreases imports.len() - k,
{
    if k < imports.len() {
        assert(imports.take((k + 1) as int).drop_last() =~= imports.take(k as int));
        lemma_imports_stop(p, imports, types, k + 1);
    } else {
        assert(imports.take(k as int) =~= imports);
    }
}

/// `unsupported module: <what>`.
fn unsupported(what: &str) -> (s: String)
    ensures
        s@ == unsupported_msg(what@),
{
    let mut s = String::from_str("unsupported module: ");
    s.append(what);
    s
}

/// Whether every type is a number type.
fn all_number_types(types: &Vec<ValType>) -> (b: bool)
    ensures
        b == all_numbers(types@),
{
    let mut i: usize = 0;
    while i < types.len()
        invariant
            i <= types@.len(),
            forall|j: int| 0 <= j < i ==> is_num_type(#[trigger] types@[j]),
        decreases types@.len() - i,
    {
        match types[i] {
            ValType::I32 | ValType::I64 | ValType::F32 | ValType::F64 => {},
            _ => {
                return false;
            },
        }
        i = i + 1;
    }
    true
}

/// Whether the operator is a constant instruction.
fn is_const(op: &Operator) -> (b: bool)
    ensures
        b == is_const_op(op),
{
    match op {
        Operator::I32Const { .. } | Operator::I64Const { .. } | Operator::F32Const { .. } | Operator::F64Const { .. } => true,
        _ => false,
    }
}

/// `Too many <what>: <count> (max is 65536)`.
fn too_many(what: &str, count: u64) -> (s: String)
    ensures
        s@ == too_many_msg(what@, count as nat),
{
    let mut s = String::from_str("Too many ");
    s.append(what);
    s.append(": ");
    write_radix(count, 10, false, &mut s);
    s.append(" (max is ");
    write_radix(MAX_COUNT as u64, 10, false, &mut s);
    s.append(")");
    s
}

/// The number of locals that the declarations declare.
fn count_locals(locals: &Vec<(u32, ValType)>) -> (n: u64)
    requires
        locals@.len() <= u32::MAX,
    ensures
        n == local_count(locals@),
{
    let mut total: u64 = 0;
    let mut i: usize = 0;
    while i < locals.len()
        invariant
            i <= locals@.len() <= u32::MAX,
            total == local_count(locals@.take(i as int)),
            total <= i * 0xffff_ffff,
        decreases locals@.len() - i,
    {
        proof {
            assert(locals@.take(i + 1).drop_last() =~= locals@.take(i as int));
            assert((i + 1) * 0xffff_ffff <= 0xffff_ffff * 0xffff_ffff) by (nonlinear_arith)
                requires
                    i + 1 <= 0xffff_ffff,
            ;
        }
        total = total + locals[i].0 as u64;
        i = i + 1;
    }
    proof {
        assert(locals@.take(i as int) =~= locals@);
    }
    total
}

/// The types of the locals that the declarations declare, in order.
fn read_local_types(locals: &Vec<(u32, ValType)>) -> (types: Vec<ValType>)
    requires
        local_count(locals@) <= MAX_COUNT,
    ensures
        types@ == local_types_of(locals@),
{
    let mut types: Vec<ValType> = Vec::new();
    let mut i: usize = 0;
    while i < locals.len()
        invariant
            i <= locals@.len(),
            local_count(locals@) <= MAX_COUNT,
            types@ == local_types_of(locals@.take(i as int)),
        decreases locals@.len() - i,
    {
        let (count, ty) = locals[i];
        proof {
            assert(locals@.take(i + 1).drop_last() =~= locals@.take(i as int));
        }
        let ghost start = types@;
        let mut k: u32 = 0;
        while k < count
            invariant
                k <= count,
                types@ == start + Seq::new(k as nat, |j: int| ty),
            decreases count - k,
        {
            types.push(ty);
            proof {
                assert(types@ =~= start + Seq::new((k + 1) as nat, |j: int| ty));
            }
            k = k + 1;
        }
        i = i + 1;
    }
    proof {
        assert(locals@.take(i as int) =~= locals@);
    }
    types
}

proof fn lemma_exports_stop(p: ProgramView, exports: Seq<Export>, types: Seq<FuncType>, ids: Seq<u32>, k: nat)
    requires
        k <= exports.len(),
        exports_run(p, exports.take(k as int), types, ids).2 is Some,
    ensures
        exports_run(p, exports, types, ids) == exports_run(p, exports.take(k as int), types, ids),
    decreases exports.len() - k,
{
    if k < exports.len() {
        assert(exports.take((k + 1) as int).drop_last() =~= exports.take(k as int));
        lemma_exports_stop(p, exports, types, ids, k + 1);
    } else {
        assert(exports.take(k as int) =~= exports);
    }
}

proof fn lemma_datas_stop(p: ProgramView, datas: Seq<Data>, k: nat)
    requires
        k <= datas.len(),
        datas_run(p, datas.take(k as int)).1 is Some,
    ensures
        datas_run(p, datas) == datas_run(p, datas.take(k as int)),
    decreases datas.len() - k,
{
    if k < datas.len() {
        assert(datas.take((k + 1) as int).drop_last() =~= datas.take(k as int));
        lemma_datas_stop(p, datas, k + 1);
    } else {
        assert(datas.take(k as int) =~= datas);
    }
}

proof fn lemma_globals_stop(p: ProgramView, inits: Seq<Operator>, k: nat)
    requires
        k <= inits.len(),
        globals_run(p, inits.take(k as int)).1 is Some,
    ensures
        globals_run(p, inits) == globals_run(p, inits.take(k as int)),
    decreases inits.len() - k,
{
    if k < inits.len() {
        assert(inits.take((k + 1) as int).drop_last() =~= inits.take(k as int));
        lemma_globals_stop(p, inits, k + 1);
    } else {
        assert(inits.take(k as int) =~= inits);
    }
}

proof fn lemma_elements_stop(p: ProgramView, elements: Seq<Element>, k: nat)
    requires
        k <= elements.len(),
        elements_run(p, elements.take(k as int)).1 is Some,
    ensures
        elements_run(p, elements) == elements_run(p, elements.take(k as int)),
    decreases elements.len() - k,
{
    if k < elements.len() {
        assert(elements.take((k + 1) as int).drop_last() =~= elements.take(k as int));
        lemma_elements_stop(p, elements, k + 1);
    } else {
        assert(elements.take(k as int) =~= elements);
    }
}

proof fn lemma_payloads_stop(a: AnalyzerView, payloads: Seq<Payload>, k: nat)
    requires
        k <= payloads.len(),
        payloads_run(a, payloads.take(k as int)).1 is Some,
    ensures
        payloads_run(a, payloads) == payloads_run(a, payloads.take(k as int)),
    decreases payloads.len() - k,
{
    if k < payloads.len() {
        assert(payloads.take((k + 1) as int).drop_last() =~= payloads.take(k as int));
        lemma_payloads_stop(a, payloads, k + 1);
    } else {
        assert(payloads.take(k as int) =~= payloads);
    }
}

} // verus!
