use walc::analyzer::{
    Analyzer, Element, ElementKind, Export, FuncType, FunctionBody, Import, Operator, Payload,
    TypeRef, ValType,
};

/// A valid module with a `main` function of type `() -> ()` whose body is empty.
const MODULE: [u8; 34] = [
    0x00, 0x61, 0x73, 0x6d, 0x01, 0x00, 0x00, 0x00, // header
    0x01, 0x04, 0x01, 0x60, 0x00, 0x00, // types
    0x03, 0x02, 0x01, 0x00, // functions
    0x07, 0x08, 0x01, 0x04, 0x6d, 0x61, 0x69, 0x6e, 0x00, 0x00, // exports
    0x0a, 0x04, 0x01, 0x02, 0x00, 0x0b, // code
];

fn module() -> Vec<u8> {
    MODULE.to_vec()
}

fn unit_type() -> FuncType {
    FuncType::new(vec![], vec![])
}

fn main_export() -> Payload {
    Payload::ExportSection(vec![Export { name: "main".to_string(), index: 0 }])
}

fn main_body() -> Payload {
    Payload::CodeSectionEntry(FunctionBody { locals: vec![], operators: vec![Operator::End] })
}

fn compile(payloads: Vec<Payload>) -> Result<String, String> {
    Analyzer::new().compile(&module(), payloads).map(|e| e.to_text())
}

#[test]
fn compiles_a_module_with_main() {
    let payloads = vec![
        Payload::TypeSection(vec![unit_type()]),
        Payload::FunctionSection(vec![0]),
        main_export(),
        main_body(),
    ];
    let text = compile(payloads).unwrap();
    assert!(text.contains("[Func0"));
    assert!(text.contains("Call"));
}

#[test]
fn invalid_bytes_are_refused() {
    let r = Analyzer::new().compile(&[0, 1, 2], vec![]);
    match r {
        Err(message) => assert!(message.starts_with("validation failed")),
        Ok(_) => panic!("invalid bytes were compiled"),
    }
}

#[test]
fn module_without_main_is_refused() {
    let payloads = vec![Payload::TypeSection(vec![unit_type()]), Payload::FunctionSection(vec![0]), main_body()];
    assert_eq!(compile(payloads).unwrap_err(), "The module does not export a 'main' function");
    let payloads = vec![
        Payload::TypeSection(vec![unit_type()]),
        Payload::ExportSection(vec![Export { name: "start".to_string(), index: 0 }]),
    ];
    assert_eq!(compile(payloads).unwrap_err(), "The module does not export a 'main' function");
}

#[test]
fn main_must_take_and_return_nothing() {
    let payloads = vec![
        Payload::TypeSection(vec![FuncType::new(vec![ValType::I32], vec![])]),
        Payload::FunctionSection(vec![0]),
        main_export(),
    ];
    assert_eq!(compile(payloads).unwrap_err(), "'main' must have type () -> ()");
}

fn import(module: &str, name: &str) -> Payload {
    Payload::ImportSection(vec![Import { module: module.to_string(), name: name.to_string(), ty: TypeRef::Func(0) }])
}

#[test]
fn imports_come_from_walc() {
    let payloads = vec![Payload::TypeSection(vec![unit_type()]), import("env", "exit")];
    assert_eq!(compile(payloads).unwrap_err(), "Unknown import module: 'env', only 'walc' is supported");
}

#[test]
fn only_three_imports_exist() {
    let payloads = vec![Payload::TypeSection(vec![unit_type()]), import("walc", "print")];
    assert_eq!(
        compile(payloads).unwrap_err(),
        "Unknown import: 'print' (only 'input', 'output', and 'exit' are supported)"
    );
}

#[test]
fn imports_have_fixed_types() {
    let payloads = vec![Payload::TypeSection(vec![unit_type()]), import("walc", "input")];
    assert_eq!(compile(payloads).unwrap_err(), "'walc.input' must have type () -> (i32)");
    let payloads = vec![Payload::TypeSection(vec![unit_type()]), import("walc", "output")];
    assert_eq!(compile(payloads).unwrap_err(), "'walc.output' must have type (i32) -> ()");
    let payloads = vec![Payload::TypeSection(vec![FuncType::new(vec![ValType::I32], vec![])]), import("walc", "exit")];
    assert_eq!(compile(payloads).unwrap_err(), "'walc.exit' must have type () -> ()");
}

#[test]
fn only_function_imports_are_supported() {
    let payloads = vec![Payload::ImportSection(vec![Import {
        module: "walc".to_string(),
        name: "exit".to_string(),
        ty: TypeRef::Other,
    }])];
    assert_eq!(compile(payloads).unwrap_err(), "Only function imports are supported");
}

#[test]
fn a_valid_import_is_accepted() {
    let payloads = vec![
        Payload::TypeSection(vec![unit_type(), FuncType::new(vec![], vec![ValType::I32])]),
        Payload::ImportSection(vec![Import { module: "walc".to_string(), name: "input".to_string(), ty: TypeRef::Func(1) }]),
        Payload::FunctionSection(vec![0]),
        // `main` follows the imported function; its type is the one the function section
        // gives it
        Payload::ExportSection(vec![Export { name: "main".to_string(), index: 1 }]),
        main_body(),
    ];
    let text = compile(payloads).unwrap();
    assert!(text.contains("Input"));
}

#[test]
fn main_type_comes_from_the_function_section() {
    let payloads = vec![
        Payload::TypeSection(vec![unit_type(), FuncType::new(vec![ValType::I32], vec![])]),
        Payload::FunctionSection(vec![0]),
        main_export(),
        main_body(),
    ];
    assert!(compile(payloads).is_ok());
    let payloads = vec![
        Payload::TypeSection(vec![unit_type(), FuncType::new(vec![ValType::I32], vec![])]),
        Payload::FunctionSection(vec![1]),
        main_export(),
    ];
    assert_eq!(compile(payloads).unwrap_err(), "'main' must have type () -> ()");
}

#[test]
fn memory_size_starts_as_the_memory_section_says() {
    let payloads = vec![
        Payload::TypeSection(vec![unit_type()]),
        Payload::FunctionSection(vec![0]),
        Payload::MemorySection(vec![3]),
        main_export(),
        main_body(),
    ];
    assert!(compile(payloads).unwrap().contains("(InitMemSize 3i)"));
    let payloads = vec![
        Payload::TypeSection(vec![unit_type()]),
        Payload::FunctionSection(vec![0]),
        main_export(),
        main_body(),
    ];
    assert!(compile(payloads).unwrap().contains("(InitMemSize 0i)"));
}

#[test]
fn table_entries_must_be_functions_of_the_module() {
    let payloads = vec![
        Payload::TypeSection(vec![unit_type()]),
        Payload::FunctionSection(vec![0]),
        Payload::TableSection(vec![2]),
        main_export(),
        Payload::ElementSection(vec![Element {
            kind: ElementKind::Active { offset: Operator::I32Const { value: 0 } },
            functions: Some(vec![0, 5]),
        }]),
        main_body(),
    ];
    assert_eq!(compile(payloads).unwrap_err(), "unsupported module: table element");
}

#[test]
fn a_body_must_close_its_blocks() {
    let payloads = vec![
        Payload::TypeSection(vec![unit_type()]),
        Payload::FunctionSection(vec![0]),
        main_export(),
        Payload::CodeSectionEntry(FunctionBody { locals: vec![], operators: vec![Operator::Nop] }),
    ];
    assert_eq!(compile(payloads).unwrap_err(), "unsupported module: instruction");
}

#[test]
fn too_many_functions() {
    let payloads = vec![Payload::FunctionSection(vec![0; 65537])];
    assert_eq!(compile(payloads).unwrap_err(), "Too many functions: 65537 (max is 65536)");
}

#[test]
fn too_many_globals() {
    let inits = (0..65537).map(|_| Operator::I32Const { value: 0 }).collect();
    let payloads = vec![Payload::GlobalSection(inits)];
    assert_eq!(compile(payloads).unwrap_err(), "Too many globals: 65537 (max is 65536)");
}

#[test]
fn too_many_locals() {
    let payloads = vec![
        Payload::TypeSection(vec![unit_type()]),
        Payload::FunctionSection(vec![0]),
        Payload::CodeSectionEntry(FunctionBody {
            locals: vec![(40000, ValType::I32), (30000, ValType::I64)],
            operators: vec![Operator::End],
        }),
    ];
    assert_eq!(compile(payloads).unwrap_err(), "Too many locals in a function: 70000 (max is 65536)");
}

#[test]
fn unsupported_instruction_is_an_error() {
    let payloads = vec![
        Payload::TypeSection(vec![unit_type()]),
        Payload::FunctionSection(vec![0]),
        main_export(),
        Payload::CodeSectionEntry(FunctionBody {
            locals: vec![],
            operators: vec![Operator::Unsupported, Operator::End],
        }),
    ];
    assert_eq!(compile(payloads).unwrap_err(), "unsupported module: instruction");
}

/// The free variables of a term in the WALC text format that are not in `bound`.
fn free_names(text: &[u8], pos: &mut usize, bound: &mut Vec<String>, free: &mut Vec<String>) {
    let name_end = |text: &[u8], mut i: usize| {
        while i < text.len() && !matches!(text[i], b' ' | b'[' | b']' | b'(' | b')') {
            i += 1;
        }
        i
    };
    match text[*pos] {
        b'[' => {
            let end = name_end(text, *pos + 1);
            let v = String::from_utf8(text[*pos + 1..end].to_vec()).unwrap();
            *pos = end;
            if text[*pos] == b' ' {
                *pos += 1;
            }
            bound.push(v);
            free_names(text, pos, bound, free);
            bound.pop();
            assert_eq!(text[*pos], b']');
            *pos += 1;
        }
        b'(' => {
            *pos += 1;
            free_names(text, pos, bound, free);
            if text[*pos] == b' ' {
                *pos += 1;
            }
            free_names(text, pos, bound, free);
            assert_eq!(text[*pos], b')');
            *pos += 1;
        }
        _ => {
            let end = name_end(text, *pos);
            let v = String::from_utf8(text[*pos..end].to_vec()).unwrap();
            *pos = end;
            if !bound.contains(&v) {
                free.push(v);
            }
        }
    }
}

#[test]
fn compiled_program_is_closed() {
    let body = vec![
        Operator::I32Const { value: 7 },
        Operator::I32Const { value: 5 },
        Operator::I32Sub,
        Operator::If { blockty: walc::analyzer::BlockType::Empty },
        Operator::I64Const { value: -2 },
        Operator::I64Const { value: 3 },
        Operator::I64ShrS,
        Operator::Drop,
        Operator::End,
        Operator::Block { blockty: walc::analyzer::BlockType::Empty },
        Operator::I32Const { value: 1 },
        Operator::I32Eqz,
        Operator::Drop,
        Operator::End,
        Operator::I32Const { value: 16 },
        Operator::I32Const { value: 255 },
        Operator::I32Const { value: 4 },
        Operator::MemoryFill { mem: 0 },
        Operator::I32Const { value: 18 },
        Operator::I32Const { value: 16 },
        Operator::I32Const { value: 4 },
        Operator::MemoryCopy { dst_mem: 0, src_mem: 0 },
        Operator::I32Const { value: 6 },
        Operator::I32Const { value: 7 },
        Operator::I32Mul,
        Operator::I32Popcnt,
        Operator::I64Const { value: 6 },
        Operator::I64Clz,
        Operator::I64Ctz,
        Operator::Drop,
        Operator::Drop,
        Operator::I32Const { value: 7 },
        Operator::I32Const { value: 2 },
        Operator::I32DivS,
        Operator::I32Const { value: 3 },
        Operator::I32DivU,
        Operator::Drop,
        Operator::I64Const { value: 7 },
        Operator::I64Const { value: 2 },
        Operator::I64DivU,
        Operator::Drop,
        Operator::I32Const { value: -7 },
        Operator::I32Const { value: 2 },
        Operator::I32RemS,
        Operator::I32Const { value: 3 },
        Operator::I32RemU,
        Operator::Drop,
        Operator::I64Const { value: 9 },
        Operator::I64Const { value: 4 },
        Operator::I64RemS,
        Operator::I64Const { value: 4 },
        Operator::I64RemU,
        Operator::Drop,
        Operator::Block { blockty: walc::analyzer::BlockType::Empty },
        Operator::Loop { blockty: walc::analyzer::BlockType::Empty },
        Operator::I32Const { value: 0 },
        Operator::BrIf { relative_depth: 1 },
        Operator::I32Const { value: 1 },
        Operator::BrTable { targets: vec![0, 1], default: 2 },
        Operator::Br { relative_depth: 0 },
        Operator::End,
        Operator::End,
        Operator::I32Const { value: 1 },
        Operator::If { blockty: walc::analyzer::BlockType::Empty },
        Operator::Nop,
        Operator::Else,
        Operator::Return,
        Operator::End,
        Operator::MemorySize { mem: 0 },
        Operator::I32Const { value: 1 },
        Operator::MemoryGrow { mem: 0 },
        Operator::Drop,
        Operator::Drop,
        Operator::F32Add,
        Operator::End,
    ];
    let payloads = vec![
        Payload::TypeSection(vec![unit_type()]),
        Payload::FunctionSection(vec![0]),
        Payload::MemorySection(vec![2]),
        main_export(),
        Payload::CodeSectionEntry(FunctionBody { locals: vec![], operators: body }),
    ];
    let text = compile(payloads).unwrap();
    let mut pos = 0;
    let mut free = Vec::new();
    free_names(text.as_bytes(), &mut pos, &mut Vec::new(), &mut free);
    assert_eq!(pos, text.len());
    assert!(free.is_empty(), "free names: {:?}", free);
}
