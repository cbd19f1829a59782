use wasm_link::errors::{CodecError, PipelineError};
use wasm_link::module::{Export, ExternKind, Func, FuncType, Import, ImportDesc, Instr, Module};
use wasm_link::parse::parse;
use wasm_link::pipeline::transform;
use wasm_link::serial::serialize;

fn empty_module() -> Module {
    Module {
        types: Vec::new(),
        imports: Vec::new(),
        funcs: Vec::new(),
        tables: None,
        memory: None,
        globals: Vec::new(),
        exports: Vec::new(),
        elements: Vec::new(),
        datas: Vec::new(),
        customs: Vec::new(),
        start: None,
    }
}

fn three_funcs_module() -> Module {
    let mut m = empty_module();
    m.types.push(FuncType { params: 0, results: 0 });
    m.funcs.push(Func { type_idx: 0, body: vec![Instr::Call(1)] });
    m.funcs.push(Func { type_idx: 0, body: vec![Instr::Nop] });
    m.funcs.push(Func { type_idx: 0, body: vec![Instr::Nop] });
    m.exports.push(Export { name: b"main".to_vec(), kind: ExternKind::Func, index: 0 });
    m
}

#[test]
fn codec_round_trip() {
    let m = three_funcs_module();
    let bytes = serialize(&m);
    let back = parse(&bytes).expect("well-formed module must re-parse");
    assert_eq!(back, m);
}

#[test]
fn parse_rejects_truncation() {
    let m = three_funcs_module();
    let mut bytes = serialize(&m);
    bytes.truncate(bytes.len() - 1);
    assert_eq!(parse(&bytes), Err(CodecError::TruncatedBody));
}

#[test]
fn parse_rejects_bad_magic() {
    let m = three_funcs_module();
    let mut bytes = serialize(&m);
    bytes[0] = 0xff;
    assert_eq!(parse(&bytes), Err(CodecError::MalformedHeader));
}

#[test]
fn parse_rejects_bad_version() {
    let m = three_funcs_module();
    let mut bytes = serialize(&m);
    bytes[4] = 9;
    assert_eq!(parse(&bytes), Err(CodecError::UnsupportedVersion));
}

#[test]
fn parse_rejects_bad_index() {
    let mut m = three_funcs_module();
    m.funcs[0].body = vec![Instr::Call(99)];
    let bytes = serialize(&m);
    assert_eq!(parse(&bytes), Err(CodecError::BadIndex));
}

#[test]
fn parse_rejects_trailing_garbage() {
    let m = three_funcs_module();
    let mut bytes = serialize(&m);
    bytes.push(0);
    assert_eq!(parse(&bytes), Err(CodecError::MalformedHeader));
}

#[test]
fn dead_function_is_removed() {
    let bytes = serialize(&three_funcs_module());
    let out = transform(&bytes, None).expect("transform succeeds");
    let m2 = parse(&out.module).expect("output re-parses");
    assert_eq!(m2.funcs.len(), 2);
    assert_eq!(m2.exports.len(), 1);
    assert_eq!(m2.exports[0].name, b"main".to_vec());
    assert_eq!(m2.exports[0].index, 0);
    for f in &m2.funcs {
        for i in &f.body {
            assert_ne!(*i, Instr::Call(2));
        }
    }
    assert_eq!(m2.funcs[0].body, vec![Instr::Call(1)]);
    assert_eq!(m2.funcs[1].body, vec![Instr::Nop]);
}

#[test]
fn single_function_export_becomes_entry() {
    let mut m = three_funcs_module();
    m.exports[0].name = b"whatever".to_vec();
    let bytes = serialize(&m);
    let out = transform(&bytes, None).expect("transform succeeds");
    let m2 = parse(&out.module).expect("output re-parses");
    assert_eq!(m2.exports.len(), 1);
    assert_eq!(m2.exports[0].name, b"main".to_vec());
    assert_eq!(m2.exports[0].kind, ExternKind::Func);
    assert_eq!(m2.exports[0].index, 0);
}

#[test]
fn missing_entry_point_is_reported() {
    let mut m = empty_module();
    m.types.push(FuncType { params: 0, results: 0 });
    let bytes = serialize(&m);
    match transform(&bytes, None) {
        Err(PipelineError::MissingEntryPoint { requested, candidates }) => {
            assert_eq!(requested, None);
            assert!(candidates.is_empty());
        }
        other => panic!("expected MissingEntryPoint, got {:?}", other.is_ok()),
    }
}

#[test]
fn snippet_import_is_lifted_into_glue() {
    let mut m = empty_module();
    m.types.push(FuncType { params: 0, results: 0 });
    m.types.push(FuncType { params: 2, results: 1 });
    m.imports.push(Import {
        module: b"env".to_vec(),
        field: b"my_snippet".to_vec(),
        desc: ImportDesc::Func { type_idx: 1, snippet: Some(b"return a+b;".to_vec()) },
    });
    m.funcs.push(Func { type_idx: 0, body: vec![Instr::Call(0)] });
    m.exports.push(Export { name: b"main".to_vec(), kind: ExternKind::Func, index: 1 });
    let bytes = serialize(&m);
    let out = transform(&bytes, None).expect("transform succeeds");
    let m2 = parse(&out.module).expect("output re-parses");
    assert_eq!(m2.imports.len(), 1);
    assert_eq!(m2.imports[0].module, b"glue".to_vec());
    assert_eq!(m2.imports[0].field, b"env_my_snippet".to_vec());
    match &m2.imports[0].desc {
        ImportDesc::Func { snippet, .. } => assert_eq!(*snippet, None),
        _ => panic!("import must stay a function import"),
    }
    let expected = b"export function env_my_snippet(a0,a1){return a+b;}\n".to_vec();
    assert_eq!(out.glue, expected);
}

#[test]
fn pipeline_is_idempotent_on_its_output() {
    let bytes = serialize(&three_funcs_module());
    let out1 = transform(&bytes, None).expect("first run succeeds");
    let out2 = transform(&out1.module, None).expect("second run succeeds");
    assert_eq!(out1.module, out2.module);
    assert_eq!(out1.glue, out2.glue);
}

#[test]
fn custom_sections_are_preserved() {
    let mut m = three_funcs_module();
    m.customs.push(wasm_link::module::Custom {
        name: b"debug".to_vec(),
        bytes: vec![1, 2, 3],
    });
    let bytes = serialize(&m);
    let out = transform(&bytes, None).expect("transform succeeds");
    let m2 = parse(&out.module).expect("output re-parses");
    assert_eq!(m2.customs.len(), 1);
    assert_eq!(m2.customs[0].name, b"debug".to_vec());
    assert_eq!(m2.customs[0].bytes, vec![1, 2, 3]);
}

#[test]
fn summary_reports_sizes() {
    let bytes = serialize(&three_funcs_module());
    let out = transform(&bytes, None).expect("transform succeeds");
    assert_eq!(out.summary.size_before, bytes.len());
    assert_eq!(out.summary.size_after, out.module.len());
    assert_eq!(out.summary.exports_after, 1);
    assert_eq!(out.summary.retained_exports, vec![b"main".to_vec()]);
}

#[test]
fn demangled_symbol_is_readable() {
    let name = b"_ZN4core9panicking5panic17h123456789abcdefE".to_vec();
    let shown = wasm_link::symbols::display_symbol(&name);
    assert!(shown.contains("core") && shown.contains("panicking"));
}

#[test]
fn grow_site_is_redirected_through_trampoline() {
    let mut m = empty_module();
    m.types.push(FuncType { params: 0, results: 0 });
    m.memory = Some(wasm_link::module::MemoryDesc { min: 1, max: 4 });
    m.funcs.push(Func {
        type_idx: 0,
        body: vec![Instr::Const(1), Instr::MemoryGrow, Instr::Nop],
    });
    m.exports.push(Export { name: b"main".to_vec(), kind: ExternKind::Func, index: 0 });
    let bytes = serialize(&m);
    let out = transform(&bytes, None).expect("transform succeeds");
    let m2 = parse(&out.module).expect("output re-parses");
    // One hook import and one trampoline were added; the grow site now calls
    // the trampoline, which performs the grow and calls the hook.
    assert_eq!(m2.imports.len(), 1);
    assert_eq!(m2.imports[0].module, b"glue".to_vec());
    assert_eq!(m2.imports[0].field, b"on_grow".to_vec());
    assert_eq!(m2.funcs.len(), 2);
    // The original function: imports shifted it to combined index 1; the
    // trampoline is combined index 2.
    assert_eq!(m2.funcs[0].body, vec![Instr::Const(1), Instr::Call(2), Instr::Nop]);
    assert_eq!(
        m2.funcs[1].body,
        vec![Instr::LocalGet(0), Instr::MemoryGrow, Instr::Call(0)]
    );
    // Exactly one grow operation remains, inside the trampoline.
    let grows: usize = m2
        .funcs
        .iter()
        .map(|f| f.body.iter().filter(|i| **i == Instr::MemoryGrow).count())
        .sum();
    assert_eq!(grows, 1);
}

#[test]
fn known_intrinsic_is_injected_via_glue() {
    let mut m = empty_module();
    m.types.push(FuncType { params: 0, results: 0 });
    m.types.push(FuncType { params: 1, results: 1 });
    m.imports.push(Import {
        module: b"env".to_vec(),
        field: b"__intrinsic_alloc".to_vec(),
        desc: ImportDesc::Func { type_idx: 1, snippet: None },
    });
    m.funcs.push(Func { type_idx: 0, body: vec![Instr::Call(0)] });
    m.exports.push(Export { name: b"main".to_vec(), kind: ExternKind::Func, index: 1 });
    let bytes = serialize(&m);
    let out = transform(&bytes, None).expect("transform succeeds");
    let m2 = parse(&out.module).expect("output re-parses");
    assert_eq!(m2.imports.len(), 1);
    assert_eq!(m2.imports[0].module, b"glue".to_vec());
    assert_eq!(m2.imports[0].field, b"__intrinsic_alloc".to_vec());
    let expected = b"export function env___intrinsic_alloc(a0){return 0;}\n".to_vec();
    assert_eq!(out.glue, expected);
}

#[test]
fn unknown_intrinsic_is_fatal() {
    let mut m = empty_module();
    m.types.push(FuncType { params: 0, results: 0 });
    m.imports.push(Import {
        module: b"env".to_vec(),
        field: b"__intrinsic_mystery".to_vec(),
        desc: ImportDesc::Func { type_idx: 0, snippet: None },
    });
    m.funcs.push(Func { type_idx: 0, body: vec![Instr::Call(0)] });
    m.exports.push(Export { name: b"main".to_vec(), kind: ExternKind::Func, index: 1 });
    let bytes = serialize(&m);
    match transform(&bytes, None) {
        Err(PipelineError::UnresolvedIntrinsic { name }) => {
            assert_eq!(name, b"__intrinsic_mystery".to_vec());
        }
        other => panic!("expected UnresolvedIntrinsic, got ok={}", other.is_ok()),
    }
}

#[test]
fn requested_entry_symbol_is_honored() {
    let mut m = three_funcs_module();
    m.exports[0].name = b"alpha".to_vec();
    m.exports.push(Export { name: b"beta".to_vec(), kind: ExternKind::Func, index: 1 });
    let bytes = serialize(&m);
    let want = b"beta".to_vec();
    let out = transform(&bytes, Some(&want)).expect("transform succeeds");
    let m2 = parse(&out.module).expect("output re-parses");
    let entry: Vec<_> = m2.exports.iter().filter(|e| e.name == b"main".to_vec()).collect();
    assert_eq!(entry.len(), 1);
    assert_eq!(entry[0].kind, ExternKind::Func);
    assert_eq!(entry[0].index, 1);
}
