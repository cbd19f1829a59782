//! Deep copies of the model's vectors, with exact contracts. The model's
//! types own byte vectors, so these stand in for structural clone in
//! verified code.

use vstd::prelude::*;

use crate::module::{Custom, Data, Element, Export, Func, FuncType, Global, Import, ImportDesc};

verus! {

pub fn copy_bytes(v: &Vec<u8>) -> (out: Vec<u8>)
    ensures
        out@ == v@,
{
    vstd::slice::slice_to_vec(v.as_slice())
}

pub fn copy_types(v: &Vec<FuncType>) -> (out: Vec<FuncType>)
    ensures
        out@ == v@,
{
    vstd::slice::slice_to_vec(v.as_slice())
}

pub fn copy_globals(v: &Vec<Global>) -> (out: Vec<Global>)
    ensures
        out@ == v@,
{
    vstd::slice::slice_to_vec(v.as_slice())
}

#[verifier::loop_isolation(false)]
pub fn copy_instrs(v: &Vec<crate::module::Instr>) -> (out: Vec<crate::module::Instr>)
    ensures
        out@ == v@,
{
    vstd::slice::slice_to_vec(v.as_slice())
}

#[verifier::loop_isolation(false)]
pub fn copy_import(v: &Import) -> (out: Import)
    ensures
        out@ == v@,
{
    let desc = match &v.desc {
        ImportDesc::Func { type_idx, snippet } => ImportDesc::Func {
            type_idx: *type_idx,
            snippet: match snippet {
                Some(b) => Some(copy_bytes(b)),
                None => None,
            },
        },
        ImportDesc::Table => ImportDesc::Table,
        ImportDesc::Memory => ImportDesc::Memory,
        ImportDesc::Global => ImportDesc::Global,
    };
    Import { module: copy_bytes(&v.module), field: copy_bytes(&v.field), desc }
}

#[verifier::loop_isolation(false)]
pub fn copy_imports(v: &Vec<Import>) -> (out: Vec<Import>)
    ensures
        out@.len() == v@.len(),
        forall|i: int| 0 <= i < v@.len() ==> (#[trigger] out@[i])@ == v@[i]@,
{
    let mut out: Vec<Import> = Vec::new();
    let n = v.len();
    for i in 0..n
        invariant
            out@.len() == i,
            forall|k: int| 0 <= k < i ==> (#[trigger] out@[k])@ == v@[k]@,
        decreases n - i,
    {
        out.push(copy_import(&v[i]));
    }
    out
}

#[verifier::loop_isolation(false)]
pub fn copy_funcs(v: &Vec<Func>) -> (out: Vec<Func>)
    ensures
        out@.len() == v@.len(),
        forall|i: int| 0 <= i < v@.len() ==> (#[trigger] out@[i])@ == v@[i]@,
{
    let mut out: Vec<Func> = Vec::new();
    let n = v.len();
    for i in 0..n
        invariant
            out@.len() == i,
            forall|k: int| 0 <= k < i ==> (#[trigger] out@[k])@ == v@[k]@,
        decreases n - i,
    {
        out.push(Func { type_idx: v[i].type_idx, body: copy_instrs(&v[i].body) });
    }
    out
}

#[verifier::loop_isolation(false)]
pub fn copy_exports(v: &Vec<Export>) -> (out: Vec<Export>)
    ensures
        out@.len() == v@.len(),
        forall|i: int| 0 <= i < v@.len() ==> (#[trigger] out@[i])@ == v@[i]@,
{
    let mut out: Vec<Export> = Vec::new();
    let n = v.len();
    for i in 0..n
        invariant
            out@.len() == i,
            forall|k: int| 0 <= k < i ==> (#[trigger] out@[k])@ == v@[k]@,
        decreases n - i,
    {
        out.push(Export { name: copy_bytes(&v[i].name), kind: v[i].kind, index: v[i].index });
    }
    out
}

#[verifier::loop_isolation(false)]
pub fn copy_elements(v: &Vec<Element>) -> (out: Vec<Element>)
    ensures
        out@.len() == v@.len(),
        forall|i: int| 0 <= i < v@.len() ==> (#[trigger] out@[i])@ == v@[i]@,
{
    let mut out: Vec<Element> = Vec::new();
    let n = v.len();
    for i in 0..n
        invariant
            out@.len() == i,
            forall|k: int| 0 <= k < i ==> (#[trigger] out@[k])@ == v@[k]@,
        decreases n - i,
    {
        out.push(
            Element {
                offset: v[i].offset,
                entries: vstd::slice::slice_to_vec(v[i].entries.as_slice()),
            },
        );
    }
    out
}

#[verifier::loop_isolation(false)]
pub fn copy_datas(v: &Vec<Data>) -> (out: Vec<Data>)
    ensures
        out@.len() == v@.len(),
        forall|i: int| 0 <= i < v@.len() ==> (#[trigger] out@[i])@ == v@[i]@,
{
    let mut out: Vec<Data> = Vec::new();
    let n = v.len();
    for i in 0..n
        invariant
            out@.len() == i,
            forall|k: int| 0 <= k < i ==> (#[trigger] out@[k])@ == v@[k]@,
        decreases n - i,
    {
        out.push(Data { offset: v[i].offset, bytes: copy_bytes(&v[i].bytes) });
    }
    out
}

#[verifier::loop_isolation(false)]
pub fn copy_customs(v: &Vec<Custom>) -> (out: Vec<Custom>)
    ensures
        out@.len() == v@.len(),
        forall|i: int| 0 <= i < v@.len() ==> (#[trigger] out@[i])@ == v@[i]@,
{
    let mut out: Vec<Custom> = Vec::new();
    let n = v.len();
    for i in 0..n
        invariant
            out@.len() == i,
            forall|k: int| 0 <= k < i ==> (#[trigger] out@[k])@ == v@[k]@,
        decreases n - i,
    {
        out.push(Custom { name: copy_bytes(&v[i].name), bytes: copy_bytes(&v[i].bytes) });
    }
    out
}

/// A deep copy of a whole module, equal under the view.
pub fn copy_module(md: &crate::module::Module) -> (out: crate::module::Module)
    ensures
        out@ == md@,
{
    let out = crate::module::Module {
        types: copy_types(&md.types),
        imports: copy_imports(&md.imports),
        funcs: copy_funcs(&md.funcs),
        tables: md.tables,
        memory: md.memory,
        globals: copy_globals(&md.globals),
        exports: copy_exports(&md.exports),
        elements: copy_elements(&md.elements),
        datas: copy_datas(&md.datas),
        customs: copy_customs(&md.customs),
        start: md.start,
    };
    proof {
        assert(out@.types =~= md@.types);
        assert(out@.imports =~= md@.imports);
        assert(out@.funcs =~= md@.funcs);
        assert(out@.globals =~= md@.globals);
        assert(out@.exports =~= md@.exports);
        assert(out@.elements =~= md@.elements);
        assert(out@.datas =~= md@.datas);
        assert(out@.customs =~= md@.customs);
        assert(out@ =~= md@);
    }
    out
}

} // verus!
