//! The rewriting passes that run between parsing and serialization: export
//! normalization, inline-snippet extraction, memory-growth interception, and
//! intrinsics injection.

use vstd::prelude::*;

use crate::errors::PipelineError;
use crate::glue::{glue_name, glue_name_spec, GlueFragment, SpecFragment};
use crate::module::{
    ExternKind, FuncType, Import, ImportDesc, Instr, Module, SpecImport, SpecImportDesc,
    SpecModule,
};

verus! {

/// The stable entry-point export name, `main`.
pub open spec fn entry_name() -> Seq<u8> {
    seq![0x6du8, 0x61u8, 0x69u8, 0x6eu8]
}

/// The namespace that generated glue satisfies imports from, `glue`.
pub open spec fn glue_ns() -> Seq<u8> {
    seq![0x67u8, 0x6cu8, 0x75u8, 0x65u8]
}

/// The host namespace scanned for intrinsics, `env`.
pub open spec fn env_ns() -> Seq<u8> {
    seq![0x65u8, 0x6eu8, 0x76u8]
}

fn entry_name_vec() -> (r: Vec<u8>)
    ensures
        r@ == entry_name(),
{
    let mut v: Vec<u8> = Vec::new();
    v.push(0x6d);
    v.push(0x61);
    v.push(0x69);
    v.push(0x6e);
    proof {
        assert(v@ =~= entry_name());
    }
    v
}

fn glue_ns_vec() -> (r: Vec<u8>)
    ensures
        r@ == glue_ns(),
{
    let mut v: Vec<u8> = Vec::new();
    v.push(0x67);
    v.push(0x6c);
    v.push(0x75);
    v.push(0x65);
    proof {
        assert(v@ =~= glue_ns());
    }
    v
}

pub fn bytes_eq(a: &Vec<u8>, b: &Vec<u8>) -> (r: bool)
    ensures
        r == (a@ == b@),
{
    if a.len() != b.len() {
        return false;
    }
    let n = a.len();
    for i in 0..n
        invariant
            n == a@.len(),
            n == b@.len(),
            forall|k: int| 0 <= k < i ==> a@[k] == b@[k],
        decreases n - i,
    {
        if a[i] != b[i] {
            return false;
        }
    }
    proof {
        assert(a@ =~= b@);
    }
    true
}

fn name_is(v: &Vec<u8>, b0: u8, b1: u8, b2: u8, b3: u8) -> (r: bool)
    ensures
        r == (v@ == seq![b0, b1, b2, b3]),
{
    if v.len() == 4 && v[0] == b0 && v[1] == b1 && v[2] == b2 && v[3] == b3 {
        proof {
            assert(v@ =~= seq![b0, b1, b2, b3]);
        }
        true
    } else {
        proof {
            if v@.len() == 4 {
                assert(v@ != seq![b0, b1, b2, b3]) by {
                    if v@ == seq![b0, b1, b2, b3] {
                        assert(v@[0] == b0 && v@[1] == b1 && v@[2] == b2 && v@[3] == b3);
                    }
                }
            }
        }
        false
    }
}

/// There is exactly one function export, and it stands at position `c`.
pub open spec fn unique_func_export(m: SpecModule, c: int) -> bool {
    &&& 0 <= c < m.exports.len()
    &&& m.exports[c].kind == ExternKind::Func
    &&& forall|j: int| 0 <= j < m.exports.len() && (#[trigger] m.exports[j]).kind
        == ExternKind::Func ==> j == c
}

/// After normalization: exactly one export carries the entry name, and it
/// targets a function.
pub open spec fn entry_normalized(m: SpecModule) -> bool {
    &&& exists|k: int| 0 <= k < m.exports.len() && (#[trigger] m.exports[k]).name
        == entry_name() && m.exports[k].kind == ExternKind::Func
    &&& forall|i: int, j: int| 0 <= i < m.exports.len() && 0 <= j < m.exports.len() && (
    #[trigger] m.exports[i]).name == entry_name() && (#[trigger] m.exports[j]).name
        == entry_name() ==> i == j
    &&& forall|k: int| 0 <= k < m.exports.len() && (#[trigger] m.exports[k]).name
        == entry_name() ==> m.exports[k].kind == ExternKind::Func
}

/// Normalize the export surface: resolve the entry point — the requested
/// symbol, else the only function export, else a function export already
/// named `main` — and re-export it under the stable entry name, dropping any
/// other export that carried that name. Everything else is preserved.
#[verifier::loop_isolation(false)]
#[verifier::rlimit(60)]
pub fn normalize_exports(md: &Module, requested: Option<&Vec<u8>>) -> (r: Result<
    Module,
    PipelineError,
>)
    requires
        md@.wf(),
    ensures
        r matches Ok(out) ==> {
            &&& out@.wf()
            &&& out@.types == md@.types
            &&& out@.imports == md@.imports
            &&& out@.funcs == md@.funcs
            &&& out@.globals == md@.globals
            &&& out@.elements == md@.elements
            &&& out@.datas == md@.datas
            &&& out@.customs == md@.customs
            &&& out@.start == md@.start
            &&& out@.memory == md@.memory
            &&& out@.tables == md@.tables
            &&& entry_normalized(out@)
            &&& forall|c: int| requested is None && unique_func_export(md@, c)
                ==> out@.exports[0].index == md@.exports[c].index
            &&& exists|c: int| 0 <= c < md@.exports.len() && (#[trigger] md@.exports[c]).kind
                == ExternKind::Func && out@.exports[0].index == md@.exports[c].index
            &&& (requested matches Some(w) ==> exists|c: int| 0 <= c < md@.exports.len() && (
            #[trigger] md@.exports[c]).kind == ExternKind::Func && md@.exports[c].name == w@
                && out@.exports[0].index == md@.exports[c].index)
        },
        requested is None ==> forall|c: int| unique_func_export(md@, c) ==> r is Ok,
        (requested matches Some(w) && exists|i: int| 0 <= i < md@.exports.len() && (
        #[trigger] md@.exports[i]).kind == ExternKind::Func && md@.exports[i].name == w@)
            ==> r is Ok,
        (requested is None && exists|i: int| 0 <= i < md@.exports.len() && (
        #[trigger] md@.exports[i]).kind == ExternKind::Func && md@.exports[i].name
            == entry_name()) ==> r is Ok,
        r is Err ==> (r matches Err(PipelineError::MissingEntryPoint { .. })),
        r is Err ==> (requested matches Some(w) ==> forall|i: int| 0 <= i
            < md@.exports.len() ==> !((#[trigger] md@.exports[i]).kind == ExternKind::Func
            && md@.exports[i].name == w@)),
        r is Err && requested is None ==> (forall|c: int| !unique_func_export(md@, c))
            && (forall|i: int| 0 <= i < md@.exports.len() ==> !((
        #[trigger] md@.exports[i]).kind == ExternKind::Func && md@.exports[i].name
            == entry_name())),
{
    let mut candidate: Option<usize> = None;
    let mut func_count: usize = 0;
    let mut first_func: usize = 0;
    let ne = md.exports.len();
    match requested {
        Some(want) => {
            for i in 0..ne
                invariant
                    ne == md@.exports.len(),
                    candidate matches Some(c) ==> c < ne && md@.exports[c as int].kind
                        == ExternKind::Func && md@.exports[c as int].name == want@,
                    candidate is None ==> forall|k: int| 0 <= k < i ==> !((
                    #[trigger] md@.exports[k]).kind == ExternKind::Func && md@.exports[k].name
                        == want@),
                decreases ne - i,
            {
                proof {
                    assert(md@.exports[i as int] == md.exports@[i as int]@);
                }
                if candidate.is_none() {
                    match md.exports[i].kind {
                        ExternKind::Func => {
                            if bytes_eq(&md.exports[i].name, want) {
                                candidate = Some(i);
                            }
                        },
                        _ => {},
                    }
                }
            }
        },
        None => {
            for i in 0..ne
                invariant
                    ne == md@.exports.len(),
                    func_count <= i,
                    func_count > 0 ==> first_func < i && md@.exports[
                        first_func as int].kind == ExternKind::Func,
                    func_count == 0 ==> forall|k: int| 0 <= k < i ==> (
                    #[trigger] md@.exports[k]).kind != ExternKind::Func,
                    func_count > 1 ==> exists|a: int, b: int| 0 <= a < b < i && (
                    #[trigger] md@.exports[a]).kind == ExternKind::Func && (
                    #[trigger] md@.exports[b]).kind == ExternKind::Func,
                    func_count == 1 ==> first_func < ne && forall|k: int| 0 <= k < i && (
                    #[trigger] md@.exports[k]).kind == ExternKind::Func ==> k
                        == first_func as int,
                decreases ne - i,
            {
                match md.exports[i].kind {
                    ExternKind::Func => {
                        proof {
                            assert(md@.exports[i as int] == md.exports@[i as int]@);
                        }
                        if func_count == 0 {
                            first_func = i;
                        } else {
                            proof {
                                let a = first_func as int;
                                let b = i as int;
                                assert(0 <= a < b < i + 1 && md@.exports[a].kind
                                    == ExternKind::Func && md@.exports[b].kind
                                    == ExternKind::Func);
                            }
                        }
                        func_count = func_count + 1;
                    },
                    _ => {},
                }
            }
            if func_count == 1 {
                candidate = Some(first_func);
            } else {
                for i in 0..ne
                    invariant
                        ne == md@.exports.len(),
                        candidate matches Some(c) ==> c < ne && md@.exports[c as int].kind
                            == ExternKind::Func && md@.exports[c as int].name == entry_name(),
                        candidate is None ==> forall|k: int| 0 <= k < i ==> !((
                        #[trigger] md@.exports[k]).kind == ExternKind::Func && md@.exports[
                            k].name == entry_name()),
                    decreases ne - i,
                {
                    proof {
                        assert(md@.exports[i as int] == md.exports@[i as int]@);
                    }
                    if candidate.is_none() {
                        match md.exports[i].kind {
                            ExternKind::Func => {
                                if name_is(&md.exports[i].name, 0x6d, 0x61, 0x69, 0x6e) {
                                    candidate = Some(i);
                                }
                            },
                            _ => {},
                        }
                    }
                }
            }
        },
    }
    let c = match candidate {
        None => {
            let req = match requested {
                Some(w) => Some(crate::dup::copy_bytes(w)),
                None => None,
            };
            let mut cands: Vec<Vec<u8>> = Vec::new();
            for i in 0..ne
                invariant
                    ne == md@.exports.len(),
                decreases ne - i,
            {
                match md.exports[i].kind {
                    ExternKind::Func => cands.push(crate::dup::copy_bytes(&md.exports[i].name)),
                    _ => {},
                }
            }
            proof {
                match requested {
                    Some(w) => {},
                    None => {
                        assert(func_count != 1);
                        assert forall|cc: int| !unique_func_export(md@, cc) by {
                            if unique_func_export(md@, cc) {
                                if func_count == 0 {
                                    assert(!(md@.exports[cc].kind == ExternKind::Func));
                                } else {
                                    assert(func_count > 1);
                                    let (a, b) = choose|a: int, b: int| 0 <= a < b < ne && (
                                    #[trigger] md@.exports[a]).kind == ExternKind::Func && (
                                    #[trigger] md@.exports[b]).kind == ExternKind::Func;
                                    assert(a == cc && b == cc);
                                }
                            }
                        }
                    },
                }
            }
            return Err(PipelineError::MissingEntryPoint { requested: req, candidates: cands });
        },
        Some(c) => c,
    };
    // Rebuild the export list: the entry first, then everything else that
    // does not claim the entry name.
    let mut nexports: Vec<crate::module::Export> = Vec::new();
    nexports.push(
        crate::module::Export {
            name: entry_name_vec(),
            kind: ExternKind::Func,
            index: md.exports[c].index,
        },
    );
    for i in 0..ne
        invariant
            ne == md@.exports.len(),
            c < ne,
            md@.exports[c as int].kind == ExternKind::Func,
            nexports@.len() >= 1,
            i <= c ==> nexports@.len() <= i + 1,
            i > c ==> nexports@.len() <= i,
            nexports@[0]@.name == entry_name(),
            nexports@[0]@.kind == ExternKind::Func,
            nexports@[0]@.index == md@.exports[c as int].index,
            forall|k: int| 1 <= k < nexports@.len() ==> (#[trigger] nexports@[k])@.name
                != entry_name(),
            forall|k: int| 0 <= k < nexports@.len() ==> md@.export_ok(
                (#[trigger] nexports@[k])@,
            ),
            forall|k: int| 0 <= k < nexports@.len() ==> (#[trigger] nexports@[k])@.name.len()
                < 0x1_0000_0000,
        decreases ne - i,
    {
        proof {
            assert(md@.exports[i as int] == md.exports@[i as int]@);
            assert(md@.export_ok(md@.exports[i as int]));
            assert(md@.export_ok(md@.exports[c as int]));
        }
        let is_entry_name = name_is(&md.exports[i].name, 0x6d, 0x61, 0x69, 0x6e);
        if i != c && !is_entry_name {
            nexports.push(
                crate::module::Export {
                    name: crate::dup::copy_bytes(&md.exports[i].name),
                    kind: md.exports[i].kind,
                    index: md.exports[i].index,
                },
            );
        }
    }
    let out = Module {
        types: crate::dup::copy_types(&md.types),
        imports: crate::dup::copy_imports(&md.imports),
        funcs: crate::dup::copy_funcs(&md.funcs),
        tables: md.tables,
        memory: md.memory,
        globals: crate::dup::copy_globals(&md.globals),
        exports: nexports,
        elements: crate::dup::copy_elements(&md.elements),
        datas: crate::dup::copy_datas(&md.datas),
        customs: crate::dup::copy_customs(&md.customs),
        start: md.start,
    };
    proof {
        assert(out@.exports =~= nexports@.map_values(|x: crate::module::Export| x@));
        assert forall|k: int| 0 <= k < out@.exports.len() implies out@.exports[k] == nexports@[
            k]@ by {}
        assert(out@.types =~= md@.types);
        assert(out@.imports =~= md@.imports);
        assert(out@.funcs =~= md@.funcs);
        assert(out@.globals =~= md@.globals);
        assert(out@.elements =~= md@.elements);
        assert(out@.datas =~= md@.datas);
        assert(out@.customs =~= md@.customs);
        assert(out@.exports[0].name == entry_name());
        assert(entry_normalized(out@));
        assert(out@.n_funcs() == md@.n_funcs());
        assert(out@.n_globals() == md@.n_globals());
        assert forall|k: int| 0 <= k < out@.exports.len() implies out@.export_ok(
            #[trigger] out@.exports[k],
        ) by {
            assert(md@.export_ok(out@.exports[k]));
        }
        assert forall|k: int| 0 <= k < out@.imports.len() implies out@.import_ok(
            #[trigger] out@.imports[k],
        ) by {
            assert(md@.import_ok(md@.imports[k]));
        }
        assert forall|k: int| 0 <= k < out@.funcs.len() implies out@.func_ok(
            #[trigger] out@.funcs[k],
        ) by {
            assert(md@.func_ok(md@.funcs[k]));
        }
        assert forall|k: int| 0 <= k < out@.globals.len() implies out@.global_ok(
            #[trigger] out@.globals[k],
        ) by {
            assert(md@.global_ok(md@.globals[k]));
        }
        assert forall|k: int| 0 <= k < out@.elements.len() implies out@.element_ok(
            #[trigger] out@.elements[k],
        ) by {
            assert(md@.element_ok(md@.elements[k]));
        }
        assert(out@.wf_refs());
        assert(out@.exports.len() <= md@.exports.len());
        assert(out@.wf_sizes());
        assert(out@.wf());
    }
    Ok(out)
}

/// The fragment emitted for one snippet-carrying import.
pub open spec fn snip_frag(m: SpecModule, i: SpecImport) -> SpecFragment {
    SpecFragment {
        name: glue_name_spec(i.module, i.field),
        args: (match i.desc {
            SpecImportDesc::Func { type_idx, .. } => m.types[type_idx as int].params,
            _ => 0,
        }),
        body: (match i.desc {
            SpecImportDesc::Func { snippet: Some(b), .. } => b,
            _ => Seq::empty(),
        }),
    }
}

/// The fragments emitted by snippet extraction, in import-declaration order.
pub open spec fn frag_seq(m: SpecModule, s: Seq<SpecImport>) -> Seq<SpecFragment>
    decreases s.len(),
{
    if s.len() == 0 {
        Seq::empty()
    } else {
        (if s[0].has_snippet() {
            seq![snip_frag(m, s[0])]
        } else {
            Seq::empty()
        }) + frag_seq(m, s.skip(1))
    }
}

pub proof fn lemma_frag_seq_snoc(m: SpecModule, s: Seq<SpecImport>, x: SpecImport)
    ensures
        frag_seq(m, s.push(x)) == frag_seq(m, s) + (if x.has_snippet() {
            seq![snip_frag(m, x)]
        } else {
            Seq::<SpecFragment>::empty()
        }),
    decreases s.len(),
{
    if s.len() == 0 {
        assert(s.push(x).skip(1) =~= Seq::<SpecImport>::empty());
        assert(s.push(x)[0] == x);
        assert(frag_seq(m, Seq::<SpecImport>::empty()) == Seq::<SpecFragment>::empty());
        if x.has_snippet() {
            assert(frag_seq(m, s.push(x)) =~= frag_seq(m, s) + seq![snip_frag(m, x)]);
        } else {
            assert(frag_seq(m, s.push(x)) =~= frag_seq(m, s) + Seq::<SpecFragment>::empty());
        }
    } else {
        assert(s.push(x)[0] == s[0]);
        assert(s.push(x).skip(1) =~= s.skip(1).push(x));
        lemma_frag_seq_snoc(m, s.skip(1), x);
        if x.has_snippet() {
            assert(frag_seq(m, s.push(x)) =~= frag_seq(m, s) + seq![snip_frag(m, x)]);
        } else {
            assert(frag_seq(m, s.push(x)) =~= frag_seq(m, s) + Seq::<SpecFragment>::empty());
        }
    }
}

/// What snippet extraction does to one import: a snippet-carrying function
/// import is re-pointed at the generated glue and stripped of its payload;
/// everything else is untouched.
pub open spec fn snip_rewrite(i: SpecImport) -> SpecImport {
    if i.has_snippet() {
        SpecImport {
            module: glue_ns(),
            field: glue_name_spec(i.module, i.field),
            desc: (match i.desc {
                SpecImportDesc::Func { type_idx, .. } => SpecImportDesc::Func {
                    type_idx,
                    snippet: None,
                },
                d => d,
            }),
        }
    } else {
        i
    }
}

/// Lift every attached foreign snippet out of the import section into a glue
/// fragment, re-pointing the import at the generated glue. Emission order is
/// import-declaration order; after the pass no import carries a snippet.
#[verifier::loop_isolation(false)]
#[verifier::rlimit(80)]
pub fn extract_snippets(md: &Module) -> (r: (Module, Vec<GlueFragment>))
    requires
        md@.wf(),
    ensures
        r.0@.wf(),
        r.0@.types == md@.types,
        r.0@.funcs == md@.funcs,
        r.0@.globals == md@.globals,
        r.0@.exports == md@.exports,
        r.0@.elements == md@.elements,
        r.0@.datas == md@.datas,
        r.0@.customs == md@.customs,
        r.0@.start == md@.start,
        r.0@.memory == md@.memory,
        r.0@.tables == md@.tables,
        r.0@.imports.len() == md@.imports.len(),
        forall|p: int| 0 <= p < md@.imports.len() ==> (#[trigger] r.0@.imports[p])
            == snip_rewrite(md@.imports[p]),
        forall|p: int| 0 <= p < r.0@.imports.len()
            ==> !(#[trigger] r.0@.imports[p]).has_snippet(),
        r.1@.map_values(|f: GlueFragment| f@) == frag_seq(md@, md@.imports),
{
    let ghost m = md@;
    let mut nimports: Vec<Import> = Vec::new();
    let mut frags: Vec<GlueFragment> = Vec::new();
    let np = md.imports.len();
    for p in 0..np
        invariant
            np == m.imports.len(),
            nimports@.len() == p,
            forall|q: int| 0 <= q < p ==> (#[trigger] nimports@[q])@ == snip_rewrite(
                m.imports[q],
            ),
            frags@.map_values(|f: GlueFragment| f@) == frag_seq(m, m.imports.take(p as int)),
        decreases np - p,
    {
        proof {
            assert(m.imports[p as int] == md.imports@[p as int]@);
            assert(m.import_ok(m.imports[p as int]));
            assert(crate::codec::import_sz(m.imports[p as int]));
            lemma_frag_seq_snoc(m, m.imports.take(p as int), m.imports[p as int]);
            assert(m.imports.take(p + 1) =~= m.imports.take(p as int).push(
                m.imports[p as int],
            ));
        }
        let ghost pre_frags = frags@;
        let imp = &md.imports[p];
        let mut had = false;
        match &imp.desc {
            ImportDesc::Func { type_idx, snippet } => {
                match snippet {
                    Some(body) => {
                        had = true;
                        let name = glue_name(&imp.module, &imp.field);
                        let args = md.types[*type_idx as usize].params;
                        frags.push(
                            GlueFragment {
                                name,
                                args,
                                body: crate::dup::copy_bytes(body),
                            },
                        );
                        nimports.push(
                            Import {
                                module: glue_ns_vec(),
                                field: glue_name(&imp.module, &imp.field),
                                desc: ImportDesc::Func { type_idx: *type_idx, snippet: None },
                            },
                        );
                        proof {
                            assert(frags@ =~= pre_frags.push(frags@[frags@.len() - 1]));
                            assert(frags@.map_values(|f: GlueFragment| f@) =~= pre_frags
                                .map_values(|f: GlueFragment| f@).push(
                                frags@[frags@.len() - 1]@,
                            ));
                            assert(frags@[frags@.len() - 1]@ == snip_frag(
                                m,
                                m.imports[p as int],
                            ));
                            assert(frags@.map_values(|f: GlueFragment| f@) =~= frag_seq(
                                m,
                                m.imports.take(p + 1),
                            ));
                        }
                    },
                    None => {
                        nimports.push(crate::dup::copy_import(imp));
                    },
                }
            },
            _ => {
                nimports.push(crate::dup::copy_import(imp));
            },
        }
        proof {
            if !had {
                assert(!m.imports[p as int].has_snippet());
                assert(frags@.map_values(|f: GlueFragment| f@) =~= frag_seq(
                    m,
                    m.imports.take(p + 1),
                ));
                assert(nimports@[p as int]@ == m.imports[p as int]);
                assert(nimports@[p as int]@ == snip_rewrite(m.imports[p as int]));
            }
        }
    }
    proof {
        assert(m.imports.take(np as int) =~= m.imports);
    }
    let out = Module {
        types: crate::dup::copy_types(&md.types),
        imports: nimports,
        funcs: crate::dup::copy_funcs(&md.funcs),
        tables: md.tables,
        memory: md.memory,
        globals: crate::dup::copy_globals(&md.globals),
        exports: crate::dup::copy_exports(&md.exports),
        elements: crate::dup::copy_elements(&md.elements),
        datas: crate::dup::copy_datas(&md.datas),
        customs: crate::dup::copy_customs(&md.customs),
        start: md.start,
    };
    proof {
        assert(out@.types =~= m.types);
        assert(out@.funcs =~= m.funcs);
        assert(out@.globals =~= m.globals);
        assert(out@.exports =~= m.exports);
        assert(out@.elements =~= m.elements);
        assert(out@.datas =~= m.datas);
        assert(out@.customs =~= m.customs);
        assert forall|p: int| 0 <= p < out@.imports.len() implies (
        #[trigger] out@.imports[p]) == snip_rewrite(m.imports[p]) by {
            assert(out@.imports[p] == nimports@[p]@);
        }
        crate::module::lemma_count_imports_pointwise(out@.imports, m.imports);
        assert(out@.n_funcs() == m.n_funcs());
        assert(out@.n_globals() == m.n_globals());
        assert forall|k: int| 0 <= k < out@.imports.len() implies out@.import_ok(
            #[trigger] out@.imports[k],
        ) by {
            assert(m.import_ok(m.imports[k]));
        }
        assert forall|k: int| 0 <= k < out@.funcs.len() implies out@.func_ok(
            #[trigger] out@.funcs[k],
        ) by {
            assert(m.func_ok(m.funcs[k]));
        }
        assert forall|k: int| 0 <= k < out@.exports.len() implies out@.export_ok(
            #[trigger] out@.exports[k],
        ) by {
            assert(m.export_ok(m.exports[k]));
        }
        assert forall|k: int| 0 <= k < out@.globals.len() implies out@.global_ok(
            #[trigger] out@.globals[k],
        ) by {
            assert(m.global_ok(m.globals[k]));
        }
        assert forall|k: int| 0 <= k < out@.elements.len() implies out@.element_ok(
            #[trigger] out@.elements[k],
        ) by {
            assert(m.element_ok(m.elements[k]));
        }
        assert(out@.wf_refs());
        assert forall|k: int| 0 <= k < out@.imports.len() implies {
            &&& (#[trigger] out@.imports[k]).module.len() < 0x1_0000_0000
            &&& out@.imports[k].field.len() < 0x1_0000_0000
            &&& (out@.imports[k].desc matches SpecImportDesc::Func { snippet: Some(sn), .. }
                ==> sn.len() < 0x1_0000_0000)
        } by {
            assert(crate::codec::import_sz(m.imports[k]));
            if m.imports[k].has_snippet() {
                assert(out@.imports[k].field == glue_name_spec(
                    m.imports[k].module,
                    m.imports[k].field,
                ));
            }
        }
        assert(out@.wf_sizes());
        assert(out@.wf());
    }
    (out, frags)
}

/// The field-name prefix that marks a required runtime intrinsic,
/// `__intrinsic_`.
pub open spec fn intrinsic_prefix() -> Seq<u8> {
    seq![
        0x5fu8, 0x5fu8, 0x69u8, 0x6eu8, 0x74u8, 0x72u8, 0x69u8, 0x6eu8, 0x73u8, 0x69u8, 0x63u8,
        0x5fu8,
    ]
}

/// `__intrinsic_abort`: trap reporting.
pub open spec fn abort_field() -> Seq<u8> {
    intrinsic_prefix() + seq![0x61u8, 0x62u8, 0x6fu8, 0x72u8, 0x74u8]
}

/// `__intrinsic_panic`: panic/unwind stub.
pub open spec fn panic_field() -> Seq<u8> {
    intrinsic_prefix() + seq![0x70u8, 0x61u8, 0x6eu8, 0x69u8, 0x63u8]
}

/// `__intrinsic_alloc`: allocation support hook.
pub open spec fn alloc_field() -> Seq<u8> {
    intrinsic_prefix() + seq![0x61u8, 0x6cu8, 0x6cu8, 0x6fu8, 0x63u8]
}

/// A function import that declares a required intrinsic: host namespace and
/// the intrinsic field prefix.
pub open spec fn is_intrinsic_import(i: SpecImport) -> bool {
    &&& i.desc is Func
    &&& i.module == env_ns()
    &&& i.field.len() >= intrinsic_prefix().len()
    &&& i.field.take(intrinsic_prefix().len() as int) == intrinsic_prefix()
}

/// The fixed injection policy table: which intrinsic names have a policy.
pub open spec fn known_intrinsic(f: Seq<u8>) -> bool {
    f == abort_field() || f == panic_field() || f == alloc_field()
}

/// The glue body the policy table assigns to an intrinsic: `throw 0;` for
/// the trap-shaped ones, `return 0;` for the allocation hook.
pub open spec fn intrinsic_body(f: Seq<u8>) -> Seq<u8> {
    if f == alloc_field() {
        seq![0x72u8, 0x65u8, 0x74u8, 0x75u8, 0x72u8, 0x6eu8, 0x20u8, 0x30u8, 0x3bu8]
    } else {
        seq![0x74u8, 0x68u8, 0x72u8, 0x6fu8, 0x77u8, 0x20u8, 0x30u8, 0x3bu8]
    }
}

/// What intrinsics injection does to one import: a known intrinsic is
/// re-pointed at the generated glue; everything else is untouched.
pub open spec fn intr_rewrite(i: SpecImport) -> SpecImport {
    if is_intrinsic_import(i) && known_intrinsic(i.field) {
        SpecImport { module: glue_ns(), field: i.field, desc: i.desc }
    } else {
        i
    }
}

/// The fragment emitted for one injected intrinsic.
pub open spec fn intr_frag(m: SpecModule, i: SpecImport) -> SpecFragment {
    SpecFragment {
        name: glue_name_spec(env_ns(), i.field),
        args: (match i.desc {
            SpecImportDesc::Func { type_idx, .. } => m.types[type_idx as int].params,
            _ => 0,
        }),
        body: intrinsic_body(i.field),
    }
}

/// The fragments intrinsics injection emits, in import-declaration order.
pub open spec fn intr_frag_seq(m: SpecModule, s: Seq<SpecImport>) -> Seq<SpecFragment>
    decreases s.len(),
{
    if s.len() == 0 {
        Seq::empty()
    } else {
        (if is_intrinsic_import(s[0]) && known_intrinsic(s[0].field) {
            seq![intr_frag(m, s[0])]
        } else {
            Seq::empty()
        }) + intr_frag_seq(m, s.skip(1))
    }
}

pub proof fn lemma_intr_frag_seq_snoc(m: SpecModule, s: Seq<SpecImport>, x: SpecImport)
    ensures
        intr_frag_seq(m, s.push(x)) == intr_frag_seq(m, s) + (if is_intrinsic_import(x)
            && known_intrinsic(x.field) {
            seq![intr_frag(m, x)]
        } else {
            Seq::<SpecFragment>::empty()
        }),
    decreases s.len(),
{
    if s.len() == 0 {
        assert(s.push(x).skip(1) =~= Seq::<SpecImport>::empty());
        assert(s.push(x)[0] == x);
        assert(intr_frag_seq(m, Seq::<SpecImport>::empty()) == Seq::<SpecFragment>::empty());
        if is_intrinsic_import(x) && known_intrinsic(x.field) {
            assert(intr_frag_seq(m, s.push(x)) =~= intr_frag_seq(m, s) + seq![intr_frag(m, x)]);
        } else {
            assert(intr_frag_seq(m, s.push(x)) =~= intr_frag_seq(m, s)
                + Seq::<SpecFragment>::empty());
        }
    } else {
        assert(s.push(x)[0] == s[0]);
        assert(s.push(x).skip(1) =~= s.skip(1).push(x));
        lemma_intr_frag_seq_snoc(m, s.skip(1), x);
        if is_intrinsic_import(x) && known_intrinsic(x.field) {
            assert(intr_frag_seq(m, s.push(x)) =~= intr_frag_seq(m, s) + seq![intr_frag(m, x)]);
        } else {
            assert(intr_frag_seq(m, s.push(x)) =~= intr_frag_seq(m, s)
                + Seq::<SpecFragment>::empty());
        }
    }
}

fn env_ns_vec() -> (r: Vec<u8>)
    ensures
        r@ == env_ns(),
{
    let mut v: Vec<u8> = Vec::new();
    v.push(0x65);
    v.push(0x6e);
    v.push(0x76);
    proof {
        assert(v@ =~= env_ns());
    }
    v
}

fn field_is(v: &Vec<u8>, Ghost(want): Ghost<Seq<u8>>, w: &Vec<u8>) -> (r: bool)
    requires
        w@ == want,
    ensures
        r == (v@ == want),
{
    bytes_eq(v, w)
}

fn abort_field_vec() -> (r: Vec<u8>)
    ensures
        r@ == abort_field(),
{
    let mut v = intrinsic_prefix_vec();
    v.push(0x61);
    v.push(0x62);
    v.push(0x6f);
    v.push(0x72);
    v.push(0x74);
    proof {
        assert(v@ =~= abort_field());
    }
    v
}

fn panic_field_vec() -> (r: Vec<u8>)
    ensures
        r@ == panic_field(),
{
    let mut v = intrinsic_prefix_vec();
    v.push(0x70);
    v.push(0x61);
    v.push(0x6e);
    v.push(0x69);
    v.push(0x63);
    proof {
        assert(v@ =~= panic_field());
    }
    v
}

fn alloc_field_vec() -> (r: Vec<u8>)
    ensures
        r@ == alloc_field(),
{
    let mut v = intrinsic_prefix_vec();
    v.push(0x61);
    v.push(0x6c);
    v.push(0x6c);
    v.push(0x6f);
    v.push(0x63);
    proof {
        assert(v@ =~= alloc_field());
    }
    v
}

fn intrinsic_prefix_vec() -> (r: Vec<u8>)
    ensures
        r@ == intrinsic_prefix(),
{
    let sl: &[u8] = &[
        0x5fu8, 0x5fu8, 0x69u8, 0x6eu8, 0x74u8, 0x72u8, 0x69u8, 0x6eu8, 0x73u8, 0x69u8, 0x63u8,
        0x5fu8,
    ];
    let v = vstd::slice::slice_to_vec(sl);
    proof {
        assert(v@ =~= intrinsic_prefix());
    }
    v
}

fn intrinsic_body_vec(field: &Vec<u8>, alloc: &Vec<u8>) -> (r: Vec<u8>)
    requires
        alloc@ == alloc_field(),
    ensures
        r@ == intrinsic_body(field@),
{
    if bytes_eq(field, alloc) {
        let sl: &[u8] = &[0x72u8, 0x65u8, 0x74u8, 0x75u8, 0x72u8, 0x6eu8, 0x20u8, 0x30u8, 0x3bu8];
        let v = vstd::slice::slice_to_vec(sl);
        proof {
            assert(v@ =~= intrinsic_body(field@));
        }
        v
    } else {
        let sl: &[u8] = &[0x74u8, 0x68u8, 0x72u8, 0x6fu8, 0x77u8, 0x20u8, 0x30u8, 0x3bu8];
        let v = vstd::slice::slice_to_vec(sl);
        proof {
            assert(v@ =~= intrinsic_body(field@));
        }
        v
    }
}

fn has_prefix(v: &Vec<u8>, pre: &Vec<u8>) -> (r: bool)
    ensures
        r == (v@.len() >= pre@.len() && v@.take(pre@.len() as int) == pre@),
{
    if v.len() < pre.len() {
        return false;
    }
    let n = pre.len();
    for i in 0..n
        invariant
            n == pre@.len(),
            n <= v@.len(),
            forall|k: int| 0 <= k < i ==> v@[k] == pre@[k],
        decreases n - i,
    {
        if v[i] != pre[i] {
            proof {
                assert(v@.take(n as int)[i as int] != pre@[i as int]);
            }
            return false;
        }
    }
    proof {
        assert(v@.take(n as int) =~= pre@);
    }
    true
}

/// Inject the required runtime intrinsics: every `env` function import whose
/// field carries the intrinsic prefix is matched against the fixed policy
/// table; a known one is re-pointed at the generated glue with a fragment
/// supplying its default body, and an unknown one is a fatal
/// `UnresolvedIntrinsic` — an unsatisfied dependency is never silently
/// dropped. All other imports are genuinely host-provided and untouched.
#[verifier::loop_isolation(false)]
#[verifier::rlimit(80)]
pub fn inject_intrinsics(md: &Module) -> (r: Result<(Module, Vec<GlueFragment>), PipelineError>)
    requires
        md@.wf(),
    ensures
        r matches Ok(out) ==> {
            &&& out.0@.wf()
            &&& out.0@.types == md@.types
            &&& out.0@.funcs == md@.funcs
            &&& out.0@.globals == md@.globals
            &&& out.0@.exports == md@.exports
            &&& out.0@.elements == md@.elements
            &&& out.0@.datas == md@.datas
            &&& out.0@.customs == md@.customs
            &&& out.0@.start == md@.start
            &&& out.0@.memory == md@.memory
            &&& out.0@.tables == md@.tables
            &&& out.0@.imports.len() == md@.imports.len()
            &&& forall|p: int| 0 <= p < md@.imports.len() ==> (#[trigger] out.0@.imports[p])
                == intr_rewrite(md@.imports[p])
            &&& forall|p: int| 0 <= p < md@.imports.len() ==> (is_intrinsic_import(
                #[trigger] md@.imports[p],
            ) ==> known_intrinsic(md@.imports[p].field))
            &&& out.1@.map_values(|f: GlueFragment| f@) == intr_frag_seq(md@, md@.imports)
        },
        (forall|p: int| 0 <= p < md@.imports.len() ==> (is_intrinsic_import(
            #[trigger] md@.imports[p],
        ) ==> known_intrinsic(md@.imports[p].field))) ==> r is Ok,
        r matches Err(e) ==> (e matches PipelineError::UnresolvedIntrinsic { name } && exists|
            p: int,
        | 0 <= p < md@.imports.len() && is_intrinsic_import(#[trigger] md@.imports[p])
            && !known_intrinsic(md@.imports[p].field) && name@ == md@.imports[p].field),
{
    let ghost m = md@;
    let prefix = intrinsic_prefix_vec();
    let envv = env_ns_vec();
    let abortv = abort_field_vec();
    let panicv = panic_field_vec();
    let allocv = alloc_field_vec();
    let mut nimports: Vec<Import> = Vec::new();
    let mut frags: Vec<GlueFragment> = Vec::new();
    let np = md.imports.len();
    for p in 0..np
        invariant
            np == m.imports.len(),
            nimports@.len() == p,
            forall|q: int| 0 <= q < p ==> (#[trigger] nimports@[q])@ == intr_rewrite(
                m.imports[q],
            ),
            forall|q: int| 0 <= q < p ==> (is_intrinsic_import(#[trigger] m.imports[q])
                ==> known_intrinsic(m.imports[q].field)),
            frags@.map_values(|f: GlueFragment| f@) == intr_frag_seq(m, m.imports.take(p as int)),
        decreases np - p,
    {
        proof {
            assert(m.imports[p as int] == md.imports@[p as int]@);
            assert(m.import_ok(m.imports[p as int]));
            assert(crate::codec::import_sz(m.imports[p as int]));
            lemma_intr_frag_seq_snoc(m, m.imports.take(p as int), m.imports[p as int]);
            assert(m.imports.take(p + 1) =~= m.imports.take(p as int).push(
                m.imports[p as int],
            ));
        }
        let ghost pre_frags = frags@;
        let imp = &md.imports[p];
        let mut is_intr = false;
        match &imp.desc {
            ImportDesc::Func { .. } => {
                if bytes_eq(&imp.module, &envv) && has_prefix(&imp.field, &prefix) {
                    is_intr = true;
                }
            },
            _ => {},
        }
        proof {
            assert(is_intr == is_intrinsic_import(m.imports[p as int]));
        }
        if is_intr {
            let known = bytes_eq(&imp.field, &abortv) || bytes_eq(&imp.field, &panicv)
                || bytes_eq(&imp.field, &allocv);
            proof {
                assert(known == known_intrinsic(m.imports[p as int].field));
            }
            if !known {
                return Err(
                    PipelineError::UnresolvedIntrinsic {
                        name: crate::dup::copy_bytes(&imp.field),
                    },
                );
            }
            match &imp.desc {
                ImportDesc::Func { type_idx, snippet } => {
                    frags.push(
                        GlueFragment {
                            name: glue_name(&envv, &imp.field),
                            args: md.types[*type_idx as usize].params,
                            body: intrinsic_body_vec(&imp.field, &allocv),
                        },
                    );
                    nimports.push(
                        Import {
                            module: glue_ns_vec(),
                            field: crate::dup::copy_bytes(&imp.field),
                            desc: ImportDesc::Func {
                                type_idx: *type_idx,
                                snippet: match snippet {
                                    Some(b) => Some(crate::dup::copy_bytes(b)),
                                    None => None,
                                },
                            },
                        },
                    );
                    proof {
                        assert(frags@ =~= pre_frags.push(frags@[frags@.len() - 1]));
                        assert(frags@.map_values(|f: GlueFragment| f@) =~= pre_frags.map_values(
                            |f: GlueFragment| f@,
                        ).push(frags@[frags@.len() - 1]@));
                        assert(frags@[frags@.len() - 1]@ == intr_frag(m, m.imports[p as int]));
                        assert(frags@.map_values(|f: GlueFragment| f@) =~= intr_frag_seq(
                            m,
                            m.imports.take(p + 1),
                        ));
                        assert(nimports@[p as int]@ == intr_rewrite(m.imports[p as int]));
                    }
                },
                _ => {
                    proof {
                        assert(false);
                    }
                },
            }
        } else {
            nimports.push(crate::dup::copy_import(imp));
            proof {
                assert(frags@.map_values(|f: GlueFragment| f@) =~= intr_frag_seq(
                    m,
                    m.imports.take(p + 1),
                ));
                assert(nimports@[p as int]@ == m.imports[p as int]);
                assert(nimports@[p as int]@ == intr_rewrite(m.imports[p as int]));
            }
        }
    }
    proof {
        assert(m.imports.take(np as int) =~= m.imports);
    }
    let out = Module {
        types: crate::dup::copy_types(&md.types),
        imports: nimports,
        funcs: crate::dup::copy_funcs(&md.funcs),
        tables: md.tables,
        memory: md.memory,
        globals: crate::dup::copy_globals(&md.globals),
        exports: crate::dup::copy_exports(&md.exports),
        elements: crate::dup::copy_elements(&md.elements),
        datas: crate::dup::copy_datas(&md.datas),
        customs: crate::dup::copy_customs(&md.customs),
        start: md.start,
    };
    proof {
        assert(out@.types =~= m.types);
        assert(out@.funcs =~= m.funcs);
        assert(out@.globals =~= m.globals);
        assert(out@.exports =~= m.exports);
        assert(out@.elements =~= m.elements);
        assert(out@.datas =~= m.datas);
        assert(out@.customs =~= m.customs);
        assert forall|p: int| 0 <= p < out@.imports.len() implies (
        #[trigger] out@.imports[p]) == intr_rewrite(m.imports[p]) by {
            assert(out@.imports[p] == nimports@[p]@);
        }
        crate::module::lemma_count_imports_pointwise(out@.imports, m.imports);
        assert(out@.n_funcs() == m.n_funcs());
        assert(out@.n_globals() == m.n_globals());
        assert forall|k: int| 0 <= k < out@.imports.len() implies out@.import_ok(
            #[trigger] out@.imports[k],
        ) by {
            assert(m.import_ok(m.imports[k]));
        }
        assert forall|k: int| 0 <= k < out@.funcs.len() implies out@.func_ok(
            #[trigger] out@.funcs[k],
        ) by {
            assert(m.func_ok(m.funcs[k]));
        }
        assert forall|k: int| 0 <= k < out@.exports.len() implies out@.export_ok(
            #[trigger] out@.exports[k],
        ) by {
            assert(m.export_ok(m.exports[k]));
        }
        assert forall|k: int| 0 <= k < out@.globals.len() implies out@.global_ok(
            #[trigger] out@.globals[k],
        ) by {
            assert(m.global_ok(m.globals[k]));
        }
        assert forall|k: int| 0 <= k < out@.elements.len() implies out@.element_ok(
            #[trigger] out@.elements[k],
        ) by {
            assert(m.element_ok(m.elements[k]));
        }
        assert(out@.wf_refs());
        assert forall|k: int| 0 <= k < out@.imports.len() implies {
            &&& (#[trigger] out@.imports[k]).module.len() < 0x1_0000_0000
            &&& out@.imports[k].field.len() < 0x1_0000_0000
            &&& (out@.imports[k].desc matches SpecImportDesc::Func { snippet: Some(sn), .. }
                ==> sn.len() < 0x1_0000_0000)
        } by {
            assert(crate::codec::import_sz(m.imports[k]));
        }
        assert(out@.wf_sizes());
        assert(out@.wf());
    }
    Ok((out, frags))
}

/// The glue-side notification hook's field name, `on_grow`.
pub open spec fn on_grow_field() -> Seq<u8> {
    seq![0x6fu8, 0x6eu8, 0x5fu8, 0x67u8, 0x72u8, 0x6fu8, 0x77u8]
}

/// The module contains at least one grow-memory operation.
pub open spec fn has_grow(m: SpecModule) -> bool {
    exists|d: int, j: int| 0 <= d < m.funcs.len() && 0 <= j < m.funcs[d].body.len()
        && (#[trigger] m.funcs[d].body[j]) == Instr::MemoryGrow
}

/// The module already imports the glue notification hook, so it has been
/// instrumented before.
pub open spec fn already_hooked(m: SpecModule) -> bool {
    exists|p: int| 0 <= p < m.imports.len() && (#[trigger] m.imports[p]).desc is Func
        && m.imports[p].module == glue_ns() && m.imports[p].field == on_grow_field()
}

/// The index spaces leave room for one import, one function and two types.
pub open spec fn grow_space(m: SpecModule) -> bool {
    &&& m.n_funcs() + 2 < 0x1_0000_0000
    &&& m.types.len() + 2 < 0x1_0000_0000
    &&& m.imports.len() + 1 < 0x1_0000_0000
    &&& m.funcs.len() + 1 < 0x1_0000_0000
}

/// A function index after one import was spliced in front of the defined
/// functions.
pub open spec fn bump_idx(x: u32, nfi: nat) -> u32 {
    if x < nfi {
        x
    } else {
        (x + 1) as u32
    }
}

/// What interception does to one instruction: grow sites are redirected to
/// the trampoline, calls follow the shifted index space, everything else is
/// untouched.
pub open spec fn grow_instr(i: Instr, nfi: nat, tramp: u32) -> Instr {
    match i {
        Instr::Call(x) => Instr::Call(bump_idx(x, nfi)),
        Instr::MemoryGrow => Instr::Call(tramp),
        _ => i,
    }
}

/// One rewritten function body.
pub open spec fn grow_func(
    f: crate::module::SpecFunc,
    nfi: nat,
    tramp: u32,
) -> crate::module::SpecFunc {
    crate::module::SpecFunc {
        type_idx: f.type_idx,
        body: f.body.map_values(|i: Instr| grow_instr(i, nfi, tramp)),
    }
}

/// The trampoline's code: perform the grow, then call the notification hook,
/// passing the grow result through unchanged.
pub open spec fn trampoline_body(hook: u32) -> Seq<Instr> {
    seq![Instr::LocalGet(0u32), Instr::MemoryGrow, Instr::Call(hook)]
}

fn on_grow_field_vec() -> (r: Vec<u8>)
    ensures
        r@ == on_grow_field(),
{
    let sl: &[u8] = &[0x6fu8, 0x6eu8, 0x5fu8, 0x67u8, 0x72u8, 0x6fu8, 0x77u8];
    let v = vstd::slice::slice_to_vec(sl);
    proof {
        assert(v@ =~= on_grow_field());
    }
    v
}

#[verifier::loop_isolation(false)]
fn grow_body(body: &Vec<Instr>, nfi: u32, tramp: u32, Ghost(nf): Ghost<nat>) -> (out: Vec<
    Instr,
>)
    requires
        nfi as nat <= nf,
        nf + 2 < 0x1_0000_0000,
        forall|j: int| 0 <= j < body@.len() ==> (match #[trigger] body@[j] {
            Instr::Call(x) => (x as nat) < nf,
            _ => true,
        }),
    ensures
        out@ == body@.map_values(|i: Instr| grow_instr(i, nfi as nat, tramp)),
{
    let mut out: Vec<Instr> = Vec::new();
    let n = body.len();
    for j in 0..n
        invariant
            out@.len() == j,
            forall|l: int| 0 <= l < j ==> (#[trigger] out@[l]) == grow_instr(
                body@[l],
                nfi as nat,
                tramp,
            ),
        decreases n - j,
    {
        let ins = match body[j] {
            Instr::Call(x) => {
                if x < nfi {
                    Instr::Call(x)
                } else {
                    Instr::Call(x + 1)
                }
            },
            Instr::MemoryGrow => Instr::Call(tramp),
            other => other,
        };
        out.push(ins);
    }
    proof {
        assert(out@ =~= body@.map_values(|i: Instr| grow_instr(i, nfi as nat, tramp)));
    }
    out
}

/// Intercept memory growth: redirect every grow site through one injected
/// trampoline that performs the grow and then calls one imported glue
/// notification hook, preserving the operation's result. Exactly one
/// function and one import are added, however many sites are rewritten. A
/// module that is already instrumented, has no grow site, or sits at the
/// index-space ceiling is returned unchanged.
#[verifier::loop_isolation(false)]
#[verifier::rlimit(100)]
pub fn hook_grow(md: &Module) -> (r: (Module, bool))
    requires
        md@.wf(),
    ensures
        !r.1 ==> r.0@ == md@,
        r.1 == (!already_hooked(md@) && has_grow(md@) && grow_space(md@)),
        r.1 ==> {
            &&& r.0@.wf()
            &&& r.0@.customs == md@.customs
            &&& r.0@.datas == md@.datas
            &&& r.0@.memory == md@.memory
            &&& r.0@.tables == md@.tables
            &&& r.0@.globals == md@.globals
            &&& r.0@.types.len() == md@.types.len() + 2
            &&& (forall|i: int| 0 <= i < md@.types.len() ==> (#[trigger] r.0@.types[i])
                == md@.types[i])
            &&& r.0@.types[md@.types.len() as int] == (FuncType { params: 1, results: 1 })
            &&& r.0@.types[md@.types.len() as int + 1] == (FuncType { params: 0, results: 0 })
            &&& r.0@.imports.len() == md@.imports.len() + 1
            &&& (forall|p: int| 0 <= p < md@.imports.len() ==> (#[trigger] r.0@.imports[p])
                == md@.imports[p])
            &&& r.0@.imports[md@.imports.len() as int] == (SpecImport {
                module: glue_ns(),
                field: on_grow_field(),
                desc: SpecImportDesc::Func {
                    type_idx: (md@.types.len() + 1) as u32,
                    snippet: None,
                },
            })
            &&& already_hooked(r.0@)
            &&& r.0@.funcs.len() == md@.funcs.len() + 1
            &&& (forall|d: int| 0 <= d < md@.funcs.len() ==> (#[trigger] r.0@.funcs[d])
                == grow_func(
                md@.funcs[d],
                md@.n_func_imports(),
                (md@.n_funcs() + 1) as u32,
            ))
            &&& r.0@.funcs[md@.funcs.len() as int] == (crate::module::SpecFunc {
                type_idx: md@.types.len() as u32,
                body: trampoline_body(md@.n_func_imports() as u32),
            })
            &&& r.0@.exports.len() == md@.exports.len()
            &&& (forall|i: int| 0 <= i < md@.exports.len() ==> {
                &&& (#[trigger] r.0@.exports[i]).name == md@.exports[i].name
                &&& r.0@.exports[i].kind == md@.exports[i].kind
                &&& r.0@.exports[i].index == (match md@.exports[i].kind {
                    ExternKind::Func => bump_idx(md@.exports[i].index, md@.n_func_imports()),
                    _ => md@.exports[i].index,
                })
            })
            &&& r.0@.elements.len() == md@.elements.len()
            &&& (forall|i: int| 0 <= i < md@.elements.len() ==> {
                &&& (#[trigger] r.0@.elements[i]).offset == md@.elements[i].offset
                &&& r.0@.elements[i].entries.len() == md@.elements[i].entries.len()
                &&& forall|j: int| 0 <= j < md@.elements[i].entries.len()
                    ==> (#[trigger] r.0@.elements[i].entries[j]) == bump_idx(
                    md@.elements[i].entries[j],
                    md@.n_func_imports(),
                )
            })
            &&& (md@.start is None ==> r.0@.start is None)
            &&& (md@.start matches Some(f) ==> r.0@.start == Some(
                bump_idx(f, md@.n_func_imports()),
            ))
        },
{
    let ghost m = md@;
    let gluev = glue_ns_vec();
    let hookv = on_grow_field_vec();
    // Is the hook already imported?
    let np = md.imports.len();
    let mut hooked = false;
    for p in 0..np
        invariant
            np == m.imports.len(),
            hooked ==> already_hooked(m),
            !hooked ==> forall|q: int| 0 <= q < p ==> !((#[trigger] m.imports[q]).desc is Func
                && m.imports[q].module == glue_ns() && m.imports[q].field == on_grow_field()),
        decreases np - p,
    {
        proof {
            assert(m.imports[p as int] == md.imports@[p as int]@);
        }
        if !hooked {
            match &md.imports[p].desc {
                ImportDesc::Func { .. } => {
                    if bytes_eq(&md.imports[p].module, &gluev) && bytes_eq(
                        &md.imports[p].field,
                        &hookv,
                    ) {
                        hooked = true;
                    }
                },
                _ => {},
            }
        }
    }
    // Is there a grow site at all?
    let nfn = md.funcs.len();
    let mut grow = false;
    for d in 0..nfn
        invariant
            nfn == m.funcs.len(),
            grow ==> has_grow(m),
            !grow ==> forall|a: int, j: int| 0 <= a < d && 0 <= j < m.funcs[a].body.len()
                ==> (#[trigger] m.funcs[a].body[j]) != Instr::MemoryGrow,
        decreases nfn - d,
    {
        proof {
            assert(m.funcs[d as int] == md.funcs@[d as int]@);
        }
        let nb = md.funcs[d].body.len();
        for j in 0..nb
            invariant
                nfn == m.funcs.len(),
                d < nfn,
                nb == m.funcs[d as int].body.len(),
                grow ==> has_grow(m),
                !grow ==> forall|a: int, l: int| 0 <= a < d && 0 <= l < m.funcs[a].body.len()
                    ==> (#[trigger] m.funcs[a].body[l]) != Instr::MemoryGrow,
                !grow ==> forall|l: int| 0 <= l < j ==> (
                #[trigger] m.funcs[d as int].body[l]) != Instr::MemoryGrow,
            decreases nb - j,
        {
            proof {
                assert(m.funcs[d as int].body[j as int] == md.funcs@[d as int].body@[j as int]);
            }
            if !grow {
                match md.funcs[d].body[j] {
                    Instr::MemoryGrow => {
                        grow = true;
                    },
                    _ => {},
                }
            }
        }
    }
    let nfi = crate::parse::count_fimps(&md.imports);
    proof {
        assert(md.imports@.map_values(|x: Import| x@) =~= m.imports);
        crate::module::lemma_count_imports_le(m.imports);
    }
    let space = (nfi as u64) + (md.funcs.len() as u64) + 2 < 0x1_0000_0000 && (md.types.len()
        as u64) + 2 < 0x1_0000_0000 && (md.imports.len() as u64) + 1 < 0x1_0000_0000 && (
    md.funcs.len() as u64) + 1 < 0x1_0000_0000;
    proof {
        assert(space == grow_space(m));
    }
    if hooked || !grow || !space {
        proof {
            if !hooked && grow {
                assert(!already_hooked(m)) by {
                    if already_hooked(m) {
                        let q = choose|q: int| 0 <= q < m.imports.len() && (
                        #[trigger] m.imports[q]).desc is Func && m.imports[q].module
                            == glue_ns() && m.imports[q].field == on_grow_field();
                        assert(false);
                    }
                }
            }
            if !grow {
                assert(!has_grow(m)) by {
                    if has_grow(m) {
                        let (a, j) = choose|a: int, j: int| 0 <= a < m.funcs.len() && 0 <= j
                            < m.funcs[a].body.len() && (#[trigger] m.funcs[a].body[j])
                            == Instr::MemoryGrow;
                        assert(false);
                    }
                }
            }
        }
        return (crate::dup::copy_module(md), false);
    }
    proof {
        assert(!already_hooked(m)) by {
            if already_hooked(m) {
                let q = choose|q: int| 0 <= q < m.imports.len() && (
                #[trigger] m.imports[q]).desc is Func && m.imports[q].module == glue_ns()
                    && m.imports[q].field == on_grow_field();
                assert(false);
            }
        }
    }
    let tramp: u32 = (nfi as u32) + (md.funcs.len() as u32) + 1;
    proof {
        assert(tramp as nat == m.n_funcs() + 1);
    }
    // types: the trampoline's signature and the hook's signature.
    let mut ntypes = crate::dup::copy_types(&md.types);
    ntypes.push(FuncType { params: 1, results: 1 });
    ntypes.push(FuncType { params: 0, results: 0 });
    // imports: the notification hook, appended last.
    let mut nimports = crate::dup::copy_imports(&md.imports);
    nimports.push(
        Import {
            module: glue_ns_vec(),
            field: on_grow_field_vec(),
            desc: ImportDesc::Func { type_idx: (md.types.len() as u32) + 1, snippet: None },
        },
    );
    // funcs: every body rewritten, then the trampoline.
    let mut nfuncs: Vec<crate::module::Func> = Vec::new();
    for d in 0..nfn
        invariant
            nfn == m.funcs.len(),
            nfuncs@.len() == d,
            forall|k: int| 0 <= k < d ==> (#[trigger] nfuncs@[k])@ == grow_func(
                m.funcs[k],
                m.n_func_imports(),
                ((m.n_funcs() + 1) as u32),
            ),
        decreases nfn - d,
    {
        proof {
            assert(m.funcs[d as int] == md.funcs@[d as int]@);
            assert(m.func_ok(m.funcs[d as int]));
            assert forall|j: int| 0 <= j < md.funcs@[d as int].body@.len() implies (
            match #[trigger] md.funcs@[d as int].body@[j] {
                Instr::Call(x) => (x as nat) < m.n_funcs(),
                _ => true,
            }) by {
                assert(m.instr_ok(m.funcs[d as int].body[j]));
            }
        }
        let nb = grow_body(&md.funcs[d].body, nfi as u32, tramp, Ghost(m.n_funcs()));
        nfuncs.push(crate::module::Func { type_idx: md.funcs[d].type_idx, body: nb });
    }
    let mut tbody: Vec<Instr> = Vec::new();
    tbody.push(Instr::LocalGet(0));
    tbody.push(Instr::MemoryGrow);
    tbody.push(Instr::Call(nfi as u32));
    proof {
        assert(tbody@ =~= trampoline_body(m.n_func_imports() as u32));
    }
    nfuncs.push(crate::module::Func { type_idx: md.types.len() as u32, body: tbody });
    // exports, elements, start: follow the shifted function index space.
    let mut nexports: Vec<crate::module::Export> = Vec::new();
    let nex = md.exports.len();
    for i in 0..nex
        invariant
            nex == m.exports.len(),
            nexports@.len() == i,
            forall|k: int| 0 <= k < i ==> {
                &&& (#[trigger] nexports@[k])@.name == m.exports[k].name
                &&& nexports@[k]@.kind == m.exports[k].kind
                &&& nexports@[k]@.index == (match m.exports[k].kind {
                    ExternKind::Func => bump_idx(m.exports[k].index, m.n_func_imports()),
                    _ => m.exports[k].index,
                })
            },
        decreases nex - i,
    {
        proof {
            assert(m.exports[i as int] == md.exports@[i as int]@);
            assert(m.export_ok(m.exports[i as int]));
        }
        let e = &md.exports[i];
        let nidx = match e.kind {
            ExternKind::Func => if e.index < nfi as u32 {
                e.index
            } else {
                e.index + 1
            },
            _ => e.index,
        };
        nexports.push(
            crate::module::Export {
                name: crate::dup::copy_bytes(&e.name),
                kind: e.kind,
                index: nidx,
            },
        );
    }
    let mut nelements: Vec<crate::module::Element> = Vec::new();
    let nel = md.elements.len();
    for i in 0..nel
        invariant
            nel == m.elements.len(),
            nelements@.len() == i,
            forall|k: int| 0 <= k < i ==> {
                &&& (#[trigger] nelements@[k])@.offset == m.elements[k].offset
                &&& nelements@[k]@.entries.len() == m.elements[k].entries.len()
                &&& forall|j: int| 0 <= j < m.elements[k].entries.len()
                    ==> (#[trigger] nelements@[k]@.entries[j]) == bump_idx(
                    m.elements[k].entries[j],
                    m.n_func_imports(),
                )
            },
        decreases nel - i,
    {
        proof {
            assert(m.elements[i as int] == md.elements@[i as int]@);
            assert(m.element_ok(m.elements[i as int]));
        }
        let mut nent: Vec<u32> = Vec::new();
        let nj = md.elements[i].entries.len();
        for j in 0..nj
            invariant
                nel == m.elements.len(),
                i < nel,
                nj == m.elements[i as int].entries.len(),
                nent@.len() == j,
                forall|l: int| 0 <= l < j ==> (#[trigger] nent@[l]) == bump_idx(
                    m.elements[i as int].entries[l],
                    m.n_func_imports(),
                ),
            decreases nj - j,
        {
            proof {
                assert(m.elements[i as int].entries[j as int] == md.elements@[
                    i as int].entries@[j as int]);
            }
            let x = md.elements[i].entries[j];
            nent.push(
                if x < nfi as u32 {
                    x
                } else {
                    x + 1
                },
            );
        }
        nelements.push(
            crate::module::Element { offset: md.elements[i].offset, entries: nent },
        );
    }
    let nstart = match md.start {
        Some(f) => Some(
            if f < nfi as u32 {
                f
            } else {
                f + 1
            },
        ),
        None => None,
    };
    let out = Module {
        types: ntypes,
        imports: nimports,
        funcs: nfuncs,
        tables: md.tables,
        memory: md.memory,
        globals: crate::dup::copy_globals(&md.globals),
        exports: nexports,
        elements: nelements,
        datas: crate::dup::copy_datas(&md.datas),
        customs: crate::dup::copy_customs(&md.customs),
        start: nstart,
    };
    proof {
        let o = out@;
        assert(o.globals =~= m.globals);
        assert(o.datas =~= m.datas);
        assert(o.customs =~= m.customs);
        assert(o.imports[m.imports.len() as int] == (SpecImport {
            module: glue_ns(),
            field: on_grow_field(),
            desc: SpecImportDesc::Func { type_idx: (m.types.len() + 1) as u32, snippet: None },
        }));
        assert forall|p: int| 0 <= p < m.imports.len() implies (#[trigger] o.imports[p])
            == m.imports[p] by {
            assert(o.imports[p] == nimports@[p]@);
        }
        assert(already_hooked(o));
        assert(crate::module::count_func_imports(o.imports.take(m.imports.len() as int))
            == crate::module::count_func_imports(m.imports)) by {
            assert(o.imports.take(m.imports.len() as int) =~= o.imports.subrange(
                0,
                m.imports.len() as int,
            ));
            crate::module::lemma_count_imports_pointwise(
                o.imports.take(m.imports.len() as int),
                m.imports,
            );
        }
        assert(o.imports.take(o.imports.len() as int) =~= o.imports);
        crate::module::lemma_count_func_imports_snoc(
            o.imports.take(m.imports.len() as int),
            o.imports[m.imports.len() as int],
        );
        assert(o.imports =~= o.imports.take(m.imports.len() as int).push(
            o.imports[m.imports.len() as int],
        ));
        crate::module::lemma_count_global_imports_snoc(
            o.imports.take(m.imports.len() as int),
            o.imports[m.imports.len() as int],
        );
        crate::module::lemma_count_imports_pointwise(
            o.imports.take(m.imports.len() as int),
            m.imports,
        );
        assert(o.n_func_imports() == m.n_func_imports() + 1);
        assert(o.n_global_imports() == m.n_global_imports());
        assert(o.n_funcs() == m.n_funcs() + 2);
        assert(o.n_globals() == m.n_globals());
        assert forall|k: int| 0 <= k < o.imports.len() implies o.import_ok(
            #[trigger] o.imports[k],
        ) by {
            if k < m.imports.len() {
                assert(m.import_ok(m.imports[k]));
            }
        }
        assert forall|k: int| 0 <= k < o.funcs.len() implies o.func_ok(
            #[trigger] o.funcs[k],
        ) by {
            if k < m.funcs.len() {
                assert(o.funcs[k] == grow_func(
                    m.funcs[k],
                    m.n_func_imports(),
                    ((m.n_funcs() + 1) as u32),
                ));
                assert(m.func_ok(m.funcs[k]));
                assert forall|j: int| 0 <= j < o.funcs[k].body.len() implies o.instr_ok(
                    #[trigger] o.funcs[k].body[j],
                ) by {
                    assert(o.funcs[k].body[j] == grow_instr(
                        m.funcs[k].body[j],
                        m.n_func_imports(),
                        ((m.n_funcs() + 1) as u32),
                    ));
                    assert(m.instr_ok(m.funcs[k].body[j]));
                }
            } else {
                assert(o.funcs[k].body == trampoline_body(m.n_func_imports() as u32));
            }
        }
        assert forall|k: int| 0 <= k < o.exports.len() implies o.export_ok(
            #[trigger] o.exports[k],
        ) by {
            assert(m.export_ok(m.exports[k]));
        }
        assert forall|k: int| 0 <= k < o.globals.len() implies o.global_ok(
            #[trigger] o.globals[k],
        ) by {
            assert(o.globals[k] == m.globals[k]);
            assert(m.global_ok(m.globals[k]));
        }
        assert forall|k: int| 0 <= k < o.elements.len() implies o.element_ok(
            #[trigger] o.elements[k],
        ) by {
            assert(m.element_ok(m.elements[k]));
        }
        assert(o.wf_refs());
        assert forall|k: int| 0 <= k < o.imports.len() implies {
            &&& (#[trigger] o.imports[k]).module.len() < 0x1_0000_0000
            &&& o.imports[k].field.len() < 0x1_0000_0000
            &&& (o.imports[k].desc matches SpecImportDesc::Func { snippet: Some(sn), .. }
                ==> sn.len() < 0x1_0000_0000)
        } by {
            if k < m.imports.len() {
                assert(crate::codec::import_sz(m.imports[k]));
            }
        }
        assert forall|k: int| 0 <= k < o.funcs.len() implies (
        #[trigger] o.funcs[k]).body.len() < 0x1_0000_0000 by {
            if k < m.funcs.len() {
                assert(m.funcs[k].body.len() < 0x1_0000_0000);
            }
        }
        assert forall|k: int| 0 <= k < o.exports.len() implies (
        #[trigger] o.exports[k]).name.len() < 0x1_0000_0000 by {
            assert(m.exports[k].name.len() < 0x1_0000_0000);
        }
        assert forall|k: int| 0 <= k < o.elements.len() implies (
        #[trigger] o.elements[k]).entries.len() < 0x1_0000_0000 by {
            assert(m.elements[k].entries.len() < 0x1_0000_0000);
        }
        assert forall|k: int| 0 <= k < o.datas.len() implies (
        #[trigger] o.datas[k]).bytes.len() < 0x1_0000_0000 by {
            assert(o.datas[k] == m.datas[k]);
        }
        assert forall|k: int| 0 <= k < o.customs.len() implies (
        #[trigger] o.customs[k]).name.len() < 0x1_0000_0000 && o.customs[k].bytes.len()
            < 0x1_0000_0000 by {
            assert(o.customs[k] == m.customs[k]);
        }
        assert(o.wf_sizes());
        assert(o.wf());
    }
    (out, true)
}

} // verus!
