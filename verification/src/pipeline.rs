//! The orchestrator: one entry point that runs the pipeline's stages in
//! their fixed order over a single module value and returns the rewritten
//! container bytes plus the generated glue text and a summary.

use vstd::prelude::*;

use crate::codec::{enc_module, parse_spec};
use crate::errors::{CodecError, PipelineError};
use crate::glue::{frags_rep, GlueFragment, SpecFragment};
use crate::module::{ExternKind, Module, SpecModule};
use crate::passes::{
    entry_name, entry_normalized, frag_seq, grow_space, has_grow, already_hooked, intr_frag_seq,
    intr_rewrite, is_intrinsic_import, known_intrinsic, snip_rewrite, unique_func_export,
};
use crate::reach::{apply_rel, ReachSet};

verus! {

/// The requested entry symbol, seen from specification land.
pub open spec fn opt_view(o: Option<&Vec<u8>>) -> Option<Seq<u8>> {
    match o {
        Some(w) => Some(w@),
        None => None,
    }
}

/// Stage relation of §4.2: `b` is `a` after reachability analysis and one
/// stable compaction through the computed index maps.
pub open spec fn gc_rel(a: SpecModule, b: SpecModule) -> bool {
    exists|rs: ReachSet| (#[trigger] rs.valid(a)) && apply_rel(a, b, rs)
}

/// Stage relation of §4.3: `b` is `a` with its export surface normalized
/// around the resolved entry point; all other sections untouched.
pub open spec fn norm_rel(a: SpecModule, b: SpecModule, req: Option<Seq<u8>>) -> bool {
    &&& b.wf()
    &&& b.types == a.types
    &&& b.imports == a.imports
    &&& b.funcs == a.funcs
    &&& b.globals == a.globals
    &&& b.elements == a.elements
    &&& b.datas == a.datas
    &&& b.customs == a.customs
    &&& b.start == a.start
    &&& b.memory == a.memory
    &&& b.tables == a.tables
    &&& entry_normalized(b)
    &&& forall|c: int| req is None && unique_func_export(a, c) ==> b.exports[0].index
        == a.exports[c].index
    &&& exists|c: int| 0 <= c < a.exports.len() && (#[trigger] a.exports[c]).kind
        == ExternKind::Func && b.exports[0].index == a.exports[c].index
    &&& (req matches Some(w) ==> exists|c: int| 0 <= c < a.exports.len() && (
    #[trigger] a.exports[c]).kind == ExternKind::Func && a.exports[c].name == w
        && b.exports[0].index == a.exports[c].index)
}

/// No entry-point candidate resolves in `a` for the given request.
pub open spec fn no_entry(a: SpecModule, req: Option<Seq<u8>>) -> bool {
    match req {
        Some(w) => forall|i: int| 0 <= i < a.exports.len() ==> !((
        #[trigger] a.exports[i]).kind == ExternKind::Func && a.exports[i].name == w),
        None => (forall|c: int| !unique_func_export(a, c)) && (forall|i: int| 0 <= i
            < a.exports.len() ==> !((#[trigger] a.exports[i]).kind == ExternKind::Func
            && a.exports[i].name == entry_name())),
    }
}

/// Stage relation of §4.4: `b` is `a` with every snippet-carrying import
/// re-pointed at the glue and `fr` the lifted fragments, in import order.
pub open spec fn snip_rel(a: SpecModule, b: SpecModule, fr: Seq<SpecFragment>) -> bool {
    &&& b.wf()
    &&& b.types == a.types
    &&& b.funcs == a.funcs
    &&& b.globals == a.globals
    &&& b.exports == a.exports
    &&& b.elements == a.elements
    &&& b.datas == a.datas
    &&& b.customs == a.customs
    &&& b.start == a.start
    &&& b.memory == a.memory
    &&& b.tables == a.tables
    &&& b.imports.len() == a.imports.len()
    &&& forall|p: int| 0 <= p < a.imports.len() ==> (#[trigger] b.imports[p]) == snip_rewrite(
        a.imports[p],
    )
    &&& forall|p: int| 0 <= p < b.imports.len() ==> !(#[trigger] b.imports[p]).has_snippet()
    &&& fr == frag_seq(a, a.imports)
}

/// Stage relation of §4.5: either nothing to intercept and `b == a`, or
/// exactly one trampoline and one hook import were added and every grow
/// site redirected.
pub open spec fn grow_rel(a: SpecModule, b: SpecModule, changed: bool) -> bool {
    &&& (!changed ==> b == a)
    &&& changed == (!already_hooked(a) && has_grow(a) && grow_space(a))
    &&& (changed ==> b.wf() && b.funcs.len() == a.funcs.len() + 1 && b.imports.len()
        == a.imports.len() + 1 && already_hooked(b) && b.exports.len() == a.exports.len()
        && (forall|i: int| 0 <= i < a.exports.len() ==> ((#[trigger] b.exports[i]).name
        == a.exports[i].name && b.exports[i].kind == a.exports[i].kind)) && (forall|d: int|
        0 <= d < a.funcs.len() ==> (#[trigger] b.funcs[d]) == crate::passes::grow_func(
        a.funcs[d],
        a.n_func_imports(),
        ((a.n_funcs() + 1) as u32),
    )) && b.funcs[a.funcs.len() as int].body == crate::passes::trampoline_body(
        a.n_func_imports() as u32,
    ) && b.customs == a.customs && b.datas == a.datas && b.globals == a.globals && b.memory
        == a.memory && b.tables == a.tables)
}

/// Stage relation of §4.6: `b` is `a` with every known required intrinsic
/// re-pointed at the glue and `fr` the fragments supplying their defaults.
pub open spec fn intr_rel(a: SpecModule, b: SpecModule, fr: Seq<SpecFragment>) -> bool {
    &&& b.wf()
    &&& b.types == a.types
    &&& b.funcs == a.funcs
    &&& b.globals == a.globals
    &&& b.exports == a.exports
    &&& b.elements == a.elements
    &&& b.datas == a.datas
    &&& b.customs == a.customs
    &&& b.start == a.start
    &&& b.memory == a.memory
    &&& b.tables == a.tables
    &&& b.imports.len() == a.imports.len()
    &&& forall|p: int| 0 <= p < a.imports.len() ==> (#[trigger] b.imports[p]) == intr_rewrite(
        a.imports[p],
    )
    &&& forall|p: int| 0 <= p < a.imports.len() ==> (is_intrinsic_import(
        #[trigger] a.imports[p],
    ) ==> known_intrinsic(a.imports[p].field))
    &&& fr == intr_frag_seq(a, a.imports)
}

/// The whole staged rewrite, §2's fixed order: reachability compaction, then
/// export normalization, then snippet extraction, then grow interception,
/// then intrinsics injection, yielding the final module and the two fragment
/// runs in emission order.
pub open spec fn staged(
    m0: SpecModule,
    m5: SpecModule,
    sf: Seq<SpecFragment>,
    gf: Seq<SpecFragment>,
    req: Option<Seq<u8>>,
) -> bool {
    exists|m1: SpecModule, m2: SpecModule, m3: SpecModule, m4: SpecModule, ch: bool|
        gc_rel(m0, m1) && norm_rel(m1, m2, req) && snip_rel(m2, m3, sf) && grow_rel(m3, m4, ch)
            && intr_rel(m4, m5, gf)
}


/// What compaction preserves of the facts the later stages' success depends
/// on: an empty import section stays empty, a unique function export stays
/// unique at its position, and an entry-named function export keeps its
/// name and kind.
proof fn lemma_gc_preserves(m0: SpecModule, m1: SpecModule, rs: ReachSet)
    requires
        m0.wf(),
        rs.valid(m0),
        apply_rel(m0, m1, rs),
    ensures
        gc_rel(m0, m1),
        m0.imports.len() == 0 ==> m1.imports.len() == 0,
        forall|c: int| #[trigger] unique_func_export(m0, c) ==> unique_func_export(m1, c),
        forall|i: int| 0 <= i < m0.exports.len() && (#[trigger] m0.exports[i]).kind
            == ExternKind::Func && m0.exports[i].name == entry_name() ==> i
            < m1.exports.len() && m1.exports[i].kind == ExternKind::Func
            && m1.exports[i].name == entry_name(),
{
    if m0.imports.len() == 0 {
        assert(crate::reach::import_keep_seq(m0, rs.keep_f@, rs.keep_g@).len() == 0);
        assert(crate::reach::count_true(
            crate::reach::import_keep_seq(m0, rs.keep_f@, rs.keep_g@),
        ) == 0);
    }
    assert forall|c: int| #[trigger] unique_func_export(m0, c) implies unique_func_export(
        m1,
        c,
    ) by {
        assert(m1.exports[c].kind == ExternKind::Func);
        assert forall|j: int| 0 <= j < m1.exports.len() && (#[trigger] m1.exports[j]).kind
            == ExternKind::Func implies j == c by {
            assert(m0.exports[j].kind == ExternKind::Func);
        }
    }
}

/// After growth interception of a module with no imports, the import
/// section holds at most the notification hook, which is no intrinsic, so
/// intrinsics injection has nothing to do and emits nothing.
proof fn lemma_no_intrinsics_when_empty(m3: SpecModule, m4: SpecModule, changed: bool)
    requires
        m3.imports.len() == 0,
        !changed ==> m4 == m3,
        changed ==> m4.imports.len() == 1 && m4.imports[0] == (crate::module::SpecImport {
            module: crate::passes::glue_ns(),
            field: crate::passes::on_grow_field(),
            desc: crate::module::SpecImportDesc::Func {
                type_idx: (m3.types.len() + 1) as u32,
                snippet: None,
            },
        }),
    ensures
        forall|p: int| 0 <= p < m4.imports.len() ==> (is_intrinsic_import(
            #[trigger] m4.imports[p],
        ) ==> known_intrinsic(m4.imports[p].field)),
        intr_frag_seq(m4, m4.imports) == Seq::<SpecFragment>::empty(),
{
    assert forall|p: int| 0 <= p < m4.imports.len() implies (is_intrinsic_import(
        #[trigger] m4.imports[p],
    ) ==> known_intrinsic(m4.imports[p].field)) by {
        if changed {
            assert(crate::passes::glue_ns().len() != crate::passes::env_ns().len());
        }
    }
    if m4.imports.len() == 0 {
        assert(intr_frag_seq(m4, m4.imports) =~= Seq::<SpecFragment>::empty());
    } else {
        assert(m4.imports.len() == 1);
        assert(crate::passes::glue_ns().len() != crate::passes::env_ns().len());
        assert(!(is_intrinsic_import(m4.imports[0]) && known_intrinsic(
            m4.imports[0].field,
        )));
        assert(m4.imports.skip(1) =~= Seq::<crate::module::SpecImport>::empty());
        assert(intr_frag_seq(m4, m4.imports.skip(1)) =~= Seq::<SpecFragment>::empty());
        assert(intr_frag_seq(m4, m4.imports) =~= Seq::<SpecFragment>::empty());
    }
}

/// An empty import section yields no snippet fragments.
proof fn lemma_no_snippets_when_empty(m2: SpecModule)
    requires
        m2.imports.len() == 0,
    ensures
        frag_seq(m2, m2.imports) == Seq::<SpecFragment>::empty(),
{
    assert(frag_seq(m2, m2.imports) =~= Seq::<SpecFragment>::empty());
}

/// What one successful run returns: the transformed module bytes, the glue
/// text, and a summary for the packaging layer.
pub struct TransformOutput {
    pub module: Vec<u8>,
    pub glue: Vec<u8>,
    pub summary: Summary,
}

/// What the packaging layer's report needs: sizes before and after, and the
/// export surface that was kept.
pub struct Summary {
    pub size_before: usize,
    pub size_after: usize,
    pub exports_after: usize,
    pub retained_exports: Vec<Vec<u8>>,
}

/// Run the rewriting stages in their fixed order: parse, compact, normalize
/// the entry point, lift snippets, intercept growth, inject intrinsics.
#[verifier::rlimit(100)]
fn run_stages(bytes: &Vec<u8>, requested: Option<&Vec<u8>>) -> (r: Result<
    (Module, Vec<GlueFragment>, Vec<GlueFragment>),
    PipelineError,
>)
    ensures
        parse_spec(bytes@) matches Err(e) ==> r == Err::<
            (Module, Vec<GlueFragment>, Vec<GlueFragment>),
            PipelineError,
        >(PipelineError::Codec(e)),
        r matches Err(PipelineError::Codec(e)) ==> parse_spec(bytes@) == Err::<
            SpecModule,
            CodecError,
        >(e),
        r matches Ok(t) ==> exists|m0: SpecModule| {
            &&& parse_spec(bytes@) == Ok::<SpecModule, CodecError>(m0)
            &&& staged(
                m0,
                t.0@,
                t.1@.map_values(|f: GlueFragment| f@),
                t.2@.map_values(|f: GlueFragment| f@),
                opt_view(requested),
            )
            &&& t.0@.wf()
            &&& entry_normalized(t.0@)
            &&& (m0.imports.len() == 0 ==> t.1@.len() == 0 && t.2@.len() == 0)
        },
        r matches Err(PipelineError::MissingEntryPoint { .. }) ==> exists|
            m0: SpecModule,
            m1: SpecModule,
        | parse_spec(bytes@) == Ok::<SpecModule, CodecError>(m0) && gc_rel(m0, m1) && no_entry(
            m1,
            opt_view(requested),
        ),
        r matches Err(PipelineError::UnresolvedIntrinsic { name }) ==> exists|
            m0: SpecModule,
            m4: SpecModule,
            p: int,
        | parse_spec(bytes@) == Ok::<SpecModule, CodecError>(m0) && 0 <= p < m4.imports.len()
            && is_intrinsic_import(m4.imports[p]) && !known_intrinsic(m4.imports[p].field)
            && name@ == m4.imports[p].field,
        (parse_spec(bytes@) matches Ok(m0) && requested is None && m0.imports.len() == 0 && ((
        exists|c: int| unique_func_export(m0, c)) || (exists|i: int| 0 <= i < m0.exports.len()
            && (#[trigger] m0.exports[i]).kind == ExternKind::Func && m0.exports[i].name
            == entry_name()))) ==> r is Ok,
{
    let m0 = match crate::parse::parse(bytes) {
        Err(e) => {
            return Err(PipelineError::Codec(e));
        },
        Ok(m) => m,
    };
    // §4.2: compute the whole index map, then rewrite once.
    let rs = crate::reach::analyze(&m0);
    let m1 = crate::reach::apply(&m0, &rs);
    proof {
        lemma_gc_preserves(m0@, m1@, rs);
    }
    // §4.3: export normalization.
    let m2 = match crate::passes::normalize_exports(&m1, requested) {
        Err(e) => {
            proof {
                assert(no_entry(m1@, opt_view(requested)));
            }
            return Err(e);
        },
        Ok(m) => m,
    };
    proof {
        assert(norm_rel(m1@, m2@, opt_view(requested)));
    }
    // §4.4: inline snippet extraction.
    let (m3, sfr) = crate::passes::extract_snippets(&m2);
    proof {
        assert(snip_rel(m2@, m3@, sfr@.map_values(|f: GlueFragment| f@)));
        if m2@.imports.len() == 0 {
            lemma_no_snippets_when_empty(m2@);
            assert(sfr@.map_values(|f: GlueFragment| f@).len() == 0);
        }
    }
    // §4.5: memory-growth interception.
    let (m4, changed) = crate::passes::hook_grow(&m3);
    proof {
        assert(grow_rel(m3@, m4@, changed));
        if m3@.imports.len() == 0 {
            lemma_no_intrinsics_when_empty(m3@, m4@, changed);
        }
    }
    // §4.6: intrinsics injection.
    let (m5, gfr) = match crate::passes::inject_intrinsics(&m4) {
        Err(e) => {
            return Err(e);
        },
        Ok(t) => t,
    };
    proof {
        assert(intr_rel(m4@, m5@, gfr@.map_values(|f: GlueFragment| f@)));
        assert(staged(
            m0@,
            m5@,
            sfr@.map_values(|f: GlueFragment| f@),
            gfr@.map_values(|f: GlueFragment| f@),
            opt_view(requested),
        ));
        assert(entry_normalized(m2@));
        assert forall|i: int| 0 <= i < m5@.exports.len() implies ((#[trigger] m5@.exports[
            i]).name == m2@.exports[i].name && m5@.exports[i].kind == m2@.exports[i].kind) by {
            if changed {
                assert(m4@.exports[i].name == m3@.exports[i].name && m4@.exports[i].kind
                    == m3@.exports[i].kind);
            }
        }
        assert(entry_normalized(m5@));
    }
    Ok((m5, sfr, gfr))
}

/// Run the whole pipeline: the rewriting stages, then glue rendering and
/// serialization. On any stage's failure that stage's error surfaces and no
/// output is produced.
#[verifier::rlimit(100)]
pub fn transform(bytes: &Vec<u8>, requested: Option<&Vec<u8>>) -> (r: Result<
    TransformOutput,
    PipelineError,
>)
    ensures
        parse_spec(bytes@) matches Err(e) ==> r == Err::<TransformOutput, PipelineError>(
            PipelineError::Codec(e),
        ),
        r matches Err(PipelineError::Codec(e)) ==> parse_spec(bytes@) == Err::<
            SpecModule,
            CodecError,
        >(e),
        r matches Ok(o) ==> exists|m0: SpecModule, m5: SpecModule, sf: Seq<SpecFragment>, gf: Seq<
            SpecFragment,
        >|
            {
                &&& parse_spec(bytes@) == Ok::<SpecModule, CodecError>(m0)
                &&& staged(m0, m5, sf, gf, opt_view(requested))
                &&& o.module@ == enc_module(m5)
                &&& parse_spec(o.module@) == Ok::<SpecModule, CodecError>(m5)
                &&& entry_normalized(m5)
                &&& o.glue@ == frags_rep(sf + gf)
                &&& o.summary.size_before == bytes@.len()
                &&& o.summary.size_after == o.module@.len()
                &&& o.summary.exports_after == m5.exports.len()
                &&& o.summary.retained_exports@.len() == m5.exports.len()
                &&& forall|i: int| 0 <= i < m5.exports.len()
                    ==> (#[trigger] o.summary.retained_exports@[i])@ == m5.exports[i].name
            },
        r matches Err(PipelineError::MissingEntryPoint { .. }) ==> exists|
            m0: SpecModule,
            m1: SpecModule,
        | parse_spec(bytes@) == Ok::<SpecModule, CodecError>(m0) && gc_rel(m0, m1) && no_entry(
            m1,
            opt_view(requested),
        ),
        r matches Err(PipelineError::UnresolvedIntrinsic { name }) ==> exists|
            m0: SpecModule,
            m4: SpecModule,
            p: int,
        | parse_spec(bytes@) == Ok::<SpecModule, CodecError>(m0) && 0 <= p < m4.imports.len()
            && is_intrinsic_import(m4.imports[p]) && !known_intrinsic(m4.imports[p].field)
            && name@ == m4.imports[p].field,
        (parse_spec(bytes@) matches Ok(m0) && requested is None && m0.imports.len() == 0 && ((
        exists|c: int| unique_func_export(m0, c)) || (exists|i: int| 0 <= i < m0.exports.len()
            && (#[trigger] m0.exports[i]).kind == ExternKind::Func && m0.exports[i].name
            == entry_name()))) ==> r is Ok,
{
    let size_before = bytes.len();
    let (m5, sfr, gfr) = match run_stages(bytes, requested) {
        Err(e) => {
            return Err(e);
        },
        Ok(t) => t,
    };
    // Glue rendering: snippet fragments first, then intrinsic fragments, in
    // emission order.
    let mut frags = sfr;
    let mut gtail = gfr;
    let ghost sfv = frags@.map_values(|f: GlueFragment| f@);
    let ghost gfv = gtail@.map_values(|f: GlueFragment| f@);
    frags.append(&mut gtail);
    proof {
        assert(frags@.map_values(|f: GlueFragment| f@) =~= sfv + gfv);
    }
    let glue = match crate::glue::render_glue(&frags) {
        Err(e) => {
            return Err(e);
        },
        Ok(g) => g,
    };
    let out_bytes = crate::serial::serialize(&m5);
    proof {
        crate::codec::lemma_parse_enc(m5@);
    }
    let mut retained: Vec<Vec<u8>> = Vec::new();
    let nr = m5.exports.len();
    for i in 0..nr
        invariant
            nr == m5@.exports.len(),
            retained@.len() == i,
            forall|k: int| 0 <= k < i ==> (#[trigger] retained@[k])@ == m5@.exports[k].name,
        decreases nr - i,
    {
        proof {
            assert(m5@.exports[i as int] == m5.exports@[i as int]@);
        }
        retained.push(crate::dup::copy_bytes(&m5.exports[i].name));
    }
    let summary = Summary {
        size_before,
        size_after: out_bytes.len(),
        exports_after: m5.exports.len(),
        retained_exports: retained,
    };
    Ok(TransformOutput { module: out_bytes, glue, summary })
}

} // verus!
