//! The reachability analyzer: computes exactly which functions, globals and
//! types are reachable from the module's roots (export targets, the start
//! routine, and element-segment entries), and the stable-compaction index
//! maps used to renumber the survivors.
//!
//! Reachability is specified non-operationally: an index is reachable when it
//! belongs to every edge-closed set that contains the roots. The analyzer's
//! contract says its marks equal that set — soundness and completeness of the
//! worklist walk in one clause.

use vstd::prelude::*;

use crate::module::{
    count_func_imports, count_global_imports, lemma_count_func_imports_snoc,
    lemma_count_global_imports_snoc, lemma_count_imports_le, GlobalInit, Import, ImportDesc,
    Instr, Module, SpecImport, SpecImportDesc, SpecModule,
};

verus! {

// ---------------------------------------------------------------------------
// Edges and roots of the reference graph.
// ---------------------------------------------------------------------------

pub open spec fn instr_calls(i: Instr, b: int) -> bool {
    match i {
        Instr::Call(x) => x == b,
        _ => false,
    }
}

pub open spec fn instr_uses_type(i: Instr, t: int) -> bool {
    match i {
        Instr::CallIndirect(x) => x == t,
        _ => false,
    }
}

pub open spec fn instr_uses_global(i: Instr, g: int) -> bool {
    match i {
        Instr::GlobalGet(x) => x == g,
        Instr::GlobalSet(x) => x == g,
        _ => false,
    }
}

/// Defined function `a` (combined index) references function `b` by a direct
/// call.
pub open spec fn func_refs_func(m: SpecModule, a: int, b: int) -> bool {
    &&& m.n_func_imports() <= a < m.n_funcs()
    &&& exists|j: int| 0 <= j < m.funcs[a - m.n_func_imports()].body.len() && instr_calls(
        #[trigger] m.funcs[a - m.n_func_imports()].body[j],
        b,
    )
}

/// Function `a` (imported or defined) references type `t`: by its own
/// signature, or by an indirect-call type annotation in its body.
pub open spec fn func_refs_type(m: SpecModule, a: int, t: int) -> bool {
    if 0 <= a < m.n_func_imports() {
        exists|p: int| 0 <= p < m.imports.len() && (match (#[trigger] m.imports[p]).desc {
            SpecImportDesc::Func { type_idx, .. } => count_func_imports(m.imports.take(p)) == a
                && type_idx == t,
            _ => false,
        })
    } else if m.n_func_imports() <= a < m.n_funcs() {
        ||| m.funcs[a - m.n_func_imports()].type_idx == t
        ||| exists|j: int| 0 <= j < m.funcs[a - m.n_func_imports()].body.len()
            && instr_uses_type(#[trigger] m.funcs[a - m.n_func_imports()].body[j], t)
    } else {
        false
    }
}

/// Defined function `a` references global `g` in its body.
pub open spec fn func_refs_global(m: SpecModule, a: int, g: int) -> bool {
    &&& m.n_func_imports() <= a < m.n_funcs()
    &&& exists|j: int| 0 <= j < m.funcs[a - m.n_func_imports()].body.len() && instr_uses_global(
        #[trigger] m.funcs[a - m.n_func_imports()].body[j],
        g,
    )
}

/// Defined global `a` references global `b` in its initializer.
pub open spec fn global_refs_global(m: SpecModule, a: int, b: int) -> bool {
    &&& m.n_global_imports() <= a < m.n_globals()
    &&& match m.globals[a - m.n_global_imports()].init {
        GlobalInit::GetGlobal(x) => x == b,
        GlobalInit::Const(_) => false,
    }
}

/// The three sets are closed under every reference edge of the module.
pub open spec fn closed(m: SpecModule, fs: Set<int>, gs: Set<int>, ts: Set<int>) -> bool {
    &&& forall|a: int, b: int| fs.contains(a) && #[trigger] func_refs_func(m, a, b)
        ==> fs.contains(b)
    &&& forall|a: int, t: int| fs.contains(a) && #[trigger] func_refs_type(m, a, t)
        ==> ts.contains(t)
    &&& forall|a: int, g: int| fs.contains(a) && #[trigger] func_refs_global(m, a, g)
        ==> gs.contains(g)
    &&& forall|a: int, b: int| gs.contains(a) && #[trigger] global_refs_global(m, a, b)
        ==> gs.contains(b)
}

/// The sets contain every root: export targets, the start routine, and every
/// element-segment entry.
pub open spec fn roots_in(m: SpecModule, fs: Set<int>, gs: Set<int>) -> bool {
    &&& forall|i: int| 0 <= i < m.exports.len() && (#[trigger] m.exports[i]).kind
        == crate::module::ExternKind::Func ==> fs.contains(m.exports[i].index as int)
    &&& forall|i: int| 0 <= i < m.exports.len() && (#[trigger] m.exports[i]).kind
        == crate::module::ExternKind::Global ==> gs.contains(m.exports[i].index as int)
    &&& (m.start matches Some(f) ==> fs.contains(f as int))
    &&& forall|i: int, j: int| 0 <= i < m.elements.len() && 0 <= j
        < m.elements[i].entries.len() ==> fs.contains(
        (#[trigger] m.elements[i].entries[j]) as int,
    )
}

/// Closed and rooted: the sets an over-approximation must satisfy.
pub open spec fn cr(m: SpecModule, fs: Set<int>, gs: Set<int>, ts: Set<int>) -> bool {
    closed(m, fs, gs, ts) && roots_in(m, fs, gs)
}

/// Function `i` is reachable from the roots: it belongs to every closed,
/// rooted family of sets.
pub open spec fn reachable_func(m: SpecModule, i: int) -> bool {
    forall|fs: Set<int>, gs: Set<int>, ts: Set<int>| #[trigger] cr(m, fs, gs, ts)
        ==> fs.contains(i)
}

pub open spec fn reachable_global(m: SpecModule, i: int) -> bool {
    forall|fs: Set<int>, gs: Set<int>, ts: Set<int>| #[trigger] cr(m, fs, gs, ts)
        ==> gs.contains(i)
}

pub open spec fn reachable_type(m: SpecModule, i: int) -> bool {
    forall|fs: Set<int>, gs: Set<int>, ts: Set<int>| #[trigger] cr(m, fs, gs, ts)
        ==> ts.contains(i)
}

// ---------------------------------------------------------------------------
// Counting marks; ranks of the compaction maps.
// ---------------------------------------------------------------------------

pub open spec fn count_true(s: Seq<bool>) -> nat
    decreases s.len(),
{
    if s.len() == 0 {
        0
    } else {
        (if s[0] {
            1nat
        } else {
            0nat
        }) + count_true(s.skip(1))
    }
}

/// The new index of a surviving entry: how many survivors precede it.
pub open spec fn rank(s: Seq<bool>, i: int) -> nat {
    count_true(s.take(i))
}

pub proof fn lemma_count_true_snoc(s: Seq<bool>, x: bool)
    ensures
        count_true(s.push(x)) == count_true(s) + (if x {
            1nat
        } else {
            0nat
        }),
    decreases s.len(),
{
    if s.len() == 0 {
        assert(s.push(x).skip(1) =~= Seq::<bool>::empty());
        assert(s.push(x)[0] == x);
        assert(count_true(s.push(x)) == (if x {
            1nat
        } else {
            0nat
        }) + count_true(Seq::<bool>::empty()));
    } else {
        assert(s.push(x)[0] == s[0]);
        assert(s.push(x).skip(1) =~= s.skip(1).push(x));
        lemma_count_true_snoc(s.skip(1), x);
        assert(count_true(s.push(x)) == (if s[0] {
            1nat
        } else {
            0nat
        }) + count_true(s.skip(1).push(x)));
    }
}

pub proof fn lemma_count_true_le(s: Seq<bool>)
    ensures
        count_true(s) <= s.len(),
    decreases s.len(),
{
    if s.len() > 0 {
        lemma_count_true_le(s.skip(1));
    }
}

pub proof fn lemma_count_true_update(s: Seq<bool>, i: int)
    requires
        0 <= i < s.len(),
        !s[i],
    ensures
        count_true(s.update(i, true)) == count_true(s) + 1,
    decreases s.len(),
{
    if i == 0 {
        assert(s.update(0, true)[0]);
        assert(s.update(0, true).skip(1) =~= s.skip(1));
    } else {
        assert(s.update(i, true)[0] == s[0]);
        assert(s.update(i, true).skip(1) =~= s.skip(1).update(i - 1, true));
        lemma_count_true_update(s.skip(1), i - 1);
    }
}

/// Prefix counts grow monotonically.
pub proof fn lemma_count_take_mono(s: Seq<SpecImport>, a: int, b: int)
    requires
        0 <= a <= b <= s.len(),
    ensures
        count_func_imports(s.take(a)) <= count_func_imports(s.take(b)),
    decreases b - a,
{
    if a < b {
        lemma_count_take_mono(s, a, b - 1);
        lemma_count_func_imports_snoc(s.take(b - 1), s[b - 1]);
        assert(s.take(b) =~= s.take(b - 1).push(s[b - 1]));
    }
}

/// Prefix counts of global imports grow monotonically.
pub proof fn lemma_count_global_take_mono(s: Seq<SpecImport>, a: int, b: int)
    requires
        0 <= a <= b <= s.len(),
    ensures
        count_global_imports(s.take(a)) <= count_global_imports(s.take(b)),
    decreases b - a,
{
    if a < b {
        lemma_count_global_take_mono(s, a, b - 1);
        lemma_count_global_imports_snoc(s.take(b - 1), s[b - 1]);
        assert(s.take(b) =~= s.take(b - 1).push(s[b - 1]));
    }
}

/// At most one function import occupies each ordinal of the function index
/// space.
pub proof fn lemma_fimp_ordinal_unique(s: Seq<SpecImport>, p1: int, p2: int)
    requires
        0 <= p1 < p2 < s.len(),
        s[p1].is_func(),
        s[p2].is_func(),
    ensures
        count_func_imports(s.take(p1)) < count_func_imports(s.take(p2)),
{
    lemma_count_func_imports_snoc(s.take(p1), s[p1]);
    assert(s.take(p1 + 1) =~= s.take(p1).push(s[p1]));
    lemma_count_take_mono(s, p1 + 1, p2);
}

pub proof fn lemma_count_true_zero(s: Seq<bool>)
    requires
        forall|i: int| 0 <= i < s.len() ==> !(#[trigger] s[i]),
    ensures
        count_true(s) == 0,
    decreases s.len(),
{
    if s.len() > 0 {
        assert(forall|i: int| 0 <= i < s.skip(1).len() ==> s.skip(1)[i] == s[i + 1]);
        lemma_count_true_zero(s.skip(1));
    }
}

pub proof fn lemma_count_true_take_mono(s: Seq<bool>, a: int, b: int)
    requires
        0 <= a <= b <= s.len(),
    ensures
        count_true(s.take(a)) <= count_true(s.take(b)),
    decreases b - a,
{
    if a < b {
        lemma_count_true_take_mono(s, a, b - 1);
        lemma_count_true_snoc(s.take(b - 1), s[b - 1]);
        assert(s.take(b) =~= s.take(b - 1).push(s[b - 1]));
    }
}

/// A survivor's new index lies below the number of survivors.
pub proof fn lemma_rank_lt(s: Seq<bool>, i: int)
    requires
        0 <= i < s.len(),
        s[i],
    ensures
        rank(s, i) < count_true(s),
{
    lemma_count_true_snoc(s.take(i), s[i]);
    assert(s.take(i + 1) =~= s.take(i).push(s[i]));
    lemma_count_true_take_mono(s, i + 1, s.len() as int);
    assert(s.take(s.len() as int) =~= s);
}

/// Stable compaction keeps relative order: distinct survivors get distinct,
/// order-preserving new indices.
pub proof fn lemma_rank_mono(s: Seq<bool>, i: int, j: int)
    requires
        0 <= i < j < s.len(),
        s[i],
        s[j],
    ensures
        rank(s, i) < rank(s, j),
{
    lemma_count_true_snoc(s.take(i), s[i]);
    assert(s.take(i + 1) =~= s.take(i).push(s[i]));
    lemma_count_true_take_mono(s, i + 1, j);
}

// ---------------------------------------------------------------------------
// The worklist walk.
// ---------------------------------------------------------------------------

pub open spec fn marked_in(s: Seq<bool>, x: Set<int>) -> bool {
    forall|i: int| 0 <= i < s.len() && (#[trigger] s[i]) ==> x.contains(i)
}

/// The set of marked indices of a mark vector.
pub open spec fn keep_set(s: Seq<bool>) -> Set<int> {
    Set::new(|i: int| 0 <= i < s.len() && s[i])
}

pub open spec fn wl_has(wl: Seq<(u8, u32)>, k: u8, i: int) -> bool {
    exists|j: int| 0 <= j < wl.len() && (#[trigger] wl[j]).0 == k && wl[j].1 == i
}

/// Mark state of the walk: one mark vector per kind, the worklist, and the
/// number of marks (for termination).
pub struct Marks {
    pub f: Vec<bool>,
    pub g: Vec<bool>,
    pub t: Vec<bool>,
    pub wl: Vec<(u8, u32)>,
    pub cnt: u64,
}

impl Marks {
    /// Every mark is justified: it lies in every closed, rooted family.
    pub open spec fn sound(self, m: SpecModule) -> bool {
        forall|fs: Set<int>, gs: Set<int>, ts: Set<int>| #[trigger] cr(m, fs, gs, ts)
            ==> marked_in(self.f@, fs) && marked_in(self.g@, gs) && marked_in(self.t@, ts)
    }

    /// Every outgoing edge of function `a` leads to a mark.
    pub open spec fn fdone(self, m: SpecModule, a: int) -> bool {
        &&& forall|b: int| #[trigger] func_refs_func(m, a, b) ==> 0 <= b < self.f@.len()
            && self.f@[b]
        &&& forall|t: int| #[trigger] func_refs_type(m, a, t) ==> 0 <= t < self.t@.len()
            && self.t@[t]
        &&& forall|g: int| #[trigger] func_refs_global(m, a, g) ==> 0 <= g < self.g@.len()
            && self.g@[g]
    }

    /// Every outgoing edge of global `a` leads to a mark.
    pub open spec fn gdone(self, m: SpecModule, a: int) -> bool {
        forall|b: int| #[trigger] global_refs_global(m, a, b) ==> 0 <= b < self.g@.len()
            && self.g@[b]
    }

    /// The walk's basic invariant: mark vectors span the index spaces, the
    /// counter counts the marks, every mark is sound, and every worklist item
    /// is a mark in range.
    pub open spec fn inv(self, m: SpecModule) -> bool {
        &&& self.f@.len() == m.n_funcs()
        &&& self.g@.len() == m.n_globals()
        &&& self.t@.len() == m.types.len()
        &&& self.cnt == count_true(self.f@) + count_true(self.g@) + count_true(self.t@)
        &&& self.sound(m)
        &&& forall|j: int| 0 <= j < self.wl@.len() ==> {
            &&& (#[trigger] self.wl@[j]).0 <= 2
            &&& (self.wl@[j].0 == 0 ==> self.wl@[j].1 < self.f@.len() && self.f@[
                self.wl@[j].1 as int])
            &&& (self.wl@[j].0 == 1 ==> self.wl@[j].1 < self.g@.len() && self.g@[
                self.wl@[j].1 as int])
            &&& (self.wl@[j].0 == 2 ==> self.wl@[j].1 < self.t@.len() && self.t@[
                self.wl@[j].1 as int])
        }
    }

    /// Every mark that is not pending on the worklist has all its edges
    /// marked.
    pub open spec fn done(self, m: SpecModule) -> bool {
        &&& forall|a: int| 0 <= a < self.f@.len() && (#[trigger] self.f@[a]) && !wl_has(
            self.wl@,
            0,
            a,
        ) ==> self.fdone(m, a)
        &&& forall|a: int| 0 <= a < self.g@.len() && (#[trigger] self.g@[a]) && !wl_has(
            self.wl@,
            1,
            a,
        ) ==> self.gdone(m, a)
    }

    fn mark_f(&mut self, Ghost(m): Ghost<SpecModule>, i: u32)
        requires
            old(self).inv(m),
            m.wf(),
            (i as int) < old(self).f@.len(),
            reachable_func(m, i as int),
        ensures
            final(self).inv(m),
            final(self).f@.len() == old(self).f@.len(),
            final(self).g@ == old(self).g@,
            final(self).t@ == old(self).t@,
            forall|k: int| 0 <= k < old(self).f@.len() ==> (final(self).f@[k] == (old(self).f@[k] || k == i as int)),
            final(self).f@[i as int],
            final(self).cnt >= old(self).cnt,
            final(self).cnt == old(self).cnt ==> final(self).wl == old(self).wl && final(self).f@ == old(self).f@,
            (final(self).f@ == old(self).f@ && final(self).wl@ == old(self).wl@ && final(self).cnt == old(self).cnt) || (final(self).f@ == old(self).f@.update(
                i as int,
                true,
            ) && final(self).wl@ == old(self).wl@.push((0u8, i)) && !old(self).f@[i as int]),
    {
        let idx = i as usize;
        if !self.f[idx] {
            proof {
                lemma_count_true_update(self.f@, i as int);
                lemma_count_true_le(self.f@);
                lemma_count_true_le(self.g@);
                lemma_count_true_le(self.t@);
            }
            let ghost pre = *self;
            self.f[idx] = true;
            self.wl.push((0u8, i));
            self.cnt = self.cnt + 1;
            proof {
                assert(self.f@ =~= pre.f@.update(i as int, true));
                assert forall|fs: Set<int>, gs: Set<int>, ts: Set<int>| #[trigger] cr(
                    m,
                    fs,
                    gs,
                    ts,
                ) implies marked_in(self.f@, fs) && marked_in(self.g@, gs) && marked_in(self.t@, ts) by {
                    assert(marked_in(pre.f@, fs) && marked_in(pre.g@, gs) && marked_in(pre.t@, ts));
                    assert(fs.contains(i as int));
                }
            }
        }
    }

    fn mark_g(&mut self, Ghost(m): Ghost<SpecModule>, i: u32)
        requires
            old(self).inv(m),
            m.wf(),
            (i as int) < old(self).g@.len(),
            reachable_global(m, i as int),
        ensures
            final(self).inv(m),
            final(self).g@.len() == old(self).g@.len(),
            final(self).f@ == old(self).f@,
            final(self).t@ == old(self).t@,
            forall|k: int| 0 <= k < old(self).g@.len() ==> (final(self).g@[k] == (old(self).g@[k] || k == i as int)),
            final(self).g@[i as int],
            final(self).cnt >= old(self).cnt,
            final(self).cnt == old(self).cnt ==> final(self).wl == old(self).wl && final(self).g@ == old(self).g@,
            (final(self).g@ == old(self).g@ && final(self).wl@ == old(self).wl@ && final(self).cnt == old(self).cnt) || (final(self).g@ == old(self).g@.update(
                i as int,
                true,
            ) && final(self).wl@ == old(self).wl@.push((1u8, i)) && !old(self).g@[i as int]),
    {
        let idx = i as usize;
        if !self.g[idx] {
            proof {
                lemma_count_true_update(self.g@, i as int);
                lemma_count_true_le(self.f@);
                lemma_count_true_le(self.g@);
                lemma_count_true_le(self.t@);
            }
            let ghost pre = *self;
            self.g[idx] = true;
            self.wl.push((1u8, i));
            self.cnt = self.cnt + 1;
            proof {
                assert(self.g@ =~= pre.g@.update(i as int, true));
                assert forall|fs: Set<int>, gs: Set<int>, ts: Set<int>| #[trigger] cr(
                    m,
                    fs,
                    gs,
                    ts,
                ) implies marked_in(self.f@, fs) && marked_in(self.g@, gs) && marked_in(self.t@, ts) by {
                    assert(marked_in(pre.f@, fs) && marked_in(pre.g@, gs) && marked_in(pre.t@, ts));
                    assert(gs.contains(i as int));
                }
            }
        }
    }

    fn mark_t(&mut self, Ghost(m): Ghost<SpecModule>, i: u32)
        requires
            old(self).inv(m),
            m.wf(),
            (i as int) < old(self).t@.len(),
            reachable_type(m, i as int),
        ensures
            final(self).inv(m),
            final(self).t@.len() == old(self).t@.len(),
            final(self).f@ == old(self).f@,
            final(self).g@ == old(self).g@,
            forall|k: int| 0 <= k < old(self).t@.len() ==> (final(self).t@[k] == (old(self).t@[k] || k == i as int)),
            final(self).t@[i as int],
            final(self).cnt >= old(self).cnt,
            final(self).cnt == old(self).cnt ==> final(self).wl == old(self).wl && final(self).t@ == old(self).t@,
            (final(self).t@ == old(self).t@ && final(self).wl@ == old(self).wl@ && final(self).cnt == old(self).cnt) || (final(self).t@ == old(self).t@.update(
                i as int,
                true,
            ) && final(self).wl@ == old(self).wl@.push((2u8, i)) && !old(self).t@[i as int]),
    {
        let idx = i as usize;
        if !self.t[idx] {
            proof {
                lemma_count_true_update(self.t@, i as int);
                lemma_count_true_le(self.f@);
                lemma_count_true_le(self.g@);
                lemma_count_true_le(self.t@);
            }
            let ghost pre = *self;
            self.t[idx] = true;
            self.wl.push((2u8, i));
            self.cnt = self.cnt + 1;
            proof {
                assert(self.t@ =~= pre.t@.update(i as int, true));
                assert forall|fs: Set<int>, gs: Set<int>, ts: Set<int>| #[trigger] cr(
                    m,
                    fs,
                    gs,
                    ts,
                ) implies marked_in(self.f@, fs) && marked_in(self.g@, gs) && marked_in(self.t@, ts) by {
                    assert(marked_in(pre.f@, fs) && marked_in(pre.g@, gs) && marked_in(pre.t@, ts));
                    assert(ts.contains(i as int));
                }
            }
        }
    }
}

fn false_vec(n: usize) -> (v: Vec<bool>)
    ensures
        v@.len() == n,
        forall|i: int| 0 <= i < n ==> !(#[trigger] v@[i]),
{
    let mut v: Vec<bool> = Vec::new();
    for i in 0..n
        invariant
            v@.len() == i,
            forall|k: int| 0 <= k < i ==> !(#[trigger] v@[k]),
    {
        v.push(false);
    }
    v
}

/// Relation between the state at the start of one worklist step and any
/// later state of the same step: marks only grow, worklist entries persist,
/// and every fresh mark is pending on the worklist.
pub open spec fn step_ok(base: Marks, cur: Marks) -> bool {
    &&& cur.f@.len() == base.f@.len()
    &&& cur.g@.len() == base.g@.len()
    &&& cur.t@.len() == base.t@.len()
    &&& forall|k: int| 0 <= k < base.f@.len() && (#[trigger] base.f@[k]) ==> cur.f@[k]
    &&& forall|k: int| 0 <= k < base.g@.len() && (#[trigger] base.g@[k]) ==> cur.g@[k]
    &&& forall|k: int| 0 <= k < base.t@.len() && (#[trigger] base.t@[k]) ==> cur.t@[k]
    &&& forall|k: u8, a: int| #[trigger] wl_has(base.wl@, k, a) ==> wl_has(cur.wl@, k, a)
    &&& forall|k: int| 0 <= k < base.f@.len() && (#[trigger] cur.f@[k]) && !base.f@[k]
        ==> wl_has(cur.wl@, 0, k)
    &&& forall|k: int| 0 <= k < base.g@.len() && (#[trigger] cur.g@[k]) && !base.g@[k]
        ==> wl_has(cur.wl@, 1, k)
}

pub proof fn lemma_step_refl(base: Marks)
    ensures
        step_ok(base, base),
{
}

/// One marking operation keeps the step relation.
pub proof fn lemma_step_mark(base: Marks, pre: Marks, post: Marks, kind: u8, i: u32)
    requires
        step_ok(base, pre),
        kind == 0 ==> (post.f@ == pre.f@ && post.wl@ == pre.wl@) || (0 <= i < pre.f@.len()
            && post.f@ == pre.f@.update(i as int, true) && post.wl@ == pre.wl@.push((0u8, i))),
        kind == 1 ==> (post.g@ == pre.g@ && post.wl@ == pre.wl@) || (0 <= i < pre.g@.len()
            && post.g@ == pre.g@.update(i as int, true) && post.wl@ == pre.wl@.push((1u8, i))),
        kind == 2 ==> (post.t@ == pre.t@ && post.wl@ == pre.wl@) || (0 <= i < pre.t@.len()
            && post.t@ == pre.t@.update(i as int, true) && post.wl@ == pre.wl@.push((2u8, i))),
        kind == 0 ==> post.g@ == pre.g@ && post.t@ == pre.t@,
        kind == 1 ==> post.f@ == pre.f@ && post.t@ == pre.t@,
        kind == 2 ==> post.f@ == pre.f@ && post.g@ == pre.g@,
        kind <= 2,
    ensures
        step_ok(base, post),
{
    assert forall|k: u8, a: int| #[trigger] wl_has(pre.wl@, k, a) implies wl_has(
        post.wl@,
        k,
        a,
    ) by {
        let j = choose|j: int| 0 <= j < pre.wl@.len() && (#[trigger] pre.wl@[j]).0 == k
            && pre.wl@[j].1 == a;
        if post.wl@ != pre.wl@ {
            assert(post.wl@[j] == pre.wl@[j]);
        }
    }
    if post.wl@ != pre.wl@ {
        assert(post.wl@[post.wl@.len() - 1] == (kind, i));
        assert(wl_has(post.wl@, kind, i as int));
    }
}

/// Re-establishing `done` after popping one item and marking all its edge
/// targets.
pub proof fn lemma_done_step(pre: Marks, post: Marks, m: SpecModule, k0: u8, i0: u32)
    requires
        pre.done(m),
        pre.wl@.len() > 0,
        pre.wl@[pre.wl@.len() - 1] == (k0, i0),
        post.f@.len() == pre.f@.len(),
        post.g@.len() == pre.g@.len(),
        post.t@.len() == pre.t@.len(),
        forall|k: int| 0 <= k < pre.f@.len() && (#[trigger] pre.f@[k]) ==> post.f@[k],
        forall|k: int| 0 <= k < pre.g@.len() && (#[trigger] pre.g@[k]) ==> post.g@[k],
        forall|k: int| 0 <= k < pre.t@.len() && (#[trigger] pre.t@[k]) ==> post.t@[k],
        forall|k: u8, a: int| #[trigger] wl_has(
            pre.wl@.subrange(0, pre.wl@.len() - 1),
            k,
            a,
        ) ==> wl_has(post.wl@, k, a),
        forall|k: int| 0 <= k < pre.f@.len() && (#[trigger] post.f@[k]) && !pre.f@[k]
            ==> wl_has(post.wl@, 0, k),
        forall|k: int| 0 <= k < pre.g@.len() && (#[trigger] post.g@[k]) && !pre.g@[k]
            ==> wl_has(post.wl@, 1, k),
        k0 == 0 ==> post.fdone(m, i0 as int),
        k0 == 1 ==> post.gdone(m, i0 as int),
    ensures
        post.done(m),
{
    let ghost midwl = pre.wl@.subrange(0, pre.wl@.len() - 1);
    assert forall|a: int| 0 <= a < post.f@.len() && (#[trigger] post.f@[a]) && !wl_has(
        post.wl@,
        0,
        a,
    ) implies post.fdone(m, a) by {
        if k0 == 0 && a == i0 as int {
        } else {
            if !pre.f@[a] {
                assert(wl_has(post.wl@, 0, a));
            }
            if wl_has(pre.wl@, 0, a) {
                let j = choose|j: int| 0 <= j < pre.wl@.len() && (#[trigger] pre.wl@[j]).0 == 0
                    && pre.wl@[j].1 == a;
                if j == pre.wl@.len() - 1 {
                    assert(false);
                } else {
                    assert(midwl[j] == pre.wl@[j]);
                    assert(wl_has(midwl, 0, a));
                    assert(false);
                }
            }
            assert(pre.fdone(m, a));
            assert forall|b: int| #[trigger] func_refs_func(m, a, b) implies 0 <= b
                < post.f@.len() && post.f@[b] by {
                assert(pre.f@[b]);
            }
            assert forall|t: int| #[trigger] func_refs_type(m, a, t) implies 0 <= t
                < post.t@.len() && post.t@[t] by {
                assert(pre.t@[t]);
            }
            assert forall|g: int| #[trigger] func_refs_global(m, a, g) implies 0 <= g
                < post.g@.len() && post.g@[g] by {
                assert(pre.g@[g]);
            }
        }
    }
    assert forall|a: int| 0 <= a < post.g@.len() && (#[trigger] post.g@[a]) && !wl_has(
        post.wl@,
        1,
        a,
    ) implies post.gdone(m, a) by {
        if k0 == 1 && a == i0 as int {
        } else {
            if !pre.g@[a] {
                assert(wl_has(post.wl@, 1, a));
            }
            if wl_has(pre.wl@, 1, a) {
                let j = choose|j: int| 0 <= j < pre.wl@.len() && (#[trigger] pre.wl@[j]).0 == 1
                    && pre.wl@[j].1 == a;
                if j == pre.wl@.len() - 1 {
                    assert(false);
                } else {
                    assert(midwl[j] == pre.wl@[j]);
                    assert(wl_has(midwl, 1, a));
                    assert(false);
                }
            }
            assert(pre.gdone(m, a));
            assert forall|b: int| #[trigger] global_refs_global(m, a, b) implies 0 <= b
                < post.g@.len() && post.g@[b] by {
                assert(pre.g@[b]);
            }
        }
    }
}

/// A mark's edge targets, per instruction, are themselves marked.
pub open spec fn instr_marked(mk: Marks, ins: Instr) -> bool {
    match ins {
        Instr::Call(x) => x < mk.f@.len() && mk.f@[x as int],
        Instr::CallIndirect(x) => x < mk.t@.len() && mk.t@[x as int],
        Instr::GlobalGet(x) => x < mk.g@.len() && mk.g@[x as int],
        Instr::GlobalSet(x) => x < mk.g@.len() && mk.g@[x as int],
        _ => true,
    }
}

/// `done` survives one marking operation: the fresh mark is pending on the
/// worklist.
pub proof fn lemma_done_mark(pre: Marks, post: Marks, m: SpecModule, kind: u8, i: u32)
    requires
        pre.done(m),
        post.f@.len() == pre.f@.len(),
        post.g@.len() == pre.g@.len(),
        post.t@.len() == pre.t@.len(),
        forall|k: int| 0 <= k < pre.f@.len() && (#[trigger] pre.f@[k]) ==> post.f@[k],
        forall|k: int| 0 <= k < pre.g@.len() && (#[trigger] pre.g@[k]) ==> post.g@[k],
        forall|k: int| 0 <= k < pre.t@.len() && (#[trigger] pre.t@[k]) ==> post.t@[k],
        forall|k: u8, a: int| #[trigger] wl_has(pre.wl@, k, a) ==> wl_has(post.wl@, k, a),
        forall|k: int| 0 <= k < pre.f@.len() && (#[trigger] post.f@[k]) && !pre.f@[k]
            ==> wl_has(post.wl@, 0, k),
        forall|k: int| 0 <= k < pre.g@.len() && (#[trigger] post.g@[k]) && !pre.g@[k]
            ==> wl_has(post.wl@, 1, k),
    ensures
        post.done(m),
{
    assert forall|a: int| 0 <= a < post.f@.len() && (#[trigger] post.f@[a]) && !wl_has(
        post.wl@,
        0,
        a,
    ) implies post.fdone(m, a) by {
        if !pre.f@[a] {
            assert(wl_has(post.wl@, 0, a));
        }
        assert(!wl_has(pre.wl@, 0, a));
        assert(pre.fdone(m, a));
        assert forall|b: int| #[trigger] func_refs_func(m, a, b) implies 0 <= b < post.f@.len()
            && post.f@[b] by {
            assert(pre.f@[b]);
        }
        assert forall|t: int| #[trigger] func_refs_type(m, a, t) implies 0 <= t < post.t@.len()
            && post.t@[t] by {
            assert(pre.t@[t]);
        }
        assert forall|g: int| #[trigger] func_refs_global(m, a, g) implies 0 <= g
            < post.g@.len() && post.g@[g] by {
            assert(pre.g@[g]);
        }
    }
    assert forall|a: int| 0 <= a < post.g@.len() && (#[trigger] post.g@[a]) && !wl_has(
        post.wl@,
        1,
        a,
    ) implies post.gdone(m, a) by {
        if !pre.g@[a] {
            assert(wl_has(post.wl@, 1, a));
        }
        assert(!wl_has(pre.wl@, 1, a));
        assert(pre.gdone(m, a));
        assert forall|b: int| #[trigger] global_refs_global(m, a, b) implies 0 <= b
            < post.g@.len() && post.g@[b] by {
            assert(pre.g@[b]);
        }
    }
}

/// The step relation entailed by one `mark_*` call, from that call's exact
/// transition.
pub proof fn lemma_mark_step(pre: Marks, post: Marks, kind: u8, i: u32)
    requires
        kind == 0 ==> (post.f@ == pre.f@ && post.wl@ == pre.wl@) || (0 <= i < pre.f@.len()
            && post.f@ == pre.f@.update(i as int, true) && post.wl@ == pre.wl@.push((0u8, i))),
        kind == 1 ==> (post.g@ == pre.g@ && post.wl@ == pre.wl@) || (0 <= i < pre.g@.len()
            && post.g@ == pre.g@.update(i as int, true) && post.wl@ == pre.wl@.push((1u8, i))),
        kind == 2 ==> (post.t@ == pre.t@ && post.wl@ == pre.wl@) || (0 <= i < pre.t@.len()
            && post.t@ == pre.t@.update(i as int, true) && post.wl@ == pre.wl@.push((2u8, i))),
        kind == 0 ==> post.g@ == pre.g@ && post.t@ == pre.t@,
        kind == 1 ==> post.f@ == pre.f@ && post.t@ == pre.t@,
        kind == 2 ==> post.f@ == pre.f@ && post.g@ == pre.g@,
        kind <= 2,
    ensures
        step_ok(pre, post),
{
    lemma_step_refl(pre);
    lemma_step_mark(pre, pre, post, kind, i);
}

#[verifier::loop_isolation(false)]
fn build_fpos(md: &Module) -> (fp: Vec<u32>)
    requires
        md@.wf(),
    ensures
        fp@.len() == md@.n_func_imports(),
        forall|k: int| 0 <= k < fp@.len() ==> (#[trigger] fp@[k]) < md@.imports.len() && md@
            .imports[fp@[k] as int].is_func() && count_func_imports(
            md@.imports.take(fp@[k] as int),
        ) == k,
{
    let ghost sv = md@.imports;
    proof {
        assert(md.imports@.map_values(|x: Import| x@) =~= sv);
    }
    let mut fp: Vec<u32> = Vec::new();
    for p in 0..md.imports.len()
        invariant
            fp@.len() == count_func_imports(sv.take(p as int)),
            forall|k: int| 0 <= k < fp@.len() ==> (#[trigger] fp@[k]) < p && sv[fp@[
                k] as int].is_func() && count_func_imports(sv.take(fp@[k] as int)) == k,
    {
        proof {
            lemma_count_func_imports_snoc(sv.take(p as int), sv[p as int]);
            assert(sv.take(p + 1) =~= sv.take(p as int).push(sv[p as int]));
            assert(sv[p as int] == md.imports@[p as int]@);
            assert(sv.len() < 0x1_0000_0000);
        }
        match &md.imports[p].desc {
            ImportDesc::Func { .. } => {
                fp.push(p as u32);
            },
            _ => {},
        }
    }
    proof {
        assert(sv.take(md@.imports.len() as int) =~= sv);
    }
    fp
}

#[verifier::loop_isolation(false)]
fn build_map(keep: &Vec<bool>) -> (mp: Vec<u32>)
    requires
        keep@.len() < 0x1_0000_0000,
    ensures
        mp@.len() == keep@.len(),
        forall|i: int| 0 <= i < keep@.len() ==> (#[trigger] mp@[i]) == rank(keep@, i),
{
    let mut mp: Vec<u32> = Vec::new();
    let mut c: u32 = 0;
    for i in 0..keep.len()
        invariant
            mp@.len() == i,
            c == count_true(keep@.take(i as int)),
            c <= i,
            forall|k: int| 0 <= k < i ==> (#[trigger] mp@[k]) == rank(keep@, k),
    {
        mp.push(c);
        proof {
            lemma_count_true_snoc(keep@.take(i as int), keep@[i as int]);
            assert(keep@.take(i + 1) =~= keep@.take(i as int).push(keep@[i as int]));
        }
        if keep[i] {
            c = c + 1;
        }
    }
    mp
}

#[verifier::loop_isolation(false)]
#[verifier::rlimit(100)]
fn process_imported_func(mk: &mut Marks, md: &Module, i: u32, p: u32, Ghost(nfi): Ghost<nat>)
    requires
        old(mk).inv(md@),
        md@.wf(),
        nfi == md@.n_func_imports(),
        (i as nat) < nfi,
        (p as int) < md@.imports.len(),
        md@.imports[p as int].is_func(),
        count_func_imports(md@.imports.take(p as int)) == i as nat,
        old(mk).f@[i as int],
    ensures
        final(mk).inv(md@),
        step_ok(*old(mk), *final(mk)),
        final(mk).fdone(md@, i as int),
        final(mk).cnt >= old(mk).cnt,
        final(mk).cnt == old(mk).cnt ==> final(mk).wl == old(mk).wl,
    decreases 0int,
{
    let ghost m = md@;
    let ghost base = *mk;
    proof {
        assert(m.imports[p as int] == md.imports@[p as int]@);
        assert(m.import_ok(m.imports[p as int]));
    }
    match &md.imports[p as usize].desc {
        ImportDesc::Func { type_idx, .. } => {
            let ti = *type_idx;
            proof {
                assert(match m.imports[p as int].desc {
                    SpecImportDesc::Func { type_idx: sti, .. } => sti == ti,
                    _ => false,
                });
                assert(func_refs_type(m, i as int, ti as int));
                assert forall|fs: Set<int>, gs: Set<int>, ts: Set<int>| #[trigger] cr(
                    m,
                    fs,
                    gs,
                    ts,
                ) implies ts.contains(ti as int) by {
                    assert(fs.contains(i as int));
                }
            }
            mk.mark_t(Ghost(m), ti);
            proof {
                lemma_mark_step(base, *mk, 2, ti);
                assert forall|t: int| #[trigger] func_refs_type(m, i as int, t) implies 0 <= t
                    < mk.t@.len() && mk.t@[t] by {
                    let pp = choose|pp: int| 0 <= pp < m.imports.len() && (match (
                    #[trigger] m.imports[pp]).desc {
                        SpecImportDesc::Func { type_idx: sti, .. } => count_func_imports(
                            m.imports.take(pp),
                        ) == i as nat && sti == t,
                        _ => false,
                    });
                    if pp < p {
                        lemma_fimp_ordinal_unique(m.imports, pp, p as int);
                        assert(false);
                    } else if pp > p {
                        lemma_fimp_ordinal_unique(m.imports, p as int, pp);
                        assert(false);
                    }
                    assert(t == ti as int);
                }
                assert(final(mk).fdone(m, i as int)) by {
                    assert(forall|b: int| !func_refs_func(m, i as int, b));
                    assert(forall|g: int| !func_refs_global(m, i as int, g));
                }
            }
        },
        _ => {
            proof {
                assert(false);
            }
        },
    }
}

#[verifier::loop_isolation(false)]
#[verifier::rlimit(100)]
fn process_defined_func(mk: &mut Marks, md: &Module, i: u32, nfi: usize)
    requires
        old(mk).inv(md@),
        md@.wf(),
        nfi as nat == md@.n_func_imports(),
        nfi <= i as nat,
        (i as nat) < md@.n_funcs(),
        old(mk).f@[i as int],
    ensures
        final(mk).inv(md@),
        step_ok(*old(mk), *final(mk)),
        final(mk).fdone(md@, i as int),
        final(mk).cnt >= old(mk).cnt,
        final(mk).cnt == old(mk).cnt ==> final(mk).wl == old(mk).wl,
{
    let ghost m = md@;
    let ghost base = *mk;
    let d = (i as usize) - nfi;
    proof {
        assert(m.funcs[d as int] == md.funcs@[d as int]@);
        assert(m.func_ok(m.funcs[d as int]));
    }
    let ti = md.funcs[d].type_idx;
    proof {
        assert(func_refs_type(m, i as int, ti as int));
        assert forall|fs: Set<int>, gs: Set<int>, ts: Set<int>| #[trigger] cr(
            m,
            fs,
            gs,
            ts,
        ) implies ts.contains(ti as int) by {
            assert(fs.contains(i as int));
        }
    }
    mk.mark_t(Ghost(m), ti);
    proof {
        lemma_mark_step(base, *mk, 2, ti);
    }
    let ghost body = m.funcs[d as int].body;
    let nb = md.funcs[d].body.len();
    for j in 0..nb
        invariant
            mk.inv(m),
            step_ok(base, *mk),
            mk.t@[ti as int],
            nb == body.len(),
            forall|l: int| 0 <= l < j ==> instr_marked(*mk, #[trigger] body[l]),
            mk.cnt >= base.cnt,
            mk.cnt == base.cnt ==> mk.wl == base.wl,
    {
        let ghost pre = *mk;
        let ins = md.funcs[d].body[j];
        proof {
            assert(body[j as int] == md.funcs@[d as int].body@[j as int]);
            assert(ins == body[j as int]);
            assert(m.instr_ok(body[j as int]));
        }
        match ins {
            Instr::Call(x) => {
                proof {
                    assert(instr_calls(body[j as int], x as int));
                    assert(func_refs_func(m, i as int, x as int));
                    assert forall|fs: Set<int>, gs: Set<int>, ts: Set<int>| #[trigger] cr(
                        m,
                        fs,
                        gs,
                        ts,
                    ) implies fs.contains(x as int) by {
                        assert(fs.contains(i as int));
                    }
                }
                mk.mark_f(Ghost(m), x);
                proof {
                    lemma_mark_step(pre, *mk, 0, x);
                    lemma_step_mark(base, pre, *mk, 0, x);
                }
            },
            Instr::CallIndirect(x) => {
                proof {
                    assert(instr_uses_type(body[j as int], x as int));
                    assert(func_refs_type(m, i as int, x as int));
                    assert forall|fs: Set<int>, gs: Set<int>, ts: Set<int>| #[trigger] cr(
                        m,
                        fs,
                        gs,
                        ts,
                    ) implies ts.contains(x as int) by {
                        assert(fs.contains(i as int));
                    }
                }
                mk.mark_t(Ghost(m), x);
                proof {
                    lemma_mark_step(pre, *mk, 2, x);
                    lemma_step_mark(base, pre, *mk, 2, x);
                }
            },
            Instr::GlobalGet(x) => {
                proof {
                    assert(instr_uses_global(body[j as int], x as int));
                    assert(func_refs_global(m, i as int, x as int));
                    assert forall|fs: Set<int>, gs: Set<int>, ts: Set<int>| #[trigger] cr(
                        m,
                        fs,
                        gs,
                        ts,
                    ) implies gs.contains(x as int) by {
                        assert(fs.contains(i as int));
                    }
                }
                mk.mark_g(Ghost(m), x);
                proof {
                    lemma_mark_step(pre, *mk, 1, x);
                    lemma_step_mark(base, pre, *mk, 1, x);
                }
            },
            Instr::GlobalSet(x) => {
                proof {
                    assert(instr_uses_global(body[j as int], x as int));
                    assert(func_refs_global(m, i as int, x as int));
                    assert forall|fs: Set<int>, gs: Set<int>, ts: Set<int>| #[trigger] cr(
                        m,
                        fs,
                        gs,
                        ts,
                    ) implies gs.contains(x as int) by {
                        assert(fs.contains(i as int));
                    }
                }
                mk.mark_g(Ghost(m), x);
                proof {
                    lemma_mark_step(pre, *mk, 1, x);
                    lemma_step_mark(base, pre, *mk, 1, x);
                }
            },
            _ => {},
        }
        proof {
            assert forall|l: int| 0 <= l < j + 1 implies instr_marked(
                *mk,
                #[trigger] body[l],
            ) by {
                if l < j {
                    assert(instr_marked(pre, body[l]));
                }
            }
        }
    }
    proof {
        assert forall|b: int| #[trigger] func_refs_func(m, i as int, b) implies 0 <= b
            < mk.f@.len() && mk.f@[b] by {
            let j = choose|j: int| 0 <= j < body.len() && instr_calls(#[trigger] body[j], b);
            assert(instr_marked(*mk, body[j]));
        }
        assert forall|t: int| #[trigger] func_refs_type(m, i as int, t) implies 0 <= t
            < mk.t@.len() && mk.t@[t] by {
            if t != ti as int {
                let j = choose|j: int| 0 <= j < body.len() && instr_uses_type(
                    #[trigger] body[j],
                    t,
                );
                assert(instr_marked(*mk, body[j]));
            }
        }
        assert forall|g: int| #[trigger] func_refs_global(m, i as int, g) implies 0 <= g
            < mk.g@.len() && mk.g@[g] by {
            let j = choose|j: int| 0 <= j < body.len() && instr_uses_global(
                #[trigger] body[j],
                g,
            );
            assert(instr_marked(*mk, body[j]));
        }
    }
}

#[verifier::loop_isolation(false)]
#[verifier::rlimit(100)]
fn process_global(mk: &mut Marks, md: &Module, i: u32, ngi: usize)
    requires
        old(mk).inv(md@),
        md@.wf(),
        ngi as nat == md@.n_global_imports(),
        (i as nat) < md@.n_globals(),
        old(mk).g@[i as int],
    ensures
        final(mk).inv(md@),
        step_ok(*old(mk), *final(mk)),
        final(mk).gdone(md@, i as int),
        final(mk).cnt >= old(mk).cnt,
        final(mk).cnt == old(mk).cnt ==> final(mk).wl == old(mk).wl,
{
    let ghost m = md@;
    let ghost base = *mk;
    proof {
        lemma_step_refl(base);
    }
    if (i as usize) >= ngi {
        let d = (i as usize) - ngi;
        proof {
            assert(m.globals[d as int] == md.globals@[d as int]);
            assert(m.global_ok(m.globals[d as int]));
        }
        match md.globals[d].init {
            GlobalInit::GetGlobal(h) => {
                proof {
                    assert(global_refs_global(m, i as int, h as int));
                    assert forall|fs: Set<int>, gs: Set<int>, ts: Set<int>| #[trigger] cr(
                        m,
                        fs,
                        gs,
                        ts,
                    ) implies gs.contains(h as int) by {
                        assert(gs.contains(i as int));
                    }
                }
                mk.mark_g(Ghost(m), h);
                proof {
                    lemma_mark_step(base, *mk, 1, h);
                    assert forall|b: int| #[trigger] global_refs_global(
                        m,
                        i as int,
                        b,
                    ) implies 0 <= b < mk.g@.len() && mk.g@[b] by {
                        assert(b == h as int);
                    }
                }
            },
            GlobalInit::Const(_) => {
                proof {
                    assert(forall|b: int| !global_refs_global(m, i as int, b));
                }
            },
        }
    } else {
        proof {
            assert(forall|b: int| !global_refs_global(m, i as int, b));
        }
    }
}

/// The outcome of one reachability analysis: which entries of each index
/// space survive, and each survivor's renumbered index.
pub struct ReachSet {
    pub keep_f: Vec<bool>,
    pub keep_g: Vec<bool>,
    pub keep_t: Vec<bool>,
    pub map_f: Vec<u32>,
    pub map_g: Vec<u32>,
    pub map_t: Vec<u32>,
}

impl ReachSet {
    /// The analyzer's whole contract: the kept set is exactly the reachable
    /// set, it is closed and contains the roots, and the maps are the ranks
    /// of a stable compaction.
    pub open spec fn valid(self, m: SpecModule) -> bool {
        &&& self.keep_f@.len() == m.n_funcs()
        &&& self.keep_g@.len() == m.n_globals()
        &&& self.keep_t@.len() == m.types.len()
        &&& self.map_f@.len() == m.n_funcs()
        &&& self.map_g@.len() == m.n_globals()
        &&& self.map_t@.len() == m.types.len()
        &&& forall|i: int| 0 <= i < m.n_funcs() ==> ((#[trigger] self.keep_f@[i])
            <==> reachable_func(m, i))
        &&& forall|i: int| 0 <= i < m.n_globals() ==> ((#[trigger] self.keep_g@[i])
            <==> reachable_global(m, i))
        &&& forall|i: int| 0 <= i < m.types.len() ==> ((#[trigger] self.keep_t@[i])
            <==> reachable_type(m, i))
        &&& cr(m, keep_set(self.keep_f@), keep_set(self.keep_g@), keep_set(self.keep_t@))
        &&& forall|i: int| 0 <= i < m.n_funcs() ==> (#[trigger] self.map_f@[i]) == rank(
            self.keep_f@,
            i,
        )
        &&& forall|i: int| 0 <= i < m.n_globals() ==> (#[trigger] self.map_g@[i]) == rank(
            self.keep_g@,
            i,
        )
        &&& forall|i: int| 0 <= i < m.types.len() ==> (#[trigger] self.map_t@[i]) == rank(
            self.keep_t@,
            i,
        )
    }
}

/// Compute the reachable set of the module from its roots, and the
/// stable-compaction index maps. The marks returned are exactly the set a
/// naive walk of the reference graph of the original module reaches.
#[verifier::loop_isolation(false)]
#[verifier::rlimit(100)]
pub fn analyze(md: &Module) -> (rs: ReachSet)
    requires
        md@.wf(),
    ensures
        rs.valid(md@),
{
    let ghost m = md@;
    let nfi = crate::parse::count_fimps(&md.imports);
    let ngi = crate::parse::count_gimps(&md.imports);
    proof {
        assert(md.imports@.map_values(|x: Import| x@) =~= m.imports);
        lemma_count_imports_le(m.imports);
    }
    let nf: usize = nfi + md.funcs.len();
    let ng: usize = ngi + md.globals.len();
    let nt: usize = md.types.len();
    let fp = build_fpos(md);
    let mut mk = Marks {
        f: false_vec(nf),
        g: false_vec(ng),
        t: false_vec(nt),
        wl: Vec::new(),
        cnt: 0,
    };
    proof {
        lemma_count_true_zero(mk.f@);
        lemma_count_true_zero(mk.g@);
        lemma_count_true_zero(mk.t@);
        assert(mk.inv(m));
        assert(mk.done(m));
    }

    // Seed the roots: export targets.
    let ne = md.exports.len();
    for i in 0..ne
        invariant
            mk.inv(m),
            mk.done(m),
            forall|k: int| 0 <= k < i && (#[trigger] m.exports[k]).kind
                == crate::module::ExternKind::Func ==> mk.f@[m.exports[k].index as int],
            forall|k: int| 0 <= k < i && (#[trigger] m.exports[k]).kind
                == crate::module::ExternKind::Global ==> mk.g@[m.exports[k].index as int],
    {
        let ghost pre = mk;
        proof {
            assert(m.exports[i as int] == md.exports@[i as int]@);
            assert(m.export_ok(m.exports[i as int]));
        }
        match md.exports[i].kind {
            crate::module::ExternKind::Func => {
                let idx = md.exports[i].index;
                proof {
                    assert forall|fs: Set<int>, gs: Set<int>, ts: Set<int>| #[trigger] cr(
                        m,
                        fs,
                        gs,
                        ts,
                    ) implies fs.contains(idx as int) by {
                        assert(m.exports[i as int].kind == crate::module::ExternKind::Func);
                    }
                }
                mk.mark_f(Ghost(m), idx);
                proof {
                    lemma_mark_step(pre, mk, 0, idx);
                    lemma_done_mark(pre, mk, m, 0, idx);
                }
            },
            crate::module::ExternKind::Global => {
                let idx = md.exports[i].index;
                proof {
                    assert forall|fs: Set<int>, gs: Set<int>, ts: Set<int>| #[trigger] cr(
                        m,
                        fs,
                        gs,
                        ts,
                    ) implies gs.contains(idx as int) by {
                        assert(m.exports[i as int].kind == crate::module::ExternKind::Global);
                    }
                }
                mk.mark_g(Ghost(m), idx);
                proof {
                    lemma_mark_step(pre, mk, 1, idx);
                    lemma_done_mark(pre, mk, m, 1, idx);
                }
            },
            _ => {},
        }
    }

    // Seed the start routine.
    match md.start {
        Some(fidx) => {
            let ghost pre = mk;
            proof {
                assert forall|fs: Set<int>, gs: Set<int>, ts: Set<int>| #[trigger] cr(
                    m,
                    fs,
                    gs,
                    ts,
                ) implies fs.contains(fidx as int) by {}
            }
            mk.mark_f(Ghost(m), fidx);
            proof {
                lemma_mark_step(pre, mk, 0, fidx);
                lemma_done_mark(pre, mk, m, 0, fidx);
            }
        },
        None => {},
    }

    // Seed the element-segment entries.
    let nel = md.elements.len();
    for i in 0..nel
        invariant
            mk.inv(m),
            mk.done(m),
            forall|k: int| 0 <= k < m.exports.len() && (#[trigger] m.exports[k]).kind
                == crate::module::ExternKind::Func ==> mk.f@[m.exports[k].index as int],
            forall|k: int| 0 <= k < m.exports.len() && (#[trigger] m.exports[k]).kind
                == crate::module::ExternKind::Global ==> mk.g@[m.exports[k].index as int],
            m.start matches Some(f) ==> mk.f@[f as int],
            forall|k: int, l: int| 0 <= k < i && 0 <= l < m.elements[k].entries.len() ==> mk.f@[
                (#[trigger] m.elements[k].entries[l]) as int],
    {
        proof {
            assert(m.elements[i as int] == md.elements@[i as int]@);
            assert(m.element_ok(m.elements[i as int]));
        }
        let nent = md.elements[i].entries.len();
        for j in 0..nent
            invariant
                mk.inv(m),
                mk.done(m),
                nent == m.elements[i as int].entries.len(),
                i < m.elements.len(),
                forall|k: int| 0 <= k < m.exports.len() && (#[trigger] m.exports[k]).kind
                    == crate::module::ExternKind::Func ==> mk.f@[m.exports[k].index as int],
                forall|k: int| 0 <= k < m.exports.len() && (#[trigger] m.exports[k]).kind
                    == crate::module::ExternKind::Global ==> mk.g@[m.exports[k].index as int],
                m.start matches Some(f) ==> mk.f@[f as int],
                forall|k: int, l: int| 0 <= k < i && 0 <= l < m.elements[k].entries.len()
                    ==> mk.f@[(#[trigger] m.elements[k].entries[l]) as int],
                forall|l: int| 0 <= l < j ==> mk.f@[
                    (#[trigger] m.elements[i as int].entries[l]) as int],
        {
            let ghost pre = mk;
            let idx = md.elements[i].entries[j];
            proof {
                assert(idx == m.elements[i as int].entries[j as int]);
                assert forall|fs: Set<int>, gs: Set<int>, ts: Set<int>| #[trigger] cr(
                    m,
                    fs,
                    gs,
                    ts,
                ) implies fs.contains(idx as int) by {
                    assert(m.elements[i as int].entries[j as int] == idx);
                }
            }
            mk.mark_f(Ghost(m), idx);
            proof {
                lemma_mark_step(pre, mk, 0, idx);
                lemma_done_mark(pre, mk, m, 0, idx);
            }
        }
    }

    // Walk the worklist to closure.
    while mk.wl.len() > 0
        invariant
            mk.inv(m),
            mk.done(m),
            forall|k: int| 0 <= k < m.exports.len() && (#[trigger] m.exports[k]).kind
                == crate::module::ExternKind::Func ==> mk.f@[m.exports[k].index as int],
            forall|k: int| 0 <= k < m.exports.len() && (#[trigger] m.exports[k]).kind
                == crate::module::ExternKind::Global ==> mk.g@[m.exports[k].index as int],
            m.start matches Some(f) ==> mk.f@[f as int],
            forall|k: int, l: int| 0 <= k < m.elements.len() && 0 <= l
                < m.elements[k].entries.len() ==> mk.f@[
                (#[trigger] m.elements[k].entries[l]) as int],
        decreases (nf + ng + nt) as int - mk.cnt, mk.wl@.len(),
    {
        proof {
            lemma_count_true_le(mk.f@);
            lemma_count_true_le(mk.g@);
            lemma_count_true_le(mk.t@);
        }
        let ghost pre = mk;
        let it = mk.wl.pop();
        let ghost popbase = mk;
        match it {
            Some(item) => {
                let kind = item.0;
                let idx = item.1;
                proof {
                    assert(pre.wl@[pre.wl@.len() - 1] == item);
                    assert(mk.inv(m)) by {
                        assert forall|j: int| 0 <= j < mk.wl@.len() implies {
                            &&& (#[trigger] mk.wl@[j]).0 <= 2
                            &&& (mk.wl@[j].0 == 0 ==> mk.wl@[j].1 < mk.f@.len() && mk.f@[
                                mk.wl@[j].1 as int])
                            &&& (mk.wl@[j].0 == 1 ==> mk.wl@[j].1 < mk.g@.len() && mk.g@[
                                mk.wl@[j].1 as int])
                            &&& (mk.wl@[j].0 == 2 ==> mk.wl@[j].1 < mk.t@.len() && mk.t@[
                                mk.wl@[j].1 as int])
                        } by {
                            assert(mk.wl@[j] == pre.wl@[j]);
                        }
                    }
                }
                if kind == 0 {
                    if (idx as usize) < nfi {
                        let p = fp[idx as usize];
                        process_imported_func(&mut mk, md, idx, p, Ghost(m.n_func_imports()));
                    } else {
                        process_defined_func(&mut mk, md, idx, nfi);
                    }
                    proof {
                        lemma_done_step(pre, mk, m, 0, idx);
                    }
                } else if kind == 1 {
                    process_global(&mut mk, md, idx, ngi);
                    proof {
                        lemma_done_step(pre, mk, m, 1, idx);
                    }
                } else {
                    proof {
                        lemma_done_step(pre, mk, m, 2, idx);
                    }
                }
                proof {
                    lemma_count_true_le(mk.f@);
                    lemma_count_true_le(mk.g@);
                    lemma_count_true_le(mk.t@);
                    assert(mk.cnt <= (nf + ng + nt) as u64);
                    if mk.cnt == pre.cnt {
                        assert(mk.wl@.len() == pre.wl@.len() - 1);
                    }
                }
            },
            None => {
                proof {
                    assert(false);
                }
            },
        }
    }

    // The marks are closed and rooted, hence exactly the reachable sets.
    proof {
        let fs = keep_set(mk.f@);
        let gs = keep_set(mk.g@);
        let ts = keep_set(mk.t@);
        assert forall|a: int, b: int| fs.contains(a) && #[trigger] func_refs_func(
            m,
            a,
            b,
        ) implies fs.contains(b) by {
            assert(!wl_has(mk.wl@, 0, a));
            assert(mk.fdone(m, a));
        }
        assert forall|a: int, t: int| fs.contains(a) && #[trigger] func_refs_type(
            m,
            a,
            t,
        ) implies ts.contains(t) by {
            assert(!wl_has(mk.wl@, 0, a));
            assert(mk.fdone(m, a));
        }
        assert forall|a: int, g: int| fs.contains(a) && #[trigger] func_refs_global(
            m,
            a,
            g,
        ) implies gs.contains(g) by {
            assert(!wl_has(mk.wl@, 0, a));
            assert(mk.fdone(m, a));
        }
        assert forall|a: int, b: int| gs.contains(a) && #[trigger] global_refs_global(
            m,
            a,
            b,
        ) implies gs.contains(b) by {
            assert(!wl_has(mk.wl@, 1, a));
            assert(mk.gdone(m, a));
        }
        assert forall|i: int| 0 <= i < m.exports.len() && (#[trigger] m.exports[i]).kind
            == crate::module::ExternKind::Func implies fs.contains(
            m.exports[i].index as int,
        ) by {
            assert(m.export_ok(m.exports[i]));
        }
        assert forall|i: int| 0 <= i < m.exports.len() && (#[trigger] m.exports[i]).kind
            == crate::module::ExternKind::Global implies gs.contains(
            m.exports[i].index as int,
        ) by {
            assert(m.export_ok(m.exports[i]));
        }
        assert forall|i: int, j: int| 0 <= i < m.elements.len() && 0 <= j
            < m.elements[i].entries.len() implies fs.contains(
            (#[trigger] m.elements[i].entries[j]) as int,
        ) by {
            assert(m.element_ok(m.elements[i]));
        }
        assert(cr(m, fs, gs, ts));
        assert forall|i: int| 0 <= i < m.n_funcs() implies ((#[trigger] mk.f@[i])
            <==> reachable_func(m, i)) by {
            if mk.f@[i] {
                assert forall|fs2: Set<int>, gs2: Set<int>, ts2: Set<int>| #[trigger] cr(
                    m,
                    fs2,
                    gs2,
                    ts2,
                ) implies fs2.contains(i) by {
                    assert(marked_in(mk.f@, fs2));
                }
            }
            if reachable_func(m, i) {
                assert(cr(m, fs, gs, ts));
                assert(fs.contains(i));
            }
        }
        assert forall|i: int| 0 <= i < m.n_globals() implies ((#[trigger] mk.g@[i])
            <==> reachable_global(m, i)) by {
            if mk.g@[i] {
                assert forall|fs2: Set<int>, gs2: Set<int>, ts2: Set<int>| #[trigger] cr(
                    m,
                    fs2,
                    gs2,
                    ts2,
                ) implies gs2.contains(i) by {
                    assert(marked_in(mk.g@, gs2));
                }
            }
            if reachable_global(m, i) {
                assert(gs.contains(i));
            }
        }
        assert forall|i: int| 0 <= i < m.types.len() implies ((#[trigger] mk.t@[i])
            <==> reachable_type(m, i)) by {
            if mk.t@[i] {
                assert forall|fs2: Set<int>, gs2: Set<int>, ts2: Set<int>| #[trigger] cr(
                    m,
                    fs2,
                    gs2,
                    ts2,
                ) implies ts2.contains(i) by {
                    assert(marked_in(mk.t@, ts2));
                }
            }
            if reachable_type(m, i) {
                assert(ts.contains(i));
            }
        }
    }

    let map_f = build_map(&mk.f);
    let map_g = build_map(&mk.g);
    let map_t = build_map(&mk.t);
    ReachSet { keep_f: mk.f, keep_g: mk.g, keep_t: mk.t, map_f, map_g, map_t }
}

// ---------------------------------------------------------------------------
// Applying the reachability set: stable compaction and renumbering.
// ---------------------------------------------------------------------------

pub proof fn lemma_count_true_split(s: Seq<bool>, k: int)
    requires
        0 <= k <= s.len(),
    ensures
        count_true(s) == count_true(s.take(k)) + count_true(s.skip(k)),
    decreases s.len(),
{
    if k == 0 {
        assert(s.take(0) =~= Seq::<bool>::empty());
        assert(s.skip(0) =~= s);
    } else {
        assert(s.take(k)[0] == s[0]);
        assert(s.take(k).skip(1) =~= s.skip(1).take(k - 1));
        assert(s.skip(k) =~= s.skip(1).skip(k - 1));
        lemma_count_true_split(s.skip(1), k - 1);
    }
}

/// One instruction with every cross-reference renumbered.
pub open spec fn remap_instr(ins: Instr, mf: Seq<u32>, mg: Seq<u32>, mt: Seq<u32>) -> Instr {
    match ins {
        Instr::Call(x) => Instr::Call(mf[x as int]),
        Instr::CallIndirect(x) => Instr::CallIndirect(mt[x as int]),
        Instr::GlobalGet(x) => Instr::GlobalGet(mg[x as int]),
        Instr::GlobalSet(x) => Instr::GlobalSet(mg[x as int]),
        _ => ins,
    }
}

/// One defined function with every cross-reference renumbered.
pub open spec fn remap_spec_func(
    f: crate::module::SpecFunc,
    mf: Seq<u32>,
    mg: Seq<u32>,
    mt: Seq<u32>,
) -> crate::module::SpecFunc {
    crate::module::SpecFunc {
        type_idx: mt[f.type_idx as int],
        body: f.body.map_values(|i: Instr| remap_instr(i, mf, mg, mt)),
    }
}

/// One import with its signature reference renumbered; names and any
/// attached snippet are untouched.
pub open spec fn remap_spec_import(i: SpecImport, mt: Seq<u32>) -> SpecImport {
    SpecImport {
        module: i.module,
        field: i.field,
        desc: (match i.desc {
            SpecImportDesc::Func { type_idx, snippet } => SpecImportDesc::Func {
                type_idx: mt[type_idx as int],
                snippet,
            },
            d => d,
        }),
    }
}

/// One defined global with its initializer reference renumbered.
pub open spec fn remap_spec_global(g: crate::module::Global, mg: Seq<u32>) -> crate::module::Global {
    crate::module::Global {
        init: (match g.init {
            crate::module::GlobalInit::Const(c) => crate::module::GlobalInit::Const(c),
            crate::module::GlobalInit::GetGlobal(h) => crate::module::GlobalInit::GetGlobal(
                mg[h as int],
            ),
        }),
    }
}

/// Every reference in an instruction stays under the given space sizes.
pub open spec fn instr_ok_counts(ins: Instr, cf: nat, cg: nat, ct: nat) -> bool {
    match ins {
        Instr::Call(x) => x < cf,
        Instr::CallIndirect(x) => x < ct,
        Instr::GlobalGet(x) => x < cg,
        Instr::GlobalSet(x) => x < cg,
        _ => true,
    }
}

/// Whether the import at position `p` survives compaction: non-function,
/// non-global imports always do; the others follow their ordinal's mark.
pub open spec fn import_kept(
    m: SpecModule,
    kf: Seq<bool>,
    kg: Seq<bool>,
    p: int,
) -> bool {
    if m.imports[p].is_func() {
        kf[count_func_imports(m.imports.take(p)) as int]
    } else if m.imports[p].is_global() {
        kg[count_global_imports(m.imports.take(p)) as int]
    } else {
        true
    }
}

pub open spec fn import_keep_seq(m: SpecModule, kf: Seq<bool>, kg: Seq<bool>) -> Seq<bool> {
    Seq::new(m.imports.len(), |p: int| import_kept(m, kf, kg, p))
}

#[verifier::loop_isolation(false)]
fn remap_body(body: &Vec<Instr>, rs: &ReachSet) -> (out: Vec<Instr>)
    requires
        forall|j: int| 0 <= j < body@.len() ==> instr_ok_counts(
            #[trigger] body@[j],
            rs.map_f@.len() as nat,
            rs.map_g@.len() as nat,
            rs.map_t@.len() as nat,
        ),
    ensures
        out@ == body@.map_values(
            |i: Instr| remap_instr(i, rs.map_f@, rs.map_g@, rs.map_t@),
        ),
{
    let mut out: Vec<Instr> = Vec::new();
    let n = body.len();
    for j in 0..n
        invariant
            out@.len() == j,
            forall|l: int| 0 <= l < j ==> (#[trigger] out@[l]) == remap_instr(
                body@[l],
                rs.map_f@,
                rs.map_g@,
                rs.map_t@,
            ),
    {
        let ins = match body[j] {
            Instr::Call(x) => Instr::Call(rs.map_f[x as usize]),
            Instr::CallIndirect(x) => Instr::CallIndirect(rs.map_t[x as usize]),
            Instr::GlobalGet(x) => Instr::GlobalGet(rs.map_g[x as usize]),
            Instr::GlobalSet(x) => Instr::GlobalSet(rs.map_g[x as usize]),
            other => other,
        };
        out.push(ins);
    }
    proof {
        assert(out@ =~= body@.map_values(
            |i: Instr| remap_instr(i, rs.map_f@, rs.map_g@, rs.map_t@),
        ));
    }
    out
}

fn copy_bytes(v: &Vec<u8>) -> (out: Vec<u8>)
    ensures
        out@ == v@,
{
    vstd::slice::slice_to_vec(v.as_slice())
}

/// An import's only cross-reference stays under the given type count.
pub open spec fn import_ok_counts(i: SpecImport, ct: nat) -> bool {
    match i.desc {
        SpecImportDesc::Func { type_idx, .. } => type_idx < ct,
        _ => true,
    }
}

/// A defined function's cross-references stay under the given space sizes.
pub open spec fn func_ok_counts(f: crate::module::SpecFunc, cf: nat, cg: nat, ct: nat) -> bool {
    &&& f.type_idx < ct
    &&& forall|j: int| 0 <= j < f.body.len() ==> instr_ok_counts(
        #[trigger] f.body[j],
        cf,
        cg,
        ct,
    )
}

#[verifier::loop_isolation(false)]
fn copy_datas(v: &Vec<crate::module::Data>) -> (out: Vec<crate::module::Data>)
    ensures
        out@.len() == v@.len(),
        forall|i: int| 0 <= i < v@.len() ==> (#[trigger] out@[i])@ == v@[i]@,
{
    let mut out: Vec<crate::module::Data> = Vec::new();
    let n = v.len();
    for i in 0..n
        invariant
            out@.len() == i,
            forall|k: int| 0 <= k < i ==> (#[trigger] out@[k])@ == v@[k]@,
    {
        out.push(
            crate::module::Data { offset: v[i].offset, bytes: copy_bytes(&v[i].bytes) },
        );
    }
    out
}

#[verifier::loop_isolation(false)]
fn copy_customs(v: &Vec<crate::module::Custom>) -> (out: Vec<crate::module::Custom>)
    ensures
        out@.len() == v@.len(),
        forall|i: int| 0 <= i < v@.len() ==> (#[trigger] out@[i])@ == v@[i]@,
{
    let mut out: Vec<crate::module::Custom> = Vec::new();
    let n = v.len();
    for i in 0..n
        invariant
            out@.len() == i,
            forall|k: int| 0 <= k < i ==> (#[trigger] out@[k])@ == v@[k]@,
    {
        out.push(
            crate::module::Custom {
                name: copy_bytes(&v[i].name),
                bytes: copy_bytes(&v[i].bytes),
            },
        );
    }
    out
}


#[verifier::loop_isolation(false)]
#[verifier::rlimit(100)]
fn build_imports(md: &Module, rs: &ReachSet) -> (r: (Vec<Import>, usize, usize))
    requires
        md@.wf(),
        rs.valid(md@),
    ensures
        r.1 as nat == md@.n_func_imports(),
        r.2 as nat == md@.n_global_imports(),
        r.0@.len() == count_true(import_keep_seq(md@, rs.keep_f@, rs.keep_g@)),
        count_func_imports(r.0@.map_values(|x: Import| x@)) == count_true(
            rs.keep_f@.take(md@.n_func_imports() as int),
        ),
        count_global_imports(r.0@.map_values(|x: Import| x@)) == count_true(
            rs.keep_g@.take(md@.n_global_imports() as int),
        ),
        forall|q: int| 0 <= q < r.0@.len() ==> import_ok_counts(
            (#[trigger] r.0@[q])@,
            count_true(rs.keep_t@),
        ),
        forall|q: int| 0 <= q < r.0@.len() ==> crate::codec::import_sz((#[trigger] r.0@[q])@),
        forall|q: int|
            #![trigger import_keep_seq(md@, rs.keep_f@, rs.keep_g@)[q]]
            0 <= q < md@.imports.len() && import_keep_seq(md@, rs.keep_f@, rs.keep_g@)[q]
                ==> rank(import_keep_seq(md@, rs.keep_f@, rs.keep_g@), q) < r.0@.len()
                && r.0@[rank(import_keep_seq(md@, rs.keep_f@, rs.keep_g@), q) as int]@
                == remap_spec_import(md@.imports[q], rs.map_t@),
{
    let ghost m = md@;
    let ghost kf = rs.keep_f@;
    let ghost kg = rs.keep_g@;
    let ghost kt = rs.keep_t@;
    let ghost cf_total = count_true(kf);
    let ghost cg_total = count_true(kg);
    let ghost ct_total = count_true(kt);
    let ghost fsx = keep_set(kf);
    let ghost gsx = keep_set(kg);
    let ghost tsx = keep_set(kt);
    proof {
        assert(cr(m, fsx, gsx, tsx));
        lemma_count_imports_le(m.imports);
    }
    let ghost iks = import_keep_seq(m, kf, kg);
    let mut nimports: Vec<Import> = Vec::new();
    let mut cf: usize = 0;
    let mut cg: usize = 0;
    let nim = md.imports.len();
    for p in 0..nim
        invariant
            cf as nat == count_func_imports(m.imports.take(p as int)),
            cg as nat == count_global_imports(m.imports.take(p as int)),
            cf <= p,
            cg <= p,
            nimports@.len() == count_true(iks.take(p as int)),
            count_func_imports(nimports@.map_values(|x: Import| x@)) == count_true(
                kf.take(cf as int),
            ),
            count_global_imports(nimports@.map_values(|x: Import| x@)) == count_true(
                kg.take(cg as int),
            ),
            forall|q: int| 0 <= q < nimports@.len() ==> import_ok_counts(
                (#[trigger] nimports@[q])@,
                ct_total,
            ),
            forall|q: int| 0 <= q < nimports@.len() ==> crate::codec::import_sz(
                (#[trigger] nimports@[q])@,
            ),
            forall|q: int|
                #![trigger iks[q]]
                0 <= q < p && iks[q] ==> rank(iks, q) < nimports@.len() && nimports@[rank(
                    iks,
                    q,
                ) as int]@ == remap_spec_import(m.imports[q], rs.map_t@),
    {
        let ghost svp = m.imports[p as int];
        proof {
            assert(svp == md.imports@[p as int]@);
            assert(m.import_ok(svp));
            lemma_count_func_imports_snoc(m.imports.take(p as int), svp);
            lemma_count_global_imports_snoc(m.imports.take(p as int), svp);
            assert(m.imports.take(p + 1) =~= m.imports.take(p as int).push(svp));
            lemma_count_true_snoc(iks.take(p as int), iks[p as int]);
            assert(iks.take(p + 1) =~= iks.take(p as int).push(iks[p as int]));
            lemma_count_imports_le(m.imports.take(p as int));
            assert(m.imports.take(p as int).len() == p);
        }
        let ghost pre_imps = nimports@;
        let mut kept = false;
        match &md.imports[p].desc {
            ImportDesc::Func { type_idx, snippet } => {
                proof {
                    assert(svp.is_func());
                    lemma_count_take_mono(m.imports, p + 1, nim as int);
                    assert(m.imports.take(nim as int) =~= m.imports);
                    assert(cf + 1 <= m.n_func_imports());
                    assert(iks[p as int] == kf[cf as int]);
                }
                if rs.keep_f[cf] {
                    proof {
                        assert(match m.imports[p as int].desc {
                            SpecImportDesc::Func { type_idx: sti, .. } => sti == *type_idx
                                && count_func_imports(m.imports.take(p as int)) == cf as nat,
                            _ => false,
                        });
                        assert(func_refs_type(m, cf as int, (*type_idx) as int));
                        assert(fsx.contains(cf as int));
                        assert(tsx.contains((*type_idx) as int));
                        lemma_rank_lt(kt, (*type_idx) as int);
                    }
                    let nd = ImportDesc::Func {
                        type_idx: rs.map_t[(*type_idx) as usize],
                        snippet: match snippet {
                            Some(b) => Some(copy_bytes(b)),
                            None => None,
                        },
                    };
                    nimports.push(
                        Import {
                            module: copy_bytes(&md.imports[p].module),
                            field: copy_bytes(&md.imports[p].field),
                            desc: nd,
                        },
                    );
                    kept = true;
                }
                cf = cf + 1;
            },
            ImportDesc::Global => {
                proof {
                    assert(svp.is_global());
                    lemma_count_global_take_mono(m.imports, p + 1, nim as int);
                    assert(m.imports.take(nim as int) =~= m.imports);
                    assert(cg + 1 <= m.n_global_imports());
                    assert(iks[p as int] == kg[cg as int]);
                }
                if rs.keep_g[cg] {
                    nimports.push(
                        Import {
                            module: copy_bytes(&md.imports[p].module),
                            field: copy_bytes(&md.imports[p].field),
                            desc: ImportDesc::Global,
                        },
                    );
                    kept = true;
                }
                cg = cg + 1;
            },
            ImportDesc::Table => {
                nimports.push(
                    Import {
                        module: copy_bytes(&md.imports[p].module),
                        field: copy_bytes(&md.imports[p].field),
                        desc: ImportDesc::Table,
                    },
                );
                kept = true;
            },
            ImportDesc::Memory => {
                nimports.push(
                    Import {
                        module: copy_bytes(&md.imports[p].module),
                        field: copy_bytes(&md.imports[p].field),
                        desc: ImportDesc::Memory,
                    },
                );
                kept = true;
            },
        }
        proof {
            if kept {
                assert(nimports@ =~= pre_imps.push(nimports@[nimports@.len() - 1]));
                assert(iks[p as int]);
                assert(rank(iks, p as int) == pre_imps.len());
                assert(nimports@[pre_imps.len() as int]@ == remap_spec_import(
                    svp,
                    rs.map_t@,
                ));
                assert forall|q: int|
                    #![trigger iks[q]]
                    0 <= q < p + 1 && iks[q] implies rank(iks, q) < nimports@.len()
                    && nimports@[rank(iks, q) as int]@ == remap_spec_import(
                    m.imports[q],
                    rs.map_t@,
                ) by {
                    if q < p {
                        lemma_count_true_snoc(iks.take(q), iks[q]);
                        assert(iks.take(q + 1) =~= iks.take(q).push(iks[q]));
                        lemma_count_true_take_mono(iks, q + 1, p as int);
                        assert(pre_imps[rank(iks, q) as int]@ == remap_spec_import(
                            m.imports[q],
                            rs.map_t@,
                        ));
                        assert(nimports@[rank(iks, q) as int] == pre_imps[rank(
                            iks,
                            q,
                        ) as int]);
                    }
                }
                assert(nimports@.map_values(|x: Import| x@) =~= pre_imps.map_values(
                    |x: Import| x@,
                ).push(nimports@[nimports@.len() - 1]@));
                crate::module::lemma_count_func_imports_snoc(
                    pre_imps.map_values(|x: Import| x@),
                    nimports@[nimports@.len() - 1]@,
                );
                crate::module::lemma_count_global_imports_snoc(
                    pre_imps.map_values(|x: Import| x@),
                    nimports@[nimports@.len() - 1]@,
                );
            }
            if !kept {
                assert(!iks[p as int]);
            }
            if svp.is_func() {
                lemma_count_true_snoc(kf.take(cf as int - 1), kf[cf as int - 1]);
                assert(kf.take(cf as int) =~= kf.take(cf as int - 1).push(kf[cf as int - 1]));
            }
            if svp.is_global() {
                lemma_count_true_snoc(kg.take(cg as int - 1), kg[cg as int - 1]);
                assert(kg.take(cg as int) =~= kg.take(cg as int - 1).push(kg[cg as int - 1]));
            }
        }
    }
    proof {
        assert(m.imports.take(nim as int) =~= m.imports);
        assert(iks.take(nim as int) =~= iks);
        assert(cf as nat == m.n_func_imports());
        assert(cg as nat == m.n_global_imports());
        assert(kf.take(cf as int).len() == cf as int);
    }
    (nimports, cf, cg)
}

#[verifier::loop_isolation(false)]
#[verifier::rlimit(100)]
fn build_funcs(md: &Module, rs: &ReachSet, nfi: usize) -> (r: Vec<crate::module::Func>)
    requires
        md@.wf(),
        rs.valid(md@),
        nfi as nat == md@.n_func_imports(),
    ensures
        r@.len() == count_true(rs.keep_f@.skip(nfi as int)),
        forall|q: int| 0 <= q < r@.len() ==> func_ok_counts(
            (#[trigger] r@[q])@,
            count_true(rs.keep_f@),
            count_true(rs.keep_g@),
            count_true(rs.keep_t@),
        ),
        forall|q: int| 0 <= q < r@.len() ==> (#[trigger] r@[q]).body@.len() < 0x1_0000_0000,
        forall|k: int|
            #![trigger rs.keep_f@.skip(nfi as int)[k]]
            0 <= k < md@.funcs.len() && rs.keep_f@.skip(nfi as int)[k] ==> rank(
                rs.keep_f@.skip(nfi as int),
                k,
            ) < r@.len() && r@[rank(rs.keep_f@.skip(nfi as int), k) as int]@
                == remap_spec_func(md@.funcs[k], rs.map_f@, rs.map_g@, rs.map_t@),
{
    let ghost m = md@;
    let ghost kf = rs.keep_f@;
    let ghost kg = rs.keep_g@;
    let ghost kt = rs.keep_t@;
    let ghost cf_total = count_true(kf);
    let ghost cg_total = count_true(kg);
    let ghost ct_total = count_true(kt);
    let ghost fsx = keep_set(kf);
    let ghost gsx = keep_set(kg);
    let ghost tsx = keep_set(kt);
    proof {
        assert(cr(m, fsx, gsx, tsx));
        lemma_count_imports_le(m.imports);
    }
    let ghost kfs = kf.skip(nfi as int);
    let mut nfuncs: Vec<crate::module::Func> = Vec::new();
    let nfn = md.funcs.len();
    for d in 0..nfn
        invariant
            nfuncs@.len() == count_true(kfs.take(d as int)),
            forall|q: int| 0 <= q < nfuncs@.len() ==> func_ok_counts(
                (#[trigger] nfuncs@[q])@,
                cf_total,
                cg_total,
                ct_total,
            ),
            forall|q: int| 0 <= q < nfuncs@.len() ==> (#[trigger] nfuncs@[q]).body@.len()
                < 0x1_0000_0000,
            forall|k: int|
                #![trigger kfs[k]]
                0 <= k < d && kfs[k] ==> rank(kfs, k) < nfuncs@.len() && nfuncs@[rank(
                    kfs,
                    k,
                ) as int]@ == remap_spec_func(m.funcs[k], rs.map_f@, rs.map_g@, rs.map_t@),
    {
        proof {
            lemma_count_true_snoc(kfs.take(d as int), kfs[d as int]);
            assert(kfs.take(d + 1) =~= kfs.take(d as int).push(kfs[d as int]));
            lemma_count_true_le(kfs.take(d as int));
            assert(kfs[d as int] == kf[nfi + d]);
            assert(m.funcs[d as int] == md.funcs@[d as int]@);
            assert(m.func_ok(m.funcs[d as int]));
        }
        if rs.keep_f[nfi + d] {
            let ghost a = (nfi + d) as int;
            proof {
                assert(fsx.contains(a));
                assert(func_refs_type(m, a, m.funcs[d as int].type_idx as int));
                assert(tsx.contains(m.funcs[d as int].type_idx as int));
                lemma_rank_lt(kt, m.funcs[d as int].type_idx as int);
                assert forall|j: int| 0 <= j < m.funcs[d as int].body.len() implies
                    instr_ok_counts(
                    #[trigger] m.funcs[d as int].body[j],
                    rs.map_f@.len() as nat,
                    rs.map_g@.len() as nat,
                    rs.map_t@.len() as nat,
                ) by {
                    assert(m.instr_ok(m.funcs[d as int].body[j]));
                }
            }
            let nb = remap_body(&md.funcs[d].body, rs);
            let nfv = crate::module::Func {
                type_idx: rs.map_t[md.funcs[d].type_idx as usize],
                body: nb,
            };
            proof {
                assert(nfv@.body =~= m.funcs[d as int].body.map_values(
                    |i: Instr| remap_instr(i, rs.map_f@, rs.map_g@, rs.map_t@),
                ));
                assert(nfv@ == remap_spec_func(
                    m.funcs[d as int],
                    rs.map_f@,
                    rs.map_g@,
                    rs.map_t@,
                ));
                assert forall|j: int| 0 <= j < nfv@.body.len() implies instr_ok_counts(
                    #[trigger] nfv@.body[j],
                    cf_total,
                    cg_total,
                    ct_total,
                ) by {
                    let orig = m.funcs[d as int].body[j];
                    assert(nfv@.body[j] == remap_instr(orig, rs.map_f@, rs.map_g@, rs.map_t@));
                    match orig {
                        Instr::Call(x) => {
                            assert(instr_calls(orig, x as int));
                            assert(func_refs_func(m, a, x as int));
                            assert(fsx.contains(x as int));
                            lemma_rank_lt(kf, x as int);
                        },
                        Instr::CallIndirect(x) => {
                            assert(instr_uses_type(orig, x as int));
                            assert(func_refs_type(m, a, x as int));
                            assert(tsx.contains(x as int));
                            lemma_rank_lt(kt, x as int);
                        },
                        Instr::GlobalGet(x) => {
                            assert(instr_uses_global(orig, x as int));
                            assert(func_refs_global(m, a, x as int));
                            assert(gsx.contains(x as int));
                            lemma_rank_lt(kg, x as int);
                        },
                        Instr::GlobalSet(x) => {
                            assert(instr_uses_global(orig, x as int));
                            assert(func_refs_global(m, a, x as int));
                            assert(gsx.contains(x as int));
                            lemma_rank_lt(kg, x as int);
                        },
                        _ => {},
                    }
                }
            }
            let ghost pre_funcs = nfuncs@;
            nfuncs.push(nfv);
            proof {
                assert(nfuncs@ =~= pre_funcs.push(nfuncs@[nfuncs@.len() - 1]));
                assert(rank(kfs, d as int) == pre_funcs.len());
                assert(nfuncs@[pre_funcs.len() as int]@ == remap_spec_func(
                    m.funcs[d as int],
                    rs.map_f@,
                    rs.map_g@,
                    rs.map_t@,
                ));
                assert forall|k: int|
                    #![trigger kfs[k]]
                    0 <= k < d + 1 && kfs[k] implies rank(kfs, k) < nfuncs@.len()
                    && nfuncs@[rank(kfs, k) as int]@ == remap_spec_func(
                    m.funcs[k],
                    rs.map_f@,
                    rs.map_g@,
                    rs.map_t@,
                ) by {
                    if k < d {
                        lemma_count_true_snoc(kfs.take(k), kfs[k]);
                        assert(kfs.take(k + 1) =~= kfs.take(k).push(kfs[k]));
                        lemma_count_true_take_mono(kfs, k + 1, d as int);
                        assert(pre_funcs[rank(kfs, k) as int]@ == remap_spec_func(
                            m.funcs[k],
                            rs.map_f@,
                            rs.map_g@,
                            rs.map_t@,
                        ));
                        assert(nfuncs@[rank(kfs, k) as int] == pre_funcs[rank(
                            kfs,
                            k,
                        ) as int]);
                    }
                }
            }
        } else {
            proof {
                assert(!kfs[d as int]);
                assert forall|k: int|
                    #![trigger kfs[k]]
                    0 <= k < d + 1 && kfs[k] implies rank(kfs, k) < nfuncs@.len()
                    && nfuncs@[rank(kfs, k) as int]@ == remap_spec_func(
                    m.funcs[k],
                    rs.map_f@,
                    rs.map_g@,
                    rs.map_t@,
                ) by {
                    assert(k < d);
                }
            }
        }
    }
    proof {
        assert(kfs.take(nfn as int) =~= kfs);
    }

    nfuncs
}

#[verifier::loop_isolation(false)]
#[verifier::rlimit(100)]
fn build_globals(md: &Module, rs: &ReachSet, ngi: usize) -> (r: Vec<crate::module::Global>)
    requires
        md@.wf(),
        rs.valid(md@),
        ngi as nat == md@.n_global_imports(),
    ensures
        r@.len() == count_true(rs.keep_g@.skip(ngi as int)),
        forall|q: int| 0 <= q < r@.len() ==> (match (#[trigger] r@[q]).init {
            crate::module::GlobalInit::Const(_) => true,
            crate::module::GlobalInit::GetGlobal(h) => h < count_true(rs.keep_g@),
        }),
        forall|k: int|
            #![trigger rs.keep_g@.skip(ngi as int)[k]]
            0 <= k < md@.globals.len() && rs.keep_g@.skip(ngi as int)[k] ==> rank(
                rs.keep_g@.skip(ngi as int),
                k,
            ) < r@.len() && r@[rank(rs.keep_g@.skip(ngi as int), k) as int]
                == remap_spec_global(md@.globals[k], rs.map_g@),
{
    let ghost m = md@;
    let ghost kf = rs.keep_f@;
    let ghost kg = rs.keep_g@;
    let ghost kt = rs.keep_t@;
    let ghost cf_total = count_true(kf);
    let ghost cg_total = count_true(kg);
    let ghost ct_total = count_true(kt);
    let ghost fsx = keep_set(kf);
    let ghost gsx = keep_set(kg);
    let ghost tsx = keep_set(kt);
    proof {
        assert(cr(m, fsx, gsx, tsx));
        lemma_count_imports_le(m.imports);
    }
    let ghost kgs = kg.skip(ngi as int);
    let mut nglobals: Vec<crate::module::Global> = Vec::new();
    let ngn = md.globals.len();
    for d in 0..ngn
        invariant
            nglobals@.len() == count_true(kgs.take(d as int)),
            forall|q: int| 0 <= q < nglobals@.len() ==> (match (
            #[trigger] nglobals@[q]).init {
                crate::module::GlobalInit::Const(_) => true,
                crate::module::GlobalInit::GetGlobal(h) => h < cg_total,
            }),
            forall|k: int|
                #![trigger kgs[k]]
                0 <= k < d && kgs[k] ==> rank(kgs, k) < nglobals@.len() && nglobals@[rank(
                    kgs,
                    k,
                ) as int] == remap_spec_global(m.globals[k], rs.map_g@),
    {
        proof {
            lemma_count_true_snoc(kgs.take(d as int), kgs[d as int]);
            assert(kgs.take(d + 1) =~= kgs.take(d as int).push(kgs[d as int]));
            lemma_count_true_le(kgs.take(d as int));
            assert(kgs[d as int] == kg[ngi + d]);
            assert(m.globals[d as int] == md.globals@[d as int]);
            assert(m.global_ok(m.globals[d as int]));
        }
        if rs.keep_g[ngi + d] {
            let ghost a = (ngi + d) as int;
            let ng2 = match md.globals[d].init {
                crate::module::GlobalInit::Const(c) => crate::module::Global {
                    init: crate::module::GlobalInit::Const(c),
                },
                crate::module::GlobalInit::GetGlobal(h) => {
                    proof {
                        assert(global_refs_global(m, a, h as int));
                        assert(gsx.contains(a));
                        assert(gsx.contains(h as int));
                        lemma_rank_lt(kg, h as int);
                    }
                    crate::module::Global {
                        init: crate::module::GlobalInit::GetGlobal(rs.map_g[h as usize]),
                    }
                },
            };
            let ghost pre_globals = nglobals@;
            nglobals.push(ng2);
            proof {
                assert(nglobals@ =~= pre_globals.push(nglobals@[nglobals@.len() - 1]));
                assert(rank(kgs, d as int) == pre_globals.len());
                assert(nglobals@[pre_globals.len() as int] == remap_spec_global(
                    m.globals[d as int],
                    rs.map_g@,
                ));
                assert forall|k: int|
                    #![trigger kgs[k]]
                    0 <= k < d + 1 && kgs[k] implies rank(kgs, k) < nglobals@.len()
                    && nglobals@[rank(kgs, k) as int] == remap_spec_global(
                    m.globals[k],
                    rs.map_g@,
                ) by {
                    if k < d {
                        lemma_count_true_snoc(kgs.take(k), kgs[k]);
                        assert(kgs.take(k + 1) =~= kgs.take(k).push(kgs[k]));
                        lemma_count_true_take_mono(kgs, k + 1, d as int);
                        assert(pre_globals[rank(kgs, k) as int] == remap_spec_global(
                            m.globals[k],
                            rs.map_g@,
                        ));
                        assert(nglobals@[rank(kgs, k) as int] == pre_globals[rank(
                            kgs,
                            k,
                        ) as int]);
                    }
                }
            }
        }
    }
    proof {
        assert(kgs.take(ngn as int) =~= kgs);
    }

    nglobals
}

/// Rewrite the module through a computed reachability set: delete everything
/// unmarked and renumber every surviving reference through the rank maps, in
/// one pass over a fully precomputed map. Custom sections, data segments,
/// the table and the memory are preserved verbatim.

/// Everything `apply` guarantees of its output, as one relation between the
/// input module, the output module, and the reachability set.
pub open spec fn apply_rel(a: SpecModule, b: SpecModule, rs: ReachSet) -> bool {
    &&& (b.wf())
    &&& (b.customs == a.customs)
    &&& (b.datas == a.datas)
    &&& (b.tables == a.tables)
    &&& (b.memory == a.memory)
    &&& (b.types.len() == count_true(rs.keep_t@))
    &&& (b.n_funcs() == count_true(rs.keep_f@))
    &&& (b.n_globals() == count_true(rs.keep_g@))
    &&& (b.n_func_imports() == count_true(rs.keep_f@.take(a.n_func_imports() as int)))
    &&& (b.funcs.len() == count_true(rs.keep_f@.skip(a.n_func_imports() as int)))
    &&& (forall|i: int| 0 <= i < a.types.len() && rs.keep_t@[i] ==> rank(rs.keep_t@, i)
            < b.types.len() && b.types[rank(rs.keep_t@, i) as int] == a.types[i])
    &&& (b.imports.len() == count_true(import_keep_seq(a, rs.keep_f@, rs.keep_g@)))
    &&& (forall|p: int|
            #![trigger import_keep_seq(a, rs.keep_f@, rs.keep_g@)[p]]
            0 <= p < a.imports.len() && import_keep_seq(a, rs.keep_f@, rs.keep_g@)[p]
                ==> rank(import_keep_seq(a, rs.keep_f@, rs.keep_g@), p) < b.imports.len()
                && b.imports[rank(import_keep_seq(a, rs.keep_f@, rs.keep_g@), p) as int]
                == remap_spec_import(a.imports[p], rs.map_t@))
    &&& (forall|d: int|
            #![trigger rs.keep_f@[a.n_func_imports() + d]]
            0 <= d < a.funcs.len() && rs.keep_f@[a.n_func_imports() + d] ==> rank(
                rs.keep_f@.skip(a.n_func_imports() as int),
                d,
            ) < b.funcs.len() && b.funcs[rank(
                rs.keep_f@.skip(a.n_func_imports() as int),
                d,
            ) as int] == remap_spec_func(a.funcs[d], rs.map_f@, rs.map_g@, rs.map_t@))
    &&& (b.n_global_imports() == count_true(rs.keep_g@.take(a.n_global_imports() as int)))
    &&& (b.globals.len() == count_true(rs.keep_g@.skip(a.n_global_imports() as int)))
    &&& (forall|d: int|
            #![trigger rs.keep_g@[a.n_global_imports() + d]]
            0 <= d < a.globals.len() && rs.keep_g@[a.n_global_imports() + d] ==> rank(
                rs.keep_g@.skip(a.n_global_imports() as int),
                d,
            ) < b.globals.len() && b.globals[rank(
                rs.keep_g@.skip(a.n_global_imports() as int),
                d,
            ) as int] == remap_spec_global(a.globals[d], rs.map_g@))
    &&& (b.exports.len() == a.exports.len())
    &&& (forall|i: int| 0 <= i < a.exports.len() ==> {
            &&& (#[trigger] b.exports[i]).name == a.exports[i].name
            &&& b.exports[i].kind == a.exports[i].kind
            &&& b.exports[i].index == (match a.exports[i].kind {
                crate::module::ExternKind::Func => rs.map_f@[a.exports[i].index as int],
                crate::module::ExternKind::Global => rs.map_g@[a.exports[i].index as int],
                _ => a.exports[i].index,
            })
        })
    &&& (b.elements.len() == a.elements.len())
    &&& (forall|i: int| 0 <= i < a.elements.len() ==> {
            &&& (#[trigger] b.elements[i]).offset == a.elements[i].offset
            &&& b.elements[i].entries.len() == a.elements[i].entries.len()
            &&& forall|j: int| 0 <= j < a.elements[i].entries.len()
                ==> (#[trigger] b.elements[i].entries[j]) == rs.map_f@[
                a.elements[i].entries[j] as int]
        })
    &&& (a.start is None ==> b.start is None)
    &&& (a.start matches Some(f) ==> b.start == Some(rs.map_f@[f as int]))
}

#[verifier::loop_isolation(false)]
#[verifier::rlimit(100)]
pub fn apply(md: &Module, rs: &ReachSet) -> (out: Module)
    requires
        md@.wf(),
        rs.valid(md@),
    ensures
        apply_rel(md@, out@, *rs),
{
    let ghost m = md@;
    let nfi = crate::parse::count_fimps(&md.imports);
    let ngi = crate::parse::count_gimps(&md.imports);
    proof {
        assert(md.imports@.map_values(|x: Import| x@) =~= m.imports);
        lemma_count_imports_le(m.imports);
    }
    let ghost kf = rs.keep_f@;
    let ghost kg = rs.keep_g@;
    let ghost kt = rs.keep_t@;
    let ghost cf_total = count_true(kf);
    let ghost cg_total = count_true(kg);
    let ghost ct_total = count_true(kt);
    let ghost fsx = keep_set(kf);
    let ghost gsx = keep_set(kg);
    let ghost tsx = keep_set(kt);
    proof {
        assert(cr(m, fsx, gsx, tsx));
    }

    // types
    let mut ntypes: Vec<crate::module::FuncType> = Vec::new();
    let nty = md.types.len();
    for i in 0..nty
        invariant
            ntypes@.len() == count_true(kt.take(i as int)),
            forall|k: int| 0 <= k < i && kt[k] ==> rank(kt, k) < ntypes@.len()
                && ntypes@[rank(kt, k) as int] == md@.types[k],
    {
        proof {
            lemma_count_true_snoc(kt.take(i as int), kt[i as int]);
            assert(kt.take(i + 1) =~= kt.take(i as int).push(kt[i as int]));
            lemma_count_true_le(kt.take(i as int));
        }
        if rs.keep_t[i] {
            ntypes.push(md.types[i]);
        }
    }
    proof {
        assert(kt.take(nty as int) =~= kt);
    }

    // imports
    let ghost iks = import_keep_seq(m, kf, kg);
    let (nimports, cf, cg) = build_imports(md, rs);
    let nfi2 = cf;
    let ngi2 = cg;

    // funcs
    let ghost kfs = kf.skip(nfi as int);
    let nfuncs = build_funcs(md, rs, nfi);
    // globals
    let ghost kgs = kg.skip(ngi as int);
    let nglobals = build_globals(md, rs, ngi);
    // exports
    let mut nexports: Vec<crate::module::Export> = Vec::new();
    let nex = md.exports.len();
    for i in 0..nex
        invariant
            nexports@.len() == i,
            forall|k: int| 0 <= k < i ==> {
                &&& (#[trigger] nexports@[k])@.name == m.exports[k].name
                &&& nexports@[k]@.kind == m.exports[k].kind
                &&& nexports@[k]@.index == (match m.exports[k].kind {
                    crate::module::ExternKind::Func => rs.map_f@[m.exports[k].index as int],
                    crate::module::ExternKind::Global => rs.map_g@[m.exports[k].index as int],
                    _ => m.exports[k].index,
                })
            },
            forall|k: int| 0 <= k < i ==> (#[trigger] nexports@[k])@.name.len()
                < 0x1_0000_0000,
    {
        proof {
            assert(m.exports[i as int] == md.exports@[i as int]@);
            assert(m.export_ok(m.exports[i as int]));
        }
        let e = &md.exports[i];
        let nidx = match e.kind {
            crate::module::ExternKind::Func => rs.map_f[e.index as usize],
            crate::module::ExternKind::Global => rs.map_g[e.index as usize],
            _ => e.index,
        };
        nexports.push(
            crate::module::Export { name: copy_bytes(&e.name), kind: e.kind, index: nidx },
        );
    }

    // elements
    let mut nelements: Vec<crate::module::Element> = Vec::new();
    let nel = md.elements.len();
    for i in 0..nel
        invariant
            nelements@.len() == i,
            forall|k: int| 0 <= k < i ==> {
                &&& (#[trigger] nelements@[k])@.offset == m.elements[k].offset
                &&& nelements@[k]@.entries.len() == m.elements[k].entries.len()
                &&& forall|j: int| 0 <= j < m.elements[k].entries.len()
                    ==> (#[trigger] nelements@[k]@.entries[j]) == rs.map_f@[
                    m.elements[k].entries[j] as int]
            },
    {
        proof {
            assert(m.elements[i as int] == md.elements@[i as int]@);
            assert(m.element_ok(m.elements[i as int]));
        }
        let mut nent: Vec<u32> = Vec::new();
        let nj = md.elements[i].entries.len();
        for j in 0..nj
            invariant
                nent@.len() == j,
                nj == m.elements[i as int].entries.len(),
                i < m.elements.len(),
                forall|l: int| 0 <= l < j ==> (#[trigger] nent@[l]) == rs.map_f@[
                    m.elements[i as int].entries[l] as int],
        {
            proof {
                assert(m.elements[i as int].entries[j as int] == md.elements@[
                    i as int].entries@[j as int]);
            }
            nent.push(rs.map_f[md.elements[i].entries[j] as usize]);
        }
        nelements.push(
            crate::module::Element { offset: md.elements[i].offset, entries: nent },
        );
    }

    // start
    let nstart = match md.start {
        Some(f) => Some(rs.map_f[f as usize]),
        None => None,
    };

    let out = Module {
        types: ntypes,
        imports: nimports,
        funcs: nfuncs,
        tables: md.tables,
        memory: md.memory,
        globals: nglobals,
        exports: nexports,
        elements: nelements,
        datas: copy_datas(&md.datas),
        customs: copy_customs(&md.customs),
        start: nstart,
    };
    proof {
        let o = out@;
        assert(o.imports =~= nimports@.map_values(|x: Import| x@));
        assert(nfi as nat == m.n_func_imports());
        assert(ngi as nat == m.n_global_imports());
        assert(kfs == rs.keep_f@.skip(m.n_func_imports() as int));
        assert(kgs == rs.keep_g@.skip(m.n_global_imports() as int));
        assert forall|d: int|
            #![trigger rs.keep_f@[m.n_func_imports() + d]]
            0 <= d < m.funcs.len() && rs.keep_f@[m.n_func_imports() + d] implies rank(
            rs.keep_f@.skip(m.n_func_imports() as int),
            d,
        ) < nfuncs@.len() && nfuncs@[rank(
            rs.keep_f@.skip(m.n_func_imports() as int),
            d,
        ) as int]@ == remap_spec_func(m.funcs[d], rs.map_f@, rs.map_g@, rs.map_t@) by {
            assert(kfs[d]);
        }
        assert forall|d: int|
            #![trigger rs.keep_g@[m.n_global_imports() + d]]
            0 <= d < m.globals.len() && rs.keep_g@[m.n_global_imports() + d] implies rank(
            rs.keep_g@.skip(m.n_global_imports() as int),
            d,
        ) < nglobals@.len() && nglobals@[rank(
            rs.keep_g@.skip(m.n_global_imports() as int),
            d,
        ) as int] == remap_spec_global(m.globals[d], rs.map_g@) by {
            assert(kgs[d]);
        }
        assert(o.funcs =~= nfuncs@.map_values(|x: crate::module::Func| x@));
        assert(o.exports =~= nexports@.map_values(|x: crate::module::Export| x@));
        assert(o.elements =~= nelements@.map_values(|x: crate::module::Element| x@));
        assert(o.datas =~= m.datas);
        assert(o.customs =~= m.customs);
        lemma_count_true_split(kf, nfi as int);
        lemma_count_true_split(kg, ngi as int);
        assert(o.n_func_imports() == count_true(kf.take(nfi as int)));
        assert(o.n_global_imports() == count_true(kg.take(ngi as int)));
        assert(o.n_funcs() == cf_total);
        assert(o.n_globals() == cg_total);
        assert(o.types.len() == ct_total);
        lemma_count_true_le(kf);
        lemma_count_true_le(kg);
        lemma_count_true_le(kt);
        lemma_count_true_le(iks);

        assert forall|i: int| 0 <= i < o.imports.len() implies o.import_ok(
            #[trigger] o.imports[i],
        ) by {
            assert(o.imports[i] == nimports@[i]@);
            assert(import_ok_counts(nimports@[i]@, ct_total));
        }
        assert forall|i: int| 0 <= i < o.funcs.len() implies o.func_ok(
            #[trigger] o.funcs[i],
        ) by {
            assert(o.funcs[i] == nfuncs@[i]@);
            assert(func_ok_counts(nfuncs@[i]@, cf_total, cg_total, ct_total));
        }
        assert forall|i: int| 0 <= i < o.exports.len() implies o.export_ok(
            #[trigger] o.exports[i],
        ) by {
            assert(o.exports[i] == nexports@[i]@);
            assert(m.export_ok(m.exports[i]));
            match m.exports[i].kind {
                crate::module::ExternKind::Func => {
                    assert(fsx.contains(m.exports[i].index as int));
                    lemma_rank_lt(kf, m.exports[i].index as int);
                },
                crate::module::ExternKind::Global => {
                    assert(gsx.contains(m.exports[i].index as int));
                    lemma_rank_lt(kg, m.exports[i].index as int);
                },
                _ => {},
            }
        }
        assert forall|i: int| 0 <= i < o.globals.len() implies o.global_ok(
            #[trigger] o.globals[i],
        ) by {
            assert(o.globals[i] == nglobals@[i]);
        }
        assert forall|i: int| 0 <= i < o.elements.len() implies o.element_ok(
            #[trigger] o.elements[i],
        ) by {
            assert(o.elements[i] == nelements@[i]@);
            assert(m.element_ok(m.elements[i]));
            assert forall|j: int| 0 <= j < o.elements[i].entries.len() implies (
            #[trigger] o.elements[i].entries[j]) < o.n_funcs() by {
                assert(o.elements[i].entries[j] == rs.map_f@[m.elements[i].entries[j] as int]);
                assert(fsx.contains(m.elements[i].entries[j] as int));
                lemma_rank_lt(kf, m.elements[i].entries[j] as int);
            }
        }
        match m.start {
            Some(f) => {
                assert(fsx.contains(f as int));
                lemma_rank_lt(kf, f as int);
            },
            None => {},
        }
        assert(o.wf_refs());

        assert forall|i: int| 0 <= i < o.imports.len() implies {
            &&& (#[trigger] o.imports[i]).module.len() < 0x1_0000_0000
            &&& o.imports[i].field.len() < 0x1_0000_0000
            &&& (o.imports[i].desc matches SpecImportDesc::Func { snippet: Some(sn), .. }
                ==> sn.len() < 0x1_0000_0000)
        } by {
            assert(o.imports[i] == nimports@[i]@);
            assert(crate::codec::import_sz(nimports@[i]@));
        }
        assert forall|i: int| 0 <= i < o.funcs.len() implies (
        #[trigger] o.funcs[i]).body.len() < 0x1_0000_0000 by {
            assert(o.funcs[i] == nfuncs@[i]@);
        }
        assert forall|i: int| 0 <= i < o.exports.len() implies (
        #[trigger] o.exports[i]).name.len() < 0x1_0000_0000 by {
            assert(o.exports[i] == nexports@[i]@);
        }
        assert forall|i: int| 0 <= i < o.elements.len() implies (
        #[trigger] o.elements[i]).entries.len() < 0x1_0000_0000 by {
            assert(o.elements[i] == nelements@[i]@);
            assert(m.elements[i].entries.len() < 0x1_0000_0000);
        }
        assert forall|i: int| 0 <= i < o.datas.len() implies (
        #[trigger] o.datas[i]).bytes.len() < 0x1_0000_0000 by {
            assert(o.datas[i] == m.datas[i]);
        }
        assert forall|i: int| 0 <= i < o.customs.len() implies (
        #[trigger] o.customs[i]).name.len() < 0x1_0000_0000 && o.customs[i].bytes.len()
            < 0x1_0000_0000 by {
            assert(o.customs[i] == m.customs[i]);
        }
        assert(o.wf_sizes());
        assert(o.wf_space());
    }
    out
}

} // verus!
