//! In-memory model of the binary module container: the structured value that
//! every pass of the pipeline reads and rewrites.
//!
//! All cross-references inside a module are positional indices into the owned
//! sequences. Function and global indices live in a combined space: imported
//! entries come first, in import-declaration order, followed by the locally
//! defined entries. `wf` states that every such reference is in bounds.

use vstd::prelude::*;

verus! {

/// A function signature: how many numeric parameters and how many results
/// (zero or one) a function takes and returns.
#[derive(Clone, Copy, Debug, PartialEq, Eq, Structural)]
pub struct FuncType {
    pub params: u32,
    pub results: u32,
}

/// The four kinds of entities a module can export.
#[derive(Clone, Copy, Debug, PartialEq, Eq, Structural)]
pub enum ExternKind {
    Func,
    Table,
    Memory,
    Global,
}

/// One instruction of a function body. Only the instructions the pipeline
/// inspects are distinguished; everything it carries through untouched is
/// `Nop`/`Const`-shaped.
#[derive(Clone, Copy, Debug, PartialEq, Eq, Structural)]
pub enum Instr {
    Nop,
    Unreachable,
    Const(u32),
    LocalGet(u32),
    GlobalGet(u32),
    GlobalSet(u32),
    Call(u32),
    CallIndirect(u32),
    MemoryGrow,
}

/// The initializer of a defined global: either a constant or a copy of
/// another global's value.
#[derive(Clone, Copy, Debug, PartialEq, Eq, Structural)]
pub enum GlobalInit {
    Const(u32),
    GetGlobal(u32),
}

/// A defined global variable.
#[derive(Clone, Copy, Debug, PartialEq, Eq, Structural)]
pub struct Global {
    pub init: GlobalInit,
}

/// The module's indirect-call table descriptor.
#[derive(Clone, Copy, Debug, PartialEq, Eq, Structural)]
pub struct Table {
    pub min: u32,
}

/// The linear-memory descriptor.
#[derive(Clone, Copy, Debug, PartialEq, Eq, Structural)]
pub struct MemoryDesc {
    pub min: u32,
    pub max: u32,
}

/// What a function import declares: its signature, and optionally an attached
/// foreign snippet meant to be satisfied by generated glue rather than by a
/// genuine host import.
#[derive(Clone, Debug, PartialEq, Eq)]
pub enum ImportDesc {
    Func { type_idx: u32, snippet: Option<Vec<u8>> },
    Table,
    Memory,
    Global,
}

/// An import declaration: a (module, field) name pair plus a descriptor.
#[derive(Clone, Debug, PartialEq, Eq)]
pub struct Import {
    pub module: Vec<u8>,
    pub field: Vec<u8>,
    pub desc: ImportDesc,
}

/// A locally defined function: its signature index and its code body.
#[derive(Clone, Debug, PartialEq, Eq)]
pub struct Func {
    pub type_idx: u32,
    pub body: Vec<Instr>,
}

/// An export declaration: a name, a kind, and the index it targets.
#[derive(Clone, Debug, PartialEq, Eq)]
pub struct Export {
    pub name: Vec<u8>,
    pub kind: ExternKind,
    pub index: u32,
}

/// A table-initializer segment: function indices placed into the table
/// starting at `offset`.
#[derive(Clone, Debug, PartialEq, Eq)]
pub struct Element {
    pub offset: u32,
    pub entries: Vec<u32>,
}

/// A data segment: raw bytes placed into linear memory at `offset`.
#[derive(Clone, Debug, PartialEq, Eq)]
pub struct Data {
    pub offset: u32,
    pub bytes: Vec<u8>,
}

/// An opaque custom section, preserved verbatim by every pass.
#[derive(Clone, Debug, PartialEq, Eq)]
pub struct Custom {
    pub name: Vec<u8>,
    pub bytes: Vec<u8>,
}

/// The root value: one parsed module.
#[derive(Clone, Debug, PartialEq, Eq)]
pub struct Module {
    pub types: Vec<FuncType>,
    pub imports: Vec<Import>,
    pub funcs: Vec<Func>,
    pub tables: Option<Table>,
    pub memory: Option<MemoryDesc>,
    pub globals: Vec<Global>,
    pub exports: Vec<Export>,
    pub elements: Vec<Element>,
    pub datas: Vec<Data>,
    pub customs: Vec<Custom>,
    pub start: Option<u32>,
}

// ---------------------------------------------------------------------------
// Mathematical mirrors: the same shapes over `Seq`, used by every contract.
// ---------------------------------------------------------------------------

#[verifier::ext_equal]
pub ghost enum SpecImportDesc {
    Func { type_idx: u32, snippet: Option<Seq<u8>> },
    Table,
    Memory,
    Global,
}

#[verifier::ext_equal]
pub ghost struct SpecImport {
    pub module: Seq<u8>,
    pub field: Seq<u8>,
    pub desc: SpecImportDesc,
}

#[verifier::ext_equal]
pub ghost struct SpecFunc {
    pub type_idx: u32,
    pub body: Seq<Instr>,
}

#[verifier::ext_equal]
pub ghost struct SpecExport {
    pub name: Seq<u8>,
    pub kind: ExternKind,
    pub index: u32,
}

#[verifier::ext_equal]
pub ghost struct SpecElement {
    pub offset: u32,
    pub entries: Seq<u32>,
}

#[verifier::ext_equal]
pub ghost struct SpecData {
    pub offset: u32,
    pub bytes: Seq<u8>,
}

#[verifier::ext_equal]
pub ghost struct SpecCustom {
    pub name: Seq<u8>,
    pub bytes: Seq<u8>,
}

#[verifier::ext_equal]
pub ghost struct SpecModule {
    pub types: Seq<FuncType>,
    pub imports: Seq<SpecImport>,
    pub funcs: Seq<SpecFunc>,
    pub tables: Option<Table>,
    pub memory: Option<MemoryDesc>,
    pub globals: Seq<Global>,
    pub exports: Seq<SpecExport>,
    pub elements: Seq<SpecElement>,
    pub datas: Seq<SpecData>,
    pub customs: Seq<SpecCustom>,
    pub start: Option<u32>,
}

impl View for ImportDesc {
    type V = SpecImportDesc;

    open spec fn view(&self) -> SpecImportDesc {
        match self {
            ImportDesc::Func { type_idx, snippet } => SpecImportDesc::Func {
                type_idx: *type_idx,
                snippet: match snippet {
                    Some(s) => Some(s@),
                    None => None,
                },
            },
            ImportDesc::Table => SpecImportDesc::Table,
            ImportDesc::Memory => SpecImportDesc::Memory,
            ImportDesc::Global => SpecImportDesc::Global,
        }
    }
}

impl View for Import {
    type V = SpecImport;

    open spec fn view(&self) -> SpecImport {
        SpecImport { module: self.module@, field: self.field@, desc: self.desc@ }
    }
}

impl View for Func {
    type V = SpecFunc;

    open spec fn view(&self) -> SpecFunc {
        SpecFunc { type_idx: self.type_idx, body: self.body@ }
    }
}

impl View for Export {
    type V = SpecExport;

    open spec fn view(&self) -> SpecExport {
        SpecExport { name: self.name@, kind: self.kind, index: self.index }
    }
}

impl View for Element {
    type V = SpecElement;

    open spec fn view(&self) -> SpecElement {
        SpecElement { offset: self.offset, entries: self.entries@ }
    }
}

impl View for Data {
    type V = SpecData;

    open spec fn view(&self) -> SpecData {
        SpecData { offset: self.offset, bytes: self.bytes@ }
    }
}

impl View for Custom {
    type V = SpecCustom;

    open spec fn view(&self) -> SpecCustom {
        SpecCustom { name: self.name@, bytes: self.bytes@ }
    }
}

impl View for Module {
    type V = SpecModule;

    open spec fn view(&self) -> SpecModule {
        SpecModule {
            types: self.types@,
            imports: self.imports@.map_values(|i: Import| i@),
            funcs: self.funcs@.map_values(|f: Func| f@),
            tables: self.tables,
            memory: self.memory,
            globals: self.globals@,
            exports: self.exports@.map_values(|e: Export| e@),
            elements: self.elements@.map_values(|e: Element| e@),
            datas: self.datas@.map_values(|d: Data| d@),
            customs: self.customs@.map_values(|c: Custom| c@),
            start: self.start,
        }
    }
}

// ---------------------------------------------------------------------------
// Index spaces and well-formedness.
// ---------------------------------------------------------------------------

impl SpecImport {
    /// Whether this import occupies a slot of the function index space.
    pub open spec fn is_func(self) -> bool {
        self.desc is Func
    }

    /// Whether this import occupies a slot of the global index space.
    pub open spec fn is_global(self) -> bool {
        self.desc is Global
    }

    /// Whether this import carries an attached foreign snippet.
    pub open spec fn has_snippet(self) -> bool {
        match self.desc {
            SpecImportDesc::Func { snippet, .. } => snippet is Some,
            _ => false,
        }
    }
}

/// How many of the imports in `s` are function imports.
pub open spec fn count_func_imports(s: Seq<SpecImport>) -> nat
    decreases s.len(),
{
    if s.len() == 0 {
        0
    } else {
        (if s[0].is_func() { 1nat } else { 0nat }) + count_func_imports(s.skip(1))
    }
}

/// How many of the imports in `s` are global imports.
pub open spec fn count_global_imports(s: Seq<SpecImport>) -> nat
    decreases s.len(),
{
    if s.len() == 0 {
        0
    } else {
        (if s[0].is_global() { 1nat } else { 0nat }) + count_global_imports(s.skip(1))
    }
}

impl SpecModule {
    /// Number of imported functions (the front of the function index space).
    pub open spec fn n_func_imports(self) -> nat {
        count_func_imports(self.imports)
    }

    /// Number of imported globals (the front of the global index space).
    pub open spec fn n_global_imports(self) -> nat {
        count_global_imports(self.imports)
    }

    /// Size of the combined function index space.
    pub open spec fn n_funcs(self) -> nat {
        self.n_func_imports() + self.funcs.len()
    }

    /// Size of the combined global index space.
    pub open spec fn n_globals(self) -> nat {
        self.n_global_imports() + self.globals.len()
    }

    /// Every index reference inside one instruction is in bounds.
    pub open spec fn instr_ok(self, i: Instr) -> bool {
        match i {
            Instr::Call(f) => f < self.n_funcs(),
            Instr::CallIndirect(t) => t < self.types.len(),
            Instr::GlobalGet(g) => g < self.n_globals(),
            Instr::GlobalSet(g) => g < self.n_globals(),
            _ => true,
        }
    }

    /// Every index reference inside one import descriptor is in bounds.
    pub open spec fn import_ok(self, i: SpecImport) -> bool {
        match i.desc {
            SpecImportDesc::Func { type_idx, .. } => type_idx < self.types.len(),
            _ => true,
        }
    }

    /// Every index reference inside one defined function is in bounds.
    pub open spec fn func_ok(self, f: SpecFunc) -> bool {
        &&& f.type_idx < self.types.len()
        &&& forall|j: int| 0 <= j < f.body.len() ==> self.instr_ok(#[trigger] f.body[j])
    }

    /// An export's target index is in bounds for its kind.
    pub open spec fn export_ok(self, e: SpecExport) -> bool {
        match e.kind {
            ExternKind::Func => e.index < self.n_funcs(),
            ExternKind::Table => e.index == 0 && self.tables is Some,
            ExternKind::Memory => e.index == 0 && self.memory is Some,
            ExternKind::Global => e.index < self.n_globals(),
        }
    }

    /// A global initializer only references globals that exist.
    pub open spec fn global_ok(self, g: Global) -> bool {
        match g.init {
            GlobalInit::Const(_) => true,
            GlobalInit::GetGlobal(h) => h < self.n_globals(),
        }
    }

    /// An element segment only lists functions that exist.
    pub open spec fn element_ok(self, e: SpecElement) -> bool {
        forall|j: int| 0 <= j < e.entries.len() ==> (#[trigger] e.entries[j]) < self.n_funcs()
    }

    /// Every index reference anywhere in the module resolves within bounds.
    pub open spec fn wf_refs(self) -> bool {
        &&& forall|i: int| 0 <= i < self.imports.len() ==> self.import_ok(#[trigger] self.imports[i])
        &&& forall|i: int| 0 <= i < self.funcs.len() ==> self.func_ok(#[trigger] self.funcs[i])
        &&& forall|i: int| 0 <= i < self.exports.len() ==> self.export_ok(#[trigger] self.exports[i])
        &&& forall|i: int| 0 <= i < self.globals.len() ==> self.global_ok(#[trigger] self.globals[i])
        &&& forall|i: int| 0 <= i < self.elements.len() ==> self.element_ok(#[trigger] self.elements[i])
        &&& (self.elements.len() > 0 ==> self.tables is Some)
        &&& (self.start matches Some(f) ==> f < self.n_funcs())
    }

    /// Every variable-length sequence is small enough for the 32-bit length
    /// fields of the container encoding.
    pub open spec fn wf_sizes(self) -> bool {
        &&& self.types.len() < 0x1_0000_0000
        &&& self.imports.len() < 0x1_0000_0000
        &&& self.funcs.len() < 0x1_0000_0000
                &&& self.globals.len() < 0x1_0000_0000
        &&& self.exports.len() < 0x1_0000_0000
        &&& self.elements.len() < 0x1_0000_0000
        &&& self.datas.len() < 0x1_0000_0000
        &&& self.customs.len() < 0x1_0000_0000
        &&& forall|i: int| 0 <= i < self.imports.len() ==> {
            &&& (#[trigger] self.imports[i]).module.len() < 0x1_0000_0000
            &&& self.imports[i].field.len() < 0x1_0000_0000
            &&& (self.imports[i].desc matches SpecImportDesc::Func { snippet: Some(s), .. }
                ==> s.len() < 0x1_0000_0000)
        }
        &&& forall|i: int| 0 <= i < self.funcs.len()
            ==> (#[trigger] self.funcs[i]).body.len() < 0x1_0000_0000
        &&& forall|i: int| 0 <= i < self.exports.len()
            ==> (#[trigger] self.exports[i]).name.len() < 0x1_0000_0000
        &&& forall|i: int| 0 <= i < self.elements.len()
            ==> (#[trigger] self.elements[i]).entries.len() < 0x1_0000_0000
        &&& forall|i: int| 0 <= i < self.datas.len()
            ==> (#[trigger] self.datas[i]).bytes.len() < 0x1_0000_0000
        &&& forall|i: int| 0 <= i < self.customs.len() ==> {
            &&& (#[trigger] self.customs[i]).name.len() < 0x1_0000_0000
            &&& self.customs[i].bytes.len() < 0x1_0000_0000
        }
    }

    /// The combined index spaces stay within 32-bit range.
    pub open spec fn wf_space(self) -> bool {
        self.n_funcs() < 0x1_0000_0000 && self.n_globals() < 0x1_0000_0000
    }

    /// A module the pipeline accepts: well-bounded references, encodable
    /// sequence lengths, and bounded index spaces.
    pub open spec fn wf(self) -> bool {
        self.wf_refs() && self.wf_sizes() && self.wf_space()
    }
}

/// Appending one import extends the function-import count by its kind.
pub proof fn lemma_count_func_imports_snoc(s: Seq<SpecImport>, x: SpecImport)
    ensures
        count_func_imports(s.push(x)) == count_func_imports(s) + (if x.is_func() {
            1nat
        } else {
            0nat
        }),
    decreases s.len(),
{
    if s.len() == 0 {
        assert(s.push(x).skip(1) =~= Seq::<SpecImport>::empty());
        assert(s.push(x)[0] == x);
        assert(count_func_imports(Seq::<SpecImport>::empty()) == 0);
        assert(count_func_imports(s.push(x)) == (if x.is_func() { 1nat } else { 0nat })
            + count_func_imports(Seq::<SpecImport>::empty()));
    } else {
        assert(s.push(x)[0] == s[0]);
        assert(s.push(x).skip(1) =~= s.skip(1).push(x));
        lemma_count_func_imports_snoc(s.skip(1), x);
        assert(count_func_imports(s.push(x)) == (if s[0].is_func() { 1nat } else { 0nat })
            + count_func_imports(s.skip(1).push(x)));
    }
}

/// Appending one import extends the global-import count by its kind.
pub proof fn lemma_count_global_imports_snoc(s: Seq<SpecImport>, x: SpecImport)
    ensures
        count_global_imports(s.push(x)) == count_global_imports(s) + (if x.is_global() {
            1nat
        } else {
            0nat
        }),
    decreases s.len(),
{
    if s.len() == 0 {
        assert(s.push(x).skip(1) =~= Seq::<SpecImport>::empty());
        assert(s.push(x)[0] == x);
        assert(count_global_imports(Seq::<SpecImport>::empty()) == 0);
        assert(count_global_imports(s.push(x)) == (if x.is_global() { 1nat } else { 0nat })
            + count_global_imports(Seq::<SpecImport>::empty()));
    } else {
        assert(s.push(x)[0] == s[0]);
        assert(s.push(x).skip(1) =~= s.skip(1).push(x));
        lemma_count_global_imports_snoc(s.skip(1), x);
        assert(count_global_imports(s.push(x)) == (if s[0].is_global() { 1nat } else { 0nat })
            + count_global_imports(s.skip(1).push(x)));
    }
}

/// The import counts never exceed the number of imports.
pub proof fn lemma_count_imports_le(s: Seq<SpecImport>)
    ensures
        count_func_imports(s) <= s.len(),
        count_global_imports(s) <= s.len(),
    decreases s.len(),
{
    if s.len() > 0 {
        lemma_count_imports_le(s.skip(1));
    }
}

/// Pointwise-equal import kinds give equal import counts.
pub proof fn lemma_count_imports_pointwise(s1: Seq<SpecImport>, s2: Seq<SpecImport>)
    requires
        s1.len() == s2.len(),
        forall|i: int| 0 <= i < s1.len() ==> ((#[trigger] s1[i]).is_func() == s2[i].is_func())
            && (s1[i].is_global() == s2[i].is_global()),
    ensures
        count_func_imports(s1) == count_func_imports(s2),
        count_global_imports(s1) == count_global_imports(s2),
    decreases s1.len(),
{
    if s1.len() > 0 {
        assert(forall|i: int| 0 <= i < s1.skip(1).len() ==> s1.skip(1)[i] == s1[i + 1]
            && s2.skip(1)[i] == s2[i + 1]);
        lemma_count_imports_pointwise(s1.skip(1), s2.skip(1));
    }
}

} // verus!
