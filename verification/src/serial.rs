//! The executable serializer: writes a module as the exact byte sequence
//! that `codec::enc_module` describes.

use vstd::prelude::*;

use crate::codec::{
    enc_byte, enc_bytes, enc_custom, enc_custom_fn, enc_data, enc_data_fn, enc_desc, enc_element,
    enc_element_fn, enc_export, enc_export_fn, enc_func, enc_func_fn, enc_functype,
    enc_functype_fn, enc_global, enc_global_fn, enc_import, enc_import_fn, enc_instr,
    enc_instr_fn, enc_kind, enc_memory, enc_memory_fn, enc_module, enc_opt, enc_seq, enc_table,
    enc_table_fn, enc_u32, enc_u32_fn, enc_vec, CONTAINER_VERSION,
};
use crate::module::{
    Custom, Data, Element, Export, ExternKind, Func, FuncType, Global, GlobalInit, Import,
    ImportDesc, Instr, MemoryDesc, Module, SpecModule, Table,
};

verus! {

/// Appending one element's encoding extends the encoding of a sequence.
pub proof fn lemma_enc_seq_snoc<X>(s: Seq<X>, x: X, f: spec_fn(X) -> Seq<u8>)
    ensures
        enc_seq(s.push(x), f) == enc_seq(s, f) + f(x),
    decreases s.len(),
{
    if s.len() == 0 {
        assert(s.push(x).skip(1) =~= Seq::<X>::empty());
        assert(s.push(x)[0] == x);
        assert(enc_seq(s.push(x), f) == f(x) + enc_seq(Seq::<X>::empty(), f));
        assert(enc_seq(s.push(x), f) =~= enc_seq(s, f) + f(x));
    } else {
        assert(s.push(x).skip(1) =~= s.skip(1).push(x));
        lemma_enc_seq_snoc(s.skip(1), x, f);
        assert(f(s[0]) + (enc_seq(s.skip(1), f) + f(x)) =~= (f(s[0]) + enc_seq(s.skip(1), f))
            + f(x));
    }
}

fn write_u32(out: &mut Vec<u8>, n: u32)
    ensures
        final(out)@ == old(out)@ + enc_u32(n),
{
    proof {
        assert(n & 0xff < 256 && (n >> 8) & 0xff < 256 && (n >> 16) & 0xff < 256 && (n >> 24)
            & 0xff < 256) by (bit_vector);
    }
    out.push((n & 0xff) as u8);
    out.push(((n >> 8) & 0xff) as u8);
    out.push(((n >> 16) & 0xff) as u8);
    out.push(((n >> 24) & 0xff) as u8);
    proof {
        assert(out@ =~= old(out)@ + enc_u32(n));
    }
}

fn write_bytes(out: &mut Vec<u8>, b: &Vec<u8>)
    requires
        b@.len() < 0x1_0000_0000,
    ensures
        final(out)@ == old(out)@ + enc_bytes(b@),
{
    write_u32(out, b.len() as u32);
    out.extend_from_slice(b.as_slice());
    proof {
        assert(out@ =~= old(out)@ + enc_bytes(b@));
    }
}

fn write_functype(out: &mut Vec<u8>, t: &FuncType)
    ensures
        final(out)@ == old(out)@ + enc_functype(*t),
{
    write_u32(out, t.params);
    write_u32(out, t.results);
    proof {
        assert(out@ =~= old(out)@ + enc_functype(*t));
    }
}

fn write_kind(out: &mut Vec<u8>, k: ExternKind)
    ensures
        final(out)@ == old(out)@ + enc_kind(k),
{
    let tag: u8 = match k {
        ExternKind::Func => 0,
        ExternKind::Table => 1,
        ExternKind::Memory => 2,
        ExternKind::Global => 3,
    };
    out.push(tag);
    proof {
        assert(out@ =~= old(out)@ + enc_kind(k));
    }
}

fn write_instr(out: &mut Vec<u8>, i: &Instr)
    ensures
        final(out)@ == old(out)@ + enc_instr(*i),
{
    match i {
        Instr::Nop => out.push(0),
        Instr::Unreachable => out.push(1),
        Instr::Const(n) => {
            out.push(2);
            write_u32(out, *n);
        },
        Instr::LocalGet(n) => {
            out.push(3);
            write_u32(out, *n);
        },
        Instr::GlobalGet(n) => {
            out.push(4);
            write_u32(out, *n);
        },
        Instr::GlobalSet(n) => {
            out.push(5);
            write_u32(out, *n);
        },
        Instr::Call(n) => {
            out.push(6);
            write_u32(out, *n);
        },
        Instr::CallIndirect(n) => {
            out.push(7);
            write_u32(out, *n);
        },
        Instr::MemoryGrow => out.push(8),
    }
    proof {
        assert(out@ =~= old(out)@ + enc_instr(*i));
    }
}

fn write_global(out: &mut Vec<u8>, g: &Global)
    ensures
        final(out)@ == old(out)@ + enc_global(*g),
{
    match g.init {
        GlobalInit::Const(n) => {
            out.push(0);
            write_u32(out, n);
        },
        GlobalInit::GetGlobal(h) => {
            out.push(1);
            write_u32(out, h);
        },
    }
    proof {
        assert(out@ =~= old(out)@ + enc_global(*g));
    }
}

fn write_desc(out: &mut Vec<u8>, d: &ImportDesc)
    requires
        d@ matches crate::module::SpecImportDesc::Func { snippet: Some(s), .. } ==> s.len()
            < 0x1_0000_0000,
    ensures
        final(out)@ == old(out)@ + enc_desc(d@),
{
    match d {
        ImportDesc::Func { type_idx, snippet } => {
            out.push(0);
            write_u32(out, *type_idx);
            match snippet {
                None => out.push(0),
                Some(b) => {
                    out.push(1);
                    write_bytes(out, b);
                },
            }
        },
        ImportDesc::Table => out.push(1),
        ImportDesc::Memory => out.push(2),
        ImportDesc::Global => out.push(3),
    }
    proof {
        assert(out@ =~= old(out)@ + enc_desc(d@));
    }
}

fn write_import(out: &mut Vec<u8>, i: &Import)
    requires
        crate::codec::import_sz(i@),
    ensures
        final(out)@ == old(out)@ + enc_import(i@),
{
    write_bytes(out, &i.module);
    write_bytes(out, &i.field);
    write_desc(out, &i.desc);
    proof {
        assert(out@ =~= old(out)@ + enc_import(i@));
    }
}

fn write_func(out: &mut Vec<u8>, f: &Func)
    requires
        f.body@.len() < 0x1_0000_0000,
    ensures
        final(out)@ == old(out)@ + enc_func(f@),
{
    write_u32(out, f.type_idx);
    write_u32(out, f.body.len() as u32);
    let ghost mid = out@;
    let n = f.body.len();
    for j in 0..n
        invariant
            out@ == mid + enc_seq(f.body@.take(j as int), enc_instr_fn()),
            n == f.body.len(),
    {
        proof {
            lemma_enc_seq_snoc(f.body@.take(j as int), f.body@[j as int], enc_instr_fn());
            assert(f.body@.take(j + 1) =~= f.body@.take(j as int).push(f.body@[j as int]));
        }
        write_instr(out, &f.body[j]);
    }
    proof {
        assert(f.body@.take(n as int) =~= f.body@);
        assert(out@ =~= old(out)@ + enc_func(f@));
    }
}

fn write_export(out: &mut Vec<u8>, e: &Export)
    requires
        e.name@.len() < 0x1_0000_0000,
    ensures
        final(out)@ == old(out)@ + enc_export(e@),
{
    write_bytes(out, &e.name);
    write_kind(out, e.kind);
    write_u32(out, e.index);
    proof {
        assert(out@ =~= old(out)@ + enc_export(e@));
    }
}

fn write_element(out: &mut Vec<u8>, e: &Element)
    requires
        e.entries@.len() < 0x1_0000_0000,
    ensures
        final(out)@ == old(out)@ + enc_element(e@),
{
    write_u32(out, e.offset);
    write_u32(out, e.entries.len() as u32);
    let ghost mid = out@;
    let n = e.entries.len();
    for j in 0..n
        invariant
            out@ == mid + enc_seq(e.entries@.take(j as int), enc_u32_fn()),
            n == e.entries.len(),
    {
        proof {
            lemma_enc_seq_snoc(e.entries@.take(j as int), e.entries@[j as int], enc_u32_fn());
            assert(e.entries@.take(j + 1) =~= e.entries@.take(j as int).push(
                e.entries@[j as int],
            ));
        }
        write_u32(out, e.entries[j]);
    }
    proof {
        assert(e.entries@.take(n as int) =~= e.entries@);
        assert(out@ =~= old(out)@ + enc_element(e@));
    }
}

fn write_data(out: &mut Vec<u8>, d: &Data)
    requires
        d.bytes@.len() < 0x1_0000_0000,
    ensures
        final(out)@ == old(out)@ + enc_data(d@),
{
    write_u32(out, d.offset);
    write_bytes(out, &d.bytes);
    proof {
        assert(out@ =~= old(out)@ + enc_data(d@));
    }
}

fn write_custom(out: &mut Vec<u8>, c: &Custom)
    requires
        c.name@.len() < 0x1_0000_0000,
        c.bytes@.len() < 0x1_0000_0000,
    ensures
        final(out)@ == old(out)@ + enc_custom(c@),
{
    write_bytes(out, &c.name);
    write_bytes(out, &c.bytes);
    proof {
        assert(out@ =~= old(out)@ + enc_custom(c@));
    }
}

fn write_types_sec(out: &mut Vec<u8>, v: &Vec<FuncType>)
    requires
        v@.len() < 0x1_0000_0000,
    ensures
        final(out)@ == old(out)@ + enc_vec(v@, enc_functype_fn()),
{
    write_u32(out, v.len() as u32);
    let ghost mid = out@;
    let n = v.len();
    for j in 0..n
        invariant
            out@ == mid + enc_seq(v@.take(j as int), enc_functype_fn()),
            n == v.len(),
    {
        proof {
            lemma_enc_seq_snoc(v@.take(j as int), v@[j as int], enc_functype_fn());
            assert(v@.take(j + 1) =~= v@.take(j as int).push(v@[j as int]));
        }
        write_functype(out, &v[j]);
    }
    proof {
        assert(v@.take(n as int) =~= v@);
        assert(out@ =~= old(out)@ + enc_vec(v@, enc_functype_fn()));
    }
}

fn write_imports_sec(out: &mut Vec<u8>, v: &Vec<Import>)
    requires
        v@.len() < 0x1_0000_0000,
        forall|i: int| 0 <= i < v@.len() ==> crate::codec::import_sz((#[trigger] v@[i])@),
    ensures
        final(out)@ == old(out)@ + enc_vec(
            v@.map_values(|x: Import| x@),
            enc_import_fn(),
        ),
{
    let ghost sv = v@.map_values(|x: Import| x@);
    write_u32(out, v.len() as u32);
    let ghost mid = out@;
    let n = v.len();
    for j in 0..n
        invariant
            out@ == mid + enc_seq(sv.take(j as int), enc_import_fn()),
            n == v.len(),
            sv == v@.map_values(|x: Import| x@),
            forall|i: int| 0 <= i < v@.len() ==> crate::codec::import_sz((#[trigger] v@[i])@),
    {
        proof {
            lemma_enc_seq_snoc(sv.take(j as int), sv[j as int], enc_import_fn());
            assert(sv.take(j + 1) =~= sv.take(j as int).push(sv[j as int]));
            assert(sv[j as int] == v@[j as int]@);
        }
        write_import(out, &v[j]);
    }
    proof {
        assert(sv.take(n as int) =~= sv);
        assert(out@ =~= old(out)@ + enc_vec(sv, enc_import_fn()));
    }
}

fn write_funcs_sec(out: &mut Vec<u8>, v: &Vec<Func>)
    requires
        v@.len() < 0x1_0000_0000,
        forall|i: int| 0 <= i < v@.len() ==> (#[trigger] v@[i]).body@.len() < 0x1_0000_0000,
    ensures
        final(out)@ == old(out)@ + enc_vec(v@.map_values(|x: Func| x@), enc_func_fn()),
{
    let ghost sv = v@.map_values(|x: Func| x@);
    write_u32(out, v.len() as u32);
    let ghost mid = out@;
    let n = v.len();
    for j in 0..n
        invariant
            out@ == mid + enc_seq(sv.take(j as int), enc_func_fn()),
            n == v.len(),
            sv == v@.map_values(|x: Func| x@),
            forall|i: int| 0 <= i < v@.len() ==> (#[trigger] v@[i]).body@.len() < 0x1_0000_0000,
    {
        proof {
            lemma_enc_seq_snoc(sv.take(j as int), sv[j as int], enc_func_fn());
            assert(sv.take(j + 1) =~= sv.take(j as int).push(sv[j as int]));
            assert(sv[j as int] == v@[j as int]@);
        }
        write_func(out, &v[j]);
    }
    proof {
        assert(sv.take(n as int) =~= sv);
        assert(out@ =~= old(out)@ + enc_vec(sv, enc_func_fn()));
    }
}

fn write_globals_sec(out: &mut Vec<u8>, v: &Vec<Global>)
    requires
        v@.len() < 0x1_0000_0000,
    ensures
        final(out)@ == old(out)@ + enc_vec(v@, enc_global_fn()),
{
    write_u32(out, v.len() as u32);
    let ghost mid = out@;
    let n = v.len();
    for j in 0..n
        invariant
            out@ == mid + enc_seq(v@.take(j as int), enc_global_fn()),
            n == v.len(),
    {
        proof {
            lemma_enc_seq_snoc(v@.take(j as int), v@[j as int], enc_global_fn());
            assert(v@.take(j + 1) =~= v@.take(j as int).push(v@[j as int]));
        }
        write_global(out, &v[j]);
    }
    proof {
        assert(v@.take(n as int) =~= v@);
        assert(out@ =~= old(out)@ + enc_vec(v@, enc_global_fn()));
    }
}

fn write_exports_sec(out: &mut Vec<u8>, v: &Vec<Export>)
    requires
        v@.len() < 0x1_0000_0000,
        forall|i: int| 0 <= i < v@.len() ==> (#[trigger] v@[i]).name@.len() < 0x1_0000_0000,
    ensures
        final(out)@ == old(out)@ + enc_vec(
            v@.map_values(|x: Export| x@),
            enc_export_fn(),
        ),
{
    let ghost sv = v@.map_values(|x: Export| x@);
    write_u32(out, v.len() as u32);
    let ghost mid = out@;
    let n = v.len();
    for j in 0..n
        invariant
            out@ == mid + enc_seq(sv.take(j as int), enc_export_fn()),
            n == v.len(),
            sv == v@.map_values(|x: Export| x@),
            forall|i: int| 0 <= i < v@.len() ==> (#[trigger] v@[i]).name@.len() < 0x1_0000_0000,
    {
        proof {
            lemma_enc_seq_snoc(sv.take(j as int), sv[j as int], enc_export_fn());
            assert(sv.take(j + 1) =~= sv.take(j as int).push(sv[j as int]));
            assert(sv[j as int] == v@[j as int]@);
        }
        write_export(out, &v[j]);
    }
    proof {
        assert(sv.take(n as int) =~= sv);
        assert(out@ =~= old(out)@ + enc_vec(sv, enc_export_fn()));
    }
}

fn write_elements_sec(out: &mut Vec<u8>, v: &Vec<Element>)
    requires
        v@.len() < 0x1_0000_0000,
        forall|i: int| 0 <= i < v@.len() ==> (#[trigger] v@[i]).entries@.len() < 0x1_0000_0000,
    ensures
        final(out)@ == old(out)@ + enc_vec(
            v@.map_values(|x: Element| x@),
            enc_element_fn(),
        ),
{
    let ghost sv = v@.map_values(|x: Element| x@);
    write_u32(out, v.len() as u32);
    let ghost mid = out@;
    let n = v.len();
    for j in 0..n
        invariant
            out@ == mid + enc_seq(sv.take(j as int), enc_element_fn()),
            n == v.len(),
            sv == v@.map_values(|x: Element| x@),
            forall|i: int| 0 <= i < v@.len() ==> (#[trigger] v@[i]).entries@.len()
                < 0x1_0000_0000,
    {
        proof {
            lemma_enc_seq_snoc(sv.take(j as int), sv[j as int], enc_element_fn());
            assert(sv.take(j + 1) =~= sv.take(j as int).push(sv[j as int]));
            assert(sv[j as int] == v@[j as int]@);
        }
        write_element(out, &v[j]);
    }
    proof {
        assert(sv.take(n as int) =~= sv);
        assert(out@ =~= old(out)@ + enc_vec(sv, enc_element_fn()));
    }
}

fn write_datas_sec(out: &mut Vec<u8>, v: &Vec<Data>)
    requires
        v@.len() < 0x1_0000_0000,
        forall|i: int| 0 <= i < v@.len() ==> (#[trigger] v@[i]).bytes@.len() < 0x1_0000_0000,
    ensures
        final(out)@ == old(out)@ + enc_vec(v@.map_values(|x: Data| x@), enc_data_fn()),
{
    let ghost sv = v@.map_values(|x: Data| x@);
    write_u32(out, v.len() as u32);
    let ghost mid = out@;
    let n = v.len();
    for j in 0..n
        invariant
            out@ == mid + enc_seq(sv.take(j as int), enc_data_fn()),
            n == v.len(),
            sv == v@.map_values(|x: Data| x@),
            forall|i: int| 0 <= i < v@.len() ==> (#[trigger] v@[i]).bytes@.len() < 0x1_0000_0000,
    {
        proof {
            lemma_enc_seq_snoc(sv.take(j as int), sv[j as int], enc_data_fn());
            assert(sv.take(j + 1) =~= sv.take(j as int).push(sv[j as int]));
            assert(sv[j as int] == v@[j as int]@);
        }
        write_data(out, &v[j]);
    }
    proof {
        assert(sv.take(n as int) =~= sv);
        assert(out@ =~= old(out)@ + enc_vec(sv, enc_data_fn()));
    }
}

fn write_customs_sec(out: &mut Vec<u8>, v: &Vec<Custom>)
    requires
        v@.len() < 0x1_0000_0000,
        forall|i: int| 0 <= i < v@.len() ==> (#[trigger] v@[i]).name@.len() < 0x1_0000_0000
            && v@[i].bytes@.len() < 0x1_0000_0000,
    ensures
        final(out)@ == old(out)@ + enc_vec(
            v@.map_values(|x: Custom| x@),
            enc_custom_fn(),
        ),
{
    let ghost sv = v@.map_values(|x: Custom| x@);
    write_u32(out, v.len() as u32);
    let ghost mid = out@;
    let n = v.len();
    for j in 0..n
        invariant
            out@ == mid + enc_seq(sv.take(j as int), enc_custom_fn()),
            n == v.len(),
            sv == v@.map_values(|x: Custom| x@),
            forall|i: int| 0 <= i < v@.len() ==> (#[trigger] v@[i]).name@.len() < 0x1_0000_0000
                && v@[i].bytes@.len() < 0x1_0000_0000,
    {
        proof {
            lemma_enc_seq_snoc(sv.take(j as int), sv[j as int], enc_custom_fn());
            assert(sv.take(j + 1) =~= sv.take(j as int).push(sv[j as int]));
            assert(sv[j as int] == v@[j as int]@);
        }
        write_custom(out, &v[j]);
    }
    proof {
        assert(sv.take(n as int) =~= sv);
        assert(out@ =~= old(out)@ + enc_vec(sv, enc_custom_fn()));
    }
}

/// Plain associativity of byte-sequence concatenation.
proof fn lemma_assoc(x: Seq<u8>, y: Seq<u8>, z: Seq<u8>)
    ensures
        (x + y) + z == x + (y + z),
{
    assert((x + y) + z =~= x + (y + z));
}

fn write_table_sec(out: &mut Vec<u8>, v: &Option<Table>)
    ensures
        final(out)@ == old(out)@ + enc_opt(*v, enc_table_fn()),
{
    match v {
        None => out.push(0),
        Some(t) => {
            out.push(1);
            write_u32(out, t.min);
        },
    }
    proof {
        assert(out@ =~= old(out)@ + enc_opt(*v, enc_table_fn()));
    }
}

fn write_memory_sec(out: &mut Vec<u8>, v: &Option<MemoryDesc>)
    ensures
        final(out)@ == old(out)@ + enc_opt(*v, enc_memory_fn()),
{
    match v {
        None => out.push(0),
        Some(md) => {
            out.push(1);
            write_u32(out, md.min);
            write_u32(out, md.max);
        },
    }
    proof {
        assert(out@ =~= old(out)@ + enc_opt(*v, enc_memory_fn()));
    }
}

fn write_start_sec(out: &mut Vec<u8>, v: &Option<u32>)
    ensures
        final(out)@ == old(out)@ + enc_opt(*v, enc_u32_fn()),
{
    match v {
        None => out.push(0),
        Some(f) => {
            out.push(1);
            write_u32(out, *f);
        },
    }
    proof {
        assert(out@ =~= old(out)@ + enc_opt(*v, enc_u32_fn()));
    }
}

/// Writing the sections one after another, flat and in order, yields the
/// nested concatenation that `enc_module` describes.
proof fn lemma_module_chunks(m: SpecModule, s: Seq<u8>)
    requires
        s == ((((((((((((crate::codec::magic() + enc_u32(CONTAINER_VERSION)) + enc_vec(
            m.types,
            enc_functype_fn(),
        )) + enc_vec(m.imports, enc_import_fn())) + enc_vec(m.funcs, enc_func_fn())) + enc_opt(
            m.tables,
            enc_table_fn(),
        )) + enc_opt(m.memory, enc_memory_fn())) + enc_vec(m.globals, enc_global_fn())) + enc_vec(
            m.exports,
            enc_export_fn(),
        )) + enc_vec(m.elements, enc_element_fn())) + enc_vec(m.datas, enc_data_fn())) + enc_vec(
            m.customs,
            enc_custom_fn(),
        )) + enc_opt(m.start, enc_u32_fn())),
    ensures
        s == enc_module(m),
{
    let h = crate::codec::magic();
    let v = enc_u32(CONTAINER_VERSION);
    let c1 = enc_vec(m.types, enc_functype_fn());
    let c2 = enc_vec(m.imports, enc_import_fn());
    let c3 = enc_vec(m.funcs, enc_func_fn());
    let c4 = enc_opt(m.tables, enc_table_fn());
    let c5 = enc_opt(m.memory, enc_memory_fn());
    let c6 = enc_vec(m.globals, enc_global_fn());
    let c7 = enc_vec(m.exports, enc_export_fn());
    let c8 = enc_vec(m.elements, enc_element_fn());
    let c9 = enc_vec(m.datas, enc_data_fn());
    let c10 = enc_vec(m.customs, enc_custom_fn());
    let c11 = enc_opt(m.start, enc_u32_fn());
    let t11 = c11;
    let t10 = c10 + t11;
    let t9 = c9 + t10;
    let t8 = c8 + t9;
    let t7 = c7 + t8;
    let t6 = c6 + t7;
    let t5 = c5 + t6;
    let t4 = c4 + t5;
    let t3 = c3 + t4;
    let t2 = c2 + t3;
    let t1 = c1 + t2;
    let p0 = h + v;
    let p1 = p0 + c1;
    let p2 = p1 + c2;
    let p3 = p2 + c3;
    let p4 = p3 + c4;
    let p5 = p4 + c5;
    let p6 = p5 + c6;
    let p7 = p6 + c7;
    let p8 = p7 + c8;
    let p9 = p8 + c9;
    let p10 = p9 + c10;
    lemma_assoc(p9, c10, t11);
    lemma_assoc(p8, c9, t10);
    lemma_assoc(p7, c8, t9);
    lemma_assoc(p6, c7, t8);
    lemma_assoc(p5, c6, t7);
    lemma_assoc(p4, c5, t6);
    lemma_assoc(p3, c4, t5);
    lemma_assoc(p2, c3, t4);
    lemma_assoc(p1, c2, t3);
    lemma_assoc(p0, c1, t2);
    lemma_assoc(h, v, t1);
    assert(p10 + c11 == h + (v + t1));
}

/// Serialize a module into the container byte format. Pure: the output is
/// exactly the encoding of the input value.
pub fn serialize(m: &Module) -> (out: Vec<u8>)
    requires
        m@.wf_sizes(),
    ensures
        out@ == enc_module(m@),
{
    let mut out: Vec<u8> = Vec::new();
    out.push(0x00);
    out.push(0x6d);
    out.push(0x6f);
    out.push(0x64);
    proof {
        assert(out@ =~= crate::codec::magic());
    }
    write_u32(&mut out, CONTAINER_VERSION);

    write_types_sec(&mut out, &m.types);

    proof {
        assert forall|i: int| 0 <= i < m.imports@.len() implies crate::codec::import_sz(
            (#[trigger] m.imports@[i])@,
        ) by {
            assert(m@.imports[i] == m.imports@[i]@);
        }
    }
    write_imports_sec(&mut out, &m.imports);
    proof {
        assert(m.imports@.map_values(|x: Import| x@) =~= m@.imports);
    }

    proof {
        assert forall|i: int| 0 <= i < m.funcs@.len() implies (#[trigger] m.funcs@[i]).body@.len()
            < 0x1_0000_0000 by {
            assert(m@.funcs[i] == m.funcs@[i]@);
        }
    }
    write_funcs_sec(&mut out, &m.funcs);
    proof {
        assert(m.funcs@.map_values(|x: Func| x@) =~= m@.funcs);
    }

    write_table_sec(&mut out, &m.tables);
    write_memory_sec(&mut out, &m.memory);
    write_globals_sec(&mut out, &m.globals);

    proof {
        assert forall|i: int| 0 <= i < m.exports@.len() implies (
        #[trigger] m.exports@[i]).name@.len() < 0x1_0000_0000 by {
            assert(m@.exports[i] == m.exports@[i]@);
        }
    }
    write_exports_sec(&mut out, &m.exports);
    proof {
        assert(m.exports@.map_values(|x: Export| x@) =~= m@.exports);
    }

    proof {
        assert forall|i: int| 0 <= i < m.elements@.len() implies (
        #[trigger] m.elements@[i]).entries@.len() < 0x1_0000_0000 by {
            assert(m@.elements[i] == m.elements@[i]@);
        }
    }
    write_elements_sec(&mut out, &m.elements);
    proof {
        assert(m.elements@.map_values(|x: Element| x@) =~= m@.elements);
    }

    proof {
        assert forall|i: int| 0 <= i < m.datas@.len() implies (
        #[trigger] m.datas@[i]).bytes@.len() < 0x1_0000_0000 by {
            assert(m@.datas[i] == m.datas@[i]@);
        }
    }
    write_datas_sec(&mut out, &m.datas);
    proof {
        assert(m.datas@.map_values(|x: Data| x@) =~= m@.datas);
    }

    proof {
        assert forall|i: int| 0 <= i < m.customs@.len() implies (
        #[trigger] m.customs@[i]).name@.len() < 0x1_0000_0000 && m.customs@[i].bytes@.len()
            < 0x1_0000_0000 by {
            assert(m@.customs[i] == m.customs@[i]@);
        }
    }
    write_customs_sec(&mut out, &m.customs);
    proof {
        assert(m.customs@.map_values(|x: Custom| x@) =~= m@.customs);
    }

    write_start_sec(&mut out, &m.start);

    proof {
        lemma_module_chunks(m@, out@);
    }
    out
}

} // verus!
