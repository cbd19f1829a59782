//! The executable parser: reads the container byte format into a `Module`,
//! returning exactly what `codec::parse_spec` says for the same bytes.

use vstd::prelude::*;

use crate::codec::{
    dec_byte, dec_bytes, dec_custom, dec_custom_fn, dec_data, dec_data_fn, dec_desc, dec_element,
    dec_element_fn, dec_export, dec_export_fn, dec_func, dec_func_fn, dec_functype,
    dec_functype_fn, dec_global, dec_global_fn, dec_import, dec_import_fn, dec_instr,
    dec_instr_fn, dec_kind, dec_memory, dec_memory_fn, dec_n, dec_opt, dec_table, dec_table_fn,
    dec_u32, dec_u32_fn, dec_vec, import_sz, parse_spec, u32_from_le, CONTAINER_VERSION,
};
use crate::errors::CodecError;
use crate::module::{
    Custom, Data, Element, Export, ExternKind, Func, FuncType, Global, GlobalInit, Import,
    ImportDesc, Instr, MemoryDesc, Module, SpecImport, SpecImportDesc, SpecModule, Table,
};

verus! {

/// `dec_n` with an already-decoded prefix in front of its result.
pub open spec fn dec_n_cont<X>(
    acc: Seq<X>,
    s: Seq<u8>,
    k: nat,
    d: spec_fn(Seq<u8>) -> Result<(X, Seq<u8>), CodecError>,
) -> Result<(Seq<X>, Seq<u8>), CodecError> {
    match dec_n(s, k, d) {
        Err(e) => Err(e),
        Ok(t) => Ok((acc + t.0, t.1)),
    }
}

proof fn lemma_cont_init<X>(
    s: Seq<u8>,
    k: nat,
    d: spec_fn(Seq<u8>) -> Result<(X, Seq<u8>), CodecError>,
)
    ensures
        dec_n_cont(Seq::<X>::empty(), s, k, d) == dec_n(s, k, d),
{
    match dec_n(s, k, d) {
        Ok(t) => {
            assert(Seq::<X>::empty() + t.0 =~= t.0);
        },
        Err(_) => {},
    }
}

proof fn lemma_cont_step<X>(
    acc: Seq<X>,
    s: Seq<u8>,
    k: nat,
    x: X,
    s2: Seq<u8>,
    d: spec_fn(Seq<u8>) -> Result<(X, Seq<u8>), CodecError>,
)
    requires
        k > 0,
        d(s) == Ok::<(X, Seq<u8>), CodecError>((x, s2)),
    ensures
        dec_n_cont(acc, s, k, d) == dec_n_cont(acc.push(x), s2, (k - 1) as nat, d),
{
    match dec_n(s2, (k - 1) as nat, d) {
        Ok(t) => {
            assert(dec_n(s, k, d) == Ok::<(Seq<X>, Seq<u8>), CodecError>(
                (Seq::<X>::empty().push(x) + t.0, t.1),
            ));
            assert(acc + (Seq::<X>::empty().push(x) + t.0) =~= acc.push(x) + t.0);
        },
        Err(e) => {
            assert(dec_n(s, k, d) == Err::<(Seq<X>, Seq<u8>), CodecError>(e));
        },
    }
}

proof fn lemma_cont_end<X>(
    acc: Seq<X>,
    s: Seq<u8>,
    d: spec_fn(Seq<u8>) -> Result<(X, Seq<u8>), CodecError>,
)
    ensures
        dec_n_cont(acc, s, 0, d) == Ok::<(Seq<X>, Seq<u8>), CodecError>((acc, s)),
{
    assert(acc + Seq::<X>::empty() =~= acc);
}

// ---------------------------------------------------------------------------
// Primitive readers.
// ---------------------------------------------------------------------------

fn read_u32(buf: &Vec<u8>, pos: usize) -> (r: Result<(u32, usize), CodecError>)
    requires
        pos <= buf@.len(),
    ensures
        match r {
            Ok(t) => pos <= t.1 <= buf@.len() && dec_u32(buf@.skip(pos as int)) == Ok::<
                (u32, Seq<u8>),
                CodecError,
            >((t.0, buf@.skip(t.1 as int))),
            Err(e) => dec_u32(buf@.skip(pos as int)) == Err::<(u32, Seq<u8>), CodecError>(e),
        },
{
    let ghost s = buf@.skip(pos as int);
    if buf.len() - pos >= 4 {
        let b0 = buf[pos];
        let b1 = buf[pos + 1];
        let b2 = buf[pos + 2];
        let b3 = buf[pos + 3];
        let n: u32 = (b0 as u32) | ((b1 as u32) << 8u32) | ((b2 as u32) << 16u32) | ((b3 as u32)
            << 24u32);
        proof {
            assert(s[0] == buf@[pos as int] && s[1] == buf@[pos as int + 1] && s[2] == buf@[
                pos as int + 2] && s[3] == buf@[pos as int + 3]);
            assert(n == u32_from_le(s[0], s[1], s[2], s[3]));
            assert(s.skip(4) =~= buf@.skip(pos as int + 4));
        }
        Ok((n, pos + 4))
    } else {
        Err(CodecError::TruncatedBody)
    }
}

fn read_byte(buf: &Vec<u8>, pos: usize) -> (r: Result<(u8, usize), CodecError>)
    requires
        pos <= buf@.len(),
    ensures
        match r {
            Ok(t) => pos <= t.1 <= buf@.len() && dec_byte(buf@.skip(pos as int)) == Ok::<
                (u8, Seq<u8>),
                CodecError,
            >((t.0, buf@.skip(t.1 as int))),
            Err(e) => dec_byte(buf@.skip(pos as int)) == Err::<(u8, Seq<u8>), CodecError>(e),
        },
{
    let ghost s = buf@.skip(pos as int);
    if buf.len() - pos >= 1 {
        let b = buf[pos];
        proof {
            assert(s[0] == buf@[pos as int]);
            assert(s.skip(1) =~= buf@.skip(pos as int + 1));
        }
        Ok((b, pos + 1))
    } else {
        Err(CodecError::TruncatedBody)
    }
}

fn read_bytes(buf: &Vec<u8>, pos: usize) -> (r: Result<(Vec<u8>, usize), CodecError>)
    requires
        pos <= buf@.len(),
    ensures
        match r {
            Ok(t) => pos <= t.1 <= buf@.len() && t.0@.len() < 0x1_0000_0000 && dec_bytes(
                buf@.skip(pos as int),
            ) == Ok::<(Seq<u8>, Seq<u8>), CodecError>((t.0@, buf@.skip(t.1 as int))),
            Err(e) => dec_bytes(buf@.skip(pos as int)) == Err::<(Seq<u8>, Seq<u8>), CodecError>(
                e,
            ),
        },
{
    match read_u32(buf, pos) {
        Err(e) => Err(e),
        Ok(t) => {
            let n = t.0;
            let p1 = t.1;
            let nn = n as usize;
            if nn <= buf.len() - p1 {
                let sl = vstd::slice::slice_subrange(buf.as_slice(), p1, p1 + nn);
                let v = vstd::slice::slice_to_vec(sl);
                proof {
                    let rr = buf@.skip(p1 as int);
                    assert(rr.len() >= n);
                    assert(v@ =~= rr.take(n as int));
                    assert(rr.skip(n as int) =~= buf@.skip(p1 as int + nn));
                }
                Ok((v, p1 + nn))
            } else {
                proof {
                    assert(buf@.skip(p1 as int).len() < n);
                }
                Err(CodecError::TruncatedBody)
            }
        },
    }
}

// ---------------------------------------------------------------------------
// Entry readers.
// ---------------------------------------------------------------------------

fn read_functype(buf: &Vec<u8>, pos: usize) -> (r: Result<(FuncType, usize), CodecError>)
    requires
        pos <= buf@.len(),
    ensures
        match r {
            Ok(t) => pos <= t.1 <= buf@.len() && dec_functype(buf@.skip(pos as int)) == Ok::<
                (FuncType, Seq<u8>),
                CodecError,
            >((t.0, buf@.skip(t.1 as int))),
            Err(e) => dec_functype(buf@.skip(pos as int)) == Err::<
                (FuncType, Seq<u8>),
                CodecError,
            >(e),
        },
{
    match read_u32(buf, pos) {
        Err(e) => Err(e),
        Ok(t) => match read_u32(buf, t.1) {
            Err(e) => Err(e),
            Ok(t2) => Ok((FuncType { params: t.0, results: t2.0 }, t2.1)),
        },
    }
}

fn read_kind(buf: &Vec<u8>, pos: usize) -> (r: Result<(ExternKind, usize), CodecError>)
    requires
        pos <= buf@.len(),
    ensures
        match r {
            Ok(t) => pos <= t.1 <= buf@.len() && dec_kind(buf@.skip(pos as int)) == Ok::<
                (ExternKind, Seq<u8>),
                CodecError,
            >((t.0, buf@.skip(t.1 as int))),
            Err(e) => dec_kind(buf@.skip(pos as int)) == Err::<(ExternKind, Seq<u8>), CodecError>(
                e,
            ),
        },
{
    match read_byte(buf, pos) {
        Err(e) => Err(e),
        Ok(t) => {
            if t.0 == 0 {
                Ok((ExternKind::Func, t.1))
            } else if t.0 == 1 {
                Ok((ExternKind::Table, t.1))
            } else if t.0 == 2 {
                Ok((ExternKind::Memory, t.1))
            } else if t.0 == 3 {
                Ok((ExternKind::Global, t.1))
            } else {
                Err(CodecError::MalformedHeader)
            }
        },
    }
}

fn read_instr(buf: &Vec<u8>, pos: usize) -> (r: Result<(Instr, usize), CodecError>)
    requires
        pos <= buf@.len(),
    ensures
        match r {
            Ok(t) => pos <= t.1 <= buf@.len() && dec_instr(buf@.skip(pos as int)) == Ok::<
                (Instr, Seq<u8>),
                CodecError,
            >((t.0, buf@.skip(t.1 as int))),
            Err(e) => dec_instr(buf@.skip(pos as int)) == Err::<(Instr, Seq<u8>), CodecError>(e),
        },
{
    match read_byte(buf, pos) {
        Err(e) => Err(e),
        Ok(t) => {
            let tag = t.0;
            if tag == 0 {
                Ok((Instr::Nop, t.1))
            } else if tag == 1 {
                Ok((Instr::Unreachable, t.1))
            } else if tag == 8 {
                Ok((Instr::MemoryGrow, t.1))
            } else if tag <= 7 {
                match read_u32(buf, t.1) {
                    Err(e) => Err(e),
                    Ok(t2) => {
                        let i = if tag == 2 {
                            Instr::Const(t2.0)
                        } else if tag == 3 {
                            Instr::LocalGet(t2.0)
                        } else if tag == 4 {
                            Instr::GlobalGet(t2.0)
                        } else if tag == 5 {
                            Instr::GlobalSet(t2.0)
                        } else if tag == 6 {
                            Instr::Call(t2.0)
                        } else {
                            Instr::CallIndirect(t2.0)
                        };
                        Ok((i, t2.1))
                    },
                }
            } else {
                Err(CodecError::MalformedHeader)
            }
        },
    }
}

fn read_global(buf: &Vec<u8>, pos: usize) -> (r: Result<(Global, usize), CodecError>)
    requires
        pos <= buf@.len(),
    ensures
        match r {
            Ok(t) => pos <= t.1 <= buf@.len() && dec_global(buf@.skip(pos as int)) == Ok::<
                (Global, Seq<u8>),
                CodecError,
            >((t.0, buf@.skip(t.1 as int))),
            Err(e) => dec_global(buf@.skip(pos as int)) == Err::<(Global, Seq<u8>), CodecError>(
                e,
            ),
        },
{
    match read_byte(buf, pos) {
        Err(e) => Err(e),
        Ok(t) => {
            if t.0 <= 1 {
                match read_u32(buf, t.1) {
                    Err(e) => Err(e),
                    Ok(t2) => {
                        let init = if t.0 == 0 {
                            GlobalInit::Const(t2.0)
                        } else {
                            GlobalInit::GetGlobal(t2.0)
                        };
                        Ok((Global { init }, t2.1))
                    },
                }
            } else {
                Err(CodecError::MalformedHeader)
            }
        },
    }
}

fn read_table(buf: &Vec<u8>, pos: usize) -> (r: Result<(Table, usize), CodecError>)
    requires
        pos <= buf@.len(),
    ensures
        match r {
            Ok(t) => pos <= t.1 <= buf@.len() && dec_table(buf@.skip(pos as int)) == Ok::<
                (Table, Seq<u8>),
                CodecError,
            >((t.0, buf@.skip(t.1 as int))),
            Err(e) => dec_table(buf@.skip(pos as int)) == Err::<(Table, Seq<u8>), CodecError>(e),
        },
{
    match read_u32(buf, pos) {
        Err(e) => Err(e),
        Ok(t) => Ok((Table { min: t.0 }, t.1)),
    }
}

fn read_memory(buf: &Vec<u8>, pos: usize) -> (r: Result<(MemoryDesc, usize), CodecError>)
    requires
        pos <= buf@.len(),
    ensures
        match r {
            Ok(t) => pos <= t.1 <= buf@.len() && dec_memory(buf@.skip(pos as int)) == Ok::<
                (MemoryDesc, Seq<u8>),
                CodecError,
            >((t.0, buf@.skip(t.1 as int))),
            Err(e) => dec_memory(buf@.skip(pos as int)) == Err::<(MemoryDesc, Seq<u8>), CodecError>(
                e,
            ),
        },
{
    match read_u32(buf, pos) {
        Err(e) => Err(e),
        Ok(t) => match read_u32(buf, t.1) {
            Err(e) => Err(e),
            Ok(t2) => Ok((MemoryDesc { min: t.0, max: t2.0 }, t2.1)),
        },
    }
}

fn read_desc(buf: &Vec<u8>, pos: usize) -> (r: Result<(ImportDesc, usize), CodecError>)
    requires
        pos <= buf@.len(),
    ensures
        match r {
            Ok(t) => pos <= t.1 <= buf@.len() && dec_desc(buf@.skip(pos as int)) == Ok::<
                (SpecImportDesc, Seq<u8>),
                CodecError,
            >((t.0@, buf@.skip(t.1 as int))) && (t.0@ matches SpecImportDesc::Func {
                snippet: Some(sn),
                ..
            } ==> sn.len() < 0x1_0000_0000),
            Err(e) => dec_desc(buf@.skip(pos as int)) == Err::<
                (SpecImportDesc, Seq<u8>),
                CodecError,
            >(e),
        },
{
    match read_byte(buf, pos) {
        Err(e) => Err(e),
        Ok(t) => {
            let tag = t.0;
            if tag == 0 {
                match read_u32(buf, t.1) {
                    Err(e) => Err(e),
                    Ok(t2) => {
                        let ghost r2 = buf@.skip(t2.1 as int);
                        match read_byte(buf, t2.1) {
                            Err(e) => {
                                proof {
                                    assert(dec_opt(r2, crate::codec::dec_bytes_fn()) == Err::<
                                        (Option<Seq<u8>>, Seq<u8>),
                                        CodecError,
                                    >(e));
                                }
                                Err(e)
                            },
                            Ok(t3) => {
                                if t3.0 == 0 {
                                    proof {
                                        assert(dec_opt(r2, crate::codec::dec_bytes_fn()) == Ok::<
                                            (Option<Seq<u8>>, Seq<u8>),
                                            CodecError,
                                        >((None, buf@.skip(t3.1 as int))));
                                    }
                                    Ok((
                                        ImportDesc::Func { type_idx: t2.0, snippet: None },
                                        t3.1,
                                    ))
                                } else if t3.0 == 1 {
                                    match read_bytes(buf, t3.1) {
                                        Err(e) => {
                                            proof {
                                                assert(dec_opt(
                                                    r2,
                                                    crate::codec::dec_bytes_fn(),
                                                ) == Err::<
                                                    (Option<Seq<u8>>, Seq<u8>),
                                                    CodecError,
                                                >(e));
                                            }
                                            Err(e)
                                        },
                                        Ok(t4) => {
                                            proof {
                                                assert(dec_opt(
                                                    r2,
                                                    crate::codec::dec_bytes_fn(),
                                                ) == Ok::<
                                                    (Option<Seq<u8>>, Seq<u8>),
                                                    CodecError,
                                                >((Some(t4.0@), buf@.skip(t4.1 as int))));
                                            }
                                            Ok((
                                                ImportDesc::Func {
                                                    type_idx: t2.0,
                                                    snippet: Some(t4.0),
                                                },
                                                t4.1,
                                            ))
                                        },
                                    }
                                } else {
                                    proof {
                                        assert(dec_opt(r2, crate::codec::dec_bytes_fn()) == Err::<
                                            (Option<Seq<u8>>, Seq<u8>),
                                            CodecError,
                                        >(CodecError::MalformedHeader));
                                    }
                                    Err(CodecError::MalformedHeader)
                                }
                            },
                        }
                    },
                }
            } else if tag == 1 {
                Ok((ImportDesc::Table, t.1))
            } else if tag == 2 {
                Ok((ImportDesc::Memory, t.1))
            } else if tag == 3 {
                Ok((ImportDesc::Global, t.1))
            } else {
                Err(CodecError::MalformedHeader)
            }
        },
    }
}

fn read_import(buf: &Vec<u8>, pos: usize) -> (r: Result<(Import, usize), CodecError>)
    requires
        pos <= buf@.len(),
    ensures
        match r {
            Ok(t) => pos <= t.1 <= buf@.len() && dec_import(buf@.skip(pos as int)) == Ok::<
                (SpecImport, Seq<u8>),
                CodecError,
            >((t.0@, buf@.skip(t.1 as int))) && import_sz(t.0@),
            Err(e) => dec_import(buf@.skip(pos as int)) == Err::<(SpecImport, Seq<u8>), CodecError>(
                e,
            ),
        },
{
    match read_bytes(buf, pos) {
        Err(e) => Err(e),
        Ok(t) => match read_bytes(buf, t.1) {
            Err(e) => Err(e),
            Ok(t2) => match read_desc(buf, t2.1) {
                Err(e) => Err(e),
                Ok(t3) => Ok((Import { module: t.0, field: t2.0, desc: t3.0 }, t3.1)),
            },
        },
    }
}

fn read_export(buf: &Vec<u8>, pos: usize) -> (r: Result<(Export, usize), CodecError>)
    requires
        pos <= buf@.len(),
    ensures
        match r {
            Ok(t) => pos <= t.1 <= buf@.len() && dec_export(buf@.skip(pos as int)) == Ok::<
                (crate::module::SpecExport, Seq<u8>),
                CodecError,
            >((t.0@, buf@.skip(t.1 as int))) && t.0.name@.len() < 0x1_0000_0000,
            Err(e) => dec_export(buf@.skip(pos as int)) == Err::<
                (crate::module::SpecExport, Seq<u8>),
                CodecError,
            >(e),
        },
{
    match read_bytes(buf, pos) {
        Err(e) => Err(e),
        Ok(t) => match read_kind(buf, t.1) {
            Err(e) => Err(e),
            Ok(t2) => match read_u32(buf, t2.1) {
                Err(e) => Err(e),
                Ok(t3) => Ok((Export { name: t.0, kind: t2.0, index: t3.0 }, t3.1)),
            },
        },
    }
}

fn read_data(buf: &Vec<u8>, pos: usize) -> (r: Result<(Data, usize), CodecError>)
    requires
        pos <= buf@.len(),
    ensures
        match r {
            Ok(t) => pos <= t.1 <= buf@.len() && dec_data(buf@.skip(pos as int)) == Ok::<
                (crate::module::SpecData, Seq<u8>),
                CodecError,
            >((t.0@, buf@.skip(t.1 as int))) && t.0.bytes@.len() < 0x1_0000_0000,
            Err(e) => dec_data(buf@.skip(pos as int)) == Err::<
                (crate::module::SpecData, Seq<u8>),
                CodecError,
            >(e),
        },
{
    match read_u32(buf, pos) {
        Err(e) => Err(e),
        Ok(t) => match read_bytes(buf, t.1) {
            Err(e) => Err(e),
            Ok(t2) => Ok((Data { offset: t.0, bytes: t2.0 }, t2.1)),
        },
    }
}

fn read_custom(buf: &Vec<u8>, pos: usize) -> (r: Result<(Custom, usize), CodecError>)
    requires
        pos <= buf@.len(),
    ensures
        match r {
            Ok(t) => pos <= t.1 <= buf@.len() && dec_custom(buf@.skip(pos as int)) == Ok::<
                (crate::module::SpecCustom, Seq<u8>),
                CodecError,
            >((t.0@, buf@.skip(t.1 as int))) && t.0.name@.len() < 0x1_0000_0000
                && t.0.bytes@.len() < 0x1_0000_0000,
            Err(e) => dec_custom(buf@.skip(pos as int)) == Err::<
                (crate::module::SpecCustom, Seq<u8>),
                CodecError,
            >(e),
        },
{
    match read_bytes(buf, pos) {
        Err(e) => Err(e),
        Ok(t) => match read_bytes(buf, t.1) {
            Err(e) => Err(e),
            Ok(t2) => Ok((Custom { name: t.0, bytes: t2.0 }, t2.1)),
        },
    }
}

#[verifier::loop_isolation(false)]
fn read_func(buf: &Vec<u8>, pos: usize) -> (r: Result<(Func, usize), CodecError>)
    requires
        pos <= buf@.len(),
    ensures
        match r {
            Ok(t) => pos <= t.1 <= buf@.len() && dec_func(buf@.skip(pos as int)) == Ok::<
                (crate::module::SpecFunc, Seq<u8>),
                CodecError,
            >((t.0@, buf@.skip(t.1 as int))) && t.0.body@.len() < 0x1_0000_0000,
            Err(e) => dec_func(buf@.skip(pos as int)) == Err::<
                (crate::module::SpecFunc, Seq<u8>),
                CodecError,
            >(e),
        },
{
    match read_u32(buf, pos) {
        Err(e) => Err(e),
        Ok(tti) => {
            let ti = tti.0;
            match read_u32(buf, tti.1) {
                Err(e) => Err(e),
                Ok(tc) => {
                    let cnt = tc.0;
                    let p1 = tc.1;
                    let ghost d = dec_instr_fn();
                    let ghost s1 = buf@.skip(p1 as int);
                    let mut items: Vec<Instr> = Vec::new();
                    let mut p = p1;
                    let mut i: u32 = 0;
                    proof {
                        lemma_cont_init(s1, cnt as nat, d);
                    }
                    while i < cnt
                        invariant
                            i <= cnt,
                            p1 <= p,
                            p <= buf@.len(),
                            items@.len() == i as nat,
                            dec_n_cont(items@, buf@.skip(p as int), (cnt - i) as nat, d) == dec_n(
                                s1,
                                cnt as nat,
                                d,
                            ),
                            d == dec_instr_fn(),
                            s1 == buf@.skip(p1 as int),
                        decreases cnt - i,
                    {
                        match read_instr(buf, p) {
                            Err(e) => {
                                proof {
                                    assert(d(buf@.skip(p as int)) == Err::<
                                        (Instr, Seq<u8>),
                                        CodecError,
                                    >(e));
                                    assert(dec_n(buf@.skip(p as int), (cnt - i) as nat, d)
                                        == Err::<(Seq<Instr>, Seq<u8>), CodecError>(e));
                                    assert(dec_n_cont(
                                        items@,
                                        buf@.skip(p as int),
                                        (cnt - i) as nat,
                                        d,
                                    ) == Err::<(Seq<Instr>, Seq<u8>), CodecError>(e));
                                    assert(dec_vec(buf@.skip(tti.1 as int), d) == Err::<
                                        (Seq<Instr>, Seq<u8>),
                                        CodecError,
                                    >(e));
                                }
                                return Err(e);
                            },
                            Ok(t) => {
                                proof {
                                    assert(d(buf@.skip(p as int)) == Ok::<
                                        (Instr, Seq<u8>),
                                        CodecError,
                                    >((t.0, buf@.skip(t.1 as int))));
                                    lemma_cont_step(
                                        items@,
                                        buf@.skip(p as int),
                                        (cnt - i) as nat,
                                        t.0,
                                        buf@.skip(t.1 as int),
                                        d,
                                    );
                                }
                                items.push(t.0);
                                p = t.1;
                                i = i + 1;
                            },
                        }
                    }
                    proof {
                        lemma_cont_end(items@, buf@.skip(p as int), d);
                        assert(dec_vec(buf@.skip(tti.1 as int), d) == Ok::<
                            (Seq<Instr>, Seq<u8>),
                            CodecError,
                        >((items@, buf@.skip(p as int))));
                    }
                    Ok((Func { type_idx: ti, body: items }, p))
                },
            }
        },
    }
}

#[verifier::loop_isolation(false)]
fn read_element(buf: &Vec<u8>, pos: usize) -> (r: Result<(Element, usize), CodecError>)
    requires
        pos <= buf@.len(),
    ensures
        match r {
            Ok(t) => pos <= t.1 <= buf@.len() && dec_element(buf@.skip(pos as int)) == Ok::<
                (crate::module::SpecElement, Seq<u8>),
                CodecError,
            >((t.0@, buf@.skip(t.1 as int))) && t.0.entries@.len() < 0x1_0000_0000,
            Err(e) => dec_element(buf@.skip(pos as int)) == Err::<
                (crate::module::SpecElement, Seq<u8>),
                CodecError,
            >(e),
        },
{
    match read_u32(buf, pos) {
        Err(e) => Err(e),
        Ok(toff) => {
            match read_u32(buf, toff.1) {
                Err(e) => Err(e),
                Ok(tc) => {
                    let cnt = tc.0;
                    let p1 = tc.1;
                    let ghost d = dec_u32_fn();
                    let ghost s1 = buf@.skip(p1 as int);
                    let mut items: Vec<u32> = Vec::new();
                    let mut p = p1;
                    let mut i: u32 = 0;
                    proof {
                        lemma_cont_init(s1, cnt as nat, d);
                    }
                    while i < cnt
                        invariant
                            i <= cnt,
                            p1 <= p,
                            p <= buf@.len(),
                            items@.len() == i as nat,
                            dec_n_cont(items@, buf@.skip(p as int), (cnt - i) as nat, d) == dec_n(
                                s1,
                                cnt as nat,
                                d,
                            ),
                            d == dec_u32_fn(),
                            s1 == buf@.skip(p1 as int),
                        decreases cnt - i,
                    {
                        match read_u32(buf, p) {
                            Err(e) => {
                                proof {
                                    assert(d(buf@.skip(p as int)) == Err::<
                                        (u32, Seq<u8>),
                                        CodecError,
                                    >(e));
                                    assert(dec_n(buf@.skip(p as int), (cnt - i) as nat, d)
                                        == Err::<(Seq<u32>, Seq<u8>), CodecError>(e));
                                    assert(dec_n_cont(
                                        items@,
                                        buf@.skip(p as int),
                                        (cnt - i) as nat,
                                        d,
                                    ) == Err::<(Seq<u32>, Seq<u8>), CodecError>(e));
                                    assert(dec_vec(buf@.skip(toff.1 as int), d) == Err::<
                                        (Seq<u32>, Seq<u8>),
                                        CodecError,
                                    >(e));
                                }
                                return Err(e);
                            },
                            Ok(t) => {
                                proof {
                                    assert(d(buf@.skip(p as int)) == Ok::<
                                        (u32, Seq<u8>),
                                        CodecError,
                                    >((t.0, buf@.skip(t.1 as int))));
                                    lemma_cont_step(
                                        items@,
                                        buf@.skip(p as int),
                                        (cnt - i) as nat,
                                        t.0,
                                        buf@.skip(t.1 as int),
                                        d,
                                    );
                                }
                                items.push(t.0);
                                p = t.1;
                                i = i + 1;
                            },
                        }
                    }
                    proof {
                        lemma_cont_end(items@, buf@.skip(p as int), d);
                        assert(dec_vec(buf@.skip(toff.1 as int), d) == Ok::<
                            (Seq<u32>, Seq<u8>),
                            CodecError,
                        >((items@, buf@.skip(p as int))));
                    }
                    Ok((Element { offset: toff.0, entries: items }, p))
                },
            }
        },
    }
}

// ---------------------------------------------------------------------------
// Section readers.
// ---------------------------------------------------------------------------
#[verifier::loop_isolation(false)]
fn read_types_sec(buf: &Vec<u8>, pos: usize) -> (r: Result<(Vec<FuncType>, usize), CodecError>)
    requires
        pos <= buf@.len(),
    ensures
        match r {
            Ok(t) => pos <= t.1 <= buf@.len() && t.0@.len() < 0x1_0000_0000 && dec_vec(
                buf@.skip(pos as int),
                dec_functype_fn(),
            ) == Ok::<(Seq<FuncType>, Seq<u8>), CodecError>((
                t.0@,
                buf@.skip(t.1 as int),
            )),
            Err(e) => dec_vec(buf@.skip(pos as int), dec_functype_fn()) == Err::<
                (Seq<FuncType>, Seq<u8>),
                CodecError,
            >(e),
        },
{
    match read_u32(buf, pos) {
        Err(e) => Err(e),
        Ok(tc) => {
            let cnt = tc.0;
            let p1 = tc.1;
            let ghost d = dec_functype_fn();
            let ghost s1 = buf@.skip(p1 as int);
            let mut items: Vec<FuncType> = Vec::new();
            let mut p = p1;
            let mut i: u32 = 0;
            proof {
                lemma_cont_init(s1, cnt as nat, d);
            }
            while i < cnt
                invariant
                    i <= cnt,
                    p1 <= p,
                    p <= buf@.len(),
                    items@.len() == i as nat,
                    dec_n_cont(items@, buf@.skip(p as int), (cnt - i) as nat, d) == dec_n(
                        s1,
                        cnt as nat,
                        d,
                    ),
                decreases cnt - i,
            {
                match read_functype(buf, p) {
                    Err(e) => {
                        proof {
                            assert(d(buf@.skip(p as int)) == Err::<
                                (FuncType, Seq<u8>),
                                CodecError,
                            >(e));
                            assert(dec_n(buf@.skip(p as int), (cnt - i) as nat, d) == Err::<
                                (Seq<FuncType>, Seq<u8>),
                                CodecError,
                            >(e));
                            assert(dec_vec(buf@.skip(pos as int), d) == Err::<
                                (Seq<FuncType>, Seq<u8>),
                                CodecError,
                            >(e));
                        }
                        return Err(e);
                    },
                    Ok(t) => {
                        proof {
                            assert(d(buf@.skip(p as int)) == Ok::<
                                (FuncType, Seq<u8>),
                                CodecError,
                            >((t.0, buf@.skip(t.1 as int))));
                            lemma_cont_step(
                                items@,
                                buf@.skip(p as int),
                                (cnt - i) as nat,
                                t.0,
                                buf@.skip(t.1 as int),
                                d,
                            );
                        }
                        items.push(t.0);
                        p = t.1;
                        i = i + 1;
                    },
                }
            }
            proof {
                lemma_cont_end(items@, buf@.skip(p as int), d);
                assert(dec_vec(buf@.skip(pos as int), d) == Ok::<
                    (Seq<FuncType>, Seq<u8>),
                    CodecError,
                >((items@, buf@.skip(p as int))));
            }
            Ok((items, p))
        },
    }
}

#[verifier::loop_isolation(false)]
fn read_imports_sec(buf: &Vec<u8>, pos: usize) -> (r: Result<(Vec<Import>, usize), CodecError>)
    requires
        pos <= buf@.len(),
    ensures
        match r {
            Ok(t) => pos <= t.1 <= buf@.len() && t.0@.len() < 0x1_0000_0000 && dec_vec(
                buf@.skip(pos as int),
                dec_import_fn(),
            ) == Ok::<(Seq<SpecImport>, Seq<u8>), CodecError>((
                t.0@.map_values(|x: Import| x@),
                buf@.skip(t.1 as int),
            )) && (forall|k: int|
                0 <= k < t.0@.len() ==> import_sz((#[trigger] t.0@[k])@)),
            Err(e) => dec_vec(buf@.skip(pos as int), dec_import_fn()) == Err::<
                (Seq<SpecImport>, Seq<u8>),
                CodecError,
            >(e),
        },
{
    match read_u32(buf, pos) {
        Err(e) => Err(e),
        Ok(tc) => {
            let cnt = tc.0;
            let p1 = tc.1;
            let ghost d = dec_import_fn();
            let ghost s1 = buf@.skip(p1 as int);
            let mut items: Vec<Import> = Vec::new();
            let mut p = p1;
            let mut i: u32 = 0;
            proof {
                lemma_cont_init(s1, cnt as nat, d);
            }
            while i < cnt
                invariant
                    i <= cnt,
                    p1 <= p,
                    p <= buf@.len(),
                    items@.len() == i as nat,
                    forall|k: int| 0 <= k < items@.len() ==> import_sz((#[trigger] items@[k])@),
                    dec_n_cont(items@.map_values(|x: Import| x@), buf@.skip(p as int), (cnt - i) as nat, d) == dec_n(
                        s1,
                        cnt as nat,
                        d,
                    ),
                decreases cnt - i,
            {
                match read_import(buf, p) {
                    Err(e) => {
                        proof {
                            assert(d(buf@.skip(p as int)) == Err::<
                                (SpecImport, Seq<u8>),
                                CodecError,
                            >(e));
                            assert(dec_n(buf@.skip(p as int), (cnt - i) as nat, d) == Err::<
                                (Seq<SpecImport>, Seq<u8>),
                                CodecError,
                            >(e));
                            assert(dec_vec(buf@.skip(pos as int), d) == Err::<
                                (Seq<SpecImport>, Seq<u8>),
                                CodecError,
                            >(e));
                        }
                        return Err(e);
                    },
                    Ok(t) => {
                        proof {
                            assert(d(buf@.skip(p as int)) == Ok::<
                                (SpecImport, Seq<u8>),
                                CodecError,
                            >((t.0@, buf@.skip(t.1 as int))));
                            lemma_cont_step(
                                items@.map_values(|x: Import| x@),
                                buf@.skip(p as int),
                                (cnt - i) as nat,
                                t.0@,
                                buf@.skip(t.1 as int),
                                d,
                            );
                                    assert(items@.push(t.0).map_values(|x: Import| x@) =~= items@.map_values(|x: Import| x@).push(t.0@));
                        }
                        items.push(t.0);
                        p = t.1;
                        i = i + 1;
                    },
                }
            }
            proof {
                lemma_cont_end(items@.map_values(|x: Import| x@), buf@.skip(p as int), d);
                assert(dec_vec(buf@.skip(pos as int), d) == Ok::<
                    (Seq<SpecImport>, Seq<u8>),
                    CodecError,
                >((items@.map_values(|x: Import| x@), buf@.skip(p as int))));
            }
            Ok((items, p))
        },
    }
}

#[verifier::loop_isolation(false)]
fn read_funcs_sec(buf: &Vec<u8>, pos: usize) -> (r: Result<(Vec<Func>, usize), CodecError>)
    requires
        pos <= buf@.len(),
    ensures
        match r {
            Ok(t) => pos <= t.1 <= buf@.len() && t.0@.len() < 0x1_0000_0000 && dec_vec(
                buf@.skip(pos as int),
                dec_func_fn(),
            ) == Ok::<(Seq<crate::module::SpecFunc>, Seq<u8>), CodecError>((
                t.0@.map_values(|x: Func| x@),
                buf@.skip(t.1 as int),
            )) && (forall|k: int|
                0 <= k < t.0@.len() ==> (#[trigger] t.0@[k]).body@.len() < 0x1_0000_0000),
            Err(e) => dec_vec(buf@.skip(pos as int), dec_func_fn()) == Err::<
                (Seq<crate::module::SpecFunc>, Seq<u8>),
                CodecError,
            >(e),
        },
{
    match read_u32(buf, pos) {
        Err(e) => Err(e),
        Ok(tc) => {
            let cnt = tc.0;
            let p1 = tc.1;
            let ghost d = dec_func_fn();
            let ghost s1 = buf@.skip(p1 as int);
            let mut items: Vec<Func> = Vec::new();
            let mut p = p1;
            let mut i: u32 = 0;
            proof {
                lemma_cont_init(s1, cnt as nat, d);
            }
            while i < cnt
                invariant
                    i <= cnt,
                    p1 <= p,
                    p <= buf@.len(),
                    items@.len() == i as nat,
                    forall|k: int| 0 <= k < items@.len() ==> (#[trigger] items@[k]).body@.len()
                        < 0x1_0000_0000,
                    dec_n_cont(items@.map_values(|x: Func| x@), buf@.skip(p as int), (cnt - i) as nat, d) == dec_n(
                        s1,
                        cnt as nat,
                        d,
                    ),
                decreases cnt - i,
            {
                match read_func(buf, p) {
                    Err(e) => {
                        proof {
                            assert(d(buf@.skip(p as int)) == Err::<
                                (crate::module::SpecFunc, Seq<u8>),
                                CodecError,
                            >(e));
                            assert(dec_n(buf@.skip(p as int), (cnt - i) as nat, d) == Err::<
                                (Seq<crate::module::SpecFunc>, Seq<u8>),
                                CodecError,
                            >(e));
                            assert(dec_vec(buf@.skip(pos as int), d) == Err::<
                                (Seq<crate::module::SpecFunc>, Seq<u8>),
                                CodecError,
                            >(e));
                        }
                        return Err(e);
                    },
                    Ok(t) => {
                        proof {
                            assert(d(buf@.skip(p as int)) == Ok::<
                                (crate::module::SpecFunc, Seq<u8>),
                                CodecError,
                            >((t.0@, buf@.skip(t.1 as int))));
                            lemma_cont_step(
                                items@.map_values(|x: Func| x@),
                                buf@.skip(p as int),
                                (cnt - i) as nat,
                                t.0@,
                                buf@.skip(t.1 as int),
                                d,
                            );
                                    assert(items@.push(t.0).map_values(|x: Func| x@) =~= items@.map_values(|x: Func| x@).push(t.0@));
                        }
                        items.push(t.0);
                        p = t.1;
                        i = i + 1;
                    },
                }
            }
            proof {
                lemma_cont_end(items@.map_values(|x: Func| x@), buf@.skip(p as int), d);
                assert(dec_vec(buf@.skip(pos as int), d) == Ok::<
                    (Seq<crate::module::SpecFunc>, Seq<u8>),
                    CodecError,
                >((items@.map_values(|x: Func| x@), buf@.skip(p as int))));
            }
            Ok((items, p))
        },
    }
}

#[verifier::loop_isolation(false)]
fn read_globals_sec(buf: &Vec<u8>, pos: usize) -> (r: Result<(Vec<Global>, usize), CodecError>)
    requires
        pos <= buf@.len(),
    ensures
        match r {
            Ok(t) => pos <= t.1 <= buf@.len() && t.0@.len() < 0x1_0000_0000 && dec_vec(
                buf@.skip(pos as int),
                dec_global_fn(),
            ) == Ok::<(Seq<Global>, Seq<u8>), CodecError>((
                t.0@,
                buf@.skip(t.1 as int),
            )),
            Err(e) => dec_vec(buf@.skip(pos as int), dec_global_fn()) == Err::<
                (Seq<Global>, Seq<u8>),
                CodecError,
            >(e),
        },
{
    match read_u32(buf, pos) {
        Err(e) => Err(e),
        Ok(tc) => {
            let cnt = tc.0;
            let p1 = tc.1;
            let ghost d = dec_global_fn();
            let ghost s1 = buf@.skip(p1 as int);
            let mut items: Vec<Global> = Vec::new();
            let mut p = p1;
            let mut i: u32 = 0;
            proof {
                lemma_cont_init(s1, cnt as nat, d);
            }
            while i < cnt
                invariant
                    i <= cnt,
                    p1 <= p,
                    p <= buf@.len(),
                    items@.len() == i as nat,
                    dec_n_cont(items@, buf@.skip(p as int), (cnt - i) as nat, d) == dec_n(
                        s1,
                        cnt as nat,
                        d,
                    ),
                decreases cnt - i,
            {
                match read_global(buf, p) {
                    Err(e) => {
                        proof {
                            assert(d(buf@.skip(p as int)) == Err::<
                                (Global, Seq<u8>),
                                CodecError,
                            >(e));
                            assert(dec_n(buf@.skip(p as int), (cnt - i) as nat, d) == Err::<
                                (Seq<Global>, Seq<u8>),
                                CodecError,
                            >(e));
                            assert(dec_vec(buf@.skip(pos as int), d) == Err::<
                                (Seq<Global>, Seq<u8>),
                                CodecError,
                            >(e));
                        }
                        return Err(e);
                    },
                    Ok(t) => {
                        proof {
                            assert(d(buf@.skip(p as int)) == Ok::<
                                (Global, Seq<u8>),
                                CodecError,
                            >((t.0, buf@.skip(t.1 as int))));
                            lemma_cont_step(
                                items@,
                                buf@.skip(p as int),
                                (cnt - i) as nat,
                                t.0,
                                buf@.skip(t.1 as int),
                                d,
                            );
                        }
                        items.push(t.0);
                        p = t.1;
                        i = i + 1;
                    },
                }
            }
            proof {
                lemma_cont_end(items@, buf@.skip(p as int), d);
                assert(dec_vec(buf@.skip(pos as int), d) == Ok::<
                    (Seq<Global>, Seq<u8>),
                    CodecError,
                >((items@, buf@.skip(p as int))));
            }
            Ok((items, p))
        },
    }
}

#[verifier::loop_isolation(false)]
fn read_exports_sec(buf: &Vec<u8>, pos: usize) -> (r: Result<(Vec<Export>, usize), CodecError>)
    requires
        pos <= buf@.len(),
    ensures
        match r {
            Ok(t) => pos <= t.1 <= buf@.len() && t.0@.len() < 0x1_0000_0000 && dec_vec(
                buf@.skip(pos as int),
                dec_export_fn(),
            ) == Ok::<(Seq<crate::module::SpecExport>, Seq<u8>), CodecError>((
                t.0@.map_values(|x: Export| x@),
                buf@.skip(t.1 as int),
            )) && (forall|k: int|
                0 <= k < t.0@.len() ==> (#[trigger] t.0@[k]).name@.len() < 0x1_0000_0000),
            Err(e) => dec_vec(buf@.skip(pos as int), dec_export_fn()) == Err::<
                (Seq<crate::module::SpecExport>, Seq<u8>),
                CodecError,
            >(e),
        },
{
    match read_u32(buf, pos) {
        Err(e) => Err(e),
        Ok(tc) => {
            let cnt = tc.0;
            let p1 = tc.1;
            let ghost d = dec_export_fn();
            let ghost s1 = buf@.skip(p1 as int);
            let mut items: Vec<Export> = Vec::new();
            let mut p = p1;
            let mut i: u32 = 0;
            proof {
                lemma_cont_init(s1, cnt as nat, d);
            }
            while i < cnt
                invariant
                    i <= cnt,
                    p1 <= p,
                    p <= buf@.len(),
                    items@.len() == i as nat,
                    forall|k: int| 0 <= k < items@.len() ==> (#[trigger] items@[k]).name@.len()
                        < 0x1_0000_0000,
                    dec_n_cont(items@.map_values(|x: Export| x@), buf@.skip(p as int), (cnt - i) as nat, d) == dec_n(
                        s1,
                        cnt as nat,
                        d,
                    ),
                decreases cnt - i,
            {
                match read_export(buf, p) {
                    Err(e) => {
                        proof {
                            assert(d(buf@.skip(p as int)) == Err::<
                                (crate::module::SpecExport, Seq<u8>),
                                CodecError,
                            >(e));
                            assert(dec_n(buf@.skip(p as int), (cnt - i) as nat, d) == Err::<
                                (Seq<crate::module::SpecExport>, Seq<u8>),
                                CodecError,
                            >(e));
                            assert(dec_vec(buf@.skip(pos as int), d) == Err::<
                                (Seq<crate::module::SpecExport>, Seq<u8>),
                                CodecError,
                            >(e));
                        }
                        return Err(e);
                    },
                    Ok(t) => {
                        proof {
                            assert(d(buf@.skip(p as int)) == Ok::<
                                (crate::module::SpecExport, Seq<u8>),
                                CodecError,
                            >((t.0@, buf@.skip(t.1 as int))));
                            lemma_cont_step(
                                items@.map_values(|x: Export| x@),
                                buf@.skip(p as int),
                                (cnt - i) as nat,
                                t.0@,
                                buf@.skip(t.1 as int),
                                d,
                            );
                                    assert(items@.push(t.0).map_values(|x: Export| x@) =~= items@.map_values(|x: Export| x@).push(t.0@));
                        }
                        items.push(t.0);
                        p = t.1;
                        i = i + 1;
                    },
                }
            }
            proof {
                lemma_cont_end(items@.map_values(|x: Export| x@), buf@.skip(p as int), d);
                assert(dec_vec(buf@.skip(pos as int), d) == Ok::<
                    (Seq<crate::module::SpecExport>, Seq<u8>),
                    CodecError,
                >((items@.map_values(|x: Export| x@), buf@.skip(p as int))));
            }
            Ok((items, p))
        },
    }
}

#[verifier::loop_isolation(false)]
fn read_elements_sec(buf: &Vec<u8>, pos: usize) -> (r: Result<(Vec<Element>, usize), CodecError>)
    requires
        pos <= buf@.len(),
    ensures
        match r {
            Ok(t) => pos <= t.1 <= buf@.len() && t.0@.len() < 0x1_0000_0000 && dec_vec(
                buf@.skip(pos as int),
                dec_element_fn(),
            ) == Ok::<(Seq<crate::module::SpecElement>, Seq<u8>), CodecError>((
                t.0@.map_values(|x: Element| x@),
                buf@.skip(t.1 as int),
            )) && (forall|k: int|
                0 <= k < t.0@.len() ==> (#[trigger] t.0@[k]).entries@.len() < 0x1_0000_0000),
            Err(e) => dec_vec(buf@.skip(pos as int), dec_element_fn()) == Err::<
                (Seq<crate::module::SpecElement>, Seq<u8>),
                CodecError,
            >(e),
        },
{
    match read_u32(buf, pos) {
        Err(e) => Err(e),
        Ok(tc) => {
            let cnt = tc.0;
            let p1 = tc.1;
            let ghost d = dec_element_fn();
            let ghost s1 = buf@.skip(p1 as int);
            let mut items: Vec<Element> = Vec::new();
            let mut p = p1;
            let mut i: u32 = 0;
            proof {
                lemma_cont_init(s1, cnt as nat, d);
            }
            while i < cnt
                invariant
                    i <= cnt,
                    p1 <= p,
                    p <= buf@.len(),
                    items@.len() == i as nat,
                    forall|k: int| 0 <= k < items@.len() ==> (
                    #[trigger] items@[k]).entries@.len() < 0x1_0000_0000,
                    dec_n_cont(items@.map_values(|x: Element| x@), buf@.skip(p as int), (cnt - i) as nat, d) == dec_n(
                        s1,
                        cnt as nat,
                        d,
                    ),
                decreases cnt - i,
            {
                match read_element(buf, p) {
                    Err(e) => {
                        proof {
                            assert(d(buf@.skip(p as int)) == Err::<
                                (crate::module::SpecElement, Seq<u8>),
                                CodecError,
                            >(e));
                            assert(dec_n(buf@.skip(p as int), (cnt - i) as nat, d) == Err::<
                                (Seq<crate::module::SpecElement>, Seq<u8>),
                                CodecError,
                            >(e));
                            assert(dec_vec(buf@.skip(pos as int), d) == Err::<
                                (Seq<crate::module::SpecElement>, Seq<u8>),
                                CodecError,
                            >(e));
                        }
                        return Err(e);
                    },
                    Ok(t) => {
                        proof {
                            assert(d(buf@.skip(p as int)) == Ok::<
                                (crate::module::SpecElement, Seq<u8>),
                                CodecError,
                            >((t.0@, buf@.skip(t.1 as int))));
                            lemma_cont_step(
                                items@.map_values(|x: Element| x@),
                                buf@.skip(p as int),
                                (cnt - i) as nat,
                                t.0@,
                                buf@.skip(t.1 as int),
                                d,
                            );
                                    assert(items@.push(t.0).map_values(|x: Element| x@) =~= items@.map_values(|x: Element| x@).push(t.0@));
                        }
                        items.push(t.0);
                        p = t.1;
                        i = i + 1;
                    },
                }
            }
            proof {
                lemma_cont_end(items@.map_values(|x: Element| x@), buf@.skip(p as int), d);
                assert(dec_vec(buf@.skip(pos as int), d) == Ok::<
                    (Seq<crate::module::SpecElement>, Seq<u8>),
                    CodecError,
                >((items@.map_values(|x: Element| x@), buf@.skip(p as int))));
            }
            Ok((items, p))
        },
    }
}

#[verifier::loop_isolation(false)]
fn read_datas_sec(buf: &Vec<u8>, pos: usize) -> (r: Result<(Vec<Data>, usize), CodecError>)
    requires
        pos <= buf@.len(),
    ensures
        match r {
            Ok(t) => pos <= t.1 <= buf@.len() && t.0@.len() < 0x1_0000_0000 && dec_vec(
                buf@.skip(pos as int),
                dec_data_fn(),
            ) == Ok::<(Seq<crate::module::SpecData>, Seq<u8>), CodecError>((
                t.0@.map_values(|x: Data| x@),
                buf@.skip(t.1 as int),
            )) && (forall|k: int|
                0 <= k < t.0@.len() ==> (#[trigger] t.0@[k]).bytes@.len() < 0x1_0000_0000),
            Err(e) => dec_vec(buf@.skip(pos as int), dec_data_fn()) == Err::<
                (Seq<crate::module::SpecData>, Seq<u8>),
                CodecError,
            >(e),
        },
{
    match read_u32(buf, pos) {
        Err(e) => Err(e),
        Ok(tc) => {
            let cnt = tc.0;
            let p1 = tc.1;
            let ghost d = dec_data_fn();
            let ghost s1 = buf@.skip(p1 as int);
            let mut items: Vec<Data> = Vec::new();
            let mut p = p1;
            let mut i: u32 = 0;
            proof {
                lemma_cont_init(s1, cnt as nat, d);
            }
            while i < cnt
                invariant
                    i <= cnt,
                    p1 <= p,
                    p <= buf@.len(),
                    items@.len() == i as nat,
                    forall|k: int| 0 <= k < items@.len() ==> (#[trigger] items@[k]).bytes@.len()
                        < 0x1_0000_0000,
                    dec_n_cont(items@.map_values(|x: Data| x@), buf@.skip(p as int), (cnt - i) as nat, d) == dec_n(
                        s1,
                        cnt as nat,
                        d,
                    ),
                decreases cnt - i,
            {
                match read_data(buf, p) {
                    Err(e) => {
                        proof {
                            assert(d(buf@.skip(p as int)) == Err::<
                                (crate::module::SpecData, Seq<u8>),
                                CodecError,
                            >(e));
                            assert(dec_n(buf@.skip(p as int), (cnt - i) as nat, d) == Err::<
                                (Seq<crate::module::SpecData>, Seq<u8>),
                                CodecError,
                            >(e));
                            assert(dec_vec(buf@.skip(pos as int), d) == Err::<
                                (Seq<crate::module::SpecData>, Seq<u8>),
                                CodecError,
                            >(e));
                        }
                        return Err(e);
                    },
                    Ok(t) => {
                        proof {
                            assert(d(buf@.skip(p as int)) == Ok::<
                                (crate::module::SpecData, Seq<u8>),
                                CodecError,
                            >((t.0@, buf@.skip(t.1 as int))));
                            lemma_cont_step(
                                items@.map_values(|x: Data| x@),
                                buf@.skip(p as int),
                                (cnt - i) as nat,
                                t.0@,
                                buf@.skip(t.1 as int),
                                d,
                            );
                                    assert(items@.push(t.0).map_values(|x: Data| x@) =~= items@.map_values(|x: Data| x@).push(t.0@));
                        }
                        items.push(t.0);
                        p = t.1;
                        i = i + 1;
                    },
                }
            }
            proof {
                lemma_cont_end(items@.map_values(|x: Data| x@), buf@.skip(p as int), d);
                assert(dec_vec(buf@.skip(pos as int), d) == Ok::<
                    (Seq<crate::module::SpecData>, Seq<u8>),
                    CodecError,
                >((items@.map_values(|x: Data| x@), buf@.skip(p as int))));
            }
            Ok((items, p))
        },
    }
}

#[verifier::loop_isolation(false)]
fn read_customs_sec(buf: &Vec<u8>, pos: usize) -> (r: Result<(Vec<Custom>, usize), CodecError>)
    requires
        pos <= buf@.len(),
    ensures
        match r {
            Ok(t) => pos <= t.1 <= buf@.len() && t.0@.len() < 0x1_0000_0000 && dec_vec(
                buf@.skip(pos as int),
                dec_custom_fn(),
            ) == Ok::<(Seq<crate::module::SpecCustom>, Seq<u8>), CodecError>((
                t.0@.map_values(|x: Custom| x@),
                buf@.skip(t.1 as int),
            )) && (forall|k: int|
                0 <= k < t.0@.len() ==> (#[trigger] t.0@[k]).name@.len() < 0x1_0000_0000
                    && t.0@[k].bytes@.len() < 0x1_0000_0000),
            Err(e) => dec_vec(buf@.skip(pos as int), dec_custom_fn()) == Err::<
                (Seq<crate::module::SpecCustom>, Seq<u8>),
                CodecError,
            >(e),
        },
{
    match read_u32(buf, pos) {
        Err(e) => Err(e),
        Ok(tc) => {
            let cnt = tc.0;
            let p1 = tc.1;
            let ghost d = dec_custom_fn();
            let ghost s1 = buf@.skip(p1 as int);
            let mut items: Vec<Custom> = Vec::new();
            let mut p = p1;
            let mut i: u32 = 0;
            proof {
                lemma_cont_init(s1, cnt as nat, d);
            }
            while i < cnt
                invariant
                    i <= cnt,
                    p1 <= p,
                    p <= buf@.len(),
                    items@.len() == i as nat,
                    forall|k: int| 0 <= k < items@.len() ==> (#[trigger] items@[k]).name@.len()
                        < 0x1_0000_0000 && items@[k].bytes@.len() < 0x1_0000_0000,
                    dec_n_cont(items@.map_values(|x: Custom| x@), buf@.skip(p as int), (cnt - i) as nat, d) == dec_n(
                        s1,
                        cnt as nat,
                        d,
                    ),
                decreases cnt - i,
            {
                match read_custom(buf, p) {
                    Err(e) => {
                        proof {
                            assert(d(buf@.skip(p as int)) == Err::<
                                (crate::module::SpecCustom, Seq<u8>),
                                CodecError,
                            >(e));
                            assert(dec_n(buf@.skip(p as int), (cnt - i) as nat, d) == Err::<
                                (Seq<crate::module::SpecCustom>, Seq<u8>),
                                CodecError,
                            >(e));
                            assert(dec_vec(buf@.skip(pos as int), d) == Err::<
                                (Seq<crate::module::SpecCustom>, Seq<u8>),
                                CodecError,
                            >(e));
                        }
                        return Err(e);
                    },
                    Ok(t) => {
                        proof {
                            assert(d(buf@.skip(p as int)) == Ok::<
                                (crate::module::SpecCustom, Seq<u8>),
                                CodecError,
                            >((t.0@, buf@.skip(t.1 as int))));
                            lemma_cont_step(
                                items@.map_values(|x: Custom| x@),
                                buf@.skip(p as int),
                                (cnt - i) as nat,
                                t.0@,
                                buf@.skip(t.1 as int),
                                d,
                            );
                                    assert(items@.push(t.0).map_values(|x: Custom| x@) =~= items@.map_values(|x: Custom| x@).push(t.0@));
                        }
                        items.push(t.0);
                        p = t.1;
                        i = i + 1;
                    },
                }
            }
            proof {
                lemma_cont_end(items@.map_values(|x: Custom| x@), buf@.skip(p as int), d);
                assert(dec_vec(buf@.skip(pos as int), d) == Ok::<
                    (Seq<crate::module::SpecCustom>, Seq<u8>),
                    CodecError,
                >((items@.map_values(|x: Custom| x@), buf@.skip(p as int))));
            }
            Ok((items, p))
        },
    }
}

fn read_table_sec(buf: &Vec<u8>, pos: usize) -> (r: Result<(Option<Table>, usize), CodecError>)
    requires
        pos <= buf@.len(),
    ensures
        match r {
            Ok(t) => pos <= t.1 <= buf@.len() && dec_opt(buf@.skip(pos as int), dec_table_fn())
                == Ok::<(Option<Table>, Seq<u8>), CodecError>((t.0, buf@.skip(t.1 as int))),
            Err(e) => dec_opt(buf@.skip(pos as int), dec_table_fn()) == Err::<
                (Option<Table>, Seq<u8>),
                CodecError,
            >(e),
        },
{
    match read_byte(buf, pos) {
        Err(e) => Err(e),
        Ok(t) => {
            if t.0 == 0 {
                Ok((None, t.1))
            } else if t.0 == 1 {
                match read_table(buf, t.1) {
                    Err(e) => Err(e),
                    Ok(t2) => Ok((Some(t2.0), t2.1)),
                }
            } else {
                Err(CodecError::MalformedHeader)
            }
        },
    }
}

fn read_memory_sec(buf: &Vec<u8>, pos: usize) -> (r: Result<
    (Option<MemoryDesc>, usize),
    CodecError,
>)
    requires
        pos <= buf@.len(),
    ensures
        match r {
            Ok(t) => pos <= t.1 <= buf@.len() && dec_opt(buf@.skip(pos as int), dec_memory_fn())
                == Ok::<(Option<MemoryDesc>, Seq<u8>), CodecError>((t.0, buf@.skip(t.1 as int))),
            Err(e) => dec_opt(buf@.skip(pos as int), dec_memory_fn()) == Err::<
                (Option<MemoryDesc>, Seq<u8>),
                CodecError,
            >(e),
        },
{
    match read_byte(buf, pos) {
        Err(e) => Err(e),
        Ok(t) => {
            if t.0 == 0 {
                Ok((None, t.1))
            } else if t.0 == 1 {
                match read_memory(buf, t.1) {
                    Err(e) => Err(e),
                    Ok(t2) => Ok((Some(t2.0), t2.1)),
                }
            } else {
                Err(CodecError::MalformedHeader)
            }
        },
    }
}

fn read_start_sec(buf: &Vec<u8>, pos: usize) -> (r: Result<(Option<u32>, usize), CodecError>)
    requires
        pos <= buf@.len(),
    ensures
        match r {
            Ok(t) => pos <= t.1 <= buf@.len() && dec_opt(buf@.skip(pos as int), dec_u32_fn())
                == Ok::<(Option<u32>, Seq<u8>), CodecError>((t.0, buf@.skip(t.1 as int))),
            Err(e) => dec_opt(buf@.skip(pos as int), dec_u32_fn()) == Err::<
                (Option<u32>, Seq<u8>),
                CodecError,
            >(e),
        },
{
    match read_byte(buf, pos) {
        Err(e) => Err(e),
        Ok(t) => {
            if t.0 == 0 {
                Ok((None, t.1))
            } else if t.0 == 1 {
                match read_u32(buf, t.1) {
                    Err(e) => Err(e),
                    Ok(t2) => Ok((Some(t2.0), t2.1)),
                }
            } else {
                Err(CodecError::MalformedHeader)
            }
        },
    }
}

// ---------------------------------------------------------------------------
// Well-formedness checking.
// ---------------------------------------------------------------------------

#[verifier::loop_isolation(false)]
pub fn count_fimps(imports: &Vec<Import>) -> (c: usize)
    ensures
        c == crate::module::count_func_imports(imports@.map_values(|x: Import| x@)),
        c <= imports@.len(),
{
    let ghost sv = imports@.map_values(|x: Import| x@);
    let mut c: usize = 0;
    for i in 0..imports.len()
        invariant
            c == crate::module::count_func_imports(sv.take(i as int)),
            c <= i,
    {
        proof {
            crate::module::lemma_count_func_imports_snoc(sv.take(i as int), sv[i as int]);
            assert(sv.take(i + 1) =~= sv.take(i as int).push(sv[i as int]));
        }
        match &imports[i].desc {
            ImportDesc::Func { .. } => {
                proof {
                    assert(sv[i as int].is_func());
                }
                c = c + 1;
            },
            _ => {
                proof {
                    assert(!sv[i as int].is_func());
                }
            },
        }
    }
    proof {
        assert(sv.take(imports@.len() as int) =~= sv);
    }
    c
}

#[verifier::loop_isolation(false)]
pub fn count_gimps(imports: &Vec<Import>) -> (c: usize)
    ensures
        c == crate::module::count_global_imports(imports@.map_values(|x: Import| x@)),
        c <= imports@.len(),
{
    let ghost sv = imports@.map_values(|x: Import| x@);
    let mut c: usize = 0;
    for i in 0..imports.len()
        invariant
            c == crate::module::count_global_imports(sv.take(i as int)),
            c <= i,
    {
        proof {
            crate::module::lemma_count_global_imports_snoc(sv.take(i as int), sv[i as int]);
            assert(sv.take(i + 1) =~= sv.take(i as int).push(sv[i as int]));
        }
        match &imports[i].desc {
            ImportDesc::Global => {
                proof {
                    assert(sv[i as int].is_global());
                }
                c = c + 1;
            },
            _ => {
                proof {
                    assert(!sv[i as int].is_global());
                }
            },
        }
    }
    proof {
        assert(sv.take(imports@.len() as int) =~= sv);
    }
    c
}

/// Decide whether every index reference in the module is in bounds.
#[verifier::loop_isolation(false)]
#[verifier::rlimit(60)]
pub fn check_wf(m: &Module) -> (r: bool)
    requires
        m@.wf_sizes(),
    ensures
        r == m@.wf_refs(),
{
    let nfi = count_fimps(&m.imports);
    let ngi = count_gimps(&m.imports);
    let nf: u64 = nfi as u64 + m.funcs.len() as u64;
    let ng: u64 = ngi as u64 + m.globals.len() as u64;
    let nt: u64 = m.types.len() as u64;
    proof {
        assert(nf == m@.n_funcs());
        assert(ng == m@.n_globals());
        assert(nt == m@.types.len());
    }

    if m.elements.len() > 0 && m.tables.is_none() {
        return false;
    }
    match m.start {
        Some(f) => if !((f as u64) < nf) {
            return false;
        },
        None => {},
    }

    for i in 0..m.imports.len()
        invariant
            forall|k: int| 0 <= k < i ==> m@.import_ok(#[trigger] m@.imports[k]),
    {
        let ok = match &m.imports[i].desc {
            ImportDesc::Func { type_idx, .. } => (*type_idx as u64) < nt,
            _ => true,
        };
        proof {
            assert(m@.imports[i as int] == m.imports@[i as int]@);
        }
        if !ok {
            proof {
                assert(!m@.import_ok(m@.imports[i as int]));
            }
            return false;
        }
    }

    for i in 0..m.funcs.len()
        invariant
            forall|k: int| 0 <= k < i ==> m@.func_ok(#[trigger] m@.funcs[k]),
    {
        proof {
            assert(m@.funcs[i as int] == m.funcs@[i as int]@);
        }
        if !((m.funcs[i].type_idx as u64) < nt) {
            proof {
                assert(!m@.func_ok(m@.funcs[i as int]));
            }
            return false;
        }
        let nb = m.funcs[i].body.len();
        for j in 0..nb
            invariant
                nb == m.funcs@[i as int].body@.len(),
                i < m.funcs@.len(),
                forall|l: int| 0 <= l < j ==> m@.instr_ok(
                    #[trigger] m@.funcs[i as int].body[l],
                ),
        {
            let ok = match m.funcs[i].body[j] {
                Instr::Call(x) => (x as u64) < nf,
                Instr::CallIndirect(x) => (x as u64) < nt,
                Instr::GlobalGet(x) => (x as u64) < ng,
                Instr::GlobalSet(x) => (x as u64) < ng,
                _ => true,
            };
            proof {
                assert(m@.funcs[i as int].body[j as int] == m.funcs@[i as int].body@[j as int]);
            }
            if !ok {
                proof {
                    assert(!m@.instr_ok(m@.funcs[i as int].body[j as int]));
                    assert(!m@.func_ok(m@.funcs[i as int]));
                }
                return false;
            }
        }
        proof {
            assert(m@.func_ok(m@.funcs[i as int]));
        }
    }

    for i in 0..m.exports.len()
        invariant
            forall|k: int| 0 <= k < i ==> m@.export_ok(#[trigger] m@.exports[k]),
    {
        let e = &m.exports[i];
        let ok = match e.kind {
            ExternKind::Func => (e.index as u64) < nf,
            ExternKind::Table => e.index == 0 && m.tables.is_some(),
            ExternKind::Memory => e.index == 0 && m.memory.is_some(),
            ExternKind::Global => (e.index as u64) < ng,
        };
        proof {
            assert(m@.exports[i as int] == m.exports@[i as int]@);
        }
        if !ok {
            proof {
                assert(!m@.export_ok(m@.exports[i as int]));
            }
            return false;
        }
    }

    for i in 0..m.globals.len()
        invariant
            forall|k: int| 0 <= k < i ==> m@.global_ok(#[trigger] m@.globals[k]),
    {
        let ok = match m.globals[i].init {
            GlobalInit::Const(_) => true,
            GlobalInit::GetGlobal(h) => (h as u64) < ng,
        };
        if !ok {
            proof {
                assert(!m@.global_ok(m@.globals[i as int]));
            }
            return false;
        }
    }

    for i in 0..m.elements.len()
        invariant
            forall|k: int| 0 <= k < i ==> m@.element_ok(#[trigger] m@.elements[k]),
    {
        proof {
            assert(m@.elements[i as int] == m.elements@[i as int]@);
        }
        let ne = m.elements[i].entries.len();
        for j in 0..ne
            invariant
                ne == m.elements@[i as int].entries@.len(),
                i < m.elements@.len(),
                forall|l: int| 0 <= l < j ==> (#[trigger] m@.elements[i as int].entries[l])
                    < m@.n_funcs(),
        {
            let x = m.elements[i].entries[j];
            proof {
                assert(m@.elements[i as int].entries[j as int] == m.elements@[
                    i as int].entries@[j as int]);
            }
            if !((x as u64) < nf) {
                proof {
                    assert(!m@.element_ok(m@.elements[i as int]));
                }
                return false;
            }
        }
        proof {
            assert(m@.element_ok(m@.elements[i as int]));
        }
    }

    proof {
        assert(m@.wf_refs());
    }
    true
}

// ---------------------------------------------------------------------------
// The parser.
// ---------------------------------------------------------------------------


proof fn lemma_assembled_sizes(m: Module)
    requires
        m.types@.len() < 0x1_0000_0000,
        m.imports@.len() < 0x1_0000_0000,
        m.funcs@.len() < 0x1_0000_0000,
        m.globals@.len() < 0x1_0000_0000,
        m.exports@.len() < 0x1_0000_0000,
        m.elements@.len() < 0x1_0000_0000,
        m.datas@.len() < 0x1_0000_0000,
        m.customs@.len() < 0x1_0000_0000,
        forall|k: int| 0 <= k < m.imports@.len() ==> import_sz((#[trigger] m.imports@[k])@),
        forall|k: int| 0 <= k < m.funcs@.len() ==> (#[trigger] m.funcs@[k]).body@.len()
            < 0x1_0000_0000,
        forall|k: int| 0 <= k < m.exports@.len() ==> (#[trigger] m.exports@[k]).name@.len()
            < 0x1_0000_0000,
        forall|k: int| 0 <= k < m.elements@.len() ==> (#[trigger] m.elements@[k]).entries@.len()
            < 0x1_0000_0000,
        forall|k: int| 0 <= k < m.datas@.len() ==> (#[trigger] m.datas@[k]).bytes@.len()
            < 0x1_0000_0000,
        forall|k: int| 0 <= k < m.customs@.len() ==> (#[trigger] m.customs@[k]).name@.len()
            < 0x1_0000_0000 && m.customs@[k].bytes@.len() < 0x1_0000_0000,
    ensures
        m@.wf_sizes(),
{
    assert forall|i: int| 0 <= i < m@.imports.len() implies import_sz(
        #[trigger] m@.imports[i],
    ) by {
        assert(m@.imports[i] == m.imports@[i]@);
    }
    assert forall|i: int| 0 <= i < m@.funcs.len() implies (#[trigger] m@.funcs[i]).body.len()
        < 0x1_0000_0000 by {
        assert(m@.funcs[i] == m.funcs@[i]@);
    }
    assert forall|i: int| 0 <= i < m@.exports.len() implies (#[trigger] m@.exports[i]).name.len()
        < 0x1_0000_0000 by {
        assert(m@.exports[i] == m.exports@[i]@);
    }
    assert forall|i: int| 0 <= i < m@.elements.len() implies (
    #[trigger] m@.elements[i]).entries.len() < 0x1_0000_0000 by {
        assert(m@.elements[i] == m.elements@[i]@);
    }
    assert forall|i: int| 0 <= i < m@.datas.len() implies (#[trigger] m@.datas[i]).bytes.len()
        < 0x1_0000_0000 by {
        assert(m@.datas[i] == m.datas@[i]@);
    }
    assert forall|i: int| 0 <= i < m@.customs.len() implies (#[trigger] m@.customs[i]).name.len()
        < 0x1_0000_0000 && m@.customs[i].bytes.len() < 0x1_0000_0000 by {
        assert(m@.customs[i] == m.customs@[i]@);
    }
}

/// Parse container bytes into a module: the executable face of
/// `codec::parse_spec`. On success the module is well-formed and re-encodes
/// to a parseable container.
#[verifier::rlimit(100)]
pub fn parse(bytes: &Vec<u8>) -> (r: Result<Module, CodecError>)
    ensures
        r matches Ok(m) ==> parse_spec(bytes@) == Ok::<SpecModule, CodecError>(m@) && m@.wf(),
        r matches Err(e) ==> parse_spec(bytes@) == Err::<SpecModule, CodecError>(e),
{
    if bytes.len() < 4 {
        return Err(CodecError::TruncatedBody);
    }
    if !(bytes[0] == 0x00 && bytes[1] == 0x6d && bytes[2] == 0x6f && bytes[3] == 0x64) {
        return Err(CodecError::MalformedHeader);
    }
    let tv = match read_u32(bytes, 4) {
        Err(e) => {
            return Err(e);
        },
        Ok(t) => t,
    };
    if tv.0 != CONTAINER_VERSION {
        return Err(CodecError::UnsupportedVersion);
    }
    let t1 = match read_types_sec(bytes, tv.1) {
        Err(e) => {
            return Err(e);
        },
        Ok(t) => t,
    };
    let t2 = match read_imports_sec(bytes, t1.1) {
        Err(e) => {
            return Err(e);
        },
        Ok(t) => t,
    };
    let t3 = match read_funcs_sec(bytes, t2.1) {
        Err(e) => {
            return Err(e);
        },
        Ok(t) => t,
    };
    let t4 = match read_table_sec(bytes, t3.1) {
        Err(e) => {
            return Err(e);
        },
        Ok(t) => t,
    };
    let t5 = match read_memory_sec(bytes, t4.1) {
        Err(e) => {
            return Err(e);
        },
        Ok(t) => t,
    };
    let t6 = match read_globals_sec(bytes, t5.1) {
        Err(e) => {
            return Err(e);
        },
        Ok(t) => t,
    };
    let t7 = match read_exports_sec(bytes, t6.1) {
        Err(e) => {
            return Err(e);
        },
        Ok(t) => t,
    };
    let t8 = match read_elements_sec(bytes, t7.1) {
        Err(e) => {
            return Err(e);
        },
        Ok(t) => t,
    };
    let t9 = match read_datas_sec(bytes, t8.1) {
        Err(e) => {
            return Err(e);
        },
        Ok(t) => t,
    };
    let t10 = match read_customs_sec(bytes, t9.1) {
        Err(e) => {
            return Err(e);
        },
        Ok(t) => t,
    };
    let t11 = match read_start_sec(bytes, t10.1) {
        Err(e) => {
            return Err(e);
        },
        Ok(t) => t,
    };
    if t11.1 != bytes.len() {
        proof {
            assert(bytes@.skip(t11.1 as int).len() != 0);
        }
        return Err(CodecError::MalformedHeader);
    }
    proof {
        assert(bytes@.skip(t11.1 as int).len() == 0);
    }
    let m = Module {
        types: t1.0,
        imports: t2.0,
        funcs: t3.0,
        tables: t4.0,
        memory: t5.0,
        globals: t6.0,
        exports: t7.0,
        elements: t8.0,
        datas: t9.0,
        customs: t10.0,
        start: t11.0,
    };
    proof {
        assert(m@.imports =~= m.imports@.map_values(|x: Import| x@));
        assert(m@.funcs =~= m.funcs@.map_values(|x: Func| x@));
        assert(m@.exports =~= m.exports@.map_values(|x: Export| x@));
        assert(m@.elements =~= m.elements@.map_values(|x: Element| x@));
        assert(m@.datas =~= m.datas@.map_values(|x: Data| x@));
        assert(m@.customs =~= m.customs@.map_values(|x: Custom| x@));
        lemma_assembled_sizes(m);
    }
    let nfi = count_fimps(&m.imports);
    let ngi = count_gimps(&m.imports);
    let space_ok = (nfi as u64) + (m.funcs.len() as u64) < 0x1_0000_0000 && (ngi as u64)
        + (m.globals.len() as u64) < 0x1_0000_0000;
    proof {
        assert(space_ok == m@.wf_space());
    }
    if check_wf(&m) && space_ok {
        proof {
            assert(parse_spec(bytes@) == Ok::<SpecModule, CodecError>(m@));
        }
        Ok(m)
    } else {
        proof {
            assert(parse_spec(bytes@) == Err::<SpecModule, CodecError>(CodecError::BadIndex));
        }
        Err(CodecError::BadIndex)
    }
}

} // verus!
