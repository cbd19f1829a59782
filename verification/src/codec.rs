//! The mathematical codec: what the byte encoding of a module is, what
//! decoding means, and the proof that decoding inverts encoding. The
//! executable `parse` and `serialize` are specified against these functions.
//!
//! Layout: a four-byte magic, a version word, then the sections in a fixed
//! order (types, imports, functions, table, memory, globals, exports,
//! elements, data, customs, start). All integers are 32-bit little-endian;
//! variable-length sequences are length-prefixed.

use vstd::prelude::*;

use crate::errors::CodecError;
use crate::module::{
    ExternKind, FuncType, Global, GlobalInit, Instr, MemoryDesc, SpecCustom, SpecData,
    SpecElement, SpecExport, SpecFunc, SpecImport, SpecImportDesc, SpecModule, Table,
};

verus! {

/// The container version this pipeline reads and writes.
pub const CONTAINER_VERSION: u32 = 1;

/// The four magic bytes that open every container.
pub open spec fn magic() -> Seq<u8> {
    seq![0x00u8, 0x6du8, 0x6fu8, 0x64u8]
}

// ---------------------------------------------------------------------------
// Primitive encoders and decoders.
// ---------------------------------------------------------------------------

/// Little-endian encoding of a 32-bit integer.
pub open spec fn enc_u32(n: u32) -> Seq<u8> {
    seq![
        (n & 0xff) as u8,
        ((n >> 8) & 0xff) as u8,
        ((n >> 16) & 0xff) as u8,
        ((n >> 24) & 0xff) as u8,
    ]
}

/// The 32-bit integer written little-endian as the four given bytes.
pub open spec fn u32_from_le(b0: u8, b1: u8, b2: u8, b3: u8) -> u32 {
    (b0 as u32) | ((b1 as u32) << 8) | ((b2 as u32) << 16) | ((b3 as u32) << 24)
}

pub open spec fn dec_u32(s: Seq<u8>) -> Result<(u32, Seq<u8>), CodecError> {
    if s.len() >= 4 {
        Ok((u32_from_le(s[0], s[1], s[2], s[3]), s.skip(4)))
    } else {
        Err(CodecError::TruncatedBody)
    }
}

pub open spec fn enc_byte(b: u8) -> Seq<u8> {
    seq![b]
}

pub open spec fn dec_byte(s: Seq<u8>) -> Result<(u8, Seq<u8>), CodecError> {
    if s.len() >= 1 {
        Ok((s[0], s.skip(1)))
    } else {
        Err(CodecError::TruncatedBody)
    }
}

/// A length-prefixed byte string.
pub open spec fn enc_bytes(b: Seq<u8>) -> Seq<u8> {
    enc_u32(b.len() as u32) + b
}

pub open spec fn dec_bytes(s: Seq<u8>) -> Result<(Seq<u8>, Seq<u8>), CodecError> {
    match dec_u32(s) {
        Err(e) => Err(e),
        Ok((n, r)) => if r.len() >= n {
            Ok((r.take(n as int), r.skip(n as int)))
        } else {
            Err(CodecError::TruncatedBody)
        },
    }
}

pub proof fn lemma_dec_u32(n: u32, rest: Seq<u8>)
    ensures
        dec_u32(enc_u32(n) + rest) == Ok::<(u32, Seq<u8>), CodecError>((n, rest)),
{
    let s = enc_u32(n) + rest;
    assert(s[0] == (n & 0xff) as u8);
    assert(s[1] == ((n >> 8) & 0xff) as u8);
    assert(s[2] == ((n >> 16) & 0xff) as u8);
    assert(s[3] == ((n >> 24) & 0xff) as u8);
    assert(u32_from_le(
        (n & 0xff) as u8,
        ((n >> 8) & 0xff) as u8,
        ((n >> 16) & 0xff) as u8,
        ((n >> 24) & 0xff) as u8,
    ) == n) by (bit_vector);
    assert(s.skip(4) =~= rest);
}

pub proof fn lemma_dec_byte(b: u8, rest: Seq<u8>)
    ensures
        dec_byte(enc_byte(b) + rest) == Ok::<(u8, Seq<u8>), CodecError>((b, rest)),
{
    let s = enc_byte(b) + rest;
    assert(s[0] == b);
    assert(s.skip(1) =~= rest);
}

pub proof fn lemma_dec_bytes(b: Seq<u8>, rest: Seq<u8>)
    requires
        b.len() < 0x1_0000_0000,
    ensures
        dec_bytes(enc_bytes(b) + rest) == Ok::<(Seq<u8>, Seq<u8>), CodecError>((b, rest)),
{
    let tail = b + rest;
    assert(enc_bytes(b) + rest =~= enc_u32(b.len() as u32) + tail);
    lemma_dec_u32(b.len() as u32, tail);
    assert(tail.take(b.len() as int) =~= b);
    assert(tail.skip(b.len() as int) =~= rest);
}

// ---------------------------------------------------------------------------
// Generic sequence and option codecs.
// ---------------------------------------------------------------------------

/// Concatenation of the encodings of the elements of `s`.
pub open spec fn enc_seq<X>(s: Seq<X>, f: spec_fn(X) -> Seq<u8>) -> Seq<u8>
    decreases s.len(),
{
    if s.len() == 0 {
        Seq::empty()
    } else {
        f(s[0]) + enc_seq(s.skip(1), f)
    }
}

/// Decoding of exactly `n` consecutive elements.
pub open spec fn dec_n<X>(
    s: Seq<u8>,
    n: nat,
    d: spec_fn(Seq<u8>) -> Result<(X, Seq<u8>), CodecError>,
) -> Result<(Seq<X>, Seq<u8>), CodecError>
    decreases n,
{
    if n == 0 {
        Ok((Seq::empty(), s))
    } else {
        match d(s) {
            Err(e) => Err(e),
            Ok((x, r)) => match dec_n(r, (n - 1) as nat, d) {
                Err(e) => Err(e),
                Ok((xs, r2)) => Ok((Seq::empty().push(x) + xs, r2)),
            },
        }
    }
}

/// A length-prefixed sequence.
pub open spec fn enc_vec<X>(s: Seq<X>, f: spec_fn(X) -> Seq<u8>) -> Seq<u8> {
    enc_u32(s.len() as u32) + enc_seq(s, f)
}

pub open spec fn dec_vec<X>(
    s: Seq<u8>,
    d: spec_fn(Seq<u8>) -> Result<(X, Seq<u8>), CodecError>,
) -> Result<(Seq<X>, Seq<u8>), CodecError> {
    match dec_u32(s) {
        Err(e) => Err(e),
        Ok((n, r)) => dec_n(r, n as nat, d),
    }
}

/// A presence flag followed by the payload, if any.
pub open spec fn enc_opt<X>(o: Option<X>, f: spec_fn(X) -> Seq<u8>) -> Seq<u8> {
    match o {
        None => seq![0u8],
        Some(x) => seq![1u8] + f(x),
    }
}

pub open spec fn dec_opt<X>(
    s: Seq<u8>,
    d: spec_fn(Seq<u8>) -> Result<(X, Seq<u8>), CodecError>,
) -> Result<(Option<X>, Seq<u8>), CodecError> {
    match dec_byte(s) {
        Err(e) => Err(e),
        Ok((tag, r)) => if tag == 0 {
            Ok((None, r))
        } else if tag == 1 {
            match d(r) {
                Err(e) => Err(e),
                Ok((x, r2)) => Ok((Some(x), r2)),
            }
        } else {
            Err(CodecError::MalformedHeader)
        },
    }
}

pub proof fn lemma_dec_n<X>(
    s: Seq<X>,
    rest: Seq<u8>,
    p: spec_fn(X) -> bool,
    f: spec_fn(X) -> Seq<u8>,
    d: spec_fn(Seq<u8>) -> Result<(X, Seq<u8>), CodecError>,
)
    requires
        forall|x: X, r: Seq<u8>| p(x) ==> #[trigger] d(f(x) + r) == Ok::<(X, Seq<u8>), CodecError>(
            (x, r),
        ),
        forall|i: int| 0 <= i < s.len() ==> p(#[trigger] s[i]),
    ensures
        dec_n(enc_seq(s, f) + rest, s.len(), d) == Ok::<(Seq<X>, Seq<u8>), CodecError>((s, rest)),
    decreases s.len(),
{
    if s.len() == 0 {
        assert(enc_seq(s, f) + rest =~= rest);
        assert(s =~= Seq::<X>::empty());
    } else {
        let tail = enc_seq(s.skip(1), f) + rest;
        assert(enc_seq(s, f) + rest =~= f(s[0]) + tail);
        assert(p(s[0]));
        assert(d(f(s[0]) + tail) == Ok::<(X, Seq<u8>), CodecError>((s[0], tail)));
        assert(forall|i: int| 0 <= i < s.skip(1).len() ==> p(#[trigger] s.skip(1)[i])) by {
            assert(forall|i: int| 0 <= i < s.skip(1).len() ==> s.skip(1)[i] == s[i + 1]);
        }
        lemma_dec_n(s.skip(1), rest, p, f, d);
        assert(dec_n(tail, (s.len() - 1) as nat, d) == Ok::<(Seq<X>, Seq<u8>), CodecError>(
            (s.skip(1), rest),
        ));
        assert(Seq::empty().push(s[0]) + s.skip(1) =~= s);
        assert(dec_n(f(s[0]) + tail, s.len(), d) == Ok::<(Seq<X>, Seq<u8>), CodecError>(
            (s, rest),
        ));
    }
}

pub proof fn lemma_dec_vec<X>(
    s: Seq<X>,
    rest: Seq<u8>,
    p: spec_fn(X) -> bool,
    f: spec_fn(X) -> Seq<u8>,
    d: spec_fn(Seq<u8>) -> Result<(X, Seq<u8>), CodecError>,
)
    requires
        forall|x: X, r: Seq<u8>| p(x) ==> #[trigger] d(f(x) + r) == Ok::<(X, Seq<u8>), CodecError>(
            (x, r),
        ),
        forall|i: int| 0 <= i < s.len() ==> p(#[trigger] s[i]),
        s.len() < 0x1_0000_0000,
    ensures
        dec_vec(enc_vec(s, f) + rest, d) == Ok::<(Seq<X>, Seq<u8>), CodecError>((s, rest)),
{
    let tail = enc_seq(s, f) + rest;
    assert(enc_vec(s, f) + rest =~= enc_u32(s.len() as u32) + tail);
    lemma_dec_u32(s.len() as u32, tail);
    lemma_dec_n(s, rest, p, f, d);
}

pub proof fn lemma_dec_opt<X>(
    o: Option<X>,
    rest: Seq<u8>,
    p: spec_fn(X) -> bool,
    f: spec_fn(X) -> Seq<u8>,
    d: spec_fn(Seq<u8>) -> Result<(X, Seq<u8>), CodecError>,
)
    requires
        forall|x: X, r: Seq<u8>| p(x) ==> #[trigger] d(f(x) + r) == Ok::<(X, Seq<u8>), CodecError>(
            (x, r),
        ),
        o matches Some(x) ==> p(x),
    ensures
        dec_opt(enc_opt(o, f) + rest, d) == Ok::<(Option<X>, Seq<u8>), CodecError>((o, rest)),
{
    match o {
        None => {
            let s = enc_opt(o, f) + rest;
            assert(s[0] == 0u8);
            assert(s.skip(1) =~= rest);
        },
        Some(x) => {
            let s = enc_opt(o, f) + rest;
            let tail = f(x) + rest;
            assert(s[0] == 1u8);
            assert(s.skip(1) =~= tail);
            assert(d(f(x) + rest) == Ok::<(X, Seq<u8>), CodecError>((x, rest)));
        },
    }
}

// ---------------------------------------------------------------------------
// Per-entry encoders and decoders.
// ---------------------------------------------------------------------------

pub open spec fn enc_functype(t: FuncType) -> Seq<u8> {
    enc_u32(t.params) + enc_u32(t.results)
}

pub open spec fn dec_functype(s: Seq<u8>) -> Result<(FuncType, Seq<u8>), CodecError> {
    match dec_u32(s) {
        Err(e) => Err(e),
        Ok((p, r)) => match dec_u32(r) {
            Err(e) => Err(e),
            Ok((q, r2)) => Ok((FuncType { params: p, results: q }, r2)),
        },
    }
}

pub open spec fn enc_kind(k: ExternKind) -> Seq<u8> {
    match k {
        ExternKind::Func => enc_byte(0),
        ExternKind::Table => enc_byte(1),
        ExternKind::Memory => enc_byte(2),
        ExternKind::Global => enc_byte(3),
    }
}

pub open spec fn dec_kind(s: Seq<u8>) -> Result<(ExternKind, Seq<u8>), CodecError> {
    match dec_byte(s) {
        Err(e) => Err(e),
        Ok((tag, r)) => if tag == 0 {
            Ok((ExternKind::Func, r))
        } else if tag == 1 {
            Ok((ExternKind::Table, r))
        } else if tag == 2 {
            Ok((ExternKind::Memory, r))
        } else if tag == 3 {
            Ok((ExternKind::Global, r))
        } else {
            Err(CodecError::MalformedHeader)
        },
    }
}

pub open spec fn enc_instr(i: Instr) -> Seq<u8> {
    match i {
        Instr::Nop => enc_byte(0),
        Instr::Unreachable => enc_byte(1),
        Instr::Const(n) => enc_byte(2) + enc_u32(n),
        Instr::LocalGet(n) => enc_byte(3) + enc_u32(n),
        Instr::GlobalGet(n) => enc_byte(4) + enc_u32(n),
        Instr::GlobalSet(n) => enc_byte(5) + enc_u32(n),
        Instr::Call(n) => enc_byte(6) + enc_u32(n),
        Instr::CallIndirect(n) => enc_byte(7) + enc_u32(n),
        Instr::MemoryGrow => enc_byte(8),
    }
}

pub open spec fn dec_instr(s: Seq<u8>) -> Result<(Instr, Seq<u8>), CodecError> {
    match dec_byte(s) {
        Err(e) => Err(e),
        Ok((tag, r)) => if tag == 0 {
            Ok((Instr::Nop, r))
        } else if tag == 1 {
            Ok((Instr::Unreachable, r))
        } else if tag == 8 {
            Ok((Instr::MemoryGrow, r))
        } else if tag <= 7 {
            match dec_u32(r) {
                Err(e) => Err(e),
                Ok((n, r2)) => Ok((
                    if tag == 2 {
                        Instr::Const(n)
                    } else if tag == 3 {
                        Instr::LocalGet(n)
                    } else if tag == 4 {
                        Instr::GlobalGet(n)
                    } else if tag == 5 {
                        Instr::GlobalSet(n)
                    } else if tag == 6 {
                        Instr::Call(n)
                    } else {
                        Instr::CallIndirect(n)
                    },
                    r2,
                )),
            }
        } else {
            Err(CodecError::MalformedHeader)
        },
    }
}

pub open spec fn enc_global(g: Global) -> Seq<u8> {
    match g.init {
        GlobalInit::Const(n) => enc_byte(0) + enc_u32(n),
        GlobalInit::GetGlobal(h) => enc_byte(1) + enc_u32(h),
    }
}

pub open spec fn dec_global(s: Seq<u8>) -> Result<(Global, Seq<u8>), CodecError> {
    match dec_byte(s) {
        Err(e) => Err(e),
        Ok((tag, r)) => if tag <= 1 {
            match dec_u32(r) {
                Err(e) => Err(e),
                Ok((n, r2)) => Ok((
                    Global {
                        init: if tag == 0 {
                            GlobalInit::Const(n)
                        } else {
                            GlobalInit::GetGlobal(n)
                        },
                    },
                    r2,
                )),
            }
        } else {
            Err(CodecError::MalformedHeader)
        },
    }
}

pub open spec fn enc_table(t: Table) -> Seq<u8> {
    enc_u32(t.min)
}

pub open spec fn dec_table(s: Seq<u8>) -> Result<(Table, Seq<u8>), CodecError> {
    match dec_u32(s) {
        Err(e) => Err(e),
        Ok((n, r)) => Ok((Table { min: n }, r)),
    }
}

pub open spec fn enc_memory(m: MemoryDesc) -> Seq<u8> {
    enc_u32(m.min) + enc_u32(m.max)
}

pub open spec fn dec_memory(s: Seq<u8>) -> Result<(MemoryDesc, Seq<u8>), CodecError> {
    match dec_u32(s) {
        Err(e) => Err(e),
        Ok((mn, r)) => match dec_u32(r) {
            Err(e) => Err(e),
            Ok((mx, r2)) => Ok((MemoryDesc { min: mn, max: mx }, r2)),
        },
    }
}

pub open spec fn enc_bytes_fn() -> spec_fn(Seq<u8>) -> Seq<u8> {
    |b: Seq<u8>| enc_bytes(b)
}

pub open spec fn dec_bytes_fn() -> spec_fn(Seq<u8>) -> Result<(Seq<u8>, Seq<u8>), CodecError> {
    |s: Seq<u8>| dec_bytes(s)
}

pub open spec fn bytes_sz_fn() -> spec_fn(Seq<u8>) -> bool {
    |b: Seq<u8>| b.len() < 0x1_0000_0000
}

pub open spec fn enc_desc(d: SpecImportDesc) -> Seq<u8> {
    match d {
        SpecImportDesc::Func { type_idx, snippet } => enc_byte(0) + (enc_u32(type_idx)
            + enc_opt(snippet, enc_bytes_fn())),
        SpecImportDesc::Table => enc_byte(1),
        SpecImportDesc::Memory => enc_byte(2),
        SpecImportDesc::Global => enc_byte(3),
    }
}

pub open spec fn dec_desc(s: Seq<u8>) -> Result<(SpecImportDesc, Seq<u8>), CodecError> {
    match dec_byte(s) {
        Err(e) => Err(e),
        Ok((tag, r)) => if tag == 0 {
            match dec_u32(r) {
                Err(e) => Err(e),
                Ok((ti, r2)) => match dec_opt(r2, dec_bytes_fn()) {
                    Err(e) => Err(e),
                    Ok((sn, r3)) => Ok((SpecImportDesc::Func { type_idx: ti, snippet: sn }, r3)),
                },
            }
        } else if tag == 1 {
            Ok((SpecImportDesc::Table, r))
        } else if tag == 2 {
            Ok((SpecImportDesc::Memory, r))
        } else if tag == 3 {
            Ok((SpecImportDesc::Global, r))
        } else {
            Err(CodecError::MalformedHeader)
        },
    }
}

pub open spec fn enc_import(i: SpecImport) -> Seq<u8> {
    enc_bytes(i.module) + (enc_bytes(i.field) + enc_desc(i.desc))
}

pub open spec fn dec_import(s: Seq<u8>) -> Result<(SpecImport, Seq<u8>), CodecError> {
    match dec_bytes(s) {
        Err(e) => Err(e),
        Ok((m, r)) => match dec_bytes(r) {
            Err(e) => Err(e),
            Ok((f, r2)) => match dec_desc(r2) {
                Err(e) => Err(e),
                Ok((d, r3)) => Ok((SpecImport { module: m, field: f, desc: d }, r3)),
            },
        },
    }
}

pub open spec fn enc_instr_fn() -> spec_fn(Instr) -> Seq<u8> {
    |i: Instr| enc_instr(i)
}

pub open spec fn dec_instr_fn() -> spec_fn(Seq<u8>) -> Result<(Instr, Seq<u8>), CodecError> {
    |s: Seq<u8>| dec_instr(s)
}

pub open spec fn enc_func(f: SpecFunc) -> Seq<u8> {
    enc_u32(f.type_idx) + enc_vec(f.body, enc_instr_fn())
}

pub open spec fn dec_func(s: Seq<u8>) -> Result<(SpecFunc, Seq<u8>), CodecError> {
    match dec_u32(s) {
        Err(e) => Err(e),
        Ok((ti, r)) => match dec_vec(r, dec_instr_fn()) {
            Err(e) => Err(e),
            Ok((body, r2)) => Ok((SpecFunc { type_idx: ti, body }, r2)),
        },
    }
}

pub open spec fn enc_export(e: SpecExport) -> Seq<u8> {
    enc_bytes(e.name) + (enc_kind(e.kind) + enc_u32(e.index))
}

pub open spec fn dec_export(s: Seq<u8>) -> Result<(SpecExport, Seq<u8>), CodecError> {
    match dec_bytes(s) {
        Err(e) => Err(e),
        Ok((n, r)) => match dec_kind(r) {
            Err(e) => Err(e),
            Ok((k, r2)) => match dec_u32(r2) {
                Err(e) => Err(e),
                Ok((ix, r3)) => Ok((SpecExport { name: n, kind: k, index: ix }, r3)),
            },
        },
    }
}

pub open spec fn enc_u32_fn() -> spec_fn(u32) -> Seq<u8> {
    |n: u32| enc_u32(n)
}

pub open spec fn dec_u32_fn() -> spec_fn(Seq<u8>) -> Result<(u32, Seq<u8>), CodecError> {
    |s: Seq<u8>| dec_u32(s)
}

pub open spec fn enc_element(e: SpecElement) -> Seq<u8> {
    enc_u32(e.offset) + enc_vec(e.entries, enc_u32_fn())
}

pub open spec fn dec_element(s: Seq<u8>) -> Result<(SpecElement, Seq<u8>), CodecError> {
    match dec_u32(s) {
        Err(e) => Err(e),
        Ok((off, r)) => match dec_vec(r, dec_u32_fn()) {
            Err(e) => Err(e),
            Ok((es, r2)) => Ok((SpecElement { offset: off, entries: es }, r2)),
        },
    }
}

pub open spec fn enc_data(d: SpecData) -> Seq<u8> {
    enc_u32(d.offset) + enc_bytes(d.bytes)
}

pub open spec fn dec_data(s: Seq<u8>) -> Result<(SpecData, Seq<u8>), CodecError> {
    match dec_u32(s) {
        Err(e) => Err(e),
        Ok((off, r)) => match dec_bytes(r) {
            Err(e) => Err(e),
            Ok((b, r2)) => Ok((SpecData { offset: off, bytes: b }, r2)),
        },
    }
}

pub open spec fn enc_custom(c: SpecCustom) -> Seq<u8> {
    enc_bytes(c.name) + enc_bytes(c.bytes)
}

pub open spec fn dec_custom(s: Seq<u8>) -> Result<(SpecCustom, Seq<u8>), CodecError> {
    match dec_bytes(s) {
        Err(e) => Err(e),
        Ok((n, r)) => match dec_bytes(r) {
            Err(e) => Err(e),
            Ok((b, r2)) => Ok((SpecCustom { name: n, bytes: b }, r2)),
        },
    }
}

pub open spec fn enc_functype_fn() -> spec_fn(FuncType) -> Seq<u8> {
    |t: FuncType| enc_functype(t)
}

pub open spec fn dec_functype_fn() -> spec_fn(Seq<u8>) -> Result<(FuncType, Seq<u8>), CodecError> {
    |s: Seq<u8>| dec_functype(s)
}

pub open spec fn enc_import_fn() -> spec_fn(SpecImport) -> Seq<u8> {
    |i: SpecImport| enc_import(i)
}

pub open spec fn dec_import_fn() -> spec_fn(Seq<u8>) -> Result<(SpecImport, Seq<u8>), CodecError> {
    |s: Seq<u8>| dec_import(s)
}

pub open spec fn enc_func_fn() -> spec_fn(SpecFunc) -> Seq<u8> {
    |f: SpecFunc| enc_func(f)
}

pub open spec fn dec_func_fn() -> spec_fn(Seq<u8>) -> Result<(SpecFunc, Seq<u8>), CodecError> {
    |s: Seq<u8>| dec_func(s)
}

pub open spec fn enc_table_fn() -> spec_fn(Table) -> Seq<u8> {
    |t: Table| enc_table(t)
}

pub open spec fn dec_table_fn() -> spec_fn(Seq<u8>) -> Result<(Table, Seq<u8>), CodecError> {
    |s: Seq<u8>| dec_table(s)
}

pub open spec fn enc_memory_fn() -> spec_fn(MemoryDesc) -> Seq<u8> {
    |m: MemoryDesc| enc_memory(m)
}

pub open spec fn dec_memory_fn() -> spec_fn(Seq<u8>) -> Result<(MemoryDesc, Seq<u8>), CodecError> {
    |s: Seq<u8>| dec_memory(s)
}

pub open spec fn enc_global_fn() -> spec_fn(Global) -> Seq<u8> {
    |g: Global| enc_global(g)
}

pub open spec fn dec_global_fn() -> spec_fn(Seq<u8>) -> Result<(Global, Seq<u8>), CodecError> {
    |s: Seq<u8>| dec_global(s)
}

pub open spec fn enc_export_fn() -> spec_fn(SpecExport) -> Seq<u8> {
    |e: SpecExport| enc_export(e)
}

pub open spec fn dec_export_fn() -> spec_fn(Seq<u8>) -> Result<(SpecExport, Seq<u8>), CodecError> {
    |s: Seq<u8>| dec_export(s)
}

pub open spec fn enc_element_fn() -> spec_fn(SpecElement) -> Seq<u8> {
    |e: SpecElement| enc_element(e)
}

pub open spec fn dec_element_fn() -> spec_fn(Seq<u8>) -> Result<(SpecElement, Seq<u8>), CodecError> {
    |s: Seq<u8>| dec_element(s)
}

pub open spec fn enc_data_fn() -> spec_fn(SpecData) -> Seq<u8> {
    |d: SpecData| enc_data(d)
}

pub open spec fn dec_data_fn() -> spec_fn(Seq<u8>) -> Result<(SpecData, Seq<u8>), CodecError> {
    |s: Seq<u8>| dec_data(s)
}

pub open spec fn enc_custom_fn() -> spec_fn(SpecCustom) -> Seq<u8> {
    |c: SpecCustom| enc_custom(c)
}

pub open spec fn dec_custom_fn() -> spec_fn(Seq<u8>) -> Result<(SpecCustom, Seq<u8>), CodecError> {
    |s: Seq<u8>| dec_custom(s)
}

// Size predicates for the variable-length entries.

pub open spec fn functype_sz_fn() -> spec_fn(FuncType) -> bool {
    |t: FuncType| true
}

pub open spec fn instr_sz_fn() -> spec_fn(Instr) -> bool {
    |i: Instr| true
}

pub open spec fn u32_sz_fn() -> spec_fn(u32) -> bool {
    |n: u32| true
}

pub open spec fn table_sz_fn() -> spec_fn(Table) -> bool {
    |t: Table| true
}

pub open spec fn memory_sz_fn() -> spec_fn(MemoryDesc) -> bool {
    |m: MemoryDesc| true
}

pub open spec fn global_sz_fn() -> spec_fn(Global) -> bool {
    |g: Global| true
}

pub open spec fn import_sz(i: SpecImport) -> bool {
    &&& i.module.len() < 0x1_0000_0000
    &&& i.field.len() < 0x1_0000_0000
    &&& (i.desc matches SpecImportDesc::Func { snippet: Some(s), .. } ==> s.len()
        < 0x1_0000_0000)
}

pub open spec fn import_sz_fn() -> spec_fn(SpecImport) -> bool {
    |i: SpecImport| import_sz(i)
}

pub open spec fn func_sz(f: SpecFunc) -> bool {
    f.body.len() < 0x1_0000_0000
}

pub open spec fn func_sz_fn() -> spec_fn(SpecFunc) -> bool {
    |f: SpecFunc| func_sz(f)
}

pub open spec fn export_sz(e: SpecExport) -> bool {
    e.name.len() < 0x1_0000_0000
}

pub open spec fn export_sz_fn() -> spec_fn(SpecExport) -> bool {
    |e: SpecExport| export_sz(e)
}

pub open spec fn element_sz(e: SpecElement) -> bool {
    e.entries.len() < 0x1_0000_0000
}

pub open spec fn element_sz_fn() -> spec_fn(SpecElement) -> bool {
    |e: SpecElement| element_sz(e)
}

pub open spec fn data_sz(d: SpecData) -> bool {
    d.bytes.len() < 0x1_0000_0000
}

pub open spec fn data_sz_fn() -> spec_fn(SpecData) -> bool {
    |d: SpecData| data_sz(d)
}

pub open spec fn custom_sz(c: SpecCustom) -> bool {
    c.name.len() < 0x1_0000_0000 && c.bytes.len() < 0x1_0000_0000
}

pub open spec fn custom_sz_fn() -> spec_fn(SpecCustom) -> bool {
    |c: SpecCustom| custom_sz(c)
}

// ---------------------------------------------------------------------------
// Per-entry inversion lemmas.
// ---------------------------------------------------------------------------

pub proof fn lemma_dec_functype(t: FuncType, rest: Seq<u8>)
    ensures
        dec_functype(enc_functype(t) + rest) == Ok::<(FuncType, Seq<u8>), CodecError>((t, rest)),
{
    let tail = enc_u32(t.results) + rest;
    assert(enc_functype(t) + rest =~= enc_u32(t.params) + tail);
    lemma_dec_u32(t.params, tail);
    lemma_dec_u32(t.results, rest);
}

pub proof fn lemma_dec_kind(k: ExternKind, rest: Seq<u8>)
    ensures
        dec_kind(enc_kind(k) + rest) == Ok::<(ExternKind, Seq<u8>), CodecError>((k, rest)),
{
    match k {
        ExternKind::Func => lemma_dec_byte(0, rest),
        ExternKind::Table => lemma_dec_byte(1, rest),
        ExternKind::Memory => lemma_dec_byte(2, rest),
        ExternKind::Global => lemma_dec_byte(3, rest),
    }
}

pub proof fn lemma_dec_tagged_u32(tag: u8, n: u32, rest: Seq<u8>)
    ensures
        dec_byte((enc_byte(tag) + enc_u32(n)) + rest) == Ok::<(u8, Seq<u8>), CodecError>(
            (tag, enc_u32(n) + rest),
        ),
        dec_u32(enc_u32(n) + rest) == Ok::<(u32, Seq<u8>), CodecError>((n, rest)),
{
    let tail = enc_u32(n) + rest;
    assert((enc_byte(tag) + enc_u32(n)) + rest =~= enc_byte(tag) + tail);
    lemma_dec_byte(tag, tail);
    lemma_dec_u32(n, rest);
}

pub proof fn lemma_dec_instr(i: Instr, rest: Seq<u8>)
    ensures
        dec_instr(enc_instr(i) + rest) == Ok::<(Instr, Seq<u8>), CodecError>((i, rest)),
{
    match i {
        Instr::Nop => lemma_dec_byte(0, rest),
        Instr::Unreachable => lemma_dec_byte(1, rest),
        Instr::Const(n) => lemma_dec_tagged_u32(2, n, rest),
        Instr::LocalGet(n) => lemma_dec_tagged_u32(3, n, rest),
        Instr::GlobalGet(n) => lemma_dec_tagged_u32(4, n, rest),
        Instr::GlobalSet(n) => lemma_dec_tagged_u32(5, n, rest),
        Instr::Call(n) => lemma_dec_tagged_u32(6, n, rest),
        Instr::CallIndirect(n) => lemma_dec_tagged_u32(7, n, rest),
        Instr::MemoryGrow => lemma_dec_byte(8, rest),
    }
}

pub proof fn lemma_dec_global(g: Global, rest: Seq<u8>)
    ensures
        dec_global(enc_global(g) + rest) == Ok::<(Global, Seq<u8>), CodecError>((g, rest)),
{
    match g.init {
        GlobalInit::Const(n) => lemma_dec_tagged_u32(0, n, rest),
        GlobalInit::GetGlobal(h) => lemma_dec_tagged_u32(1, h, rest),
    }
}

pub proof fn lemma_dec_table(t: Table, rest: Seq<u8>)
    ensures
        dec_table(enc_table(t) + rest) == Ok::<(Table, Seq<u8>), CodecError>((t, rest)),
{
    lemma_dec_u32(t.min, rest);
}

pub proof fn lemma_dec_memory(m: MemoryDesc, rest: Seq<u8>)
    ensures
        dec_memory(enc_memory(m) + rest) == Ok::<(MemoryDesc, Seq<u8>), CodecError>((m, rest)),
{
    let tail = enc_u32(m.max) + rest;
    assert(enc_memory(m) + rest =~= enc_u32(m.min) + tail);
    lemma_dec_u32(m.min, tail);
    lemma_dec_u32(m.max, rest);
}

/// The elementwise hypothesis of `lemma_dec_vec`/`lemma_dec_opt` for byte
/// strings.
pub proof fn bytes_hyp()
    ensures
        forall|x: Seq<u8>, r: Seq<u8>| bytes_sz_fn()(x) ==> #[trigger] dec_bytes_fn()(
            enc_bytes_fn()(x) + r,
        ) == Ok::<(Seq<u8>, Seq<u8>), CodecError>((x, r)),
{
    assert forall|x: Seq<u8>, r: Seq<u8>| bytes_sz_fn()(x) implies #[trigger] dec_bytes_fn()(
        enc_bytes_fn()(x) + r,
    ) == Ok::<(Seq<u8>, Seq<u8>), CodecError>((x, r)) by {
        lemma_dec_bytes(x, r);
    }
}

pub proof fn lemma_dec_desc(d: SpecImportDesc, rest: Seq<u8>)
    requires
        d matches SpecImportDesc::Func { snippet: Some(s), .. } ==> s.len() < 0x1_0000_0000,
    ensures
        dec_desc(enc_desc(d) + rest) == Ok::<(SpecImportDesc, Seq<u8>), CodecError>((d, rest)),
{
    match d {
        SpecImportDesc::Func { type_idx, snippet } => {
            let t2 = enc_opt(snippet, enc_bytes_fn()) + rest;
            let t1 = enc_u32(type_idx) + t2;
            assert(enc_desc(d) + rest =~= enc_byte(0) + t1);
            lemma_dec_byte(0, t1);
            lemma_dec_u32(type_idx, t2);
            bytes_hyp();
            lemma_dec_opt(snippet, rest, bytes_sz_fn(), enc_bytes_fn(), dec_bytes_fn());
        },
        SpecImportDesc::Table => lemma_dec_byte(1, rest),
        SpecImportDesc::Memory => lemma_dec_byte(2, rest),
        SpecImportDesc::Global => lemma_dec_byte(3, rest),
    }
}

pub proof fn lemma_dec_import(i: SpecImport, rest: Seq<u8>)
    requires
        import_sz(i),
    ensures
        dec_import(enc_import(i) + rest) == Ok::<(SpecImport, Seq<u8>), CodecError>((i, rest)),
{
    let t2 = enc_desc(i.desc) + rest;
    let t1 = enc_bytes(i.field) + t2;
    assert(enc_import(i) + rest =~= enc_bytes(i.module) + t1);
    lemma_dec_bytes(i.module, t1);
    lemma_dec_bytes(i.field, t2);
    lemma_dec_desc(i.desc, rest);
}

pub proof fn instr_hyp()
    ensures
        forall|x: Instr, r: Seq<u8>| instr_sz_fn()(x) ==> #[trigger] dec_instr_fn()(
            enc_instr_fn()(x) + r,
        ) == Ok::<(Instr, Seq<u8>), CodecError>((x, r)),
{
    assert forall|x: Instr, r: Seq<u8>| instr_sz_fn()(x) implies #[trigger] dec_instr_fn()(
        enc_instr_fn()(x) + r,
    ) == Ok::<(Instr, Seq<u8>), CodecError>((x, r)) by {
        lemma_dec_instr(x, r);
    }
}

pub proof fn lemma_dec_func(f: SpecFunc, rest: Seq<u8>)
    requires
        func_sz(f),
    ensures
        dec_func(enc_func(f) + rest) == Ok::<(SpecFunc, Seq<u8>), CodecError>((f, rest)),
{
    let t1 = enc_vec(f.body, enc_instr_fn()) + rest;
    assert(enc_func(f) + rest =~= enc_u32(f.type_idx) + t1);
    lemma_dec_u32(f.type_idx, t1);
    instr_hyp();
    lemma_dec_vec(f.body, rest, instr_sz_fn(), enc_instr_fn(), dec_instr_fn());
}

pub proof fn lemma_dec_export(e: SpecExport, rest: Seq<u8>)
    requires
        export_sz(e),
    ensures
        dec_export(enc_export(e) + rest) == Ok::<(SpecExport, Seq<u8>), CodecError>((e, rest)),
{
    let t2 = enc_u32(e.index) + rest;
    let t1 = enc_kind(e.kind) + t2;
    assert(enc_export(e) + rest =~= enc_bytes(e.name) + t1);
    lemma_dec_bytes(e.name, t1);
    lemma_dec_kind(e.kind, t2);
    lemma_dec_u32(e.index, rest);
}

pub proof fn u32_hyp()
    ensures
        forall|x: u32, r: Seq<u8>| u32_sz_fn()(x) ==> #[trigger] dec_u32_fn()(
            enc_u32_fn()(x) + r,
        ) == Ok::<(u32, Seq<u8>), CodecError>((x, r)),
{
    assert forall|x: u32, r: Seq<u8>| u32_sz_fn()(x) implies #[trigger] dec_u32_fn()(
        enc_u32_fn()(x) + r,
    ) == Ok::<(u32, Seq<u8>), CodecError>((x, r)) by {
        lemma_dec_u32(x, r);
    }
}

pub proof fn lemma_dec_element(e: SpecElement, rest: Seq<u8>)
    requires
        element_sz(e),
    ensures
        dec_element(enc_element(e) + rest) == Ok::<(SpecElement, Seq<u8>), CodecError>((e, rest)),
{
    let t1 = enc_vec(e.entries, enc_u32_fn()) + rest;
    assert(enc_element(e) + rest =~= enc_u32(e.offset) + t1);
    lemma_dec_u32(e.offset, t1);
    u32_hyp();
    lemma_dec_vec(e.entries, rest, u32_sz_fn(), enc_u32_fn(), dec_u32_fn());
}

pub proof fn lemma_dec_data(d: SpecData, rest: Seq<u8>)
    requires
        data_sz(d),
    ensures
        dec_data(enc_data(d) + rest) == Ok::<(SpecData, Seq<u8>), CodecError>((d, rest)),
{
    let t1 = enc_bytes(d.bytes) + rest;
    assert(enc_data(d) + rest =~= enc_u32(d.offset) + t1);
    lemma_dec_u32(d.offset, t1);
    lemma_dec_bytes(d.bytes, rest);
}

pub proof fn lemma_dec_custom(c: SpecCustom, rest: Seq<u8>)
    requires
        custom_sz(c),
    ensures
        dec_custom(enc_custom(c) + rest) == Ok::<(SpecCustom, Seq<u8>), CodecError>((c, rest)),
{
    let t1 = enc_bytes(c.bytes) + rest;
    assert(enc_custom(c) + rest =~= enc_bytes(c.name) + t1);
    lemma_dec_bytes(c.name, t1);
    lemma_dec_bytes(c.bytes, rest);
}

pub proof fn functype_hyp()
    ensures
        forall|x: FuncType, r: Seq<u8>| functype_sz_fn()(x) ==> #[trigger] dec_functype_fn()(
            enc_functype_fn()(x) + r,
        ) == Ok::<(FuncType, Seq<u8>), CodecError>((x, r)),
{
    assert forall|x: FuncType, r: Seq<u8>| functype_sz_fn()(x) implies #[trigger] dec_functype_fn()(
        enc_functype_fn()(x) + r,
    ) == Ok::<(FuncType, Seq<u8>), CodecError>((x, r)) by {
        lemma_dec_functype(x, r);
    }
}

pub proof fn import_hyp()
    ensures
        forall|x: SpecImport, r: Seq<u8>| import_sz_fn()(x) ==> #[trigger] dec_import_fn()(
            enc_import_fn()(x) + r,
        ) == Ok::<(SpecImport, Seq<u8>), CodecError>((x, r)),
{
    assert forall|x: SpecImport, r: Seq<u8>| import_sz_fn()(x) implies #[trigger] dec_import_fn()(
        enc_import_fn()(x) + r,
    ) == Ok::<(SpecImport, Seq<u8>), CodecError>((x, r)) by {
        lemma_dec_import(x, r);
    }
}

pub proof fn func_hyp()
    ensures
        forall|x: SpecFunc, r: Seq<u8>| func_sz_fn()(x) ==> #[trigger] dec_func_fn()(
            enc_func_fn()(x) + r,
        ) == Ok::<(SpecFunc, Seq<u8>), CodecError>((x, r)),
{
    assert forall|x: SpecFunc, r: Seq<u8>| func_sz_fn()(x) implies #[trigger] dec_func_fn()(
        enc_func_fn()(x) + r,
    ) == Ok::<(SpecFunc, Seq<u8>), CodecError>((x, r)) by {
        lemma_dec_func(x, r);
    }
}

pub proof fn table_hyp()
    ensures
        forall|x: Table, r: Seq<u8>| table_sz_fn()(x) ==> #[trigger] dec_table_fn()(
            enc_table_fn()(x) + r,
        ) == Ok::<(Table, Seq<u8>), CodecError>((x, r)),
{
    assert forall|x: Table, r: Seq<u8>| table_sz_fn()(x) implies #[trigger] dec_table_fn()(
        enc_table_fn()(x) + r,
    ) == Ok::<(Table, Seq<u8>), CodecError>((x, r)) by {
        lemma_dec_table(x, r);
    }
}

pub proof fn memory_hyp()
    ensures
        forall|x: MemoryDesc, r: Seq<u8>| memory_sz_fn()(x) ==> #[trigger] dec_memory_fn()(
            enc_memory_fn()(x) + r,
        ) == Ok::<(MemoryDesc, Seq<u8>), CodecError>((x, r)),
{
    assert forall|x: MemoryDesc, r: Seq<u8>| memory_sz_fn()(x) implies #[trigger] dec_memory_fn()(
        enc_memory_fn()(x) + r,
    ) == Ok::<(MemoryDesc, Seq<u8>), CodecError>((x, r)) by {
        lemma_dec_memory(x, r);
    }
}

pub proof fn global_hyp()
    ensures
        forall|x: Global, r: Seq<u8>| global_sz_fn()(x) ==> #[trigger] dec_global_fn()(
            enc_global_fn()(x) + r,
        ) == Ok::<(Global, Seq<u8>), CodecError>((x, r)),
{
    assert forall|x: Global, r: Seq<u8>| global_sz_fn()(x) implies #[trigger] dec_global_fn()(
        enc_global_fn()(x) + r,
    ) == Ok::<(Global, Seq<u8>), CodecError>((x, r)) by {
        lemma_dec_global(x, r);
    }
}

pub proof fn export_hyp()
    ensures
        forall|x: SpecExport, r: Seq<u8>| export_sz_fn()(x) ==> #[trigger] dec_export_fn()(
            enc_export_fn()(x) + r,
        ) == Ok::<(SpecExport, Seq<u8>), CodecError>((x, r)),
{
    assert forall|x: SpecExport, r: Seq<u8>| export_sz_fn()(x) implies #[trigger] dec_export_fn()(
        enc_export_fn()(x) + r,
    ) == Ok::<(SpecExport, Seq<u8>), CodecError>((x, r)) by {
        lemma_dec_export(x, r);
    }
}

pub proof fn element_hyp()
    ensures
        forall|x: SpecElement, r: Seq<u8>| element_sz_fn()(x) ==> #[trigger] dec_element_fn()(
            enc_element_fn()(x) + r,
        ) == Ok::<(SpecElement, Seq<u8>), CodecError>((x, r)),
{
    assert forall|x: SpecElement, r: Seq<u8>| element_sz_fn()(x) implies #[trigger] dec_element_fn()(
        enc_element_fn()(x) + r,
    ) == Ok::<(SpecElement, Seq<u8>), CodecError>((x, r)) by {
        lemma_dec_element(x, r);
    }
}

pub proof fn data_hyp()
    ensures
        forall|x: SpecData, r: Seq<u8>| data_sz_fn()(x) ==> #[trigger] dec_data_fn()(
            enc_data_fn()(x) + r,
        ) == Ok::<(SpecData, Seq<u8>), CodecError>((x, r)),
{
    assert forall|x: SpecData, r: Seq<u8>| data_sz_fn()(x) implies #[trigger] dec_data_fn()(
        enc_data_fn()(x) + r,
    ) == Ok::<(SpecData, Seq<u8>), CodecError>((x, r)) by {
        lemma_dec_data(x, r);
    }
}

pub proof fn custom_hyp()
    ensures
        forall|x: SpecCustom, r: Seq<u8>| custom_sz_fn()(x) ==> #[trigger] dec_custom_fn()(
            enc_custom_fn()(x) + r,
        ) == Ok::<(SpecCustom, Seq<u8>), CodecError>((x, r)),
{
    assert forall|x: SpecCustom, r: Seq<u8>| custom_sz_fn()(x) implies #[trigger] dec_custom_fn()(
        enc_custom_fn()(x) + r,
    ) == Ok::<(SpecCustom, Seq<u8>), CodecError>((x, r)) by {
        lemma_dec_custom(x, r);
    }
}

// ---------------------------------------------------------------------------
// The whole container.
// ---------------------------------------------------------------------------

/// The byte encoding of a whole module.
pub open spec fn enc_module(m: SpecModule) -> Seq<u8> {
    magic() + (enc_u32(CONTAINER_VERSION) + (enc_vec(m.types, enc_functype_fn()) + (enc_vec(
        m.imports,
        enc_import_fn(),
    ) + (enc_vec(m.funcs, enc_func_fn()) + (enc_opt(m.tables, enc_table_fn()) + (enc_opt(
        m.memory,
        enc_memory_fn(),
    ) + (enc_vec(m.globals, enc_global_fn()) + (enc_vec(m.exports, enc_export_fn()) + (enc_vec(
        m.elements,
        enc_element_fn(),
    ) + (enc_vec(m.datas, enc_data_fn()) + (enc_vec(m.customs, enc_custom_fn()) + enc_opt(
        m.start,
        enc_u32_fn(),
    ))))))))))))
}

/// What parsing means: reject a bad header, version, truncation, trailing
/// garbage or an out-of-bounds reference; otherwise yield the structured
/// module.
pub open spec fn parse_spec(s: Seq<u8>) -> Result<SpecModule, CodecError> {
    if s.len() < 4 {
        Err(CodecError::TruncatedBody)
    } else if !(s[0] == 0x00u8 && s[1] == 0x6du8 && s[2] == 0x6fu8 && s[3] == 0x64u8) {
        Err(CodecError::MalformedHeader)
    } else {
        match dec_u32(s.skip(4)) {
            Err(e) => Err(e),
            Ok((ver, r0)) => if ver != CONTAINER_VERSION {
                Err(CodecError::UnsupportedVersion)
            } else {
                match dec_vec(r0, dec_functype_fn()) {
                    Err(e) => Err(e),
                    Ok((types, r1)) => match dec_vec(r1, dec_import_fn()) {
                        Err(e) => Err(e),
                        Ok((imports, r2)) => match dec_vec(r2, dec_func_fn()) {
                            Err(e) => Err(e),
                            Ok((funcs, r3)) => match dec_opt(r3, dec_table_fn()) {
                                Err(e) => Err(e),
                                Ok((tables, r4)) => match dec_opt(r4, dec_memory_fn()) {
                                    Err(e) => Err(e),
                                    Ok((memory, r5)) => match dec_vec(r5, dec_global_fn()) {
                                        Err(e) => Err(e),
                                        Ok((globals, r6)) => match dec_vec(r6, dec_export_fn()) {
                                            Err(e) => Err(e),
                                            Ok((exports, r7)) => match dec_vec(
                                                r7,
                                                dec_element_fn(),
                                            ) {
                                                Err(e) => Err(e),
                                                Ok((elements, r8)) => match dec_vec(
                                                    r8,
                                                    dec_data_fn(),
                                                ) {
                                                    Err(e) => Err(e),
                                                    Ok((datas, r9)) => match dec_vec(
                                                        r9,
                                                        dec_custom_fn(),
                                                    ) {
                                                        Err(e) => Err(e),
                                                        Ok((customs, r10)) => match dec_opt(
                                                            r10,
                                                            dec_u32_fn(),
                                                        ) {
                                                            Err(e) => Err(e),
                                                            Ok((start, r11)) => if r11.len()
                                                                != 0 {
                                                                Err(CodecError::MalformedHeader)
                                                            } else {
                                                                let m = SpecModule {
                                                                    types,
                                                                    imports,
                                                                    funcs,
                                                                    tables,
                                                                    memory,
                                                                    globals,
                                                                    exports,
                                                                    elements,
                                                                    datas,
                                                                    customs,
                                                                    start,
                                                                };
                                                                if m.wf_refs()
                                                                    && m.wf_space() {
                                                                    Ok(m)
                                                                } else {
                                                                    Err(CodecError::BadIndex)
                                                                }
                                                            },
                                                        },
                                                    },
                                                },
                                            },
                                        },
                                    },
                                },
                            },
                        },
                    },
                }
            },
        }
    }
}

/// Decoding inverts encoding: a well-formed module parses back from its own
/// serialization, unchanged.
#[verifier::rlimit(100)]
pub proof fn lemma_parse_enc(m: SpecModule)
    requires
        m.wf(),
    ensures
        parse_spec(enc_module(m)) == Ok::<SpecModule, CodecError>(m),
{
    let t11 = enc_opt(m.start, enc_u32_fn());
    let t10 = enc_vec(m.customs, enc_custom_fn()) + t11;
    let t9 = enc_vec(m.datas, enc_data_fn()) + t10;
    let t8 = enc_vec(m.elements, enc_element_fn()) + t9;
    let t7 = enc_vec(m.exports, enc_export_fn()) + t8;
    let t6 = enc_vec(m.globals, enc_global_fn()) + t7;
    let t5 = enc_opt(m.memory, enc_memory_fn()) + t6;
    let t4 = enc_opt(m.tables, enc_table_fn()) + t5;
    let t3 = enc_vec(m.funcs, enc_func_fn()) + t4;
    let t2 = enc_vec(m.imports, enc_import_fn()) + t3;
    let t1 = enc_vec(m.types, enc_functype_fn()) + t2;
    let s = enc_module(m);
    assert(s =~= magic() + (enc_u32(CONTAINER_VERSION) + t1));
    assert(s.len() >= 4);
    assert(s[0] == 0x00u8 && s[1] == 0x6du8 && s[2] == 0x6fu8 && s[3] == 0x64u8);
    assert(s.skip(4) =~= enc_u32(CONTAINER_VERSION) + t1);
    lemma_dec_u32(CONTAINER_VERSION, t1);

    functype_hyp();
    assert(forall|i: int| 0 <= i < m.types.len() ==> functype_sz_fn()(#[trigger] m.types[i]));
    lemma_dec_vec(m.types, t2, functype_sz_fn(), enc_functype_fn(), dec_functype_fn());

    import_hyp();
    assert(forall|i: int| 0 <= i < m.imports.len() ==> import_sz_fn()(#[trigger] m.imports[i]));
    lemma_dec_vec(m.imports, t3, import_sz_fn(), enc_import_fn(), dec_import_fn());

    func_hyp();
    assert(forall|i: int| 0 <= i < m.funcs.len() ==> func_sz_fn()(#[trigger] m.funcs[i]));
    lemma_dec_vec(m.funcs, t4, func_sz_fn(), enc_func_fn(), dec_func_fn());

    table_hyp();
    lemma_dec_opt(m.tables, t5, table_sz_fn(), enc_table_fn(), dec_table_fn());

    memory_hyp();
    lemma_dec_opt(m.memory, t6, memory_sz_fn(), enc_memory_fn(), dec_memory_fn());

    global_hyp();
    assert(forall|i: int| 0 <= i < m.globals.len() ==> global_sz_fn()(#[trigger] m.globals[i]));
    lemma_dec_vec(m.globals, t7, global_sz_fn(), enc_global_fn(), dec_global_fn());

    export_hyp();
    assert(forall|i: int| 0 <= i < m.exports.len() ==> export_sz_fn()(#[trigger] m.exports[i]));
    lemma_dec_vec(m.exports, t8, export_sz_fn(), enc_export_fn(), dec_export_fn());

    element_hyp();
    assert(forall|i: int| 0 <= i < m.elements.len() ==> element_sz_fn()(
        #[trigger] m.elements[i],
    ));
    lemma_dec_vec(m.elements, t9, element_sz_fn(), enc_element_fn(), dec_element_fn());

    data_hyp();
    assert(forall|i: int| 0 <= i < m.datas.len() ==> data_sz_fn()(#[trigger] m.datas[i]));
    lemma_dec_vec(m.datas, t10, data_sz_fn(), enc_data_fn(), dec_data_fn());

    custom_hyp();
    assert(forall|i: int| 0 <= i < m.customs.len() ==> custom_sz_fn()(#[trigger] m.customs[i]));
    lemma_dec_vec(m.customs, t11, custom_sz_fn(), enc_custom_fn(), dec_custom_fn());

    u32_hyp();
    lemma_dec_opt(m.start, Seq::<u8>::empty(), u32_sz_fn(), enc_u32_fn(), dec_u32_fn());
    assert(t11 =~= enc_opt(m.start, enc_u32_fn()) + Seq::<u8>::empty());

    assert(parse_spec(s) == Ok::<SpecModule, CodecError>(m));
}

} // verus!
