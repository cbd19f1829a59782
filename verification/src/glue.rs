//! Glue fragments: named host-side bindings generated for lifted inline
//! snippets and injected intrinsics, and their rendering into one glue text.

use vstd::prelude::*;

use crate::errors::PipelineError;

verus! {

/// One generated host-side binding: a name, the number of arguments its
/// calling convention marshals, and the foreign body text.
#[derive(Clone, Debug, PartialEq, Eq)]
pub struct GlueFragment {
    pub name: Vec<u8>,
    pub args: u32,
    pub body: Vec<u8>,
}

#[verifier::ext_equal]
pub ghost struct SpecFragment {
    pub name: Seq<u8>,
    pub args: u32,
    pub body: Seq<u8>,
}

impl View for GlueFragment {
    type V = SpecFragment;

    open spec fn view(&self) -> SpecFragment {
        SpecFragment { name: self.name@, args: self.args, body: self.body@ }
    }
}

/// A byte rendered safe for an identifier: ASCII letters, digits and
/// underscore pass through; everything else becomes an underscore.
pub open spec fn sanitize_byte(b: u8) -> u8 {
    if (0x30 <= b <= 0x39) || (0x41 <= b <= 0x5a) || (0x61 <= b <= 0x7a) || b == 0x5f {
        b
    } else {
        0x5f
    }
}

/// The deterministic binding name derived from an import's module and field.
/// An (absurdly) oversized pair falls back to the field name alone so the
/// result always fits a 32-bit length.
pub open spec fn glue_name_spec(module: Seq<u8>, field: Seq<u8>) -> Seq<u8> {
    if module.len() < 0x8000_0000 && field.len() < 0x7fff_ffff {
        module.map_values(|b: u8| sanitize_byte(b)) + seq![0x5fu8] + field.map_values(
            |b: u8| sanitize_byte(b),
        )
    } else {
        field.map_values(|b: u8| sanitize_byte(b))
    }
}

fn sanitize_append(out: &mut Vec<u8>, v: &Vec<u8>)
    ensures
        final(out)@ == old(out)@ + v@.map_values(|b: u8| sanitize_byte(b)),
{
    let n = v.len();
    let ghost base = out@;
    for i in 0..n
        invariant
            out@ == base + v@.take(i as int).map_values(|b: u8| sanitize_byte(b)),
            n == v@.len(),
        decreases n - i,
    {
        let b = v[i];
        let c: u8 = if (0x30 <= b && b <= 0x39) || (0x41 <= b && b <= 0x5a) || (0x61 <= b && b
            <= 0x7a) || b == 0x5f {
            b
        } else {
            0x5f
        };
        out.push(c);
        proof {
            assert(out@ =~= base + v@.take(i + 1).map_values(|b: u8| sanitize_byte(b)));
        }
    }
    proof {
        assert(v@.take(n as int) =~= v@);
    }
}

/// Compute the deterministic glue binding name of an import.
pub fn glue_name(module: &Vec<u8>, field: &Vec<u8>) -> (out: Vec<u8>)
    ensures
        out@ == glue_name_spec(module@, field@),
{
    let mut out: Vec<u8> = Vec::new();
    if (module.len() as u64) < 0x8000_0000 && (field.len() as u64) < 0x7fff_ffff {
        sanitize_append(&mut out, module);
        out.push(0x5f);
        sanitize_append(&mut out, field);
    } else {
        sanitize_append(&mut out, field);
    }
    proof {
        assert(out@ =~= glue_name_spec(module@, field@));
    }
    out
}

/// Decimal digits of a number, most significant first.
pub open spec fn dec_rep(n: nat) -> Seq<u8>
    decreases n,
{
    if n < 10 {
        seq![(0x30 + n) as u8]
    } else {
        dec_rep(n / 10) + seq![(0x30 + n % 10) as u8]
    }
}

fn dec_bytes_of(n: u32) -> (out: Vec<u8>)
    ensures
        out@ == dec_rep(n as nat),
    decreases n,
{
    if n < 10 {
        let mut v: Vec<u8> = Vec::new();
        v.push(0x30 + (n as u8));
        proof {
            assert(v@ =~= dec_rep(n as nat));
        }
        v
    } else {
        let mut v = dec_bytes_of(n / 10);
        proof {
            assert((n % 10) < 10) by (nonlinear_arith);
        }
        v.push(0x30 + ((n % 10) as u8));
        proof {
            assert(v@ =~= dec_rep(n as nat));
        }
        v
    }
}

/// The rendered argument list `a0, a1, ...` for `k` arguments.
pub open spec fn args_rep(k: nat) -> Seq<u8>
    decreases k,
{
    if k == 0 {
        Seq::empty()
    } else if k == 1 {
        seq![0x61u8] + dec_rep(0)
    } else {
        args_rep((k - 1) as nat) + seq![0x2cu8] + seq![0x61u8] + dec_rep((k - 1) as nat)
    }
}

fn render_args(k: u32) -> (out: Vec<u8>)
    ensures
        out@ == args_rep(k as nat),
{
    let mut out: Vec<u8> = Vec::new();
    for i in 0..k
        invariant
            out@ == args_rep(i as nat),
        decreases k - i,
    {
        if i > 0 {
            out.push(0x2c);
        }
        out.push(0x61);
        let mut d = dec_bytes_of(i);
        out.append(&mut d);
        proof {
            assert(out@ =~= args_rep((i + 1) as nat));
        }
    }
    out
}

/// The rendered text of one fragment:
/// `export function <name>(<args>){<body>}` followed by a newline.
pub open spec fn frag_rep(f: SpecFragment) -> Seq<u8> {
    header_rep() + f.name + seq![0x28u8] + args_rep(f.args as nat) + seq![0x29u8, 0x7bu8]
        + f.body + seq![0x7du8, 0x0au8]
}

/// The fixed per-fragment prefix, `export function `.
pub open spec fn header_rep() -> Seq<u8> {
    seq![
        0x65u8, 0x78u8, 0x70u8, 0x6fu8, 0x72u8, 0x74u8, 0x20u8, 0x66u8, 0x75u8, 0x6eu8, 0x63u8,
        0x74u8, 0x69u8, 0x6fu8, 0x6eu8, 0x20u8,
    ]
}

/// All fragments rendered in emission order.
pub open spec fn frags_rep(fs: Seq<SpecFragment>) -> Seq<u8>
    decreases fs.len(),
{
    if fs.len() == 0 {
        Seq::empty()
    } else {
        frag_rep(fs[0]) + frags_rep(fs.skip(1))
    }
}

pub proof fn lemma_frags_rep_snoc(fs: Seq<SpecFragment>, x: SpecFragment)
    ensures
        frags_rep(fs.push(x)) == frags_rep(fs) + frag_rep(x),
    decreases fs.len(),
{
    if fs.len() == 0 {
        assert(fs.push(x).skip(1) =~= Seq::<SpecFragment>::empty());
        assert(fs.push(x)[0] == x);
        assert(frags_rep(Seq::<SpecFragment>::empty()) == Seq::<u8>::empty());
        assert(frags_rep(fs.push(x)) == frag_rep(x) + frags_rep(Seq::<SpecFragment>::empty()));
        assert(frags_rep(fs.push(x)) =~= frags_rep(fs) + frag_rep(x));
    } else {
        assert(fs.push(x)[0] == fs[0]);
        assert(fs.push(x).skip(1) =~= fs.skip(1).push(x));
        lemma_frags_rep_snoc(fs.skip(1), x);
        assert(frag_rep(fs[0]) + (frags_rep(fs.skip(1)) + frag_rep(x)) =~= (frag_rep(fs[0])
            + frags_rep(fs.skip(1))) + frag_rep(x));
    }
}

fn bytes_eq(a: &Vec<u8>, b: &Vec<u8>) -> (r: bool)
    ensures
        r == (a@ == b@),
{
    if a.len() != b.len() {
        return false;
    }
    let n = a.len();
    for i in 0..n
        invariant
            n == a@.len(),
            n == b@.len(),
            forall|k: int| 0 <= k < i ==> a@[k] == b@[k],
        decreases n - i,
    {
        if a[i] != b[i] {
            return false;
        }
    }
    proof {
        assert(a@ =~= b@);
    }
    true
}

/// Concatenate the fragments into the final glue text. Fails with a name
/// collision if two fragments bind the same name; the text is exactly the
/// fragments rendered in emission order.
pub fn render_glue(frags: &Vec<GlueFragment>) -> (r: Result<Vec<u8>, PipelineError>)
    ensures
        r matches Ok(text) ==> text@ == frags_rep(frags@.map_values(|f: GlueFragment| f@))
            && (forall|i: int, j: int| 0 <= i < j < frags@.len()
            ==> (#[trigger] frags@[i]).name@ != (#[trigger] frags@[j]).name@),
        r matches Err(e) ==> (e matches PipelineError::GlueNameCollision { .. }) && exists|
            i: int,
            j: int,
        | 0 <= i < j < frags@.len() && (#[trigger] frags@[i]).name@ == (
        #[trigger] frags@[j]).name@,
{
    let n = frags.len();
    for i in 0..n
        invariant
            n == frags@.len(),
            forall|x: int, y: int| 0 <= x < y < n && x < i ==> (#[trigger] frags@[x]).name@
                != (#[trigger] frags@[y]).name@,
        decreases n - i,
    {
        for j in (i + 1)..n
            invariant
                n == frags@.len(),
                i < n,
                forall|x: int, y: int| 0 <= x < y < n && x < i ==> (
                #[trigger] frags@[x]).name@ != (#[trigger] frags@[y]).name@,
                forall|y: int| i < y < j ==> (#[trigger] frags@[y]).name@ != frags@[
                    i as int].name@,
            decreases n - j,
        {
            if bytes_eq(&frags[i].name, &frags[j].name) {
                return Err(
                    PipelineError::GlueNameCollision { name: copy_frag_bytes(&frags[i].name) },
                );
            }
        }
    }
    let ghost sv = frags@.map_values(|f: GlueFragment| f@);
    let mut out: Vec<u8> = Vec::new();
    for i in 0..n
        invariant
            n == frags@.len(),
            sv == frags@.map_values(|f: GlueFragment| f@),
            out@ == frags_rep(sv.take(i as int)),
        decreases n - i,
    {
        proof {
            lemma_frags_rep_snoc(sv.take(i as int), sv[i as int]);
            assert(sv.take(i + 1) =~= sv.take(i as int).push(sv[i as int]));
            assert(sv[i as int] == frags@[i as int]@);
        }
        let ghost base = out@;
        out.extend_from_slice(header_slice());
        out.extend_from_slice(frags[i].name.as_slice());
        out.push(0x28);
        let mut ar = render_args(frags[i].args);
        out.append(&mut ar);
        out.push(0x29);
        out.push(0x7b);
        out.extend_from_slice(frags[i].body.as_slice());
        out.push(0x7d);
        out.push(0x0a);
        proof {
            assert(out@ =~= base + frag_rep(sv[i as int]));
        }
    }
    proof {
        assert(sv.take(n as int) =~= sv);
    }
    Ok(out)
}

fn copy_frag_bytes(v: &Vec<u8>) -> (out: Vec<u8>)
    ensures
        out@ == v@,
{
    vstd::slice::slice_to_vec(v.as_slice())
}

fn header_slice() -> (r: &'static [u8])
    ensures
        r@ == header_rep(),
{
    let r: &'static [u8] = &[
        0x65u8, 0x78u8, 0x70u8, 0x6fu8, 0x72u8, 0x74u8, 0x20u8, 0x66u8, 0x75u8, 0x6eu8, 0x63u8,
        0x74u8, 0x69u8, 0x6fu8, 0x6eu8, 0x20u8,
    ];
    proof {
        assert(r@ =~= header_rep());
    }
    r
}

} // verus!
