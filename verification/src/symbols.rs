//! Symbol handling for diagnostics: a mangled identifier is rendered
//! human-readable only when shown to a user; matching logic always works on
//! the raw bytes.

use vstd::prelude::*;

verus! {

/// The demangled rendering of a (possibly mangled) symbol name. The result
/// depends on the bytes of the name alone.
pub uninterp spec fn demangled_of(name: Seq<u8>) -> Seq<char>;

/// Relies on rustc_demangle::demangle: renders a compiler-mangled symbol
/// readable; the rendering is a pure function of the input text.
#[verifier::external_body]
fn demangle_bytes(name: &Vec<u8>) -> (r: String)
    ensures
        r@ == demangled_of(name@),
{
    let text = String::from_utf8_lossy(name.as_slice());
    format!("{}", rustc_demangle::demangle(&text))
}

/// Render a symbol for a diagnostic: the demangled display form of the raw
/// name. Never used for matching.
pub fn display_symbol(name: &Vec<u8>) -> (r: String)
    ensures
        r@ == demangled_of(name@),
{
    demangle_bytes(name)
}

} // verus!
