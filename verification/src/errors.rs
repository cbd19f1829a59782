//! Error taxonomy of the pipeline. Every error is fatal to the run that
//! raised it; nothing is retried internally.

use vstd::prelude::*;

verus! {

/// Why a byte sequence was rejected by the codec. A malformed module is never
/// silently coerced; it is refused with the first failure found.
#[derive(Clone, Copy, Debug, PartialEq, Eq, Structural)]
pub enum CodecError {
    /// The container header, an entry tag, or trailing garbage is malformed.
    MalformedHeader,
    /// The bytes end before the structure they announce is complete.
    TruncatedBody,
    /// A cross-reference index is out of bounds for its referent sequence.
    BadIndex,
    /// The container declares a version this pipeline does not understand.
    UnsupportedVersion,
}

/// The failure surface of the whole pipeline; each variant carries the
/// context its stage can name.
#[derive(Clone, Debug, PartialEq, Eq)]
pub enum PipelineError {
    /// Parsing or re-serialization rejected the module.
    Codec(CodecError),
    /// No export resolves to an entry point; carries the requested symbol, if
    /// any, and the names of the function exports that were considered.
    MissingEntryPoint { requested: Option<Vec<u8>>, candidates: Vec<Vec<u8>> },
    /// A required runtime intrinsic matches no injection policy; carries the
    /// raw (possibly mangled) import field name.
    UnresolvedIntrinsic { name: Vec<u8> },
    /// Two glue fragments collided on the same binding name during final
    /// rendering.
    GlueNameCollision { name: Vec<u8> },
}

} // verus!
