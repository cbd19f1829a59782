//! A post-link transformation pipeline for a portable binary bytecode
//! container: parse an untrusted module, eliminate dead code, normalize the
//! export surface around a single entry point, lift inline foreign snippets
//! into generated glue, intercept memory growth, inject runtime intrinsics,
//! and serialize the result back to bytes.

use vstd::prelude::*;

pub mod codec;
pub mod dup;
pub mod errors;
pub mod glue;
pub mod module;
pub mod parse;
pub mod passes;
pub mod pipeline;
pub mod reach;
pub mod serial;
pub mod symbols;

verus! {

} // verus!
