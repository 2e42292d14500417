//! Inference of the shadow stack pointer of a WebAssembly module from how
//! often its functions read and write each mutable `i32` global.
//!
//! The analysis works on a plain model of a decoded module (see [`module`]):
//! the module's sections in order, which [`decode`] obtains from the bytes
//! through wasmparser.  The library collects usage tallies ([`collect`]),
//! classifies the candidates ([`classify`]), counts the functions that use
//! the chosen global and assembles the per-file record ([`analyze`]).
//! [`laws`] states the properties that hold across these steps.

pub mod module;
pub mod classify;
pub mod collect;
pub mod analyze;
pub mod laws;
pub mod decode;

pub use module::{GlobalDecl, ImportKind, Operator, Section};
pub use classify::{classify, classify_with, Candidate, Failure, StackPointer, MIN_USES};
pub use collect::{collect_usage, declared_candidates, Usage};
pub use analyze::{analyze_module, count_functions, decoded_len, fits_limits, FileRecord};
pub use decode::{analyze_bytes, decode_module};
