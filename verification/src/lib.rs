//! Translation core for PTX modules headed to an AMDGPU backend.
//!
//! The crate covers the two central passes of the translator: identifier
//! normalization (a scoped resolver that replaces every source name by a
//! stable numbered identifier) and LLVM IR emission (lowering the normalized
//! directive stream into a model of an LLVM module: function signatures,
//! calling conventions, entry-block allocas, and per-statement instructions).

pub mod ast;
pub mod bitcode;
pub mod decimal;
pub mod emit;
pub mod eqmap;
pub mod error;
pub mod llvm;
pub mod normalize;
pub mod nvml;
pub mod resolver;
pub mod util;
