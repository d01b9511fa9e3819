//! Value layout, marshalling and runtime semantics of a compiler from a typed
//! Lisp-style smart-contract language to WebAssembly.
//!
//! - `value`: source types and values, flat slots and in-memory footprints.
//! - `marshal`: writing values to linear memory and reading them back, and
//!   rebuilding values from flat Wasm slots.
//! - `slots`: lowering values to flat Wasm slots.
//! - `consensus`: the canonical consensus serialization.
//! - `memory`: the call-stack allocator, the literal pool, the filter loop.
//! - `arithmetic`, `assets`: the standard library's arithmetic and asset rules.
//! - `equal`, `mem_equal`: `is-eq` on values and on images in memory.
//! - `eval`, `words`: the meaning of the control forms and definitions.
//! - `error_map`, `traps`: runtime error codes and trap resolution.

pub mod error_map;
pub mod arithmetic;
pub mod value;
pub mod assets;
pub mod eval;
pub mod equal;
pub mod words;
pub mod replay;
pub mod memory;
pub mod marshal;
pub mod traps;
pub mod consensus;
pub mod mem_equal;
pub mod slots;
