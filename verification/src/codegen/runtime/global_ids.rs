//! The IDs of the globals that the runtime itself uses, above those of the program.

use vstd::prelude::*;

verus! {

/// The ID of the global that stores the current memory size.
///
/// Even though the real size of the memory is always 4 GiB, WASM requires the interpreter
/// to respect the initial size and growth deltas provided by the program and track the current
/// memory size. Doing otherwise makes existing memory allocators confused.
pub const CURRENT_MEMORY_SIZE_GLOBAL_ID: u16 = 0xffff;

/// The ID of the global that stores the trap handler, an optional function.
pub const TRAP_HANDLER_GLOBAL_ID: u16 = 0xfffe;

} // verus!
