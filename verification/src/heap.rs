//! Heap profiling and allocator statistics.
//!
//! This build keeps the system allocator, so there is nothing to profile:
//! `/debug/heap` answers 501 and no allocator gauges are exported. Where an
//! allocator that profiles is linked, the caller asks it instead, and hands
//! the profile to the admin route.

use vstd::prelude::*;

use crate::text::push_text;

verus! {

/// Live allocator statistics, in bytes.
#[derive(Debug, Clone, Copy)]
pub struct Stats {
    /// Bytes currently allocated to the application.
    pub allocated: u64,
    /// Bytes in active pages backing allocations.
    pub active: u64,
    /// Bytes the allocator holds resident from the OS.
    pub resident: u64,
    /// Bytes mapped into the address space.
    pub mapped: u64,
    /// Bytes unmapped but retained for reuse.
    pub retained: u64,
}

/// Whether profiling was compiled in at all. Distinguishes "not built for this"
/// from "built but not armed", which are different operator mistakes with
/// different fixes.
pub const COMPILED_IN: bool = false;

/// What a build without profiling answers.
pub open spec fn not_built() -> Seq<char> {
    "built without the `profiling` feature; rebuild with --features profiling"@
}

/// Whether the allocator started with profiling enabled.
pub fn armed() -> (r: bool)
    ensures
        r == COMPILED_IN,
{
    false
}

/// Dump a heap profile and return its contents, or say why there is none.
pub fn dump() -> (r: Result<String, String>)
    ensures
        r matches Err(why) && why@ == not_built(),
{
    let mut why = String::new();
    push_text(&mut why, "built without the `profiling` feature; rebuild with --features profiling");
    proof {
        assert(why@ =~= not_built());
    }
    Err(why)
}

/// Read allocator statistics.
pub fn stats() -> (r: Option<Stats>)
    ensures
        r is None,
{
    None
}

} // verus!
