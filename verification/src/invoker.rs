//! The execution engine's verifiable part.
//!
//! Running generated code means mapping writable memory, copying the
//! bytes in, flipping the pages to read+execute and calling the region's
//! start address — operating-system and function-pointer work that lives
//! in the surrounding application, not here.  This module holds the
//! engine handle and the one computation that part needs: how large a
//! page-aligned mapping the code requires.

use vstd::arithmetic::div_mod::lemma_fundamental_div_mod;
use vstd::arithmetic::div_mod::lemma_mod_bound;
use vstd::arithmetic::div_mod::lemma_mod_multiples_basic;
use vstd::prelude::*;

verus! {

/// A handle for executing generated code.  The engine holds no state
/// between calls: each execution maps a fresh region, runs the code once
/// and releases the region.
pub struct Invoker;

impl Invoker {
    /// A fresh engine handle.
    pub fn new() -> (r: Invoker) {
        Invoker
    }
}

/// A code length rounded up to the 4096-byte page size: the size of the
/// memory region that holds the code during execution.
pub fn page_aligned_len(len: usize) -> (r: usize)
    requires
        len + 4095 <= usize::MAX,
    ensures
        r % 4096 == 0,
        len <= r,
        r < len + 4096,
{
    let total = len + 4095;
    let pages = total / 4096;
    proof {
        lemma_fundamental_div_mod(total as int, 4096);
        lemma_mod_bound(total as int, 4096);
        lemma_mod_multiples_basic(pages as int, 4096);
    }
    pages * 4096
}

} // verus!
