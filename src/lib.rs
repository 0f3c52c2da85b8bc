//! A sandbox for a single guest program: a software MMU with byte-level
//! permissions, uninitialised-read detection and dirty-block snapshot
//! restore, the system calls the guest may make, and the cipher that
//! obscures its console output.
use vstd::prelude::*;

pub mod cipher;
pub mod mmu;
pub mod primitive;
pub mod syscall;

verus! {


} // verus!
