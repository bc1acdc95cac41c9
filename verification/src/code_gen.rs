//! Code generation: the vreg-to-location map and spill-aware emission
//! of target instructions for a fixed physical-register machine.

pub mod instructions;
pub mod local_alloc;

use vstd::prelude::*;

use local_alloc::Memory;
use local_alloc::Register;

verus! {

/// The allocation context the emitter works from: the location of every
/// vreg, the scratch pool reserved for spill traffic, and the number of
/// stack slots the prologue must reserve.
#[derive(Debug)]
pub struct Ctx {
    pub rtol: Vec<Memory>,
    pub scratches: Vec<Register>,
    pub stack_size: usize,
}

} // verus!
