//! A program-model extractor and layout synthesizer for hand-written
//! on-chain program source: delimiter-balanced scanning, type resolution
//! over a name graph, account classification, instruction synthesis, and
//! serialized-size computation, each stage pinned down by its contract.

use vstd::prelude::*;

verus! {

pub mod cases;
pub mod classify;
pub mod emit;
pub mod gen;
pub mod instr;
pub mod layout;
pub mod resolve;
pub mod scan;
pub mod text;
pub mod types;

} // verus!
