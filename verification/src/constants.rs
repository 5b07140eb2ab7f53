use vstd::prelude::*;

verus! {

/// The state that stands for "no state": the lookup table holds it in its
/// first row, and the rows of the witness that are switched off look that row
/// up. No transition of an automaton may leave from it.
pub const MAX_STATE: u64 = 0xFFFF_FFFF_FFFF_FFFF;

/// The symbol class of the end of the input. The classes of the bytes start
/// at one.
pub const END_CLASS: u8 = 0;

/// The state that a row of the witness holds before anything is assigned to
/// it.
pub const REST_STATE: u64 = 0;

/// The rows that must stay free behind a trace: the last step of the trace
/// looks at the state of the row that follows it.
pub const REQUIRED_PADDING: usize = 1;

} // verus!
