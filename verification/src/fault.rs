//! Fatal conditions that stop execution of a loaded program.
use vstd::prelude::*;

verus! {

/// A condition under which the machine cannot continue.
///
/// None of these arises while a well-formed program executes; each marks
/// either a malformed program image or a host that skipped validation.
/// No recovery is defined: the host stops driving the machine.
#[derive(Clone, Copy, Debug, PartialEq, Eq, Structural)]
pub enum Fault {
    /// The program counter does not address two bytes of memory.
    PcOutOfBounds,
    /// A call nested deeper than the sixteen stack slots.
    StackOverflow,
    /// A return with no matching call.
    StackUnderflow,
    /// A memory-indexed operation reached past the end of memory.
    MemOutOfBounds,
    /// A key-state test named a key index outside 0..=15.
    KeyOutOfRange,
    /// An instruction word outside the implemented encoding.
    BadInstruction,
}

impl Fault {
    /// A short human-readable name for the condition.
    pub fn describe(&self) -> String {
        match self {
            Fault::PcOutOfBounds => "program counter out of bounds".to_string(),
            Fault::StackOverflow => "stack overflow".to_string(),
            Fault::StackUnderflow => "stack underflow".to_string(),
            Fault::MemOutOfBounds => "memory access out of bounds".to_string(),
            Fault::KeyOutOfRange => "key index out of range".to_string(),
            Fault::BadInstruction => "unimplemented instruction".to_string(),
        }
    }
}

} // verus!
