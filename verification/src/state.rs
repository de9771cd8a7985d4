//! The mathematical model of the whole machine state.
use vstd::prelude::*;
use crate::font::FONTSET;

verus! {

/// Width of the monochrome framebuffer in pixels.
pub const SCREEN_WIDTH: usize = 64;

/// Height of the monochrome framebuffer in pixels.
pub const SCREEN_HEIGHT: usize = 32;

/// Bytes of memory.
pub const RAM_SIZE: usize = 4096;

/// Number of general registers V0 through VF.
pub const NUM_REGS: usize = 16;

/// Call-stack slots.
pub const STACK_SIZE: usize = 16;

/// Keys on the input panel.
pub const NUM_KEYS: usize = 16;

/// Address at which a program image is installed and execution starts.
pub const START_ADDR: u16 = 0x200;

/// Upper bound kept on the program counter and on every stored return
/// address. The largest value any instruction can produce is a jump to
/// `V0 + nnn`, at most `255 + 0xFFF`; this constant leaves a little slack
/// above that.
pub const PC_LIMIT: u16 = 4500;

/// The machine state as mathematics: every field of the executable
/// machine, with the fixed-size buffers as sequences.
#[verifier::ext_equal]
pub struct EmuView {
    /// Program counter.
    pub pc: u16,
    /// All 4096 bytes of memory.
    pub ram: Seq<u8>,
    /// Framebuffer, row-major: pixel `(x, y)` is entry `x + 64 * y`.
    pub screen: Seq<bool>,
    /// The sixteen general registers; entry 15 is the flag register VF.
    pub v_reg: Seq<u8>,
    /// Index register I.
    pub i_reg: u16,
    /// Call-stack depth; entries of `stack` at this index and beyond are stale.
    pub sp: u16,
    /// Stored return addresses; only the first `sp` entries are live.
    pub stack: Seq<u16>,
    /// Delay timer.
    pub dt: u8,
    /// Sound timer.
    pub st: u8,
    /// Last-known pressed state of each key.
    pub keys: Seq<bool>,
}

/// Well-formedness: the buffers have their fixed sizes, the stack depth is
/// within its sixteen slots, and the program counter and every stored
/// return address stay below [`PC_LIMIT`], so that advancing the counter
/// can never wrap.
pub open spec fn state_wf(s: EmuView) -> bool {
    &&& s.ram.len() == RAM_SIZE
    &&& s.screen.len() == SCREEN_WIDTH * SCREEN_HEIGHT
    &&& s.v_reg.len() == NUM_REGS
    &&& s.stack.len() == STACK_SIZE
    &&& s.keys.len() == NUM_KEYS
    &&& s.sp <= STACK_SIZE
    &&& s.pc <= PC_LIMIT
    &&& forall|i: int| 0 <= i < STACK_SIZE ==> s.stack[i] <= PC_LIMIT
}

/// The state right after creation or reset: everything zeroed, the glyph
/// table in the first 80 bytes of memory, and the program counter at the
/// load address.
pub open spec fn init_state() -> EmuView {
    EmuView {
        pc: START_ADDR,
        ram: Seq::new(RAM_SIZE as nat, |i: int| if i < 80 { FONTSET@[i] } else { 0u8 }),
        screen: Seq::new((SCREEN_WIDTH * SCREEN_HEIGHT) as nat, |i: int| false),
        v_reg: Seq::new(NUM_REGS as nat, |i: int| 0u8),
        i_reg: 0,
        sp: 0,
        stack: Seq::new(STACK_SIZE as nat, |i: int| 0u16),
        dt: 0,
        st: 0,
        keys: Seq::new(NUM_KEYS as nat, |i: int| false),
    }
}

} // verus!
