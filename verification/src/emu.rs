//! The executable machine, proved to follow the transition in [`crate::step`].
use vstd::prelude::*;
use crate::fault::Fault;
use crate::font::{FONTSET, FONTSET_SIZE};
use crate::state::{
    init_state, state_wf, EmuView, NUM_KEYS, NUM_REGS, PC_LIMIT, RAM_SIZE, SCREEN_HEIGHT,
    SCREEN_WIDTH, STACK_SIZE, START_ADDR,
};
use crate::step::{fetch_word, first_key, op_d1, op_d4, op_x, step};

verus! {

/// A vector holding `n` copies of `t`.
fn filled<T: Copy>(n: usize, t: T) -> (v: Vec<T>)
    ensures
        v@.len() == n,
        forall|i: int| 0 <= i < n ==> v@[i] == t,
{
    let mut v: Vec<T> = Vec::new();
    while v.len() < n
        invariant
            v@.len() <= n,
            forall|i: int| 0 <= i < v@.len() ==> v@[i] == t,
        decreases n - v@.len(),
    {
        v.push(t);
    }
    v
}

/// The CHIP-8 machine: memory, registers, call stack, timers, key state
/// and framebuffer, driven by a host through the public operations.
pub struct Emu {
    pc: u16,
    ram: Vec<u8>,
    screen: Vec<bool>,
    v_reg: Vec<u8>,
    i_reg: u16,
    sp: u16,
    stack: Vec<u16>,
    dt: u8,
    st: u8,
    keys: Vec<bool>,
}

impl View for Emu {
    type V = EmuView;

    closed spec fn view(&self) -> EmuView {
        EmuView {
            pc: self.pc,
            ram: self.ram@,
            screen: self.screen@,
            v_reg: self.v_reg@,
            i_reg: self.i_reg,
            sp: self.sp,
            stack: self.stack@,
            dt: self.dt,
            st: self.st,
            keys: self.keys@,
        }
    }
}

impl Emu {
    /// Well-formedness of the machine, as stated on its view.
    pub open spec fn wf(&self) -> bool {
        state_wf(self@)
    }

    /// A freshly initialized machine: zeroed state, the glyph table in the
    /// first 80 bytes of memory, and the program counter at the load address.
    pub fn new() -> (r: Self)
        ensures
            r.wf(),
            r@ == init_state(),
    {
        let mut ram: Vec<u8> = filled(RAM_SIZE, 0u8);
        let mut j: usize = 0;
        while j < FONTSET_SIZE
            invariant
                j <= FONTSET_SIZE,
                ram@.len() == RAM_SIZE,
                forall|i: int| 0 <= i < j ==> ram@[i] == FONTSET@[i],
                forall|i: int| j <= i < RAM_SIZE ==> ram@[i] == 0u8,
            decreases FONTSET_SIZE - j,
        {
            ram.set(j, FONTSET[j]);
            j += 1;
        }
        let r = Emu {
            pc: START_ADDR,
            ram,
            screen: filled(SCREEN_WIDTH * SCREEN_HEIGHT, false),
            v_reg: filled(NUM_REGS, 0u8),
            i_reg: 0,
            sp: 0,
            stack: filled(STACK_SIZE, 0u16),
            dt: 0,
            st: 0,
            keys: filled(NUM_KEYS, false),
        };
        proof {
            assert(r@.ram =~= init_state().ram);
            assert(r@.screen =~= init_state().screen);
            assert(r@.v_reg =~= init_state().v_reg);
            assert(r@.stack =~= init_state().stack);
            assert(r@.keys =~= init_state().keys);
            assert(r@ =~= init_state());
        }
        r
    }

    /// Return to the state right after creation, discarding any loaded
    /// program; the host must load an image again before executing.
    pub fn reset(&mut self)
        ensures
            final(self).wf(),
            final(self)@ == init_state(),
    {
        *self = Emu::new();
    }

    /// Copy a program image into memory starting at the load address.
    /// The host validates the image size before calling.
    pub fn load(&mut self, data: &[u8])
        requires
            old(self).wf(),
            data@.len() <= RAM_SIZE - START_ADDR,
        ensures
            final(self).wf(),
            final(self)@ == (EmuView {
                ram: Seq::new(
                    RAM_SIZE as nat,
                    |j: int|
                        if START_ADDR <= j < START_ADDR + data@.len() {
                            data@[j - START_ADDR]
                        } else {
                            old(self)@.ram[j]
                        },
                ),
                ..old(self)@
            }),
    {
        let start: usize = START_ADDR as usize;
        let n: usize = data.len();
        let mut k: usize = 0;
        while k < n
            invariant
                start == START_ADDR as usize,
                n == data@.len(),
                k <= data@.len(),
                data@.len() <= RAM_SIZE - START_ADDR,
                self.ram@.len() == RAM_SIZE,
                forall|j: int|
                    start <= j < start + k ==> self.ram@[j] == data@[j - START_ADDR],
                forall|j: int|
                    0 <= j < RAM_SIZE && !(start <= j < start + k) ==> self.ram@[j] == old(
                        self,
                    )@.ram[j],
                self.pc == old(self).pc,
                self.screen == old(self).screen,
                self.v_reg == old(self).v_reg,
                self.i_reg == old(self).i_reg,
                self.sp == old(self).sp,
                self.stack == old(self).stack,
                self.dt == old(self).dt,
                self.st == old(self).st,
                self.keys == old(self).keys,
            decreases data@.len() - k,
        {
            self.ram.set(start + k, data[k]);
            proof {
                assert forall|j: int| start <= j < start + k + 1 implies self.ram@[j] == data@[j
                    - START_ADDR] by {
                    if j == start + k {
                        assert(self.ram@[j] == data@[k as int]);
                    }
                }
            }
            k += 1;
        }
        proof {
            assert(self@.ram =~= Seq::new(
                RAM_SIZE as nat,
                |j: int|
                    if START_ADDR <= j < START_ADDR + data@.len() {
                        data@[j - START_ADDR]
                    } else {
                        old(self)@.ram[j]
                    },
            ));
            assert(self@ =~= (EmuView { ram: self@.ram, ..old(self)@ }));
        }
    }

    /// Record a key's pressed state. The host validates the index.
    pub fn keypress(&mut self, idx: usize, pressed: bool)
        requires
            old(self).wf(),
            idx < NUM_KEYS,
        ensures
            final(self).wf(),
            final(self)@ == (EmuView { keys: old(self)@.keys.update(idx as int, pressed), ..old(self)@ }),
    {
        self.keys.set(idx, pressed);
        proof {
            assert(self@ =~= (EmuView {
                keys: old(self)@.keys.update(idx as int, pressed),
                ..old(self)@
            }));
        }
    }

    /// Read-only access to the framebuffer, row-major: pixel `(x, y)` is
    /// entry `x + 64 * y`.
    pub fn get_display(&self) -> (r: &[bool])
        ensures
            r@ == self@.screen,
    {
        self.screen.as_slice()
    }

    /// Value of general register `idx`.
    pub fn get_register(&self, idx: usize) -> (r: u8)
        requires
            self.wf(),
            idx < NUM_REGS,
        ensures
            r == self@.v_reg[idx as int],
    {
        self.v_reg[idx]
    }

    /// Current program counter.
    pub fn get_pc(&self) -> (r: u16)
        ensures
            r == self@.pc,
    {
        self.pc
    }

    /// Current index register I.
    pub fn get_i_reg(&self) -> (r: u16)
        ensures
            r == self@.i_reg,
    {
        self.i_reg
    }

    /// Current delay-timer value.
    pub fn get_delay_timer(&self) -> (r: u8)
        ensures
            r == self@.dt,
    {
        self.dt
    }

    /// Current sound-timer value.
    pub fn get_sound_timer(&self) -> (r: u8)
        ensures
            r == self@.st,
    {
        self.st
    }

    /// Byte of memory at `addr`.
    pub fn get_memory(&self, addr: usize) -> (r: u8)
        requires
            self.wf(),
            addr < RAM_SIZE,
        ensures
            r == self@.ram[addr as int],
    {
        self.ram[addr]
    }

    /// Current call-stack depth.
    pub fn get_stack_depth(&self) -> (r: u16)
        ensures
            r == self@.sp,
    {
        self.sp
    }

    /// Advance both countdown timers by one unit. Returns true exactly
    /// when the sound timer stood at 1, the one-shot edge on which the
    /// host's audio collaborator ends its tone.
    pub fn tick_timers(&mut self) -> (tone: bool)
        requires
            old(self).wf(),
        ensures
            final(self).wf(),
            final(self)@ == (EmuView {
                dt: if old(self)@.dt > 0 { (old(self)@.dt - 1) as u8 } else { 0u8 },
                st: if old(self)@.st > 0 { (old(self)@.st - 1) as u8 } else { 0u8 },
                ..old(self)@
            }),
            tone == (old(self)@.st == 1),
    {
        let tone = self.st == 1;
        if self.dt > 0 {
            self.dt = self.dt - 1;
        }
        if self.st > 0 {
            self.st = self.st - 1;
        }
        proof {
            assert(self@ =~= (EmuView {
                dt: if old(self)@.dt > 0 { (old(self)@.dt - 1) as u8 } else { 0u8 },
                st: if old(self)@.st > 0 { (old(self)@.st - 1) as u8 } else { 0u8 },
                ..old(self)@
            }));
        }
        tone
    }

    /// Push a return address; fails with stack overflow when all sixteen
    /// slots are in use.
    fn push(&mut self, val: u16) -> (r: Result<(), Fault>)
        requires
            old(self).wf(),
            val <= PC_LIMIT,
        ensures
            final(self).wf(),
            match r {
                Ok(()) => old(self)@.sp < STACK_SIZE && final(self)@ == (EmuView {
                    stack: old(self)@.stack.update(old(self)@.sp as int, val),
                    sp: (old(self)@.sp + 1) as u16,
                    ..old(self)@
                }),
                Err(f) => f == Fault::StackOverflow && old(self)@.sp >= STACK_SIZE && final(self)@ == old(
                    self,
                )@,
            },
    {
        if self.sp >= STACK_SIZE as u16 {
            return Err(Fault::StackOverflow);
        }
        self.stack.set(self.sp as usize, val);
        self.sp = self.sp + 1;
        proof {
            assert(self@ =~= (EmuView {
                stack: old(self)@.stack.update(old(self)@.sp as int, val),
                sp: (old(self)@.sp + 1) as u16,
                ..old(self)@
            }));
        }
        Ok(())
    }

    /// Pop a return address; fails with stack underflow when no call is
    /// outstanding.
    fn pop(&mut self) -> (r: Result<u16, Fault>)
        requires
            old(self).wf(),
        ensures
            final(self).wf(),
            match r {
                Ok(val) => old(self)@.sp > 0 && val == old(self)@.stack[old(self)@.sp - 1]
                    && val <= PC_LIMIT && final(self)@ == (EmuView {
                    sp: (old(self)@.sp - 1) as u16,
                    ..old(self)@
                }),
                Err(f) => f == Fault::StackUnderflow && old(self)@.sp == 0 && final(self)@ == old(self)@,
            },
    {
        if self.sp == 0 {
            return Err(Fault::StackUnderflow);
        }
        self.sp = self.sp - 1;
        let val = self.stack[self.sp as usize];
        proof {
            assert(self@ =~= (EmuView { sp: (old(self)@.sp - 1) as u16, ..old(self)@ }));
        }
        Ok(val)
    }

    /// Read the two memory bytes at the program counter, combine them into
    /// one instruction word and advance the counter by two. Fails when the
    /// counter does not address two bytes of memory.
    fn fetch(&mut self) -> (r: Result<u16, Fault>)
        requires
            old(self).wf(),
        ensures
            final(self).wf(),
            ({
                let pre = old(self)@;
                if pre.pc + 1 < RAM_SIZE {
                    r matches Ok(w) && w == fetch_word(pre.ram, pre.pc as int) && final(self)@ == (EmuView {
                        pc: (pre.pc + 2) as u16,
                        ..pre
                    })
                } else {
                    r == Err::<u16, Fault>(Fault::PcOutOfBounds) && final(self)@ == pre
                }
            }),
    {
        if self.pc as usize + 1 >= RAM_SIZE {
            return Err(Fault::PcOutOfBounds);
        }
        let hi = self.ram[self.pc as usize] as u16;
        let lo = self.ram[self.pc as usize + 1] as u16;
        let op = (hi << 8u16) | lo;
        proof {
            assert(op == (hi * 256 + lo) as u16) by (bit_vector)
                requires
                    op == (hi << 8u16) | lo,
                    hi < 256,
                    lo < 256,
            ;
        }
        self.pc = self.pc + 2;
        proof {
            assert(self@ =~= (EmuView { pc: (old(self)@.pc + 2) as u16, ..old(self)@ }));
        }
        Ok(op)
    }

    /// System operations: no-op, clear screen, return.
    #[verifier::spinoff_prover]
    #[verifier::rlimit(100)]
    fn exec_zero(&mut self, op: u16, rnd: u8) -> (r: Result<(), Fault>)
        requires
            old(self).wf(),
            2 <= old(self)@.pc,
            old(self)@.pc <= 4096,
            op_d1(op) == 0,
        ensures
            final(self).wf(),
            match r {
                Ok(()) => step(old(self)@, op, rnd) == Ok::<EmuView, Fault>(final(self)@),
                Err(f) => final(self)@ == old(self)@ && forall|z: u8|
                    step(old(self)@, op, z) == Err::<EmuView, Fault>(f),
            },
    {
        let digit1: u16 = op / 0x1000;
        let digit2: u16 = (op / 0x100) % 16;
        let digit3: u16 = (op / 16) % 16;
        let digit4: u16 = op % 16;
        match (digit1, digit2, digit3, digit4) {
            // 0000: no-op
            (0, 0, 0, 0) => {
                proof {
                    assert(step(old(self)@, op, rnd) == Ok::<EmuView, Fault>(self@));
                }
                Ok(())
            },
            // 00E0: clear the framebuffer
            (0, 0, 0xE, 0) => {
                self.screen = filled(SCREEN_WIDTH * SCREEN_HEIGHT, false);
                proof {
                    assert(self@.screen =~= Seq::new(old(self)@.screen.len(), |i: int| false));
                    assert(self@ =~= (EmuView {
                        screen: Seq::new(old(self)@.screen.len(), |i: int| false),
                        ..old(self)@
                    }));
                    assert(step(old(self)@, op, rnd) == Ok::<EmuView, Fault>(self@));
                }
                Ok(())
            },
            // 00EE: return from subroutine
            (0, 0, 0xE, 0xE) => {
                match self.pop() {
                    Ok(addr) => {
                        self.pc = addr;
                        proof {
                            assert(self@ =~= (EmuView {
                                sp: (old(self)@.sp - 1) as u16,
                                pc: old(self)@.stack[old(self)@.sp - 1],
                                ..old(self)@
                            }));
                            assert(step(old(self)@, op, rnd) == Ok::<EmuView, Fault>(self@));
                        }
                        Ok(())
                    },
                    Err(f) => {
                        proof {
                            assert(forall|z: u8|
                                step(old(self)@, op, z) == Err::<EmuView, Fault>(
                                    Fault::StackUnderflow,
                                ));
                        }
                        Err(f)
                    },
                }
            },
            (_, _, _, _) => {
                proof {
                    assert(forall|z: u8|
                        step(old(self)@, op, z) == Err::<EmuView, Fault>(Fault::BadInstruction));
                }
                Err(Fault::BadInstruction)
            },
        }
    }

    /// Register compare skip, index register, random byte and draw.
    #[verifier::spinoff_prover]
    #[verifier::rlimit(100)]
    fn exec_addr(&mut self, op: u16, rnd: u8) -> (r: Result<(), Fault>)
        requires
            old(self).wf(),
            2 <= old(self)@.pc,
            old(self)@.pc <= 4096,
            9 <= op_d1(op) <= 0xD,
        ensures
            final(self).wf(),
            match r {
                Ok(()) => step(old(self)@, op, rnd) == Ok::<EmuView, Fault>(final(self)@),
                Err(f) => final(self)@ == old(self)@ && forall|z: u8|
                    step(old(self)@, op, z) == Err::<EmuView, Fault>(f),
            },
    {
        let digit1: u16 = op / 0x1000;
        let digit2: u16 = (op / 0x100) % 16;
        let digit3: u16 = (op / 16) % 16;
        let digit4: u16 = op % 16;
        let nnn: u16 = op % 0x1000;
        let nn: u8 = (op % 256) as u8;
        let x = digit2 as usize;
        let y = digit3 as usize;
        match (digit1, digit2, digit3, digit4) {
            // 9xy0: skip if Vx != Vy
            (9, _, _, 0) => {
                if self.v_reg[x] != self.v_reg[y] {
                    self.pc = self.pc + 2;
                }
                proof {
                    assert(self@ =~= (EmuView {
                        pc: if old(self)@.v_reg[x as int] != old(self)@.v_reg[y as int] {
                            (old(self)@.pc + 2) as u16
                        } else {
                            old(self)@.pc
                        },
                        ..old(self)@
                    }));
                    assert(step(old(self)@, op, rnd) == Ok::<EmuView, Fault>(self@));
                }
                Ok(())
            },
            // Annn: I = nnn
            (0xA, _, _, _) => {
                self.i_reg = nnn;
                proof {
                    assert(self@ =~= (EmuView { i_reg: nnn, ..old(self)@ }));
                    assert(step(old(self)@, op, rnd) == Ok::<EmuView, Fault>(self@));
                }
                Ok(())
            },
            // Bnnn: jump to V0 + nnn
            (0xB, _, _, _) => {
                let v0 = self.v_reg[0];
                self.pc = v0 as u16 + nnn;
                proof {
                    assert(self@ =~= (EmuView {
                        pc: (old(self)@.v_reg[0] + nnn) as u16,
                        ..old(self)@
                    }));
                    assert(step(old(self)@, op, rnd) == Ok::<EmuView, Fault>(self@));
                }
                Ok(())
            },
            // Cxnn: Vx = random byte AND nn
            (0xC, _, _, _) => {
                self.v_reg.set(x, rnd & nn);
                proof {
                    assert(self@ =~= (EmuView {
                        v_reg: old(self)@.v_reg.update(x as int, rnd & nn),
                        ..old(self)@
                    }));
                    assert(step(old(self)@, op, rnd) == Ok::<EmuView, Fault>(self@));
                }
                Ok(())
            },
            // Dxyn: draw a sprite from memory at I
            (0xD, _, _, _) => {
                let x_coord = self.v_reg[x];
                let y_coord = self.v_reg[y];
                let n = digit4 as usize;
                let base = self.i_reg as usize;
                if base + n > 4096 {
                    proof {
                        assert(forall|z: u8|
                            step(old(self)@, op, z) == Err::<EmuView, Fault>(
                                Fault::MemOutOfBounds,
                            ));
                    }
                    return Err(Fault::MemOutOfBounds);
                }
                let hit = crate::draw::draw_sprite(
                    &mut self.screen,
                    &self.ram,
                    base,
                    n,
                    x_coord,
                    y_coord,
                );
                self.v_reg.set(15, if hit { 1 } else { 0 });
                proof {
                    let pre = old(self)@;
                    let rows = pre.ram.subrange(pre.i_reg as int, pre.i_reg + op_d4(op));
                    let h = crate::draw::draw_hit(
                        pre.screen,
                        pre.v_reg[x as int],
                        pre.v_reg[y as int],
                        rows,
                    );
                    assert(hit == h);
                    assert(self@ =~= (EmuView {
                        screen: crate::draw::draw_screen(
                            pre.screen,
                            pre.v_reg[x as int],
                            pre.v_reg[y as int],
                            rows,
                        ),
                        v_reg: pre.v_reg.update(15, if h { 1u8 } else { 0u8 }),
                        ..pre
                    }));
                    assert(step(pre, op, rnd) == Ok::<EmuView, Fault>(self@));
                }
                Ok(())
            },
            (_, _, _, _) => {
                proof {
                    assert(forall|z: u8|
                        step(old(self)@, op, z) == Err::<EmuView, Fault>(Fault::BadInstruction));
                }
                Err(Fault::BadInstruction)
            },
        }
    }

    /// Key-state conditional skips.
    #[verifier::spinoff_prover]
    #[verifier::rlimit(100)]
    fn exec_key(&mut self, op: u16, rnd: u8) -> (r: Result<(), Fault>)
        requires
            old(self).wf(),
            2 <= old(self)@.pc,
            old(self)@.pc <= 4096,
            op_d1(op) == 0xE,
        ensures
            final(self).wf(),
            match r {
                Ok(()) => step(old(self)@, op, rnd) == Ok::<EmuView, Fault>(final(self)@),
                Err(f) => final(self)@ == old(self)@ && forall|z: u8|
                    step(old(self)@, op, z) == Err::<EmuView, Fault>(f),
            },
    {
        let digit1: u16 = op / 0x1000;
        let digit2: u16 = (op / 0x100) % 16;
        let digit3: u16 = (op / 16) % 16;
        let digit4: u16 = op % 16;
        let x = digit2 as usize;
        match (digit1, digit2, digit3, digit4) {
            // Ex9E: skip if key Vx is pressed
            (0xE, _, 9, 0xE) => {
                let vx = self.v_reg[x];
                if vx >= 16 {
                    proof {
                        assert(forall|z: u8|
                            step(old(self)@, op, z) == Err::<EmuView, Fault>(Fault::KeyOutOfRange));
                    }
                    return Err(Fault::KeyOutOfRange);
                }
                if self.keys[vx as usize] {
                    self.pc = self.pc + 2;
                }
                proof {
                    let pre = old(self)@;
                    assert(self@ =~= (EmuView {
                        pc: if pre.keys[pre.v_reg[x as int] as int] {
                            (pre.pc + 2) as u16
                        } else {
                            pre.pc
                        },
                        ..pre
                    }));
                    assert(step(pre, op, rnd) == Ok::<EmuView, Fault>(self@));
                }
                Ok(())
            },
            // ExA1: skip if key Vx is not pressed
            (0xE, _, 0xA, 1) => {
                let vx = self.v_reg[x];
                if vx >= 16 {
                    proof {
                        assert(forall|z: u8|
                            step(old(self)@, op, z) == Err::<EmuView, Fault>(Fault::KeyOutOfRange));
                    }
                    return Err(Fault::KeyOutOfRange);
                }
                if !self.keys[vx as usize] {
                    self.pc = self.pc + 2;
                }
                proof {
                    let pre = old(self)@;
                    assert(self@ =~= (EmuView {
                        pc: if !pre.keys[pre.v_reg[x as int] as int] {
                            (pre.pc + 2) as u16
                        } else {
                            pre.pc
                        },
                        ..pre
                    }));
                    assert(step(pre, op, rnd) == Ok::<EmuView, Fault>(self@));
                }
                Ok(())
            },
            (_, _, _, _) => {
                proof {
                    assert(forall|z: u8|
                        step(old(self)@, op, z) == Err::<EmuView, Fault>(Fault::BadInstruction));
                }
                Err(Fault::BadInstruction)
            },
        }
    }

    /// Timers, key wait, index arithmetic, glyphs, decimal digits
    /// and register ranges.
    #[verifier::spinoff_prover]
    #[verifier::rlimit(100)]
    fn exec_misc(&mut self, op: u16, rnd: u8) -> (r: Result<(), Fault>)
        requires
            old(self).wf(),
            2 <= old(self)@.pc,
            old(self)@.pc <= 4096,
            op_d1(op) == 0xF,
        ensures
            final(self).wf(),
            match r {
                Ok(()) => step(old(self)@, op, rnd) == Ok::<EmuView, Fault>(final(self)@),
                Err(f) => final(self)@ == old(self)@ && forall|z: u8|
                    step(old(self)@, op, z) == Err::<EmuView, Fault>(f),
            },
    {
        let digit1: u16 = op / 0x1000;
        let digit2: u16 = (op / 0x100) % 16;
        let digit3: u16 = (op / 16) % 16;
        let digit4: u16 = op % 16;
        let nnn: u16 = op % 0x1000;
        let nn: u8 = (op % 256) as u8;
        let x = digit2 as usize;
        let y = digit3 as usize;
        match (digit1, digit2, digit3, digit4) {
            // Fx07: Vx = delay timer
            (0xF, _, 0, 7) => {
                let d = self.dt;
                self.v_reg.set(x, d);
                proof {
                    assert(self@ =~= (EmuView {
                        v_reg: old(self)@.v_reg.update(x as int, old(self)@.dt),
                        ..old(self)@
                    }));
                    assert(step(old(self)@, op, rnd) == Ok::<EmuView, Fault>(self@));
                }
                Ok(())
            },
            // Fx0A: wait for a key; re-execute until one is pressed
            (0xF, _, 0, 0xA) => {
                let mut found: Option<u8> = None;
                let mut k: usize = 0;
                while k < 16
                    invariant
                        k <= 16,
                        self == old(self),
                        old(self).wf(),
                        match found {
                            Some(i) => first_key(self.keys@, 0) == Some(i),
                            None => first_key(self.keys@, 0) == first_key(self.keys@, k as int),
                        },
                    decreases 16 - k,
                {
                    if found.is_none() && self.keys[k] {
                        found = Some(k as u8);
                        proof {
                            assert(first_key(self.keys@, k as int) == Some(k as u8));
                        }
                    } else {
                        proof {
                            if found is None {
                                assert(first_key(self.keys@, k as int) == first_key(
                                    self.keys@,
                                    k as int + 1,
                                ));
                            }
                        }
                    }
                    k += 1;
                }
                match found {
                    Some(i) => {
                        self.v_reg.set(x, i);
                        proof {
                            let pre = old(self)@;
                            assert(self@ =~= (EmuView {
                                v_reg: pre.v_reg.update(x as int, i),
                                ..pre
                            }));
                            assert(step(pre, op, rnd) == Ok::<EmuView, Fault>(self@));
                        }
                        Ok(())
                    },
                    None => {
                        self.pc = self.pc - 2;
                        proof {
                            let pre = old(self)@;
                            assert(self@ =~= (EmuView { pc: (pre.pc - 2) as u16, ..pre }));
                            assert(step(pre, op, rnd) == Ok::<EmuView, Fault>(self@));
                        }
                        Ok(())
                    },
                }
            },
            // Fx15: delay timer = Vx
            (0xF, _, 1, 5) => {
                self.dt = self.v_reg[x];
                proof {
                    assert(self@ =~= (EmuView { dt: old(self)@.v_reg[x as int], ..old(self)@ }));
                    assert(step(old(self)@, op, rnd) == Ok::<EmuView, Fault>(self@));
                }
                Ok(())
            },
            // Fx18: sound timer = Vx
            (0xF, _, 1, 8) => {
                self.st = self.v_reg[x];
                proof {
                    assert(self@ =~= (EmuView { st: old(self)@.v_reg[x as int], ..old(self)@ }));
                    assert(step(old(self)@, op, rnd) == Ok::<EmuView, Fault>(self@));
                }
                Ok(())
            },
            // Fx1E: I += Vx, wrapping
            (0xF, _, 1, 0xE) => {
                let vx = self.v_reg[x];
                self.i_reg = self.i_reg.wrapping_add(vx as u16);
                proof {
                    let pre = old(self)@;
                    assert(self@ =~= (EmuView {
                        i_reg: ((pre.i_reg + pre.v_reg[x as int]) % 0x10000) as u16,
                        ..pre
                    }));
                    assert(step(pre, op, rnd) == Ok::<EmuView, Fault>(self@));
                }
                Ok(())
            },
            // Fx29: I = address of the glyph for digit Vx
            (0xF, _, 2, 9) => {
                let vx = self.v_reg[x];
                self.i_reg = vx as u16 * 5;
                proof {
                    assert(self@ =~= (EmuView {
                        i_reg: (old(self)@.v_reg[x as int] * 5) as u16,
                        ..old(self)@
                    }));
                    assert(step(old(self)@, op, rnd) == Ok::<EmuView, Fault>(self@));
                }
                Ok(())
            },
            // Fx33: decimal digits of Vx into memory at I
            (0xF, _, 3, 3) => {
                let base = self.i_reg as usize;
                if base + 2 >= 4096 {
                    proof {
                        assert(forall|z: u8|
                            step(old(self)@, op, z) == Err::<EmuView, Fault>(
                                Fault::MemOutOfBounds,
                            ));
                    }
                    return Err(Fault::MemOutOfBounds);
                }
                let vx = self.v_reg[x];
                self.ram.set(base, vx / 100);
                self.ram.set(base + 1, (vx / 10) % 10);
                self.ram.set(base + 2, vx % 10);
                proof {
                    let pre = old(self)@;
                    let v = pre.v_reg[x as int];
                    assert(self@ =~= (EmuView {
                        ram: pre.ram.update(pre.i_reg as int, (v / 100) as u8).update(
                            pre.i_reg + 1,
                            ((v / 10) % 10) as u8,
                        ).update(pre.i_reg + 2, (v % 10) as u8),
                        ..pre
                    }));
                    assert(step(pre, op, rnd) == Ok::<EmuView, Fault>(self@));
                }
                Ok(())
            },
            // Fx55: store V0 .. V(x-1) into memory at I (exclusive of Vx)
            (0xF, _, 5, 5) => {
                let xn = x;
                let base = self.i_reg as usize;
                if base + xn > 4096 {
                    proof {
                        assert(forall|z: u8|
                            step(old(self)@, op, z) == Err::<EmuView, Fault>(
                                Fault::MemOutOfBounds,
                            ));
                    }
                    return Err(Fault::MemOutOfBounds);
                }
                let mut j: usize = 0;
                while j < xn
                    invariant
                        j <= xn,
                        xn < 16,
                        base + xn <= 4096,
                        base == old(self)@.i_reg,
                        self.ram@.len() == 4096,
                        self.v_reg@.len() == 16,
                        forall|t: int|
                            base <= t < base + j ==> self.ram@[t] == old(self)@.v_reg[t - base],
                        forall|t: int|
                            0 <= t < 4096 && !(base <= t < base + j) ==> self.ram@[t] == old(
                                self,
                            )@.ram[t],
                        self.pc == old(self).pc,
                        self.screen == old(self).screen,
                        self.v_reg == old(self).v_reg,
                        self.i_reg == old(self).i_reg,
                        self.sp == old(self).sp,
                        self.stack == old(self).stack,
                        self.dt == old(self).dt,
                        self.st == old(self).st,
                        self.keys == old(self).keys,
                    decreases xn - j,
                {
                    let v = self.v_reg[j];
                    self.ram.set(base + j, v);
                    j += 1;
                }
                proof {
                    let pre = old(self)@;
                    assert(self@.ram =~= Seq::new(
                        pre.ram.len(),
                        |t: int|
                            if pre.i_reg <= t < pre.i_reg + op_x(op) {
                                pre.v_reg[t - pre.i_reg]
                            } else {
                                pre.ram[t]
                            },
                    ));
                    assert(self@ =~= (EmuView { ram: self@.ram, ..pre }));
                    assert(step(pre, op, rnd) == Ok::<EmuView, Fault>(self@));
                }
                Ok(())
            },
            // Fx65: load memory at I into V0 .. V(x-1) (exclusive of Vx)
            (0xF, _, 6, 5) => {
                let xn = x;
                let base = self.i_reg as usize;
                if base + xn > 4096 {
                    proof {
                        assert(forall|z: u8|
                            step(old(self)@, op, z) == Err::<EmuView, Fault>(
                                Fault::MemOutOfBounds,
                            ));
                    }
                    return Err(Fault::MemOutOfBounds);
                }
                let mut j: usize = 0;
                while j < xn
                    invariant
                        j <= xn,
                        xn < 16,
                        base + xn <= 4096,
                        base == old(self)@.i_reg,
                        self.ram@.len() == 4096,
                        self.v_reg@.len() == 16,
                        forall|t: int| 0 <= t < j ==> self.v_reg@[t] == old(self)@.ram[base + t],
                        forall|t: int| j <= t < 16 ==> self.v_reg@[t] == old(self)@.v_reg[t],
                        self.pc == old(self).pc,
                        self.screen == old(self).screen,
                        self.ram == old(self).ram,
                        self.i_reg == old(self).i_reg,
                        self.sp == old(self).sp,
                        self.stack == old(self).stack,
                        self.dt == old(self).dt,
                        self.st == old(self).st,
                        self.keys == old(self).keys,
                    decreases xn - j,
                {
                    let v = self.ram[base + j];
                    self.v_reg.set(j, v);
                    j += 1;
                }
                proof {
                    let pre = old(self)@;
                    assert(self@.v_reg =~= Seq::new(
                        pre.v_reg.len(),
                        |t: int|
                            if 0 <= t < op_x(op) {
                                pre.ram[pre.i_reg + t]
                            } else {
                                pre.v_reg[t]
                            },
                    ));
                    assert(self@ =~= (EmuView { v_reg: self@.v_reg, ..pre }));
                    assert(step(pre, op, rnd) == Ok::<EmuView, Fault>(self@));
                }
                Ok(())
            },
            (_, _, _, _) => {
                proof {
                    assert(forall|z: u8|
                        step(old(self)@, op, z) == Err::<EmuView, Fault>(Fault::BadInstruction));
                }
                Err(Fault::BadInstruction)
            },
        }
    }

    /// Jump and subroutine call.
    #[verifier::spinoff_prover]
    #[verifier::rlimit(100)]
    fn exec_flow(&mut self, op: u16, rnd: u8) -> (r: Result<(), Fault>)
        requires
            old(self).wf(),
            2 <= old(self)@.pc,
            old(self)@.pc <= 4096,
            1 <= op_d1(op) <= 2,
        ensures
            final(self).wf(),
            match r {
                Ok(()) => step(old(self)@, op, rnd) == Ok::<EmuView, Fault>(final(self)@),
                Err(f) => final(self)@ == old(self)@ && forall|z: u8|
                    step(old(self)@, op, z) == Err::<EmuView, Fault>(f),
            },
    {
        let digit1: u16 = op / 0x1000;
        let digit2: u16 = (op / 0x100) % 16;
        let digit3: u16 = (op / 16) % 16;
        let digit4: u16 = op % 16;
        let nnn: u16 = op % 0x1000;
        match (digit1, digit2, digit3, digit4) {
            // 1nnn: jump
            (1, _, _, _) => {
                self.pc = nnn;
                proof {
                    assert(self@ =~= (EmuView { pc: nnn, ..old(self)@ }));
                    assert(step(old(self)@, op, rnd) == Ok::<EmuView, Fault>(self@));
                }
                Ok(())
            },
            // 2nnn: call subroutine
            (2, _, _, _) => {
                let here = self.pc;
                match self.push(here) {
                    Ok(()) => {
                        self.pc = nnn;
                        proof {
                            assert(self@ =~= (EmuView {
                                stack: old(self)@.stack.update(
                                    old(self)@.sp as int,
                                    old(self)@.pc,
                                ),
                                sp: (old(self)@.sp + 1) as u16,
                                pc: nnn,
                                ..old(self)@
                            }));
                            assert(step(old(self)@, op, rnd) == Ok::<EmuView, Fault>(self@));
                        }
                        Ok(())
                    },
                    Err(f) => {
                        proof {
                            assert(forall|z: u8|
                                step(old(self)@, op, z) == Err::<EmuView, Fault>(
                                    Fault::StackOverflow,
                                ));
                        }
                        Err(f)
                    },
                }
            },
            (_, _, _, _) => {
                proof {
                    assert(forall|z: u8|
                        step(old(self)@, op, z) == Err::<EmuView, Fault>(Fault::BadInstruction));
                }
                Err(Fault::BadInstruction)
            },
        }
    }

    /// Immediate and register comparison skips.
    #[verifier::spinoff_prover]
    #[verifier::rlimit(100)]
    fn exec_skip_imm(&mut self, op: u16, rnd: u8) -> (r: Result<(), Fault>)
        requires
            old(self).wf(),
            2 <= old(self)@.pc,
            old(self)@.pc <= 4096,
            3 <= op_d1(op) <= 5,
        ensures
            final(self).wf(),
            match r {
                Ok(()) => step(old(self)@, op, rnd) == Ok::<EmuView, Fault>(final(self)@),
                Err(f) => final(self)@ == old(self)@ && forall|z: u8|
                    step(old(self)@, op, z) == Err::<EmuView, Fault>(f),
            },
    {
        let digit1: u16 = op / 0x1000;
        let digit2: u16 = (op / 0x100) % 16;
        let digit3: u16 = (op / 16) % 16;
        let digit4: u16 = op % 16;
        let nn: u8 = (op % 256) as u8;
        let x = digit2 as usize;
        let y = digit3 as usize;
        match (digit1, digit2, digit3, digit4) {
            // 3xnn: skip if Vx == nn
            (3, _, _, _) => {
                if self.v_reg[x] == nn {
                    self.pc = self.pc + 2;
                }
                proof {
                    assert(self@ =~= (EmuView {
                        pc: if old(self)@.v_reg[x as int] == nn {
                            (old(self)@.pc + 2) as u16
                        } else {
                            old(self)@.pc
                        },
                        ..old(self)@
                    }));
                    assert(step(old(self)@, op, rnd) == Ok::<EmuView, Fault>(self@));
                }
                Ok(())
            },
            // 4xnn: skip if Vx != nn
            (4, _, _, _) => {
                if self.v_reg[x] != nn {
                    self.pc = self.pc + 2;
                }
                proof {
                    assert(self@ =~= (EmuView {
                        pc: if old(self)@.v_reg[x as int] != nn {
                            (old(self)@.pc + 2) as u16
                        } else {
                            old(self)@.pc
                        },
                        ..old(self)@
                    }));
                    assert(step(old(self)@, op, rnd) == Ok::<EmuView, Fault>(self@));
                }
                Ok(())
            },
            // 5xy0: skip if Vx == Vy
            (5, _, _, 0) => {
                if self.v_reg[x] == self.v_reg[y] {
                    self.pc = self.pc + 2;
                }
                proof {
                    assert(self@ =~= (EmuView {
                        pc: if old(self)@.v_reg[x as int] == old(self)@.v_reg[y as int] {
                            (old(self)@.pc + 2) as u16
                        } else {
                            old(self)@.pc
                        },
                        ..old(self)@
                    }));
                    assert(step(old(self)@, op, rnd) == Ok::<EmuView, Fault>(self@));
                }
                Ok(())
            },
            (_, _, _, _) => {
                proof {
                    assert(forall|z: u8|
                        step(old(self)@, op, z) == Err::<EmuView, Fault>(Fault::BadInstruction));
                }
                Err(Fault::BadInstruction)
            },
        }
    }

    /// Immediate register load and add.
    #[verifier::spinoff_prover]
    #[verifier::rlimit(100)]
    fn exec_imm(&mut self, op: u16, rnd: u8) -> (r: Result<(), Fault>)
        requires
            old(self).wf(),
            2 <= old(self)@.pc,
            old(self)@.pc <= 4096,
            6 <= op_d1(op) <= 7,
        ensures
            final(self).wf(),
            match r {
                Ok(()) => step(old(self)@, op, rnd) == Ok::<EmuView, Fault>(final(self)@),
                Err(f) => final(self)@ == old(self)@ && forall|z: u8|
                    step(old(self)@, op, z) == Err::<EmuView, Fault>(f),
            },
    {
        let digit1: u16 = op / 0x1000;
        let digit2: u16 = (op / 0x100) % 16;
        let digit3: u16 = (op / 16) % 16;
        let digit4: u16 = op % 16;
        let nn: u8 = (op % 256) as u8;
        let x = digit2 as usize;
        match (digit1, digit2, digit3, digit4) {
            // 6xnn: Vx = nn
            (6, _, _, _) => {
                self.v_reg.set(x, nn);
                proof {
                    assert(self@ =~= (EmuView {
                        v_reg: old(self)@.v_reg.update(x as int, nn),
                        ..old(self)@
                    }));
                    assert(step(old(self)@, op, rnd) == Ok::<EmuView, Fault>(self@));
                }
                Ok(())
            },
            // 7xnn: Vx += nn, wrapping, no flag
            (7, _, _, _) => {
                let vx = self.v_reg[x];
                self.v_reg.set(x, vx.wrapping_add(nn));
                proof {
                    assert(self@ =~= (EmuView {
                        v_reg: old(self)@.v_reg.update(
                            x as int,
                            ((old(self)@.v_reg[x as int] + nn) % 256) as u8,
                        ),
                        ..old(self)@
                    }));
                    assert(step(old(self)@, op, rnd) == Ok::<EmuView, Fault>(self@));
                }
                Ok(())
            },
            (_, _, _, _) => {
                proof {
                    assert(forall|z: u8|
                        step(old(self)@, op, z) == Err::<EmuView, Fault>(Fault::BadInstruction));
                }
                Err(Fault::BadInstruction)
            },
        }
    }

    /// Register move and bitwise logic.
    #[verifier::spinoff_prover]
    #[verifier::rlimit(100)]
    fn exec_alu_move(&mut self, op: u16, rnd: u8) -> (r: Result<(), Fault>)
        requires
            old(self).wf(),
            2 <= old(self)@.pc,
            old(self)@.pc <= 4096,
            op_d1(op) == 8 && op_d4(op) <= 3,
        ensures
            final(self).wf(),
            match r {
                Ok(()) => step(old(self)@, op, rnd) == Ok::<EmuView, Fault>(final(self)@),
                Err(f) => final(self)@ == old(self)@ && forall|z: u8|
                    step(old(self)@, op, z) == Err::<EmuView, Fault>(f),
            },
    {
        let digit1: u16 = op / 0x1000;
        let digit2: u16 = (op / 0x100) % 16;
        let digit3: u16 = (op / 16) % 16;
        let digit4: u16 = op % 16;
        let x = digit2 as usize;
        let y = digit3 as usize;
        match (digit1, digit2, digit3, digit4) {
            // 8xy0: Vx = Vy
            (8, _, _, 0) => {
                let vy = self.v_reg[y];
                self.v_reg.set(x, vy);
                proof {
                    assert(self@ =~= (EmuView {
                        v_reg: old(self)@.v_reg.update(x as int, old(self)@.v_reg[y as int]),
                        ..old(self)@
                    }));
                    assert(step(old(self)@, op, rnd) == Ok::<EmuView, Fault>(self@));
                }
                Ok(())
            },
            // 8xy1: Vx |= Vy
            (8, _, _, 1) => {
                let vx = self.v_reg[x];
                let vy = self.v_reg[y];
                self.v_reg.set(x, vx | vy);
                proof {
                    assert(self@ =~= (EmuView {
                        v_reg: old(self)@.v_reg.update(
                            x as int,
                            old(self)@.v_reg[x as int] | old(self)@.v_reg[y as int],
                        ),
                        ..old(self)@
                    }));
                    assert(step(old(self)@, op, rnd) == Ok::<EmuView, Fault>(self@));
                }
                Ok(())
            },
            // 8xy2: Vx &= Vy
            (8, _, _, 2) => {
                let vx = self.v_reg[x];
                let vy = self.v_reg[y];
                self.v_reg.set(x, vx & vy);
                proof {
                    assert(self@ =~= (EmuView {
                        v_reg: old(self)@.v_reg.update(
                            x as int,
                            old(self)@.v_reg[x as int] & old(self)@.v_reg[y as int],
                        ),
                        ..old(self)@
                    }));
                    assert(step(old(self)@, op, rnd) == Ok::<EmuView, Fault>(self@));
                }
                Ok(())
            },
            // 8xy3: Vx ^= Vy
            (8, _, _, 3) => {
                let vx = self.v_reg[x];
                let vy = self.v_reg[y];
                self.v_reg.set(x, vx ^ vy);
                proof {
                    assert(self@ =~= (EmuView {
                        v_reg: old(self)@.v_reg.update(
                            x as int,
                            old(self)@.v_reg[x as int] ^ old(self)@.v_reg[y as int],
                        ),
                        ..old(self)@
                    }));
                    assert(step(old(self)@, op, rnd) == Ok::<EmuView, Fault>(self@));
                }
                Ok(())
            },
            (_, _, _, _) => {
                proof {
                    assert(forall|z: u8|
                        step(old(self)@, op, z) == Err::<EmuView, Fault>(Fault::BadInstruction));
                }
                Err(Fault::BadInstruction)
            },
        }
    }

    /// Register shifts with flag.
    #[verifier::spinoff_prover]
    #[verifier::rlimit(100)]
    fn exec_alu_shift(&mut self, op: u16, rnd: u8) -> (r: Result<(), Fault>)
        requires
            old(self).wf(),
            2 <= old(self)@.pc,
            old(self)@.pc <= 4096,
            op_d1(op) == 8 && (op_d4(op) == 6 || op_d4(op) == 0xE),
        ensures
            final(self).wf(),
            match r {
                Ok(()) => step(old(self)@, op, rnd) == Ok::<EmuView, Fault>(final(self)@),
                Err(f) => final(self)@ == old(self)@ && forall|z: u8|
                    step(old(self)@, op, z) == Err::<EmuView, Fault>(f),
            },
    {
        let digit1: u16 = op / 0x1000;
        let digit2: u16 = (op / 0x100) % 16;
        let digit3: u16 = (op / 16) % 16;
        let digit4: u16 = op % 16;
        let x = digit2 as usize;
        match (digit1, digit2, digit3, digit4) {
            // 8xy6: VF = low bit of Vx; Vx >>= 1
            (8, _, _, 6) => {
                let vx = self.v_reg[x];
                self.v_reg.set(x, vx / 2);
                self.v_reg.set(15, vx % 2);
                proof {
                    let pre = old(self)@;
                    assert(self@ =~= (EmuView {
                        v_reg: pre.v_reg.update(x as int, (pre.v_reg[x as int] / 2) as u8).update(
                            15,
                            (pre.v_reg[x as int] % 2) as u8,
                        ),
                        ..pre
                    }));
                    assert(step(pre, op, rnd) == Ok::<EmuView, Fault>(self@));
                }
                Ok(())
            },
            // 8xyE: VF = high bit of Vx; Vx <<= 1
            (8, _, _, 0xE) => {
                let vx = self.v_reg[x];
                let doubled: u16 = vx as u16 * 2;
                self.v_reg.set(x, (doubled % 256) as u8);
                self.v_reg.set(15, vx / 128);
                proof {
                    let pre = old(self)@;
                    assert(self@ =~= (EmuView {
                        v_reg: pre.v_reg.update(
                            x as int,
                            ((pre.v_reg[x as int] * 2) % 256) as u8,
                        ).update(15, (pre.v_reg[x as int] / 128) as u8),
                        ..pre
                    }));
                    assert(step(pre, op, rnd) == Ok::<EmuView, Fault>(self@));
                }
                Ok(())
            },
            (_, _, _, _) => {
                proof {
                    assert(forall|z: u8|
                        step(old(self)@, op, z) == Err::<EmuView, Fault>(Fault::BadInstruction));
                }
                Err(Fault::BadInstruction)
            },
        }
    }

    /// Register add with carry flag.
    #[verifier::spinoff_prover]
    #[verifier::rlimit(100)]
    fn exec_add_carry(&mut self, op: u16, rnd: u8) -> (r: Result<(), Fault>)
        requires
            old(self).wf(),
            2 <= old(self)@.pc,
            old(self)@.pc <= 4096,
            op_d1(op) == 8,
            op_d4(op) == 4,
        ensures
            final(self).wf(),
            match r {
                Ok(()) => step(old(self)@, op, rnd) == Ok::<EmuView, Fault>(final(self)@),
                Err(f) => final(self)@ == old(self)@ && forall|z: u8|
                    step(old(self)@, op, z) == Err::<EmuView, Fault>(f),
            },
    {
        let digit2: u16 = (op / 0x100) % 16;
        let digit3: u16 = (op / 16) % 16;
        let x = digit2 as usize;
        let y = digit3 as usize;
        let vx = self.v_reg[x];
        let vy = self.v_reg[y];
        let sum: u16 = vx as u16 + vy as u16;
        self.v_reg.set(x, (sum % 256) as u8);
        self.v_reg.set(15, if sum > 255 { 1 } else { 0 });
        proof {
            let pre = old(self)@;
            let s = pre.v_reg[x as int] + pre.v_reg[y as int];
            assert(self@ =~= (EmuView {
                v_reg: pre.v_reg.update(x as int, (s % 256) as u8).update(
                    15,
                    if s > 255 { 1u8 } else { 0u8 },
                ),
                ..pre
            }));
            assert(step(pre, op, rnd) == Ok::<EmuView, Fault>(self@));
        }
        Ok(())
    }

    /// Register subtract with borrow flag.
    #[verifier::spinoff_prover]
    #[verifier::rlimit(100)]
    fn exec_sub_borrow(&mut self, op: u16, rnd: u8) -> (r: Result<(), Fault>)
        requires
            old(self).wf(),
            2 <= old(self)@.pc,
            old(self)@.pc <= 4096,
            op_d1(op) == 8,
            op_d4(op) == 5,
        ensures
            final(self).wf(),
            match r {
                Ok(()) => step(old(self)@, op, rnd) == Ok::<EmuView, Fault>(final(self)@),
                Err(f) => final(self)@ == old(self)@ && forall|z: u8|
                    step(old(self)@, op, z) == Err::<EmuView, Fault>(f),
            },
    {
        let digit2: u16 = (op / 0x100) % 16;
        let digit3: u16 = (op / 16) % 16;
        let x = digit2 as usize;
        let y = digit3 as usize;
        let vx = self.v_reg[x];
        let vy = self.v_reg[y];
        self.v_reg.set(x, vx.wrapping_sub(vy));
        self.v_reg.set(15, if vx < vy { 0 } else { 1 });
        proof {
            let pre = old(self)@;
            let d = pre.v_reg[x as int] - pre.v_reg[y as int];
            assert(self@ =~= (EmuView {
                v_reg: pre.v_reg.update(x as int, (d % 256) as u8).update(
                    15,
                    if d < 0 { 0u8 } else { 1u8 },
                ),
                ..pre
            }));
            assert(step(pre, op, rnd) == Ok::<EmuView, Fault>(self@));
        }
        Ok(())
    }

    /// Reversed register subtract with borrow flag.
    #[verifier::spinoff_prover]
    #[verifier::rlimit(100)]
    fn exec_rsub_borrow(&mut self, op: u16, rnd: u8) -> (r: Result<(), Fault>)
        requires
            old(self).wf(),
            2 <= old(self)@.pc,
            old(self)@.pc <= 4096,
            op_d1(op) == 8,
            op_d4(op) == 7,
        ensures
            final(self).wf(),
            match r {
                Ok(()) => step(old(self)@, op, rnd) == Ok::<EmuView, Fault>(final(self)@),
                Err(f) => final(self)@ == old(self)@ && forall|z: u8|
                    step(old(self)@, op, z) == Err::<EmuView, Fault>(f),
            },
    {
        let digit2: u16 = (op / 0x100) % 16;
        let digit3: u16 = (op / 16) % 16;
        let x = digit2 as usize;
        let y = digit3 as usize;
        let vx = self.v_reg[x];
        let vy = self.v_reg[y];
        self.v_reg.set(x, vy.wrapping_sub(vx));
        self.v_reg.set(15, if vy < vx { 0 } else { 1 });
        proof {
            let pre = old(self)@;
            let d = pre.v_reg[y as int] - pre.v_reg[x as int];
            assert(self@ =~= (EmuView {
                v_reg: pre.v_reg.update(x as int, (d % 256) as u8).update(
                    15,
                    if d < 0 { 0u8 } else { 1u8 },
                ),
                ..pre
            }));
            assert(step(pre, op, rnd) == Ok::<EmuView, Fault>(self@));
        }
        Ok(())
    }

    /// Decode and execute one instruction word. `rnd` is the byte drawn
    /// for the random instruction; every other operation ignores it. On
    /// `Err` the machine is left exactly as it was.
    fn execute(&mut self, op: u16, rnd: u8) -> (r: Result<(), Fault>)
        requires
            old(self).wf(),
            2 <= old(self)@.pc,
            old(self)@.pc <= 4096,
        ensures
            final(self).wf(),
            match r {
                Ok(()) => step(old(self)@, op, rnd) == Ok::<EmuView, Fault>(final(self)@),
                Err(f) => final(self)@ == old(self)@ && forall|z: u8|
                    step(old(self)@, op, z) == Err::<EmuView, Fault>(f),
            },
    {
        let digit1: u16 = op / 0x1000;
        let digit4: u16 = op % 16;
        if digit1 == 0 {
            self.exec_zero(op, rnd)
        } else if digit1 <= 2 {
            self.exec_flow(op, rnd)
        } else if digit1 <= 5 {
            self.exec_skip_imm(op, rnd)
        } else if digit1 <= 7 {
            self.exec_imm(op, rnd)
        } else if digit1 == 8 {
            if digit4 <= 3 {
                self.exec_alu_move(op, rnd)
            } else if digit4 == 4 {
                self.exec_add_carry(op, rnd)
            } else if digit4 == 5 {
                self.exec_sub_borrow(op, rnd)
            } else if digit4 == 7 {
                self.exec_rsub_borrow(op, rnd)
            } else if digit4 == 6 || digit4 == 0xE {
                self.exec_alu_shift(op, rnd)
            } else {
                proof {
                    assert(forall|z: u8|
                        step(old(self)@, op, z) == Err::<EmuView, Fault>(Fault::BadInstruction));
                }
                Err(Fault::BadInstruction)
            }
        } else if digit1 <= 0xD {
            self.exec_addr(op, rnd)
        } else if digit1 == 0xE {
            self.exec_key(op, rnd)
        } else {
            self.exec_misc(op, rnd)
        }
    }

    /// Execute one instruction with a caller-chosen byte standing in
    /// for the random source: fetch the word at the program counter and
    /// run it, using `rnd` for the random instruction. Deterministic,
    /// for hosts and tests that need reproducible runs.
    pub fn tick_with_random(&mut self, rnd: u8) -> (r: Result<(), Fault>)
        requires
            old(self).wf(),
        ensures
            final(self).wf(),
            ({
                let pre = old(self)@;
                if pre.pc + 1 < RAM_SIZE {
                    let opw = fetch_word(pre.ram, pre.pc as int);
                    let mid = EmuView { pc: (pre.pc + 2) as u16, ..pre };
                    match r {
                        Ok(()) => step(mid, opw, rnd) == Ok::<EmuView, Fault>(final(self)@),
                        Err(f) => final(self)@ == mid && forall|z: u8|
                            step(mid, opw, z) == Err::<EmuView, Fault>(f),
                    }
                } else {
                    r == Err::<(), Fault>(Fault::PcOutOfBounds) && final(self)@ == pre
                }
            }),
    {
        let op = match self.fetch() {
            Ok(w) => w,
            Err(f) => {
                return Err(f);
            },
        };
        self.execute(op, rnd)
    }

    /// Execute one instruction: fetch the word at the program counter and
    /// run it, drawing from the process-wide random source where the
    /// instruction calls for a random byte. On `Err` the machine stops
    /// making progress: the state is the pre-fetch state, or, when the
    /// fault arose from the fetched instruction itself, the state with
    /// only the counter advanced.
    pub fn tick(&mut self) -> (r: Result<(), Fault>)
        requires
            old(self).wf(),
        ensures
            final(self).wf(),
            ({
                let pre = old(self)@;
                if pre.pc + 1 < RAM_SIZE {
                    let opw = fetch_word(pre.ram, pre.pc as int);
                    let mid = EmuView { pc: (pre.pc + 2) as u16, ..pre };
                    match r {
                        Ok(()) => exists|z: u8|
                            step(mid, opw, z) == Ok::<EmuView, Fault>(final(self)@),
                        Err(f) => final(self)@ == mid && forall|z: u8|
                            step(mid, opw, z) == Err::<EmuView, Fault>(f),
                    }
                } else {
                    r == Err::<(), Fault>(Fault::PcOutOfBounds) && final(self)@ == pre
                }
            }),
    {
        let rnd: u8 = rand::random::<u8>();
        self.tick_with_random(rnd)
    }
}

} // verus!
