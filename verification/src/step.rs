//! Decoding and the mathematical transition of one executed instruction.
use vstd::prelude::*;
use crate::draw::{draw_hit, draw_screen};
use crate::fault::Fault;
use crate::state::{state_wf, EmuView};

verus! {

/// Highest 4-bit field of an instruction word: the operation family.
pub open spec fn op_d1(op: u16) -> int {
    op as int / 0x1000
}

/// Second 4-bit field: the register index x.
pub open spec fn op_x(op: u16) -> int {
    (op as int / 0x100) % 16
}

/// Third 4-bit field: the register index y.
pub open spec fn op_y(op: u16) -> int {
    (op as int / 16) % 16
}

/// Lowest 4-bit field.
pub open spec fn op_d4(op: u16) -> int {
    op as int % 16
}

/// Low 12 bits: an address immediate.
pub open spec fn op_nnn(op: u16) -> u16 {
    (op as int % 0x1000) as u16
}

/// Low 8 bits: a byte immediate.
pub open spec fn op_nn(op: u16) -> u8 {
    (op as int % 256) as u8
}

/// The instruction word formed from the two memory bytes at `pc`.
pub open spec fn fetch_word(ram: Seq<u8>, pc: int) -> u16 {
    (ram[pc] * 256 + ram[pc + 1]) as u16
}

/// The lowest pressed key index at or above `from`, scanning upward.
pub open spec fn first_key(keys: Seq<bool>, from: int) -> Option<u8>
    decreases 16 - from,
{
    if !(0 <= from < 16) {
        None
    } else if keys[from] {
        Some(from as u8)
    } else {
        first_key(keys, from + 1)
    }
}

/// The effect of executing one already-fetched instruction word `op` on
/// state `pre`. `rnd` is the byte drawn for the random instruction; no
/// other arm reads it. `Err` marks a fatal condition, under which the
/// machine makes no transition.
pub open spec fn step(pre: EmuView, op: u16, rnd: u8) -> Result<EmuView, Fault> {
    let d1 = op_d1(op);
    let x = op_x(op);
    let y = op_y(op);
    let d3 = op_y(op);
    let d4 = op_d4(op);
    let nnn = op_nnn(op);
    let nn = op_nn(op);
    if d1 == 0 && x == 0 && d3 == 0 && d4 == 0 {
        // 0000: no-op
        Ok(pre)
    } else if d1 == 0 && x == 0 && d3 == 0xE && d4 == 0 {
        // 00E0: clear the framebuffer
        Ok(EmuView { screen: Seq::new(pre.screen.len(), |i: int| false), ..pre })
    } else if d1 == 0 && x == 0 && d3 == 0xE && d4 == 0xE {
        // 00EE: return from subroutine
        if pre.sp == 0 {
            Err(Fault::StackUnderflow)
        } else {
            Ok(EmuView { sp: (pre.sp - 1) as u16, pc: pre.stack[pre.sp - 1], ..pre })
        }
    } else if d1 == 1 {
        // 1nnn: jump
        Ok(EmuView { pc: nnn, ..pre })
    } else if d1 == 2 {
        // 2nnn: call subroutine
        if pre.sp >= 16 {
            Err(Fault::StackOverflow)
        } else {
            Ok(EmuView {
                stack: pre.stack.update(pre.sp as int, pre.pc),
                sp: (pre.sp + 1) as u16,
                pc: nnn,
                ..pre
            })
        }
    } else if d1 == 3 {
        // 3xnn: skip if Vx == nn
        Ok(EmuView { pc: if pre.v_reg[x] == nn { (pre.pc + 2) as u16 } else { pre.pc }, ..pre })
    } else if d1 == 4 {
        // 4xnn: skip if Vx != nn
        Ok(EmuView { pc: if pre.v_reg[x] != nn { (pre.pc + 2) as u16 } else { pre.pc }, ..pre })
    } else if d1 == 5 && d4 == 0 {
        // 5xy0: skip if Vx == Vy
        Ok(EmuView {
            pc: if pre.v_reg[x] == pre.v_reg[y] { (pre.pc + 2) as u16 } else { pre.pc },
            ..pre
        })
    } else if d1 == 6 {
        // 6xnn: Vx = nn
        Ok(EmuView { v_reg: pre.v_reg.update(x, nn), ..pre })
    } else if d1 == 7 {
        // 7xnn: Vx += nn, wrapping, no flag
        Ok(EmuView { v_reg: pre.v_reg.update(x, ((pre.v_reg[x] + nn) % 256) as u8), ..pre })
    } else if d1 == 8 && d4 == 0 {
        // 8xy0: Vx = Vy
        Ok(EmuView { v_reg: pre.v_reg.update(x, pre.v_reg[y]), ..pre })
    } else if d1 == 8 && d4 == 1 {
        // 8xy1: Vx |= Vy
        Ok(EmuView { v_reg: pre.v_reg.update(x, pre.v_reg[x] | pre.v_reg[y]), ..pre })
    } else if d1 == 8 && d4 == 2 {
        // 8xy2: Vx &= Vy
        Ok(EmuView { v_reg: pre.v_reg.update(x, pre.v_reg[x] & pre.v_reg[y]), ..pre })
    } else if d1 == 8 && d4 == 3 {
        // 8xy3: Vx ^= Vy
        Ok(EmuView { v_reg: pre.v_reg.update(x, pre.v_reg[x] ^ pre.v_reg[y]), ..pre })
    } else if d1 == 8 && d4 == 4 {
        // 8xy4: Vx += Vy; VF = carry
        let sum = pre.v_reg[x] + pre.v_reg[y];
        Ok(EmuView {
            v_reg: pre.v_reg.update(x, (sum % 256) as u8).update(
                15,
                if sum > 255 { 1u8 } else { 0u8 },
            ),
            ..pre
        })
    } else if d1 == 8 && d4 == 5 {
        // 8xy5: Vx -= Vy; VF = 0 on borrow, else 1
        let diff = pre.v_reg[x] - pre.v_reg[y];
        Ok(EmuView {
            v_reg: pre.v_reg.update(x, (diff % 256) as u8).update(
                15,
                if diff < 0 { 0u8 } else { 1u8 },
            ),
            ..pre
        })
    } else if d1 == 8 && d4 == 6 {
        // 8xy6: VF = low bit of Vx; Vx >>= 1
        Ok(EmuView {
            v_reg: pre.v_reg.update(x, (pre.v_reg[x] / 2) as u8).update(
                15,
                (pre.v_reg[x] % 2) as u8,
            ),
            ..pre
        })
    } else if d1 == 8 && d4 == 7 {
        // 8xy7: Vx = Vy - Vx; VF = 0 on borrow, else 1
        let diff = pre.v_reg[y] - pre.v_reg[x];
        Ok(EmuView {
            v_reg: pre.v_reg.update(x, (diff % 256) as u8).update(
                15,
                if diff < 0 { 0u8 } else { 1u8 },
            ),
            ..pre
        })
    } else if d1 == 8 && d4 == 0xE {
        // 8xyE: VF = high bit of Vx; Vx <<= 1
        Ok(EmuView {
            v_reg: pre.v_reg.update(x, ((pre.v_reg[x] * 2) % 256) as u8).update(
                15,
                (pre.v_reg[x] / 128) as u8,
            ),
            ..pre
        })
    } else if d1 == 9 && d4 == 0 {
        // 9xy0: skip if Vx != Vy
        Ok(EmuView {
            pc: if pre.v_reg[x] != pre.v_reg[y] { (pre.pc + 2) as u16 } else { pre.pc },
            ..pre
        })
    } else if d1 == 0xA {
        // Annn: I = nnn
        Ok(EmuView { i_reg: nnn, ..pre })
    } else if d1 == 0xB {
        // Bnnn: jump to V0 + nnn
        Ok(EmuView { pc: (pre.v_reg[0] + nnn) as u16, ..pre })
    } else if d1 == 0xC {
        // Cxnn: Vx = random byte AND nn
        Ok(EmuView { v_reg: pre.v_reg.update(x, rnd & nn), ..pre })
    } else if d1 == 0xD {
        // Dxyn: draw an 8-wide, d4-tall sprite from memory at I
        if pre.i_reg + d4 > 4096 {
            Err(Fault::MemOutOfBounds)
        } else {
            let rows = pre.ram.subrange(pre.i_reg as int, pre.i_reg + d4);
            let hit = draw_hit(pre.screen, pre.v_reg[x], pre.v_reg[y], rows);
            Ok(EmuView {
                screen: draw_screen(pre.screen, pre.v_reg[x], pre.v_reg[y], rows),
                v_reg: pre.v_reg.update(15, if hit { 1u8 } else { 0u8 }),
                ..pre
            })
        }
    } else if d1 == 0xE && d3 == 9 && d4 == 0xE {
        // Ex9E: skip if key Vx is pressed
        if pre.v_reg[x] >= 16 {
            Err(Fault::KeyOutOfRange)
        } else {
            Ok(EmuView {
                pc: if pre.keys[pre.v_reg[x] as int] { (pre.pc + 2) as u16 } else { pre.pc },
                ..pre
            })
        }
    } else if d1 == 0xE && d3 == 0xA && d4 == 1 {
        // ExA1: skip if key Vx is not pressed
        if pre.v_reg[x] >= 16 {
            Err(Fault::KeyOutOfRange)
        } else {
            Ok(EmuView {
                pc: if !pre.keys[pre.v_reg[x] as int] { (pre.pc + 2) as u16 } else { pre.pc },
                ..pre
            })
        }
    } else if d1 == 0xF && d3 == 0 && d4 == 7 {
        // Fx07: Vx = delay timer
        Ok(EmuView { v_reg: pre.v_reg.update(x, pre.dt), ..pre })
    } else if d1 == 0xF && d3 == 0 && d4 == 0xA {
        // Fx0A: wait for a key; re-execute until one is pressed
        match first_key(pre.keys, 0) {
            Some(k) => Ok(EmuView { v_reg: pre.v_reg.update(x, k), ..pre }),
            None => Ok(EmuView { pc: (pre.pc - 2) as u16, ..pre }),
        }
    } else if d1 == 0xF && d3 == 1 && d4 == 5 {
        // Fx15: delay timer = Vx
        Ok(EmuView { dt: pre.v_reg[x], ..pre })
    } else if d1 == 0xF && d3 == 1 && d4 == 8 {
        // Fx18: sound timer = Vx
        Ok(EmuView { st: pre.v_reg[x], ..pre })
    } else if d1 == 0xF && d3 == 1 && d4 == 0xE {
        // Fx1E: I += Vx, wrapping
        Ok(EmuView { i_reg: ((pre.i_reg + pre.v_reg[x]) % 0x10000) as u16, ..pre })
    } else if d1 == 0xF && d3 == 2 && d4 == 9 {
        // Fx29: I = address of the glyph for digit Vx
        Ok(EmuView { i_reg: (pre.v_reg[x] * 5) as u16, ..pre })
    } else if d1 == 0xF && d3 == 3 && d4 == 3 {
        // Fx33: decimal digits of Vx into memory at I
        if pre.i_reg + 2 >= 4096 {
            Err(Fault::MemOutOfBounds)
        } else {
            Ok(EmuView {
                ram: pre.ram.update(pre.i_reg as int, (pre.v_reg[x] / 100) as u8).update(
                    pre.i_reg + 1,
                    ((pre.v_reg[x] / 10) % 10) as u8,
                ).update(pre.i_reg + 2, (pre.v_reg[x] % 10) as u8),
                ..pre
            })
        }
    } else if d1 == 0xF && d3 == 5 && d4 == 5 {
        // Fx55: store V0 .. V(x-1) into memory at I (exclusive of Vx)
        if pre.i_reg + x > 4096 {
            Err(Fault::MemOutOfBounds)
        } else {
            Ok(EmuView {
                ram: Seq::new(
                    pre.ram.len(),
                    |j: int|
                        if pre.i_reg <= j < pre.i_reg + x {
                            pre.v_reg[j - pre.i_reg]
                        } else {
                            pre.ram[j]
                        },
                ),
                ..pre
            })
        }
    } else if d1 == 0xF && d3 == 6 && d4 == 5 {
        // Fx65: load memory at I into V0 .. V(x-1) (exclusive of Vx)
        if pre.i_reg + x > 4096 {
            Err(Fault::MemOutOfBounds)
        } else {
            Ok(EmuView {
                v_reg: Seq::new(
                    pre.v_reg.len(),
                    |j: int| if 0 <= j < x { pre.ram[pre.i_reg + j] } else { pre.v_reg[j] },
                ),
                ..pre
            })
        }
    } else {
        Err(Fault::BadInstruction)
    }
}


/// A scan that starts at `from` finds nothing when no key at or above
/// `from` is pressed.
proof fn lemma_first_key_none(keys: Seq<bool>, from: int)
    requires
        0 <= from <= 16,
        forall|k: int| from <= k < 16 ==> !keys[k],
    ensures
        first_key(keys, from) == None::<u8>,
    decreases 16 - from,
{
    if from < 16 {
        lemma_first_key_none(keys, from + 1);
    }
}

/// A scan that starts at `from` finds exactly the lowest pressed key at
/// or above `from`.
proof fn lemma_first_key_finds(keys: Seq<bool>, from: int, k: int)
    requires
        0 <= from <= k < 16,
        keys[k],
        forall|j: int| from <= j < k ==> !keys[j],
    ensures
        first_key(keys, from) == Some(k as u8),
    decreases k - from,
{
    if from < k {
        lemma_first_key_finds(keys, from + 1, k);
    }
}

/// Adding an immediate to a register wraps modulo 256, touches no other
/// register and no flag, and never faults.
pub proof fn lemma_add_immediate(pre: EmuView, op: u16, rnd: u8)
    requires
        state_wf(pre),
        op_d1(op) == 7,
    ensures
        step(pre, op, rnd) matches Ok(post) && {
            let x = op_x(op);
            &&& post.v_reg[x] == (pre.v_reg[x] + op_nn(op)) % 256
            &&& post.v_reg.len() == 16
            &&& forall|i: int| 0 <= i < 16 && i != x ==> post.v_reg[i] == pre.v_reg[i]
            &&& post == (EmuView { v_reg: post.v_reg, ..pre })
        },
{
}

/// Register addition sets the flag register to 1 exactly when the
/// unwrapped sum exceeds 255, and stores the sum modulo 256. The stored
/// sum is visible as long as the destination is not the flag register
/// itself, which the flag overwrites.
pub proof fn lemma_add_carry(pre: EmuView, op: u16, rnd: u8)
    requires
        state_wf(pre),
        op_d1(op) == 8,
        op_d4(op) == 4,
    ensures
        step(pre, op, rnd) matches Ok(post) && {
            let x = op_x(op);
            let y = op_y(op);
            let sum = pre.v_reg[x] + pre.v_reg[y];
            &&& (post.v_reg[15] == 1 <==> sum > 255)
            &&& (post.v_reg[15] == 0 <==> sum <= 255)
            &&& x != 15 ==> post.v_reg[x] == sum % 256
        },
{
}

/// Register subtraction clears the flag register to 0 exactly when the
/// subtraction borrows (Vx < Vy before the operation), and stores the
/// difference modulo 256 as long as the destination is not the flag
/// register itself.
pub proof fn lemma_sub_borrow(pre: EmuView, op: u16, rnd: u8)
    requires
        state_wf(pre),
        op_d1(op) == 8,
        op_d4(op) == 5,
    ensures
        step(pre, op, rnd) matches Ok(post) && {
            let x = op_x(op);
            let y = op_y(op);
            &&& (post.v_reg[15] == 0 <==> pre.v_reg[x] < pre.v_reg[y])
            &&& (post.v_reg[15] == 1 <==> pre.v_reg[x] >= pre.v_reg[y])
            &&& x != 15 ==> post.v_reg[x] == (pre.v_reg[x] - pre.v_reg[y]) % 256
        },
{
}

/// A call pushes the address of the instruction after it, and a later
/// return through an undisturbed stack frame restores exactly that
/// address and the caller's stack depth.
pub proof fn lemma_call_return(s: EmuView, t: EmuView, op: u16, rnd: u8, rnd2: u8)
    requires
        state_wf(s),
        state_wf(t),
        op_d1(op) == 2,
        s.sp < 16,
        t.sp == s.sp + 1,
        t.stack[s.sp as int] == s.pc,
    ensures
        step(s, op, rnd) matches Ok(mid) && {
            &&& mid.pc == op_nnn(op)
            &&& mid.sp == s.sp + 1
            &&& mid.stack[s.sp as int] == s.pc
        },
        step(t, 0x00EE, rnd2) matches Ok(ret) && ret.pc == s.pc && ret.sp == s.sp,
{
}

/// The key-wait instruction blocks: with no key pressed it rewinds the
/// program counter over itself and changes nothing else, so across a
/// whole fetch-execute cycle the counter stands still; once some key is
/// pressed it stores the lowest pressed key index and lets the counter
/// advance.
pub proof fn lemma_wait_key(pre: EmuView, op: u16, rnd: u8)
    requires
        state_wf(pre),
        op_d1(op) == 0xF,
        op_y(op) == 0,
        op_d4(op) == 0xA,
    ensures
        (forall|k: int| 0 <= k < 16 ==> !pre.keys[k]) ==> step(pre, op, rnd) == Ok::<
            EmuView,
            Fault,
        >(EmuView { pc: (pre.pc - 2) as u16, ..pre }),
        forall|k: int|
            (0 <= k < 16 && pre.keys[k] && (forall|j: int| 0 <= j < k ==> !pre.keys[j]))
                ==> step(pre, op, rnd) == Ok::<EmuView, Fault>(
                EmuView { v_reg: pre.v_reg.update(op_x(op), k as u8), ..pre },
            ),
{
    if forall|k: int| 0 <= k < 16 ==> !pre.keys[k] {
        lemma_first_key_none(pre.keys, 0);
    }
    assert forall|k: int|
        (0 <= k < 16 && pre.keys[k] && (forall|j: int| 0 <= j < k ==> !pre.keys[j]))
            implies step(pre, op, rnd) == Ok::<EmuView, Fault>(
        EmuView { v_reg: pre.v_reg.update(op_x(op), k as u8), ..pre },
    ) by {
        lemma_first_key_finds(pre.keys, 0, k);
    }
}



/// The key-wait instruction blocks across whole cycles: when the word at
/// the program counter is the key-wait instruction, one full
/// fetch-execute cycle with no key pressed returns the machine to
/// exactly the state it started in, and one with some key pressed keeps
/// the advanced counter and stores the lowest pressed key index.
pub proof fn lemma_wait_key_cycle(pre: EmuView, rnd: u8)
    requires
        state_wf(pre),
        pre.pc + 1 < 4096,
        op_d1(fetch_word(pre.ram, pre.pc as int)) == 0xF,
        op_y(fetch_word(pre.ram, pre.pc as int)) == 0,
        op_d4(fetch_word(pre.ram, pre.pc as int)) == 0xA,
    ensures
        ({
            let opw = fetch_word(pre.ram, pre.pc as int);
            let mid = EmuView { pc: (pre.pc + 2) as u16, ..pre };
            &&& (forall|k: int| 0 <= k < 16 ==> !pre.keys[k]) ==> step(mid, opw, rnd) == Ok::<
                EmuView,
                Fault,
            >(pre)
            &&& forall|k: int|
                (0 <= k < 16 && pre.keys[k] && (forall|j: int| 0 <= j < k ==> !pre.keys[j]))
                    ==> step(mid, opw, rnd) == Ok::<EmuView, Fault>(
                    EmuView {
                        pc: (pre.pc + 2) as u16,
                        v_reg: pre.v_reg.update(op_x(opw), k as u8),
                        ..pre
                    },
                )
        }),
{
    let opw = fetch_word(pre.ram, pre.pc as int);
    let mid = EmuView { pc: (pre.pc + 2) as u16, ..pre };
    lemma_wait_key(mid, opw, rnd);
    if forall|k: int| 0 <= k < 16 ==> !pre.keys[k] {
        assert((EmuView { pc: (mid.pc - 2) as u16, ..mid }) =~= pre);
    }
    assert forall|k: int|
        (0 <= k < 16 && pre.keys[k] && (forall|j: int| 0 <= j < k ==> !pre.keys[j]))
            implies step(mid, opw, rnd) == Ok::<EmuView, Fault>(
        EmuView {
            pc: (pre.pc + 2) as u16,
            v_reg: pre.v_reg.update(op_x(opw), k as u8),
            ..pre
        },
    ) by {
        assert((EmuView { v_reg: mid.v_reg.update(op_x(opw), k as u8), ..mid }) =~= (EmuView {
            pc: (pre.pc + 2) as u16,
            v_reg: pre.v_reg.update(op_x(opw), k as u8),
            ..pre
        }));
    }
}


} // verus!
