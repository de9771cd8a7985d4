//! The sprite-drawing operation: XOR onto the framebuffer with wraparound.
use vstd::prelude::*;
use vstd::arithmetic::div_mod::{
    lemma_mod_add_multiples_vanish, lemma_mod_bound, lemma_mod_equivalence, lemma_small_mod,
};
use crate::state::{SCREEN_HEIGHT, SCREEN_WIDTH};

verus! {

/// Whether bit `c` (counted from the left, so column `c`) of sprite row
/// `r` is set.
pub open spec fn sprite_bit(rows: Seq<u8>, r: int, c: int) -> bool {
    (rows[r] >> ((7 - c) as u8)) & 1 == 1
}

/// The framebuffer index that sprite pixel `(r, c)` lands on when the
/// sprite's top-left corner is at `(x0, y0)`: both coordinates wrap.
pub open spec fn pix_index(x0: u8, y0: u8, r: int, c: int) -> int {
    (x0 + c) % (SCREEN_WIDTH as int) + (SCREEN_WIDTH as int) * ((y0 + r) % (SCREEN_HEIGHT as int))
}

/// Whether some set sprite bit lands on framebuffer index `idx`.
pub open spec fn covers(x0: u8, y0: u8, rows: Seq<u8>, idx: int) -> bool {
    exists|r: int, c: int|
        0 <= r < rows.len() && 0 <= c < 8 && sprite_bit(rows, r, c)
            && #[trigger] pix_index(x0, y0, r, c) == idx
}

/// The framebuffer after drawing: every covered pixel is toggled, every
/// other pixel keeps its value.
pub open spec fn draw_screen(screen: Seq<bool>, x0: u8, y0: u8, rows: Seq<u8>) -> Seq<bool> {
    Seq::new(
        screen.len(),
        |idx: int| if covers(x0, y0, rows, idx) { !screen[idx] } else { screen[idx] },
    )
}

/// Whether the draw collides: some set sprite bit lands on a pixel that
/// was already lit.
pub open spec fn draw_hit(screen: Seq<bool>, x0: u8, y0: u8, rows: Seq<u8>) -> bool {
    exists|r: int, c: int|
        0 <= r < rows.len() && 0 <= c < 8 && sprite_bit(rows, r, c)
            && screen[#[trigger] pix_index(x0, y0, r, c)]
}

/// Whether some set sprite bit strictly before row `rr`, or in row `rr`
/// before column `cc`, lands on index `idx`.
spec fn covers_before(
    x0: u8,
    y0: u8,
    rows: Seq<u8>,
    rr: int,
    cc: int,
    idx: int,
) -> bool {
    exists|r: int, c: int|
        0 <= r < rows.len() && 0 <= c < 8 && (r < rr || (r == rr && c < cc)) && sprite_bit(
            rows,
            r,
            c,
        ) && #[trigger] pix_index(x0, y0, r, c) == idx
}

/// Whether some set sprite bit strictly before position `(rr, cc)` lands
/// on a pixel lit in `s0`.
spec fn hit_before(
    s0: Seq<bool>,
    x0: u8,
    y0: u8,
    rows: Seq<u8>,
    rr: int,
    cc: int,
) -> bool {
    exists|r: int, c: int|
        0 <= r < rows.len() && 0 <= c < 8 && (r < rr || (r == rr && c < cc)) && sprite_bit(
            rows,
            r,
            c,
        ) && s0[#[trigger] pix_index(x0, y0, r, c)]
}

/// Two values with the same remainder modulo `m`, at distance less than
/// `m`, are equal.
proof fn lemma_mod_window(x: int, d: int, m: int)
    requires
        0 < m,
        0 <= d < m,
        x % m == (x + d) % m,
    ensures
        d == 0,
{
    lemma_mod_equivalence(x, x + d, m);
    if d > 0 {
        lemma_mod_add_multiples_vanish(-d, m);
        lemma_small_mod((m - d) as nat, m as nat);
        assert(false);
    }
}

/// Distinct sprite pixels land on distinct framebuffer indices, as long
/// as the sprite has at most 32 rows and 8 columns.
proof fn lemma_pix_index_injective(x0: u8, y0: u8, r1: int, c1: int, r2: int, c2: int)
    requires
        0 <= r1 < 32,
        0 <= c1 < 8,
        0 <= r2 < 32,
        0 <= c2 < 8,
        pix_index(x0, y0, r1, c1) == pix_index(x0, y0, r2, c2),
    ensures
        r1 == r2,
        c1 == c2,
{
    let col1 = (x0 + c1) % 64;
    let col2 = (x0 + c2) % 64;
    let row1 = (y0 + r1) % 32;
    let row2 = (y0 + r2) % 32;
    lemma_mod_bound(x0 + c1, 64);
    lemma_mod_bound(x0 + c2, 64);
    lemma_mod_bound(y0 + r1, 32);
    lemma_mod_bound(y0 + r2, 32);
    assert(col1 == col2 && row1 == row2);
    if c1 <= c2 {
        lemma_mod_window(x0 + c1, c2 - c1, 64);
    } else {
        lemma_mod_window(x0 + c2, c1 - c2, 64);
    }
    if r1 <= r2 {
        lemma_mod_window(y0 + r1, r2 - r1, 32);
    } else {
        lemma_mod_window(y0 + r2, r1 - r2, 32);
    }
}

/// Every sprite pixel lands inside the framebuffer.
proof fn lemma_pix_index_bounds(x0: u8, y0: u8, r: int, c: int)
    ensures
        0 <= pix_index(x0, y0, r, c) < 2048,
{
    lemma_mod_bound(x0 + c, 64);
    lemma_mod_bound(y0 + r, 32);
}

/// Draw the `n`-row sprite held in memory at `base` with its top-left
/// corner at `(x0, y0)`: each set bit toggles one pixel, wrapping at both
/// screen edges. Returns whether any toggled pixel went from lit to unlit.
pub(crate) fn draw_sprite(
    screen: &mut Vec<bool>,
    ram: &Vec<u8>,
    base: usize,
    n: usize,
    x0: u8,
    y0: u8,
) -> (hit: bool)
    requires
        old(screen)@.len() == 2048,
        ram@.len() == 4096,
        base + n <= 4096,
        n <= 15,
    ensures
        final(screen)@ == draw_screen(
            old(screen)@,
            x0,
            y0,
            ram@.subrange(base as int, base + n),
        ),
        hit == draw_hit(old(screen)@, x0, y0, ram@.subrange(base as int, base + n)),
{
    let ghost rows = ram@.subrange(base as int, base + n);
    let ghost s0 = old(screen)@;
    let mut hit = false;
    let mut r: usize = 0;
    while r < n
        invariant
            r <= n,
            n <= 15,
            base + n <= 4096,
            ram@.len() == 4096,
            rows == ram@.subrange(base as int, base + n),
            rows.len() == n,
            s0 == old(screen)@,
            s0.len() == 2048,
            screen@.len() == 2048,
            forall|idx: int|
                0 <= idx < 2048 ==> #[trigger] screen@[idx] == (if covers_before(
                    x0,
                    y0,
                    rows,
                    r as int,
                    0,
                    idx,
                ) {
                    !s0[idx]
                } else {
                    s0[idx]
                }),
            hit == hit_before(s0, x0, y0, rows, r as int, 0),
        decreases n - r,
    {
        let pixels = ram[base + r];
        proof {
            assert(pixels == rows[r as int]);
        }
        let mut c: usize = 0;
        while c < 8
            invariant
                c <= 8,
                r < n,
                n <= 15,
                base + n <= 4096,
                ram@.len() == 4096,
                rows == ram@.subrange(base as int, base + n),
                rows.len() == n,
                pixels == rows[r as int],
                s0 == old(screen)@,
                s0.len() == 2048,
                screen@.len() == 2048,
                forall|idx: int|
                    0 <= idx < 2048 ==> #[trigger] screen@[idx] == (if covers_before(
                        x0,
                        y0,
                        rows,
                        r as int,
                        c as int,
                        idx,
                    ) {
                        !s0[idx]
                    } else {
                        s0[idx]
                    }),
                hit == hit_before(s0, x0, y0, rows, r as int, c as int),
            decreases 8 - c,
        {
            let ghost rr = r as int;
            let ghost cc = c as int;
            if (pixels >> (7 - c as u8)) & 1 == 1 {
                proof {
                    assert(sprite_bit(rows, rr, cc));
                }
                let px: usize = (x0 as usize + c) % 64;
                let py: usize = (y0 as usize + r) % 32;
                let idx: usize = px + 64 * py;
                proof {
                    assert(idx as int == pix_index(x0, y0, rr, cc));
                    lemma_pix_index_bounds(x0, y0, rr, cc);
                    assert(!covers_before(x0, y0, rows, rr, cc, idx as int)) by {
                        if covers_before(x0, y0, rows, rr, cc, idx as int) {
                            let (r2, c2) = choose|r2: int, c2: int|
                                0 <= r2 < rows.len() && 0 <= c2 < 8 && (r2 < rr || (r2 == rr && c2
                                    < cc)) && sprite_bit(rows, r2, c2) && #[trigger] pix_index(
                                    x0,
                                    y0,
                                    r2,
                                    c2,
                                ) == idx as int;
                            lemma_pix_index_injective(x0, y0, r2, c2, rr, cc);
                            assert(false);
                        }
                    };
                }
                let cur = screen[idx];
                hit = hit || cur;
                screen.set(idx, !cur);
                proof {
                    assert(cur == s0[idx as int]);
                    assert forall|idx2: int| 0 <= idx2 < 2048 implies #[trigger] screen@[idx2] == (
                    if covers_before(x0, y0, rows, rr, cc + 1, idx2) {
                        !s0[idx2]
                    } else {
                        s0[idx2]
                    }) by {
                        if idx2 == idx as int {
                            assert(covers_before(x0, y0, rows, rr, cc + 1, idx2));
                        } else {
                            if covers_before(x0, y0, rows, rr, cc + 1, idx2) {
                                let (r3, c3) = choose|r3: int, c3: int|
                                    0 <= r3 < rows.len() && 0 <= c3 < 8 && (r3 < rr || (r3 == rr
                                        && c3 < cc + 1)) && sprite_bit(rows, r3, c3)
                                        && #[trigger] pix_index(x0, y0, r3, c3) == idx2;
                                if r3 == rr && c3 == cc {
                                    assert(false);
                                } else {
                                    assert(covers_before(x0, y0, rows, rr, cc, idx2));
                                }
                            }
                            if covers_before(x0, y0, rows, rr, cc, idx2) {
                                let (r3, c3) = choose|r3: int, c3: int|
                                    0 <= r3 < rows.len() && 0 <= c3 < 8 && (r3 < rr || (r3 == rr
                                        && c3 < cc)) && sprite_bit(rows, r3, c3)
                                        && #[trigger] pix_index(x0, y0, r3, c3) == idx2;
                                assert(covers_before(x0, y0, rows, rr, cc + 1, idx2));
                            }
                        }
                    }
                    assert(hit_before(s0, x0, y0, rows, rr, cc + 1) == (hit_before(
                        s0,
                        x0,
                        y0,
                        rows,
                        rr,
                        cc,
                    ) || s0[idx as int])) by {
                        if hit_before(s0, x0, y0, rows, rr, cc + 1) {
                            let (r3, c3) = choose|r3: int, c3: int|
                                0 <= r3 < rows.len() && 0 <= c3 < 8 && (r3 < rr || (r3 == rr && c3
                                    < cc + 1)) && sprite_bit(rows, r3, c3)
                                    && s0[#[trigger] pix_index(x0, y0, r3, c3)];
                            if !(r3 == rr && c3 == cc) {
                                assert(hit_before(s0, x0, y0, rows, rr, cc));
                            }
                        }
                        if hit_before(s0, x0, y0, rows, rr, cc) {
                            let (r3, c3) = choose|r3: int, c3: int|
                                0 <= r3 < rows.len() && 0 <= c3 < 8 && (r3 < rr || (r3 == rr && c3
                                    < cc)) && sprite_bit(rows, r3, c3)
                                    && s0[#[trigger] pix_index(x0, y0, r3, c3)];
                            assert(hit_before(s0, x0, y0, rows, rr, cc + 1));
                        }
                        if s0[idx as int] {
                            assert(hit_before(s0, x0, y0, rows, rr, cc + 1));
                        }
                    };
                }
            } else {
                proof {
                    assert(!sprite_bit(rows, rr, cc));
                    assert forall|idx2: int| covers_before(x0, y0, rows, rr, cc + 1, idx2)
                        == covers_before(x0, y0, rows, rr, cc, idx2) by {
                        if covers_before(x0, y0, rows, rr, cc + 1, idx2) {
                            let (r3, c3) = choose|r3: int, c3: int|
                                0 <= r3 < rows.len() && 0 <= c3 < 8 && (r3 < rr || (r3 == rr && c3
                                    < cc + 1)) && sprite_bit(rows, r3, c3) && #[trigger] pix_index(
                                    x0,
                                    y0,
                                    r3,
                                    c3,
                                ) == idx2;
                            assert(covers_before(x0, y0, rows, rr, cc, idx2));
                        }
                        if covers_before(x0, y0, rows, rr, cc, idx2) {
                            assert(covers_before(x0, y0, rows, rr, cc + 1, idx2));
                        }
                    }
                    assert(hit_before(s0, x0, y0, rows, rr, cc + 1) == hit_before(
                        s0,
                        x0,
                        y0,
                        rows,
                        rr,
                        cc,
                    )) by {
                        if hit_before(s0, x0, y0, rows, rr, cc + 1) {
                            let (r3, c3) = choose|r3: int, c3: int|
                                0 <= r3 < rows.len() && 0 <= c3 < 8 && (r3 < rr || (r3 == rr && c3
                                    < cc + 1)) && sprite_bit(rows, r3, c3)
                                    && s0[#[trigger] pix_index(x0, y0, r3, c3)];
                            assert(hit_before(s0, x0, y0, rows, rr, cc));
                        }
                        if hit_before(s0, x0, y0, rows, rr, cc) {
                            assert(hit_before(s0, x0, y0, rows, rr, cc + 1));
                        }
                    };
                }
            }
            c += 1;
        }
        proof {
            let rr = r as int;
            assert forall|idx2: int| covers_before(x0, y0, rows, rr + 1, 0, idx2) == covers_before(
                x0,
                y0,
                rows,
                rr,
                8,
                idx2,
            ) by {
                if covers_before(x0, y0, rows, rr + 1, 0, idx2) {
                    let (r3, c3) = choose|r3: int, c3: int|
                        0 <= r3 < rows.len() && 0 <= c3 < 8 && (r3 < rr + 1 || (r3 == rr + 1 && c3
                            < 0)) && sprite_bit(rows, r3, c3) && #[trigger] pix_index(
                            x0,
                            y0,
                            r3,
                            c3,
                        ) == idx2;
                    assert(covers_before(x0, y0, rows, rr, 8, idx2));
                }
                if covers_before(x0, y0, rows, rr, 8, idx2) {
                    let (r3, c3) = choose|r3: int, c3: int|
                        0 <= r3 < rows.len() && 0 <= c3 < 8 && (r3 < rr || (r3 == rr && c3 < 8))
                            && sprite_bit(rows, r3, c3) && #[trigger] pix_index(x0, y0, r3, c3)
                            == idx2;
                    assert(covers_before(x0, y0, rows, rr + 1, 0, idx2));
                }
            }
            assert(hit_before(s0, x0, y0, rows, rr + 1, 0) == hit_before(s0, x0, y0, rows, rr, 8))
                by {
                if hit_before(s0, x0, y0, rows, rr + 1, 0) {
                    let (r3, c3) = choose|r3: int, c3: int|
                        0 <= r3 < rows.len() && 0 <= c3 < 8 && (r3 < rr + 1 || (r3 == rr + 1 && c3
                            < 0)) && sprite_bit(rows, r3, c3)
                            && s0[#[trigger] pix_index(x0, y0, r3, c3)];
                    assert(hit_before(s0, x0, y0, rows, rr, 8));
                }
                if hit_before(s0, x0, y0, rows, rr, 8) {
                    let (r3, c3) = choose|r3: int, c3: int|
                        0 <= r3 < rows.len() && 0 <= c3 < 8 && (r3 < rr || (r3 == rr && c3 < 8))
                            && sprite_bit(rows, r3, c3)
                            && s0[#[trigger] pix_index(x0, y0, r3, c3)];
                    assert(hit_before(s0, x0, y0, rows, rr + 1, 0));
                }
            };
        }
        r += 1;
    }
    proof {
        let nn = n as int;
        assert forall|idx2: int| covers(x0, y0, rows, idx2) == covers_before(
            x0,
            y0,
            rows,
            nn,
            0,
            idx2,
        ) by {
            if covers(x0, y0, rows, idx2) {
                let (r3, c3) = choose|r3: int, c3: int|
                    0 <= r3 < rows.len() && 0 <= c3 < 8 && sprite_bit(rows, r3, c3)
                        && #[trigger] pix_index(x0, y0, r3, c3) == idx2;
                assert(covers_before(x0, y0, rows, nn, 0, idx2));
            }
            if covers_before(x0, y0, rows, nn, 0, idx2) {
                let (r3, c3) = choose|r3: int, c3: int|
                    0 <= r3 < rows.len() && 0 <= c3 < 8 && (r3 < nn || (r3 == nn && c3 < 0))
                        && sprite_bit(rows, r3, c3) && #[trigger] pix_index(x0, y0, r3, c3) == idx2;
                assert(covers(x0, y0, rows, idx2));
            }
        }
        assert(draw_hit(s0, x0, y0, rows) == hit_before(s0, x0, y0, rows, nn, 0)) by {
            if draw_hit(s0, x0, y0, rows) {
                let (r3, c3) = choose|r3: int, c3: int|
                    0 <= r3 < rows.len() && 0 <= c3 < 8 && sprite_bit(rows, r3, c3)
                        && s0[#[trigger] pix_index(x0, y0, r3, c3)];
                assert(hit_before(s0, x0, y0, rows, nn, 0));
            }
            if hit_before(s0, x0, y0, rows, nn, 0) {
                let (r3, c3) = choose|r3: int, c3: int|
                    0 <= r3 < rows.len() && 0 <= c3 < 8 && (r3 < nn || (r3 == nn && c3 < 0))
                        && sprite_bit(rows, r3, c3) && s0[#[trigger] pix_index(x0, y0, r3, c3)];
                assert(draw_hit(s0, x0, y0, rows));
            }
        };
        assert(screen@ =~= draw_screen(s0, x0, y0, rows));
    }
    hit
}

/// Drawing the identical sprite at the identical position twice restores
/// the framebuffer, and the second draw collides exactly on the sprite
/// pixels that the first draw left lit, which are those that were unlit
/// before it.
pub proof fn lemma_draw_involution(screen: Seq<bool>, x0: u8, y0: u8, rows: Seq<u8>)
    requires
        screen.len() == 2048,
    ensures
        draw_screen(draw_screen(screen, x0, y0, rows), x0, y0, rows) == screen,
        draw_hit(draw_screen(screen, x0, y0, rows), x0, y0, rows) == (exists|r: int, c: int|
            0 <= r < rows.len() && 0 <= c < 8 && sprite_bit(rows, r, c)
                && !screen[#[trigger] pix_index(x0, y0, r, c)]),
{
    let s1 = draw_screen(screen, x0, y0, rows);
    assert forall|r: int, c: int|
        0 <= r < rows.len() && 0 <= c < 8 && sprite_bit(rows, r, c) implies s1[#[trigger] pix_index(
        x0,
        y0,
        r,
        c,
    )] == !screen[pix_index(x0, y0, r, c)] by {
        lemma_pix_index_bounds(x0, y0, r, c);
        assert(covers(x0, y0, rows, pix_index(x0, y0, r, c)));
    }
    assert(draw_screen(s1, x0, y0, rows) =~= screen);
    if draw_hit(s1, x0, y0, rows) {
        let (r3, c3) = choose|r3: int, c3: int|
            0 <= r3 < rows.len() && 0 <= c3 < 8 && sprite_bit(rows, r3, c3)
                && s1[#[trigger] pix_index(x0, y0, r3, c3)];
        assert(!screen[pix_index(x0, y0, r3, c3)]);
    }
    if exists|r: int, c: int|
        0 <= r < rows.len() && 0 <= c < 8 && sprite_bit(rows, r, c)
            && !screen[#[trigger] pix_index(x0, y0, r, c)] {
        let (r3, c3) = choose|r3: int, c3: int|
            0 <= r3 < rows.len() && 0 <= c3 < 8 && sprite_bit(rows, r3, c3)
                && !screen[#[trigger] pix_index(x0, y0, r3, c3)];
        assert(s1[pix_index(x0, y0, r3, c3)]);
        assert(draw_hit(s1, x0, y0, rows));
    }
}

/// Sprite coordinates wrap: pixel `(r, c)` of the sprite toggles the
/// framebuffer pixel at column `(x0 + c) mod 64` and row `(y0 + r) mod
/// 32`; in particular a sprite starting at column 63 continues at column
/// 0 and one starting at row 31 continues at row 0.
pub proof fn lemma_draw_wraps(screen: Seq<bool>, x0: u8, y0: u8, rows: Seq<u8>, r: int, c: int)
    requires
        screen.len() == 2048,
        0 <= r < rows.len(),
        0 <= c < 8,
        sprite_bit(rows, r, c),
    ensures
        0 <= pix_index(x0, y0, r, c) < 2048,
        pix_index(x0, y0, r, c) == (x0 + c) % 64 + 64 * ((y0 + r) % 32),
        draw_screen(screen, x0, y0, rows)[pix_index(x0, y0, r, c)] == !screen[pix_index(
            x0,
            y0,
            r,
            c,
        )],
        x0 == 63 && 1 <= c ==> pix_index(x0, y0, r, c) == (c - 1) + 64 * ((y0 + r) % 32),
        y0 == 31 && 1 <= r && r < 32 ==> pix_index(x0, y0, r, c) == (x0 + c) % 64 + 64 * (r - 1),
{
    lemma_pix_index_bounds(x0, y0, r, c);
    assert(covers(x0, y0, rows, pix_index(x0, y0, r, c)));
    if x0 == 63 && 1 <= c {
        lemma_mod_add_multiples_vanish(c - 1, 64);
        lemma_small_mod((c - 1) as nat, 64);
        assert((63 + c) % 64 == c - 1);
    }
    if y0 == 31 && 1 <= r && r < 32 {
        lemma_mod_add_multiples_vanish(r - 1, 32);
        lemma_small_mod((r - 1) as nat, 32);
        assert((31 + r) % 32 == r - 1);
    }
}

} // verus!
