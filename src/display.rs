use vstd::prelude::*;

use crate::machine::{collides, draw_sprite, flips, sprite_bit, sprite_col_of, sprite_row_of};

verus! {

/// The pixels of a frame, indexed by column then row.
pub open spec fn frame_view(f: [[bool; 32]; 64]) -> Seq<Seq<bool>> {
    Seq::new(64, |px: int| f[px]@)
}

/// Whether sprite pixel `(r, c)` comes before `(row, col)` in row-major order.
spec fn visited(r: int, c: int, row: int, col: int) -> bool {
    r < row || (r == row && c < col)
}

/// A pixel's screen column determines its sprite column, and its row its sprite row.
pub proof fn lemma_wrap(x: int, y: int, c: int, r: int)
    requires
        0 <= c < 64,
        0 <= r < 32,
        0 <= x,
        0 <= y,
    ensures
        sprite_col_of((x + c) % 64, x) == c,
        sprite_row_of((y + r) % 32, y) == r,
{
    assert(((x + c) % 64 - x) % 64 == c) by (nonlinear_arith)
        requires
            0 <= c < 64,
            0 <= x,
    ;
    assert(((y + r) % 32 - y) % 32 == r) by (nonlinear_arith)
        requires
            0 <= r < 32,
            0 <= y,
    ;
}

/// XORs the `n` sprite rows at `memory[start..start + n]` onto `frame` with
/// the top-left corner at `(x, y)`, wrapping on both axes. Returns whether a
/// pixel that was on was turned off.
pub fn xor_sprite(frame: &mut [[bool; 32]; 64], memory: &[u8; 4096], start: usize, n: usize, x: u8, y: u8) -> (hit: bool)
    requires
        n < 16,
        start + n <= 4096,
    ensures
        frame_view(*final(frame)) == draw_sprite(
            frame_view(*old(frame)),
            memory@.subrange(start as int, start + n),
            x as int,
            y as int,
        ),
        hit == collides(frame_view(*old(frame)), memory@.subrange(start as int, start + n), x as int, y as int),
{
    let ghost sprite = memory@.subrange(start as int, start + n);
    let ghost before = frame_view(*frame);
    let mut hit = false;
    let mut r: usize = 0;
    while r < n
        invariant
            n < 16,
            start + n <= 4096,
            r <= n,
            sprite == memory@.subrange(start as int, start + n),
            before == frame_view(*old(frame)),
            forall|px: int, py: int|
                0 <= px < 64 && 0 <= py < 32 ==> #[trigger] frame[px][py] == (before[px][py] != (
                flips(sprite, x as int, y as int, px, py) && visited(
                    sprite_row_of(py, y as int),
                    sprite_col_of(px, x as int),
                    r as int,
                    0,
                ))),
            hit == exists|px: int, py: int|
                0 <= px < 64 && 0 <= py < 32 && #[trigger] before[px][py] && flips(
                    sprite,
                    x as int,
                    y as int,
                    px,
                    py,
                ) && visited(sprite_row_of(py, y as int), sprite_col_of(px, x as int), r as int, 0),
        decreases n - r,
    {
        let row = memory[start + r];
        let py: usize = (y as usize + r) % 32;
        let mut c: usize = 0;
        while c < 8
            invariant
                n < 16,
                start + n <= 4096,
                r < n,
                c <= 8,
                row == sprite[r as int],
                py == (y + r) % 32,
                sprite == memory@.subrange(start as int, start + n),
                before == frame_view(*old(frame)),
                forall|px: int, py: int|
                    0 <= px < 64 && 0 <= py < 32 ==> #[trigger] frame[px][py] == (before[px][py] != (
                    flips(sprite, x as int, y as int, px, py) && visited(
                        sprite_row_of(py, y as int),
                        sprite_col_of(px, x as int),
                        r as int,
                        c as int,
                    ))),
                hit == exists|px: int, py: int|
                    0 <= px < 64 && 0 <= py < 32 && #[trigger] before[px][py] && flips(
                        sprite,
                        x as int,
                        y as int,
                        px,
                        py,
                    ) && visited(
                        sprite_row_of(py, y as int),
                        sprite_col_of(px, x as int),
                        r as int,
                        c as int,
                    ),
            decreases 8 - c,
        {
            let px: usize = (x as usize + c) % 64;
            proof {
                lemma_wrap(x as int, y as int, c as int, r as int);
            }
            let bit = (row >> (7 - c as u8)) & 1 == 1;
            assert(bit == sprite_bit(row, c as int));
            assert(flips(sprite, x as int, y as int, px as int, py as int) == bit);
            if bit {
                let mut column = frame[px];
                if column[py] {
                    hit = true;
                }
                column[py] = !column[py];
                frame[px] = column;
            }
            assert forall|qx: int, qy: int| 0 <= qx < 64 && 0 <= qy < 32 implies #[trigger] frame[qx][qy] == (before[qx][qy] != (
                flips(sprite, x as int, y as int, qx, qy) && visited(
                    sprite_row_of(qy, y as int),
                    sprite_col_of(qx, x as int),
                    r as int,
                    c + 1,
                ))) by {
                if qx == px && qy == py {
                } else {
                }
            }
            c += 1;
        }
        r += 1;
    }
    proof {
        let after = draw_sprite(before, sprite, x as int, y as int);
        assert forall|px: int| 0 <= px < 64 implies #[trigger] frame_view(*frame)[px] =~= after[px] by {
            assert forall|py: int| 0 <= py < 32 implies frame_view(*frame)[px][py] == after[px][py] by {
                assert(frame[px][py] == frame_view(*frame)[px][py]);
            }
        }
        assert(frame_view(*frame) =~= after);
    }
    hit
}

} // verus!
