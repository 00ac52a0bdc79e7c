use vstd::prelude::*;

use crate::display::lemma_wrap;
use crate::machine::{
    blank_screen, collides, draw_sprite, fetched, flips, sprite_bit, sprite_col_of, sprite_row_of,
    step, Command, Fault, Machine, MEMORY_SIZE, SCREEN_HEIGHT, SCREEN_WIDTH, STACK_DEPTH,
};
use crate::operand::Operand;

verus! {

/// `7xkk` always succeeds, leaves `(Vx + kk) mod 256` in `Vx`, and touches no
/// other register.
pub proof fn law_add_byte_wraps(m: Machine, op: Operand, rnd: u8)
    requires
        m.wf(),
        m.pc < MEMORY_SIZE,
        op.op_code == 0x7,
    ensures
        step(m, op, rnd).1 == Ok::<Option<Command>, Fault>(None),
        step(m, op, rnd).0.v[op.x_field()] == (m.v[op.x_field()] + op.kk_field()) % 256,
        forall|k: int| 0 <= k < 16 && k != op.x_field() ==> step(m, op, rnd).0.v[k] == m.v[k],
{
    reveal(step);
}

/// `8xy4` leaves the wrapped sum in `Vx` and sets `VF` to 1 exactly when the
/// unwrapped sum exceeds 255 (for `x` other than F, whose result the flag
/// overwrites).
pub proof fn law_add_reg_carry(m: Machine, op: Operand, rnd: u8)
    requires
        m.wf(),
        m.pc < MEMORY_SIZE,
        op.op_code == 0x8,
        op.n_field() == 0x4,
        op.x_field() != 15,
    ensures
        step(m, op, rnd).1 == Ok::<Option<Command>, Fault>(None),
        step(m, op, rnd).0.v[op.x_field()] == (m.v[op.x_field()] + m.v[op.y_field()]) % 256,
        step(m, op, rnd).0.v[15] == 1 <==> m.v[op.x_field()] + m.v[op.y_field()] > 255,
        step(m, op, rnd).0.v[15] == 0 <==> m.v[op.x_field()] + m.v[op.y_field()] <= 255,
{
    reveal(step);
}

/// `8xy5` leaves `(Vx - Vy) mod 256` in `Vx` and sets `VF` to 1 exactly when
/// `Vx > Vy` before the instruction (for `x` other than F).
pub proof fn law_sub_reg_borrow(m: Machine, op: Operand, rnd: u8)
    requires
        m.wf(),
        m.pc < MEMORY_SIZE,
        op.op_code == 0x8,
        op.n_field() == 0x5,
        op.x_field() != 15,
    ensures
        step(m, op, rnd).1 == Ok::<Option<Command>, Fault>(None),
        step(m, op, rnd).0.v[op.x_field()] == (m.v[op.x_field()] - m.v[op.y_field()]) % 256,
        step(m, op, rnd).0.v[15] == 1 <==> m.v[op.x_field()] > m.v[op.y_field()],
        step(m, op, rnd).0.v[15] == 0 <==> m.v[op.x_field()] <= m.v[op.y_field()],
{
    reveal(step);
}

/// A return right after a call comes back to the instruction after the call,
/// with the stack as it was before the call.
pub proof fn law_call_then_return(m: Machine, call: Operand, ret: Operand, rnd: u8)
    requires
        m.wf(),
        m.pc < MEMORY_SIZE,
        m.stack.len() < STACK_DEPTH,
        call.op_code == 0x2,
        call.nnn_field() >= 0x200,
        ret.op_code == 0x0,
        ret.value == 0x0EE,
    ensures
        step(m, call, rnd).1 == Ok::<Option<Command>, Fault>(None),
        step(m, call, rnd).0.pc == call.nnn_field(),
        step(step(m, call, rnd).0, ret, rnd).1 == Ok::<Option<Command>, Fault>(None),
        step(step(m, call, rnd).0, ret, rnd).0 == m.advance(),
{
    reveal(step);
    let m1 = step(m, call, rnd).0;
    assert(m1.stack.drop_last() =~= m.stack);
    assert(step(m1, ret, rnd).0 =~= m.advance());
}

/// After `1nnn` the next fetch decodes the word stored at `nnn` (any `nnn`
/// below FFF, odd ones included); at FFF the word would run past memory and
/// the fetch faults.
pub proof fn law_jump_then_fetch(m: Machine, op: Operand, rnd: u8)
    requires
        m.wf(),
        m.pc < MEMORY_SIZE,
        op.op_code == 0x1,
    ensures
        step(m, op, rnd).1 == Ok::<Option<Command>, Fault>(None),
        step(m, op, rnd).0.pc == op.nnn_field(),
        op.nnn_field() + 1 < MEMORY_SIZE ==> fetched(step(m, op, rnd).0).word() == m.memory[op.nnn_field()]
            * 256 + m.memory[op.nnn_field() + 1],
{
    reveal(step);
    let m1 = step(m, op, rnd).0;
    let w = m.memory[op.nnn_field()] * 256 + m.memory[op.nnn_field() + 1];
    assert(fetched(m1).word() == w) by (nonlinear_arith)
        requires
            fetched(m1).op_code == w / 4096,
            fetched(m1).value == w % 4096,
            0 <= w < 0x10000,
    ;
}

/// Drawing a sprite twice at the same place restores the screen.
pub proof fn law_draw_twice_restores(screen: Seq<Seq<bool>>, sprite: Seq<u8>, x: int, y: int)
    requires
        screen.len() == SCREEN_WIDTH,
        forall|px: int| 0 <= px < SCREEN_WIDTH ==> (#[trigger] screen[px]).len() == SCREEN_HEIGHT,
    ensures
        draw_sprite(draw_sprite(screen, sprite, x, y), sprite, x, y) == screen,
{
    let twice = draw_sprite(draw_sprite(screen, sprite, x, y), sprite, x, y);
    assert forall|px: int| 0 <= px < SCREEN_WIDTH implies #[trigger] twice[px] =~= screen[px] by {}
    assert(twice =~= screen);
}

/// The first draw of a sprite collides exactly when it covers a pixel that is
/// on; the second draw at the same place collides exactly when the sprite
/// covers a pixel that was off before the first.
pub proof fn law_draw_twice_collisions(screen: Seq<Seq<bool>>, sprite: Seq<u8>, x: int, y: int)
    requires
        screen.len() == SCREEN_WIDTH,
        forall|px: int| 0 <= px < SCREEN_WIDTH ==> (#[trigger] screen[px]).len() == SCREEN_HEIGHT,
    ensures
        collides(screen, sprite, x, y) == exists|px: int, py: int|
            0 <= px < SCREEN_WIDTH && 0 <= py < SCREEN_HEIGHT && #[trigger] flips(sprite, x, y, px, py)
                && screen[px][py],
        collides(draw_sprite(screen, sprite, x, y), sprite, x, y) == exists|px: int, py: int|
            0 <= px < SCREEN_WIDTH && 0 <= py < SCREEN_HEIGHT && #[trigger] flips(sprite, x, y, px, py)
                && !screen[px][py],
{
    let once = draw_sprite(screen, sprite, x, y);
    if collides(once, sprite, x, y) {
        let (px, py) = choose|px: int, py: int|
            0 <= px < SCREEN_WIDTH && 0 <= py < SCREEN_HEIGHT && #[trigger] once[px][py] && flips(
                sprite,
                x,
                y,
                px,
                py,
            );
        assert(flips(sprite, x, y, px, py) && !screen[px][py]);
    }
    if exists|px: int, py: int|
        0 <= px < SCREEN_WIDTH && 0 <= py < SCREEN_HEIGHT && #[trigger] flips(sprite, x, y, px, py)
            && !screen[px][py] {
        let (px, py) = choose|px: int, py: int|
            0 <= px < SCREEN_WIDTH && 0 <= py < SCREEN_HEIGHT && #[trigger] flips(sprite, x, y, px, py)
                && !screen[px][py];
        assert(once[px][py]);
    }
    if collides(screen, sprite, x, y) {
        let (px, py) = choose|px: int, py: int|
            0 <= px < SCREEN_WIDTH && 0 <= py < SCREEN_HEIGHT && #[trigger] screen[px][py] && flips(
                sprite,
                x,
                y,
                px,
                py,
            );
        assert(flips(sprite, x, y, px, py) && screen[px][py]);
    }
}

/// Sprite row `r`, column `c` lands on column `(x + c) mod 64` and row
/// `(y + r) mod 32`, and every pixel a sprite flips is one of those: a sprite
/// never reaches past the screen's edges, it wraps around them.
pub proof fn law_draw_wraps(sprite: Seq<u8>, x: int, y: int)
    requires
        0 <= x,
        0 <= y,
        sprite.len() <= SCREEN_HEIGHT,
    ensures
        forall|r: int, c: int|
            0 <= r < sprite.len() && 0 <= c < 8 ==> #[trigger] flips(sprite, x, y, (x + c) % 64, (y + r) % 32)
                == sprite_bit(sprite[r], c),
        forall|px: int, py: int|
            0 <= px < SCREEN_WIDTH && 0 <= py < SCREEN_HEIGHT && #[trigger] flips(sprite, x, y, px, py) ==> {
                &&& 0 <= sprite_col_of(px, x) < 8
                &&& 0 <= sprite_row_of(py, y) < sprite.len()
                &&& px == (x + sprite_col_of(px, x)) % 64
                &&& py == (y + sprite_row_of(py, y)) % 32
            },
{
    assert forall|r: int, c: int| 0 <= r < sprite.len() && 0 <= c < 8 implies #[trigger] flips(
        sprite,
        x,
        y,
        (x + c) % 64,
        (y + r) % 32,
    ) == sprite_bit(sprite[r], c) by {
        lemma_wrap(x, y, c, r);
    }
    assert forall|px: int, py: int|
        0 <= px < SCREEN_WIDTH && 0 <= py < SCREEN_HEIGHT && #[trigger] flips(sprite, x, y, px, py) implies {
        &&& 0 <= sprite_col_of(px, x) < 8
        &&& 0 <= sprite_row_of(py, y) < sprite.len()
        &&& px == (x + sprite_col_of(px, x)) % 64
        &&& py == (y + sprite_row_of(py, y)) % 32
    } by {
        assert(px == (x + (px - x) % 64) % 64) by (nonlinear_arith)
            requires
                0 <= px < 64,
        ;
        assert(py == (y + (py - y) % 32) % 32) by (nonlinear_arith)
            requires
                0 <= py < 32,
        ;
    }
}

/// Nothing collides with a blank screen: a draw right after a clear leaves 0 in `VF`.
pub proof fn law_draw_on_blank(sprite: Seq<u8>, x: int, y: int)
    ensures
        !collides(blank_screen(), sprite, x, y),
{
}

/// Executing the same `Dxyn` twice restores the screen; the first sets `VF`
/// exactly when the sprite covers a pixel that was on, the second exactly when
/// it covers one that was off (for `x` and `y` other than F, which the flag
/// would move).
pub proof fn law_draw_instruction_twice(m: Machine, op: Operand, rnd: u8)
    requires
        m.wf(),
        m.pc + 2 < MEMORY_SIZE,
        op.op_code == 0xD,
        op.x_field() != 15,
        op.y_field() != 15,
        m.i + op.n_field() <= MEMORY_SIZE,
    ensures
        ({
            let m1 = step(m, op, rnd);
            let m2 = step(m1.0, op, rnd);
            let sprite = m.memory.subrange(m.i as int, m.i + op.n_field());
            let vx = m.v[op.x_field()] as int;
            let vy = m.v[op.y_field()] as int;
            &&& m1.1 == Ok::<Option<Command>, Fault>(Some(Command::Draw))
            &&& m2.1 == Ok::<Option<Command>, Fault>(Some(Command::Draw))
            &&& m2.0.screen == m.screen
            &&& (m1.0.v[15] == 1 <==> exists|px: int, py: int|
                0 <= px < SCREEN_WIDTH && 0 <= py < SCREEN_HEIGHT && #[trigger] flips(sprite, vx, vy, px, py)
                    && m.screen[px][py])
            &&& (m2.0.v[15] == 1 <==> exists|px: int, py: int|
                0 <= px < SCREEN_WIDTH && 0 <= py < SCREEN_HEIGHT && #[trigger] flips(sprite, vx, vy, px, py)
                    && !m.screen[px][py])
        }),
{
    reveal(step);
    let sprite = m.memory.subrange(m.i as int, m.i + op.n_field());
    let vx = m.v[op.x_field()] as int;
    let vy = m.v[op.y_field()] as int;
    law_draw_twice_restores(m.screen, sprite, vx, vy);
    law_draw_twice_collisions(m.screen, sprite, vx, vy);
    let m1 = step(m, op, rnd).0;
    assert(m1.memory == m.memory && m1.i == m.i);
    assert(m1.v[op.x_field()] == m.v[op.x_field()]);
    assert(m1.v[op.y_field()] == m.v[op.y_field()]);
}

/// A `Dxyn` right after `00E0` draws on a blank screen and leaves 0 in `VF`.
pub proof fn law_clear_then_draw(m: Machine, clear: Operand, draw: Operand, rnd: u8)
    requires
        m.wf(),
        m.pc + 2 < MEMORY_SIZE,
        clear.op_code == 0x0,
        clear.value == 0x0E0,
        draw.op_code == 0xD,
        m.i + draw.n_field() <= MEMORY_SIZE,
    ensures
        step(step(m, clear, rnd).0, draw, rnd).1 == Ok::<Option<Command>, Fault>(Some(Command::Draw)),
        step(step(m, clear, rnd).0, draw, rnd).0.v[15] == 0,
{
    reveal(step);
    let m1 = step(m, clear, rnd).0;
    law_draw_on_blank(
        m1.memory.subrange(m1.i as int, m1.i + draw.n_field()),
        m1.v[draw.x_field()] as int,
        m1.v[draw.y_field()] as int,
    );
}

} // verus!
