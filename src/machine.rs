use vstd::prelude::*;

use crate::operand::Operand;

verus! {

/// Address at which programs are loaded and execution starts.
pub const PC_START: u16 = 0x200;

/// Size of the addressable memory in bytes.
pub const MEMORY_SIZE: usize = 4096;

/// Number of return addresses the call stack can hold.
pub const STACK_DEPTH: usize = 16;

/// Display width in pixels (columns).
pub const SCREEN_WIDTH: usize = 64;

/// Display height in pixels (rows).
pub const SCREEN_HEIGHT: usize = 32;

/// Bytes per built-in digit sprite; the sprite for digit `d` starts at `5 * d`.
pub const FONT_GLYPH_BYTES: u16 = 5;

/// A fatal condition that stops the machine.
#[derive(Clone, Copy, Debug, PartialEq, Eq, Structural)]
pub enum Fault {
    /// No instruction matches the class and sub-class of the word.
    InvalidInstruction,
    /// A call with all stack entries in use.
    StackOverflow,
    /// A return with no stack entry in use.
    StackUnderflow,
    /// The program counter does not address an instruction in memory.
    PcOutOfRange,
    /// An instruction reads or writes memory past the last address.
    MemoryOutOfRange,
    /// A program does not fit between the entry address and the end of memory.
    ProgramTooLarge,
}

/// What an instruction asks the display to do.
#[derive(Clone, Copy, Debug, PartialEq, Eq, Structural)]
pub enum Command {
    Clear,
    Draw,
}

/// The mathematical model of the machine state.
#[verifier::ext_equal]
pub struct Machine {
    /// General registers V0..VF.
    pub v: Seq<u8>,
    /// Index register.
    pub i: u16,
    /// Program counter.
    pub pc: u16,
    /// Return addresses, the most recent last.
    pub stack: Seq<u16>,
    /// Delay timer.
    pub dt: u8,
    /// Sound timer.
    pub st: u8,
    /// Memory bytes.
    pub memory: Seq<u8>,
    /// Pixels, indexed by column then row.
    pub screen: Seq<Seq<bool>>,
    /// Which of the sixteen keys are held down.
    pub keys: Seq<bool>,
}

/// The result of one instruction: the state after it, and either the display
/// command it emits or the fault that stopped it (the state is then unchanged).
pub type Outcome = (Machine, Result<Option<Command>, Fault>);

/// The built-in hexadecimal digit sprites, five rows each, digits 0 to F.
pub open spec fn font() -> Seq<u8> {
    seq![
        0xF0, 0x90, 0x90, 0x90, 0xF0, 0x20, 0x60, 0x20, 0x20, 0x70,
        0xF0, 0x10, 0xF0, 0x80, 0xF0, 0xF0, 0x10, 0xF0, 0x10, 0xF0,
        0x90, 0x90, 0xF0, 0x10, 0x10, 0xF0, 0x80, 0xF0, 0x10, 0xF0,
        0xF0, 0x80, 0xF0, 0x90, 0xF0, 0xF0, 0x10, 0x20, 0x40, 0x40,
        0xF0, 0x90, 0xF0, 0x90, 0xF0, 0xF0, 0x90, 0xF0, 0x10, 0xF0,
        0xF0, 0x90, 0xF0, 0x90, 0x90, 0xE0, 0x90, 0xE0, 0x90, 0xE0,
        0xF0, 0x80, 0x80, 0x80, 0xF0, 0xE0, 0x90, 0x90, 0x90, 0xE0,
        0xF0, 0x80, 0xF0, 0x80, 0xF0, 0xF0, 0x80, 0xF0, 0x80, 0x80
    ]
}

/// A screen with every pixel off.
pub open spec fn blank_screen() -> Seq<Seq<bool>> {
    Seq::new(SCREEN_WIDTH as nat, |x: int| Seq::new(SCREEN_HEIGHT as nat, |y: int| false))
}

/// The state right after construction: font below the entry address, all else zero.
pub open spec fn initial_machine() -> Machine {
    Machine {
        v: Seq::new(16, |k: int| 0u8),
        i: 0,
        pc: PC_START,
        stack: Seq::empty(),
        dt: 0,
        st: 0,
        memory: Seq::new(MEMORY_SIZE as nat, |a: int| if a < font().len() { font()[a] } else { 0u8 }),
        screen: blank_screen(),
        keys: Seq::new(16, |k: int| false),
    }
}

impl Machine {
    pub open spec fn wf(self) -> bool {
        &&& self.v.len() == 16
        &&& self.stack.len() <= STACK_DEPTH
        &&& self.memory.len() == MEMORY_SIZE
        &&& self.screen.len() == SCREEN_WIDTH
        &&& forall|x: int| 0 <= x < SCREEN_WIDTH ==> (#[trigger] self.screen[x]).len() == SCREEN_HEIGHT
        &&& self.keys.len() == 16
    }

    pub open spec fn with_pc(self, pc: int) -> Machine {
        Machine { pc: pc as u16, ..self }
    }

    /// Moves on to the next instruction.
    pub open spec fn advance(self) -> Machine {
        self.with_pc(self.pc + 2)
    }

    /// Moves on past the next instruction when `cond` holds, else to it.
    pub open spec fn skip_if(self, cond: bool) -> Machine {
        self.with_pc(if cond { self.pc + 4 } else { self.pc + 2 })
    }

    pub open spec fn set_v(self, x: int, val: int) -> Machine {
        Machine { v: self.v.update(x, val as u8), ..self }
    }

    /// Writes a result to `Vx`, then the flag to `VF`.
    pub open spec fn set_v_flag(self, x: int, val: int, flag: bool) -> Machine {
        self.set_v(x, val).set_v(15, if flag { 1 } else { 0 })
    }

    pub open spec fn key_pressed(self, key: int) -> bool {
        0 <= key < 16 && self.keys[key]
    }

    /// The lowest key held down, or 16 when none is.
    pub open spec fn lowest_pressed(self) -> int {
        lowest_pressed_from(self.keys, 0)
    }

    pub open spec fn ok(self, cmd: Option<Command>) -> Outcome {
        (self, Ok(cmd))
    }

    pub open spec fn fault(self, f: Fault) -> Outcome {
        (self, Err(f))
    }
}

/// The lowest index `k >= from` with `keys[k]`, or 16 when there is none.
pub open spec fn lowest_pressed_from(keys: Seq<bool>, from: int) -> int
    decreases 16 - from,
{
    if from >= 16 {
        16
    } else if keys[from] {
        from
    } else {
        lowest_pressed_from(keys, from + 1)
    }
}

/// Whether sprite bit `col` (0 is the leftmost, 7 the rightmost) of `row` is set.
pub open spec fn sprite_bit(row: u8, col: int) -> bool {
    (row >> ((7 - col) as u8)) & 1u8 == 1u8
}

/// Sprite row that screen row `py` falls on when a sprite is drawn at row `y`,
/// with wraparound.
pub open spec fn sprite_row_of(py: int, y: int) -> int {
    (py - y) % (SCREEN_HEIGHT as int)
}

/// Sprite column that screen column `px` falls on when a sprite is drawn at
/// column `x`, with wraparound.
pub open spec fn sprite_col_of(px: int, x: int) -> int {
    (px - x) % (SCREEN_WIDTH as int)
}

/// Whether drawing `sprite` at `(x, y)` flips pixel `(px, py)`.
pub open spec fn flips(sprite: Seq<u8>, x: int, y: int, px: int, py: int) -> bool {
    let r = sprite_row_of(py, y);
    let c = sprite_col_of(px, x);
    r < sprite.len() && c < 8 && sprite_bit(sprite[r], c)
}

/// The screen after XOR-ing `sprite` onto it at `(x, y)`.
pub open spec fn draw_sprite(screen: Seq<Seq<bool>>, sprite: Seq<u8>, x: int, y: int) -> Seq<
    Seq<bool>,
> {
    Seq::new(
        SCREEN_WIDTH as nat,
        |px: int|
            Seq::new(
                SCREEN_HEIGHT as nat,
                |py: int| screen[px][py] != flips(sprite, x, y, px, py),
            ),
    )
}

/// Whether drawing `sprite` at `(x, y)` turns off a pixel that was on.
pub open spec fn collides(screen: Seq<Seq<bool>>, sprite: Seq<u8>, x: int, y: int) -> bool {
    exists|px: int, py: int|
        0 <= px < SCREEN_WIDTH && 0 <= py < SCREEN_HEIGHT && #[trigger] screen[px][py] && flips(
            sprite,
            x,
            y,
            px,
            py,
        )
}

/// The bytes `memory[start..start + len]`.
pub open spec fn mem_range(m: Machine, start: int, len: int) -> Seq<u8> {
    m.memory.subrange(start, start + len)
}

/// `00E0`: clear the display.
pub open spec fn exec_clear(m: Machine) -> Outcome {
    Machine { screen: blank_screen(), ..m }.advance().ok(Some(Command::Clear))
}

/// `00EE`: return to the address on top of the stack.
pub open spec fn exec_return(m: Machine) -> Outcome {
    if m.stack.len() == 0 {
        m.fault(Fault::StackUnderflow)
    } else {
        Machine { stack: m.stack.drop_last(), ..m }.with_pc(m.stack.last() as int).ok(None)
    }
}

/// `2nnn`: push the address of the next instruction and jump to `nnn`.
pub open spec fn exec_call(m: Machine, nnn: int) -> Outcome {
    if m.stack.len() >= STACK_DEPTH {
        m.fault(Fault::StackOverflow)
    } else {
        Machine { stack: m.stack.push((m.pc + 2) as u16), ..m }.with_pc(nnn).ok(None)
    }
}

/// The `8xy_` group; `n` selects the operation.
pub open spec fn exec_alu(m: Machine, x: int, y: int, n: int) -> Outcome {
    let vx = m.v[x] as int;
    let vy = m.v[y] as int;
    if n == 0x0 {
        m.set_v(x, vy).advance().ok(None)
    } else if n == 0x1 {
        m.set_v(x, (m.v[x] | m.v[y]) as int).advance().ok(None)
    } else if n == 0x2 {
        m.set_v(x, (m.v[x] & m.v[y]) as int).advance().ok(None)
    } else if n == 0x3 {
        m.set_v(x, (m.v[x] ^ m.v[y]) as int).advance().ok(None)
    } else if n == 0x4 {
        m.set_v_flag(x, (vx + vy) % 256, vx + vy > 255).advance().ok(None)
    } else if n == 0x5 {
        m.set_v_flag(x, (vx - vy) % 256, vx > vy).advance().ok(None)
    } else if n == 0x6 {
        m.set_v_flag(x, vx / 2, vx % 2 == 1).advance().ok(None)
    } else if n == 0x7 {
        m.set_v_flag(x, (vy - vx) % 256, vy > vx).advance().ok(None)
    } else if n == 0xE {
        m.set_v_flag(x, (vx * 2) % 256, vx >= 128).advance().ok(None)
    } else {
        m.fault(Fault::InvalidInstruction)
    }
}

/// `Dxyn`: XOR the `n`-row sprite at `I` onto the screen at `(Vx, Vy)`.
pub open spec fn exec_draw(m: Machine, x: int, y: int, n: int) -> Outcome {
    if m.i + n > MEMORY_SIZE {
        m.fault(Fault::MemoryOutOfRange)
    } else {
        let sprite = mem_range(m, m.i as int, n);
        let vx = m.v[x] as int;
        let vy = m.v[y] as int;
        let hit = collides(m.screen, sprite, vx, vy);
        Machine { screen: draw_sprite(m.screen, sprite, vx, vy), ..m }.set_v(
            15,
            if hit { 1 } else { 0 },
        ).advance().ok(Some(Command::Draw))
    }
}

/// The `Ex__` group; `kk` selects the operation.
pub open spec fn exec_key(m: Machine, x: int, kk: int) -> Outcome {
    let pressed = m.key_pressed(m.v[x] as int);
    if kk == 0x9E {
        m.skip_if(pressed).ok(None)
    } else if kk == 0xA1 {
        m.skip_if(!pressed).ok(None)
    } else {
        m.fault(Fault::InvalidInstruction)
    }
}

/// `Fx0A`: store the lowest key held down in `Vx`; with no key down, stay on
/// this instruction so that it runs again.
pub open spec fn exec_wait_key(m: Machine, x: int) -> Outcome {
    let k = m.lowest_pressed();
    if k < 16 {
        m.set_v(x, k).advance().ok(None)
    } else {
        m.ok(None)
    }
}

/// `Fx33`: the decimal digits of `Vx` at `I`, `I + 1`, `I + 2`.
pub open spec fn exec_bcd(m: Machine, x: int) -> Outcome {
    let vx = m.v[x] as int;
    let i = m.i as int;
    if i + 3 > MEMORY_SIZE {
        m.fault(Fault::MemoryOutOfRange)
    } else {
        let mem = m.memory.update(i, (vx / 100) as u8).update(i + 1, ((vx / 10) % 10) as u8).update(
            i + 2,
            (vx % 10) as u8,
        );
        Machine { memory: mem, ..m }.advance().ok(None)
    }
}

/// `Fx55`: store `V0..=Vx` at `I..=I + x`.
pub open spec fn exec_store_regs(m: Machine, x: int) -> Outcome {
    let i = m.i as int;
    if i + x + 1 > MEMORY_SIZE {
        m.fault(Fault::MemoryOutOfRange)
    } else {
        let mem = Seq::new(
            m.memory.len(),
            |a: int|
                if i <= a <= i + x {
                    m.v[a - i]
                } else {
                    m.memory[a]
                },
        );
        Machine { memory: mem, ..m }.advance().ok(None)
    }
}

/// `Fx65`: load `V0..=Vx` from `I..=I + x`, then advance `I` by `x + 1`.
pub open spec fn exec_load_regs(m: Machine, x: int) -> Outcome {
    let i = m.i as int;
    if i + x + 1 > MEMORY_SIZE {
        m.fault(Fault::MemoryOutOfRange)
    } else {
        let v = Seq::new(
            16,
            |k: int|
                if k <= x {
                    m.memory[i + k]
                } else {
                    m.v[k]
                },
        );
        Machine { v: v, i: (i + x + 1) as u16, ..m }.advance().ok(None)
    }
}

/// The `Fx__` group; `kk` selects the operation.
pub open spec fn exec_misc(m: Machine, x: int, kk: int) -> Outcome {
    let vx = m.v[x];
    if kk == 0x07 {
        m.set_v(x, m.dt as int).advance().ok(None)
    } else if kk == 0x0A {
        exec_wait_key(m, x)
    } else if kk == 0x15 {
        Machine { dt: vx, ..m }.advance().ok(None)
    } else if kk == 0x18 {
        Machine { st: vx, ..m }.advance().ok(None)
    } else if kk == 0x1E {
        Machine { i: ((m.i + vx) % 0x10000) as u16, ..m }.advance().ok(None)
    } else if kk == 0x29 {
        Machine { i: ((vx % 16) * FONT_GLYPH_BYTES) as u16, ..m }.advance().ok(None)
    } else if kk == 0x33 {
        exec_bcd(m, x)
    } else if kk == 0x55 {
        exec_store_regs(m, x)
    } else if kk == 0x65 {
        exec_load_regs(m, x)
    } else {
        m.fault(Fault::InvalidInstruction)
    }
}

/// One instruction on state `m`; `rnd` is the random byte that `Cxkk` masks.
#[verifier::opaque]
pub open spec fn step(m: Machine, op: Operand, rnd: u8) -> Outcome {
    let x = op.x_field();
    let y = op.y_field();
    let kk = op.kk_field();
    let nnn = op.nnn_field();
    if m.pc >= MEMORY_SIZE {
        m.fault(Fault::PcOutOfRange)
    } else if op.op_code == 0x0 {
        if op.value == 0x0E0 {
            exec_clear(m)
        } else if op.value == 0x0EE {
            exec_return(m)
        } else {
            m.fault(Fault::InvalidInstruction)
        }
    } else if op.op_code == 0x1 {
        m.with_pc(nnn).ok(None)
    } else if op.op_code == 0x2 {
        exec_call(m, nnn)
    } else if op.op_code == 0x3 {
        m.skip_if(m.v[x] == kk).ok(None)
    } else if op.op_code == 0x4 {
        m.skip_if(m.v[x] != kk).ok(None)
    } else if op.op_code == 0x5 {
        m.skip_if(m.v[x] == m.v[y]).ok(None)
    } else if op.op_code == 0x6 {
        m.set_v(x, kk).advance().ok(None)
    } else if op.op_code == 0x7 {
        m.set_v(x, (m.v[x] + kk) % 256).advance().ok(None)
    } else if op.op_code == 0x8 {
        exec_alu(m, x, y, op.n_field())
    } else if op.op_code == 0x9 {
        m.skip_if(m.v[x] != m.v[y]).ok(None)
    } else if op.op_code == 0xA {
        Machine { i: nnn as u16, ..m }.advance().ok(None)
    } else if op.op_code == 0xB {
        m.with_pc(nnn + m.v[0]).ok(None)
    } else if op.op_code == 0xC {
        m.set_v(x, (rnd & (kk as u8)) as int).advance().ok(None)
    } else if op.op_code == 0xD {
        exec_draw(m, x, y, op.n_field())
    } else if op.op_code == 0xE {
        exec_key(m, x, kk)
    } else if op.op_code == 0xF {
        exec_misc(m, x, kk)
    } else {
        m.fault(Fault::InvalidInstruction)
    }
}

/// The instruction word at `pc`, decoded.
pub open spec fn fetched(m: Machine) -> Operand {
    let word = m.memory[m.pc as int] as int * 256 + m.memory[m.pc + 1] as int;
    Operand { op_code: (word / 4096) as u8, value: (word % 4096) as u16 }
}

/// One fetch-and-execute cycle.
pub open spec fn cycle(m: Machine, rnd: u8) -> Outcome {
    if m.pc + 1 >= MEMORY_SIZE {
        m.fault(Fault::PcOutOfRange)
    } else {
        step(m, fetched(m), rnd)
    }
}

/// The state after copying `program` into memory from the entry address on.
pub open spec fn loaded(m: Machine, program: Seq<u8>) -> Machine {
    let base = PC_START as int;
    Machine {
        memory: Seq::new(
            m.memory.len(),
            |a: int|
                if base <= a < base + program.len() {
                    program[a - base]
                } else {
                    m.memory[a]
                },
        ),
        ..m
    }
}

/// Whether `program` fits between the entry address and the end of memory.
pub open spec fn fits(program: Seq<u8>) -> bool {
    PC_START + program.len() <= MEMORY_SIZE
}

/// Up to `k` cycles from `m`, stopping at the first that emits a display
/// command or faults; cycle `j` draws `rs[j]` as its random byte.
pub open spec fn run_cycles(m: Machine, k: nat, rs: Seq<u8>) -> Outcome
    decreases k,
{
    if k == 0 {
        m.ok(None)
    } else {
        let prev = run_cycles(m, (k - 1) as nat, rs);
        if prev.1 == Ok::<Option<Command>, Fault>(None) {
            cycle(prev.0, rs[k - 1])
        } else {
            prev
        }
    }
}

/// A run depends only on the random bytes its cycles draw.
pub proof fn lemma_run_cycles_prefix(m: Machine, k: nat, rs1: Seq<u8>, rs2: Seq<u8>)
    requires
        k <= rs1.len(),
        k <= rs2.len(),
        forall|j: int| 0 <= j < k ==> rs1[j] == rs2[j],
    ensures
        run_cycles(m, k, rs1) == run_cycles(m, k, rs2),
    decreases k,
{
    if k > 0 {
        lemma_run_cycles_prefix(m, (k - 1) as nat, rs1, rs2);
    }
}

/// Once a run has stopped, more cycles change nothing.
pub proof fn lemma_run_cycles_stopped(m: Machine, k: nat, j: nat, rs: Seq<u8>)
    requires
        k <= j,
        run_cycles(m, k, rs).1 != Ok::<Option<Command>, Fault>(None),
    ensures
        run_cycles(m, j, rs) == run_cycles(m, k, rs),
    decreases j,
{
    if k < j {
        lemma_run_cycles_stopped(m, k, (j - 1) as nat, rs);
    }
}

} // verus!
