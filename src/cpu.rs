use vstd::prelude::*;

use rand::Rng;

use crate::display::{frame_view, xor_sprite};
use crate::machine::{
    exec_alu, exec_bcd, exec_call, exec_clear, exec_draw, exec_key, exec_load_regs, exec_misc,
    exec_return, exec_store_regs, exec_wait_key, fetched, fits, font, initial_machine,
    lemma_run_cycles_prefix, lemma_run_cycles_stopped, loaded, lowest_pressed_from, run_cycles,
    step, Command, Fault, Machine, Outcome, FONT_GLYPH_BYTES, MEMORY_SIZE, PC_START,
};
use crate::operand::Operand;

verus! {

/// A message from the machine to the display: `cmd` is `"CLS"` or `"DRAW"`,
/// and `data` is the frame after the instruction that sent it.
#[derive(Debug)]
pub struct Protocol {
    pub cmd: String,
    pub data: [[bool; 32]; 64],
}

/// The text of the message for a display command.
pub open spec fn command_text(c: Command) -> Seq<char> {
    match c {
        Command::Clear => "CLS"@,
        Command::Draw => "DRAW"@,
    }
}

/// Whether `p` is the message for command `c` with frame `screen`.
pub open spec fn carries(p: Protocol, c: Command, screen: Seq<Seq<bool>>) -> bool {
    p.cmd@ == command_text(c) && frame_view(p.data) == screen
}

/// Whether ending in state `after` with result `r` is outcome `o`.
pub open spec fn realizes(after: Machine, r: Result<Option<Protocol>, Fault>, o: Outcome) -> bool {
    &&& after == o.0
    &&& match (r, o.1) {
        (Ok(None), Ok(None)) => true,
        (Ok(Some(p)), Ok(Some(c))) => carries(p, c, o.0.screen),
        (Err(f), Err(g)) => f == g,
        _ => false,
    }
}

/// Relies on rand's `thread_rng` and `Rng::gen_range` over `0..=255`: any byte may come back.
#[verifier::external_body]
fn random_byte() -> (r: u8) {
    rand::thread_rng().gen_range(0..=255u8)
}

/// The machine: registers, memory, stack, timers, display and key state.
pub struct CPU {
    /// General registers V0..VF.
    v: [u8; 16],
    /// Index register.
    i: u16,
    /// Address of the instruction to execute next.
    pc: u16,
    /// Number of entries of `stack` in use.
    sp: u8,
    /// Delay timer.
    dt: u8,
    /// Sound timer.
    st: u8,
    /// Return addresses, `stack[..sp]` in use.
    stack: [u16; 16],
    memory: [u8; 4096],
    /// Pixels, indexed by column then row.
    screen: [[bool; 32]; 64],
    /// Which of the sixteen keys are held down.
    keys: [bool; 16],
}

impl View for CPU {
    type V = Machine;

    closed spec fn view(&self) -> Machine {
        Machine {
            v: self.v@,
            i: self.i,
            pc: self.pc,
            stack: self.stack@.take(if self.sp <= 16 { self.sp as int } else { 16 }),
            dt: self.dt,
            st: self.st,
            memory: self.memory@,
            screen: frame_view(self.screen),
            keys: self.keys@,
        }
    }
}

impl CPU {
    #[verifier::type_invariant]
    closed spec fn inv(self) -> bool {
        self.sp <= 16
    }

    /// The view of every machine is well formed, so the laws over `Machine`
    /// apply to it.
    pub proof fn lemma_view_wf(&self)
        ensures
            self@.wf(),
    {
    }

    /// A machine with the font below the entry address and everything else zeroed.
    pub fn new() -> (r: CPU)
        ensures
            r@ == initial_machine(),
            r@.wf(),
    {
        let glyphs: [u8; 80] = [
            0xF0, 0x90, 0x90, 0x90, 0xF0, 0x20, 0x60, 0x20, 0x20, 0x70,
            0xF0, 0x10, 0xF0, 0x80, 0xF0, 0xF0, 0x10, 0xF0, 0x10, 0xF0,
            0x90, 0x90, 0xF0, 0x10, 0x10, 0xF0, 0x80, 0xF0, 0x10, 0xF0,
            0xF0, 0x80, 0xF0, 0x90, 0xF0, 0xF0, 0x10, 0x20, 0x40, 0x40,
            0xF0, 0x90, 0xF0, 0x90, 0xF0, 0xF0, 0x90, 0xF0, 0x10, 0xF0,
            0xF0, 0x90, 0xF0, 0x90, 0x90, 0xE0, 0x90, 0xE0, 0x90, 0xE0,
            0xF0, 0x80, 0x80, 0x80, 0xF0, 0xE0, 0x90, 0x90, 0x90, 0xE0,
            0xF0, 0x80, 0xF0, 0x80, 0xF0, 0xF0, 0x80, 0xF0, 0x80, 0x80,
        ];
        assert(glyphs@ =~= font());
        let mut memory = [0u8; 4096];
        let mut k: usize = 0;
        while k < 80
            invariant
                k <= 80,
                glyphs@ == font(),
                forall|a: int| 0 <= a < 4096 ==> #[trigger] memory@[a] == if a < k {
                    font()[a]
                } else {
                    0u8
                },
            decreases 80 - k,
        {
            memory[k] = glyphs[k];
            k += 1;
        }
        let r = CPU {
            v: [0; 16],
            i: 0,
            pc: PC_START,
            sp: 0,
            dt: 0,
            st: 0,
            stack: [0; 16],
            memory,
            screen: [[false; 32]; 64],
            keys: [false; 16],
        };
        let ghost init = initial_machine();
        assert(r@.v =~= init.v);
        assert(r@.stack =~= init.stack);
        assert(r@.memory =~= init.memory);
        assert(r@.keys =~= init.keys);
        assert forall|px: int| 0 <= px < 64 implies #[trigger] r@.screen[px] =~= init.screen[px] by {
            assert(r.screen[px]@ =~= init.screen[px]);
        }
        assert(r@.screen =~= init.screen);
        assert(r@ =~= init);
        r
    }

    /// Copies `program` into memory from the entry address on; a program that
    /// does not fit is refused and nothing changes.
    pub fn load_program(&mut self, program: Vec<u8>) -> (r: Result<(), Fault>)
        ensures
            fits(program@) ==> r is Ok && final(self)@ == loaded(old(self)@, program@),
            !fits(program@) ==> r == Err::<(), Fault>(Fault::ProgramTooLarge) && final(self)@ == old(self)@,
    {
        let base: usize = PC_START as usize;
        if program.len() > MEMORY_SIZE - base {
            return Err(Fault::ProgramTooLarge);
        }
        proof {
            use_type_invariant(&*self);
        }
        let mut memory = self.memory;
        let ghost before = memory@;
        let mut k: usize = 0;
        while k < program.len()
            invariant
                base == PC_START,
                k <= program.len(),
                base + program.len() <= MEMORY_SIZE,
                before.len() == MEMORY_SIZE,
                forall|a: int|
                    0 <= a < MEMORY_SIZE ==> #[trigger] memory@[a] == if base <= a < base + k {
                        program@[a - base]
                    } else {
                        before[a]
                    },
            decreases program.len() - k,
        {
            memory[base + k] = program[k];
            k += 1;
        }
        self.memory = memory;
        assert(self@ =~= loaded(old(self)@, program@));
        Ok(())
    }

    /// Returns to the entry address with an empty stack; memory and display stay.
    pub fn reset(&mut self)
        ensures
            final(self)@ == (Machine { pc: PC_START, stack: Seq::empty(), ..old(self)@ }),
    {
        proof {
            use_type_invariant(&*self);
        }
        self.pc = PC_START;
        self.sp = 0;
        assert(self@ =~= (Machine { pc: PC_START, stack: Seq::empty(), ..old(self)@ }));
    }

    /// Decodes the instruction word at the program counter.
    pub fn fetch(&self) -> (r: Result<Operand, Fault>)
        ensures
            self@.pc + 1 < MEMORY_SIZE ==> r == Ok::<Operand, Fault>(fetched(self@)),
            self@.pc + 1 >= MEMORY_SIZE ==> r == Err::<Operand, Fault>(Fault::PcOutOfRange),
    {
        if self.pc as usize + 1 >= MEMORY_SIZE {
            return Err(Fault::PcOutOfRange);
        }
        let hi = self.memory[self.pc as usize] as u16;
        let lo = self.memory[self.pc as usize + 1] as u16;
        Ok(Operand::new(hi * 256 + lo))
    }

    /// Moves on to the next instruction.
    fn increment_pc(&mut self)
        requires
            old(self).pc < MEMORY_SIZE + 2,
        ensures
            final(self)@ == old(self)@.advance(),
    {
        proof {
            use_type_invariant(&*self);
        }
        self.pc = self.pc + 2;
        assert(self@ =~= old(self)@.advance());
    }

    /// Moves on past the next instruction when `cond` holds, else to it.
    fn skip_if(&mut self, cond: bool) -> (r: Result<Option<Protocol>, Fault>)
        requires
            old(self).pc < MEMORY_SIZE,
        ensures
            realizes(final(self)@, r, old(self)@.skip_if(cond).ok(None)),
    {
        proof {
            use_type_invariant(&*self);
        }
        if cond {
            self.pc = self.pc + 4;
        } else {
            self.pc = self.pc + 2;
        }
        assert(self@ =~= old(self)@.skip_if(cond));
        Ok(None)
    }

    /// Writes `val` to `Vx` and moves on.
    fn set_reg(&mut self, x: usize, val: u8) -> (r: Result<Option<Protocol>, Fault>)
        requires
            old(self).pc < MEMORY_SIZE,
            x < 16,
        ensures
            realizes(final(self)@, r, old(self)@.set_v(x as int, val as int).advance().ok(None)),
    {
        proof {
            use_type_invariant(&*self);
        }
        self.v[x] = val;
        self.pc = self.pc + 2;
        assert(self@ =~= old(self)@.set_v(x as int, val as int).advance());
        Ok(None)
    }

    /// Writes `val` to `Vx`, then `flag` to `VF`, and moves on.
    fn set_reg_flag(&mut self, x: usize, val: u8, flag: bool) -> (r: Result<Option<Protocol>, Fault>)
        requires
            old(self).pc < MEMORY_SIZE,
            x < 16,
        ensures
            realizes(final(self)@, r, old(self)@.set_v_flag(x as int, val as int, flag).advance().ok(None)),
    {
        proof {
            use_type_invariant(&*self);
        }
        self.v[x] = val;
        self.v[15] = if flag { 1 } else { 0 };
        self.pc = self.pc + 2;
        assert(self@ =~= old(self)@.set_v_flag(x as int, val as int, flag).advance());
        Ok(None)
    }

    #[allow(non_snake_case)]
    /// `00E0`: clear the display.
    fn clear_display_00E0(&mut self) -> (r: Result<Option<Protocol>, Fault>)
        requires
            old(self)@.pc < MEMORY_SIZE,
        ensures
            realizes(final(self)@, r, exec_clear(old(self)@)),
    {
        proof {
            use_type_invariant(&*self);
        }
        self.screen = [[false; 32]; 64];
        self.pc = self.pc + 2;
        let ghost after = exec_clear(old(self)@).0;
        assert forall|px: int| 0 <= px < 64 implies #[trigger] self@.screen[px] =~= after.screen[px] by {
            assert(self.screen[px]@ =~= after.screen[px]);
        }
        assert(self@.screen =~= after.screen);
        assert(self@ =~= after);
        Ok(Some(Protocol { cmd: "CLS".to_owned(), data: self.screen }))
    }

    #[allow(non_snake_case)]
    /// `00EE`: return to the address on top of the stack.
    fn return_from_subroutine_00EE(&mut self) -> (r: Result<Option<Protocol>, Fault>)
        requires
            old(self)@.pc < MEMORY_SIZE,
        ensures
            realizes(final(self)@, r, exec_return(old(self)@)),
    {
        proof {
            use_type_invariant(&*self);
        }
        if self.sp == 0 {
            return Err(Fault::StackUnderflow);
        }
        self.sp = self.sp - 1;
        self.pc = self.stack[self.sp as usize];
        assert(self@ =~= exec_return(old(self)@).0);
        Ok(None)
    }

    #[allow(non_snake_case)]
    /// `2nnn`: push the address of the next instruction and jump to `nnn`.
    fn call_subroutine_2nnn(&mut self, op: Operand) -> (r: Result<Option<Protocol>, Fault>)
        requires
            old(self)@.pc < MEMORY_SIZE,
        ensures
            realizes(final(self)@, r, exec_call(old(self)@, op.nnn_field())),
    {
        proof {
            use_type_invariant(&*self);
        }
        if self.sp as usize >= 16 {
            return Err(Fault::StackOverflow);
        }
        self.stack[self.sp as usize] = self.pc + 2;
        self.sp = self.sp + 1;
        self.pc = op.nnn();
        assert(self@.stack =~= old(self)@.stack.push((old(self)@.pc + 2) as u16));
        assert(self@ =~= exec_call(old(self)@, op.nnn_field()).0);
        Ok(None)
    }

    /// `7xkk`: add `kk` to `Vx`, wrapping.
    fn add_byte_7xkk(&mut self, op: Operand) -> (r: Result<Option<Protocol>, Fault>)
        requires
            old(self)@.pc < MEMORY_SIZE,
        ensures
            realizes(final(self)@, r, old(self)@.set_v(op.x_field(), (old(self)@.v[op.x_field()] + op.kk_field()) % 256).advance().ok(None)),
    {
        proof {
            use_type_invariant(&*self);
        }
        let x = op.x();
        let sum = self.v[x].wrapping_add(op.kk());
        self.set_reg(x, sum)
    }

    #[allow(non_snake_case)]
    /// The `8xyn` group: register-to-register operations selected by `n`.
    fn alu_group_8xyn(&mut self, op: Operand) -> (r: Result<Option<Protocol>, Fault>)
        requires
            old(self)@.pc < MEMORY_SIZE,
        ensures
            realizes(final(self)@, r, exec_alu(old(self)@, op.x_field(), op.y_field(), op.n_field())),
    {
        let x = op.x();
        let y = op.y();
        let vx = self.v[x];
        let vy = self.v[y];
        match op.n() {
            0x0 => self.set_reg(x, vy),
            0x1 => self.set_reg(x, vx | vy),
            0x2 => self.set_reg(x, vx & vy),
            0x3 => self.set_reg(x, vx ^ vy),
            0x4 => self.set_reg_flag(x, vx.wrapping_add(vy), vx as u16 + vy as u16 > 255),
            0x5 => self.set_reg_flag(x, vx.wrapping_sub(vy), vx > vy),
            0x6 => self.set_reg_flag(x, vx / 2, vx % 2 == 1),
            0x7 => self.set_reg_flag(x, vy.wrapping_sub(vx), vy > vx),
            0xE => self.set_reg_flag(x, ((vx as u16 * 2) % 256) as u8, vx >= 128),
            _ => Err(Fault::InvalidInstruction),
        }
    }

    #[allow(non_snake_case)]
    /// `Dxyn`: XOR the `n`-row sprite at `I` onto the screen at `(Vx, Vy)`.
    fn draw_sprite_Dxyn(&mut self, op: Operand) -> (r: Result<Option<Protocol>, Fault>)
        requires
            old(self)@.pc < MEMORY_SIZE,
        ensures
            realizes(final(self)@, r, exec_draw(old(self)@, op.x_field(), op.y_field(), op.n_field())),
    {
        proof {
            use_type_invariant(&*self);
        }
        let x = op.x();
        let y = op.y();
        let n = op.n() as usize;
        if self.i as usize + n > MEMORY_SIZE {
            return Err(Fault::MemoryOutOfRange);
        }
        let mut screen = self.screen;
        let hit = xor_sprite(&mut screen, &self.memory, self.i as usize, n, self.v[x], self.v[y]);
        self.screen = screen;
        self.v[15] = if hit { 1 } else { 0 };
        self.pc = self.pc + 2;
        assert(self@ =~= exec_draw(old(self)@, op.x_field(), op.y_field(), op.n_field()).0);
        Ok(Some(Protocol { cmd: "DRAW".to_owned(), data: self.screen }))
    }

    /// The `Ex__` group.
    fn key_group(&mut self, op: Operand) -> (r: Result<Option<Protocol>, Fault>)
        requires
            old(self)@.pc < MEMORY_SIZE,
        ensures
            realizes(final(self)@, r, exec_key(old(self)@, op.x_field(), op.kk_field())),
    {
        let key = self.v[op.x()];
        let pressed = key < 16 && self.keys[key as usize];
        match op.kk() {
            0x9E => self.skip_if(pressed),
            0xA1 => self.skip_if(!pressed),
            _ => Err(Fault::InvalidInstruction),
        }
    }

    #[allow(non_snake_case)]
    /// `Fx0A`: store the lowest key held down in `Vx`, or stay on this
    /// instruction while none is.
    fn wait_for_key_press_Fx0A(&mut self, op: Operand) -> (r: Result<Option<Protocol>, Fault>)
        requires
            old(self)@.pc < MEMORY_SIZE,
        ensures
            realizes(final(self)@, r, exec_wait_key(old(self)@, op.x_field())),
    {
        let mut k: usize = 0;
        while k < 16 && !self.keys[k]
            invariant
                k <= 16,
                forall|j: int| 0 <= j < k ==> !self.keys@[j],
            decreases 16 - k,
        {
            k += 1;
        }
        proof {
            lemma_lowest_pressed(self.keys@, 0, k as int);
        }
        if k < 16 {
            self.set_reg(op.x(), k as u8)
        } else {
            Ok(None)
        }
    }

    #[allow(non_snake_case)]
    /// `Fx33`: the decimal digits of `Vx` at `I`, `I + 1`, `I + 2`.
    fn store_binary_coded_decimal_Fx33(&mut self, op: Operand) -> (r: Result<Option<Protocol>, Fault>)
        requires
            old(self)@.pc < MEMORY_SIZE,
        ensures
            realizes(final(self)@, r, exec_bcd(old(self)@, op.x_field())),
    {
        proof {
            use_type_invariant(&*self);
        }
        let vx = self.v[op.x()];
        let i = self.i as usize;
        if i + 3 > MEMORY_SIZE {
            return Err(Fault::MemoryOutOfRange);
        }
        self.memory[i] = vx / 100;
        self.memory[i + 1] = (vx / 10) % 10;
        self.memory[i + 2] = vx % 10;
        self.pc = self.pc + 2;
        assert(self@ =~= exec_bcd(old(self)@, op.x_field()).0);
        Ok(None)
    }

    #[allow(non_snake_case)]
    /// `Fx55`: store `V0..=Vx` at `I..=I + x`.
    fn store_registers_Fx55(&mut self, op: Operand) -> (r: Result<Option<Protocol>, Fault>)
        requires
            old(self)@.pc < MEMORY_SIZE,
        ensures
            realizes(final(self)@, r, exec_store_regs(old(self)@, op.x_field())),
    {
        proof {
            use_type_invariant(&*self);
        }
        let x = op.x();
        let i = self.i as usize;
        if i + x + 1 > MEMORY_SIZE {
            return Err(Fault::MemoryOutOfRange);
        }
        let mut memory = self.memory;
        let ghost before = memory@;
        let mut k: usize = 0;
        while k <= x
            invariant
                x < 16,
                i + x + 1 <= MEMORY_SIZE,
                k <= x + 1,
                before.len() == MEMORY_SIZE,
                forall|a: int|
                    0 <= a < MEMORY_SIZE ==> #[trigger] memory@[a] == if i <= a < i + k {
                        self.v@[a - i]
                    } else {
                        before[a]
                    },
            decreases x + 1 - k,
        {
            memory[i + k] = self.v[k];
            k += 1;
        }
        self.memory = memory;
        self.pc = self.pc + 2;
        assert(self@ =~= exec_store_regs(old(self)@, op.x_field()).0);
        Ok(None)
    }

    #[allow(non_snake_case)]
    /// `Fx65`: load `V0..=Vx` from `I..=I + x`, then advance `I` past them.
    fn load_registers_Fx65(&mut self, op: Operand) -> (r: Result<Option<Protocol>, Fault>)
        requires
            old(self)@.pc < MEMORY_SIZE,
        ensures
            realizes(final(self)@, r, exec_load_regs(old(self)@, op.x_field())),
    {
        proof {
            use_type_invariant(&*self);
        }
        let x = op.x();
        let i = self.i as usize;
        if i + x + 1 > MEMORY_SIZE {
            return Err(Fault::MemoryOutOfRange);
        }
        let mut v = self.v;
        let ghost before = v@;
        let mut k: usize = 0;
        while k <= x
            invariant
                x < 16,
                i + x + 1 <= MEMORY_SIZE,
                k <= x + 1,
                before.len() == 16,
                forall|j: int|
                    0 <= j < 16 ==> #[trigger] v@[j] == if j < k {
                        self.memory@[i + j]
                    } else {
                        before[j]
                    },
            decreases x + 1 - k,
        {
            v[k] = self.memory[i + k];
            k += 1;
        }
        self.v = v;
        self.i = (i + x + 1) as u16;
        self.pc = self.pc + 2;
        assert(self@ =~= exec_load_regs(old(self)@, op.x_field()).0);
        Ok(None)
    }
    #[allow(non_snake_case)]
    /// `3xkk`: skip the next instruction when `Vx == kk`.
    fn skip_if_eq_3xkk(&mut self, op: Operand) -> (r: Result<Option<Protocol>, Fault>)
        requires
            old(self)@.pc < MEMORY_SIZE,
        ensures
            realizes(final(self)@, r, old(self)@.skip_if(old(self)@.v[op.x_field()] == op.kk_field()).ok(None)),
    {
        let eq = self.v[op.x()] == op.kk();
        self.skip_if(eq)
    }

    #[allow(non_snake_case)]
    /// `4xkk`: skip the next instruction when `Vx != kk`.
    fn skip_if_neq_4xkk(&mut self, op: Operand) -> (r: Result<Option<Protocol>, Fault>)
        requires
            old(self)@.pc < MEMORY_SIZE,
        ensures
            realizes(final(self)@, r, old(self)@.skip_if(old(self)@.v[op.x_field()] != op.kk_field()).ok(None)),
    {
        let ne = self.v[op.x()] != op.kk();
        self.skip_if(ne)
    }

    #[allow(non_snake_case)]
    /// `5xy0`: skip the next instruction when `Vx == Vy`.
    fn skip_if_reg_eq_5xy0(&mut self, op: Operand) -> (r: Result<Option<Protocol>, Fault>)
        requires
            old(self)@.pc < MEMORY_SIZE,
        ensures
            realizes(
                final(self)@,
                r,
                old(self)@.skip_if(old(self)@.v[op.x_field()] == old(self)@.v[op.y_field()]).ok(None),
            ),
    {
        let eq = self.v[op.x()] == self.v[op.y()];
        self.skip_if(eq)
    }

    #[allow(non_snake_case)]
    /// `9xy0`: skip the next instruction when `Vx != Vy`.
    fn skip_if_reg_neq_9xy0(&mut self, op: Operand) -> (r: Result<Option<Protocol>, Fault>)
        requires
            old(self)@.pc < MEMORY_SIZE,
        ensures
            realizes(
                final(self)@,
                r,
                old(self)@.skip_if(old(self)@.v[op.x_field()] != old(self)@.v[op.y_field()]).ok(None),
            ),
    {
        let ne = self.v[op.x()] != self.v[op.y()];
        self.skip_if(ne)
    }

    #[allow(non_snake_case)]
    /// `6xkk`: load `kk` into `Vx`.
    fn load_value_to_reg_6xkk(&mut self, op: Operand) -> (r: Result<Option<Protocol>, Fault>)
        requires
            old(self)@.pc < MEMORY_SIZE,
        ensures
            realizes(final(self)@, r, old(self)@.set_v(op.x_field(), op.kk_field()).advance().ok(None)),
    {
        self.set_reg(op.x(), op.kk())
    }

    #[allow(non_snake_case)]
    /// `Cxkk`: load `rnd & kk` into `Vx`.
    fn random_number_Cxkk(&mut self, op: Operand, rnd: u8) -> (r: Result<Option<Protocol>, Fault>)
        requires
            old(self)@.pc < MEMORY_SIZE,
        ensures
            realizes(
                final(self)@,
                r,
                old(self)@.set_v(op.x_field(), (rnd & (op.kk_field() as u8)) as int).advance().ok(None),
            ),
    {
        self.set_reg(op.x(), rnd & op.kk())
    }

    /// Sets the index register and moves on.
    fn set_index(&mut self, i: u16) -> (r: Result<Option<Protocol>, Fault>)
        requires
            old(self)@.pc < MEMORY_SIZE,
        ensures
            realizes(final(self)@, r, (Machine { i: i, ..old(self)@ }).advance().ok(None)),
    {
        proof {
            use_type_invariant(&*self);
        }
        self.i = i;
        self.pc = self.pc + 2;
        assert(self@ =~= (Machine { i: i, ..old(self)@ }).advance());
        Ok(None)
    }

    /// Sets the program counter.
    fn jump(&mut self, pc: u16) -> (r: Result<Option<Protocol>, Fault>)
        ensures
            realizes(final(self)@, r, old(self)@.with_pc(pc as int).ok(None)),
    {
        proof {
            use_type_invariant(&*self);
        }
        self.pc = pc;
        assert(self@ =~= old(self)@.with_pc(pc as int));
        Ok(None)
    }

    /// The `Fx__` group.
    fn misc_group(&mut self, op: Operand) -> (r: Result<Option<Protocol>, Fault>)
        requires
            old(self)@.pc < MEMORY_SIZE,
        ensures
            realizes(final(self)@, r, exec_misc(old(self)@, op.x_field(), op.kk_field())),
    {
        proof {
            use_type_invariant(&*self);
        }
        let vx = self.v[op.x()];
        match op.kk() {
            0x07 => {
                let dt = self.dt;
                self.set_reg(op.x(), dt)
            },
            0x0A => self.wait_for_key_press_Fx0A(op),
            0x15 => {
                self.dt = vx;
                self.increment_pc();
                assert(self@ =~= (Machine { dt: vx, ..old(self)@ }).advance());
                Ok(None)
            },
            0x18 => {
                self.st = vx;
                self.increment_pc();
                assert(self@ =~= (Machine { st: vx, ..old(self)@ }).advance());
                Ok(None)
            },
            0x1E => {
                let i = self.i.wrapping_add(vx as u16);
                self.set_index(i)
            },
            0x29 => self.set_index((vx as u16 % 16) * FONT_GLYPH_BYTES),
            0x33 => self.store_binary_coded_decimal_Fx33(op),
            0x55 => self.store_registers_Fx55(op),
            0x65 => self.load_registers_Fx65(op),
            _ => Err(Fault::InvalidInstruction),
        }
    }

    /// Executes one decoded instruction, with `rnd` as the random byte that
    /// `Cxkk` masks. On a fault nothing changes.
    pub fn execute_with_random(&mut self, operand: Operand, rnd: u8) -> (r: Result<Option<Protocol>, Fault>)
        ensures
            realizes(final(self)@, r, step(old(self)@, operand, rnd)),
    {
        proof {
            reveal(step);
        }
        if self.pc as usize >= MEMORY_SIZE {
            return Err(Fault::PcOutOfRange);
        }
        match operand.op_code {
            0x0 => {
                if operand.value == 0x0E0 {
                    self.clear_display_00E0()
                } else if operand.value == 0x0EE {
                    self.return_from_subroutine_00EE()
                } else {
                    Err(Fault::InvalidInstruction)
                }
            },
            0x1 => self.jump(operand.nnn()),
            0x2 => self.call_subroutine_2nnn(operand),
            0x3 => self.skip_if_eq_3xkk(operand),
            0x4 => self.skip_if_neq_4xkk(operand),
            0x5 => self.skip_if_reg_eq_5xy0(operand),
            0x6 => self.load_value_to_reg_6xkk(operand),
            0x7 => self.add_byte_7xkk(operand),
            0x8 => self.alu_group_8xyn(operand),
            0x9 => self.skip_if_reg_neq_9xy0(operand),
            0xA => self.set_index(operand.nnn()),
            0xB => {
                let target = operand.nnn() + self.v[0] as u16;
                self.jump(target)
            },
            0xC => self.random_number_Cxkk(operand, rnd),
            0xD => self.draw_sprite_Dxyn(operand),
            0xE => self.key_group(operand),
            0xF => self.misc_group(operand),
            _ => Err(Fault::InvalidInstruction),
        }
    }

    /// Executes one decoded instruction. Only `Cxkk` draws a random byte; every
    /// other instruction has the outcome it has with any byte.
    pub fn execute(&mut self, operand: Operand) -> (r: Result<Option<Protocol>, Fault>)
        ensures
            exists|rnd: u8| realizes(final(self)@, r, #[trigger] step(old(self)@, operand, rnd)),
            operand.op_code != 0xC ==> realizes(final(self)@, r, step(old(self)@, operand, 0)),
    {
        let rnd = if operand.op_code == 0xC {
            random_byte()
        } else {
            0
        };
        self.execute_with_random(operand, rnd)
    }


    /// Runs up to `budget` fetch-execute cycles and stops early at the first
    /// display message, which it returns, or at the first fault. `Ok(None)`
    /// means the budget ran out.
    pub fn run(&mut self, budget: usize) -> (r: Result<Option<Protocol>, Fault>)
        ensures
            exists|rs: Seq<u8>|
                rs.len() == budget && realizes(final(self)@, r, #[trigger] run_cycles(old(self)@, budget as nat, rs)),
    {
        let ghost rs: Seq<u8> = Seq::empty();
        let mut k: usize = 0;
        while k < budget
            invariant
                k <= budget,
                rs.len() == k,
                run_cycles(old(self)@, k as nat, rs) == self@.ok(None),
            decreases budget - k,
        {
            let ghost before = self@;
            let ghost prev = rs;
            let op = match self.fetch() {
                Ok(op) => op,
                Err(f) => {
                    proof {
                        rs = rs.push(0u8);
                        let full = rs + Seq::new((budget - k - 1) as nat, |j: int| 0u8);
                        lemma_run_cycles_prefix(old(self)@, k as nat, prev, rs);
                        lemma_run_cycles_prefix(old(self)@, (k + 1) as nat, rs, full);
                        lemma_run_cycles_stopped(old(self)@, (k + 1) as nat, budget as nat, full);
                        assert(realizes(self@, Err(f), run_cycles(old(self)@, budget as nat, full)));
                    }
                    return Err(f);
                },
            };
            let r = self.execute(op);
            proof {
                let rnd = choose|rnd: u8| realizes(self@, r, #[trigger] step(before, op, rnd));
                rs = rs.push(rnd);
                lemma_run_cycles_prefix(old(self)@, k as nat, prev, rs);
                assert(realizes(self@, r, run_cycles(old(self)@, (k + 1) as nat, rs)));
            }
            match r {
                Ok(None) => {},
                _ => {
                    proof {
                        let full = rs + Seq::new((budget - k - 1) as nat, |j: int| 0u8);
                        lemma_run_cycles_prefix(old(self)@, (k + 1) as nat, rs, full);
                        lemma_run_cycles_stopped(old(self)@, (k + 1) as nat, budget as nat, full);
                        assert(realizes(self@, r, run_cycles(old(self)@, budget as nat, full)));
                    }
                    return r;
                },
            }
            k += 1;
        }
        Ok(None)
    }


    /// Records whether key `key` is held down.
    pub fn set_key(&mut self, key: usize, pressed: bool)
        requires
            key < 16,
        ensures
            final(self)@ == (Machine { keys: old(self)@.keys.update(key as int, pressed), ..old(self)@ }),
    {
        proof {
            use_type_invariant(&*self);
        }
        self.keys[key] = pressed;
        assert(self@ =~= (Machine { keys: old(self)@.keys.update(key as int, pressed), ..old(self)@ }));
    }

    /// One tick of the external timer clock: each non-zero timer counts down by one.
    pub fn tick_timers(&mut self)
        ensures
            final(self)@ == (Machine {
                dt: if old(self)@.dt > 0 { (old(self)@.dt - 1) as u8 } else { 0 },
                st: if old(self)@.st > 0 { (old(self)@.st - 1) as u8 } else { 0 },
                ..old(self)@
            }),
    {
        proof {
            use_type_invariant(&*self);
        }
        if self.dt > 0 {
            self.dt = self.dt - 1;
        }
        if self.st > 0 {
            self.st = self.st - 1;
        }
        assert(self@ =~= (Machine {
            dt: if old(self)@.dt > 0 { (old(self)@.dt - 1) as u8 } else { 0 },
            st: if old(self)@.st > 0 { (old(self)@.st - 1) as u8 } else { 0 },
            ..old(self)@
        }));
    }

    /// General register `Vx`.
    pub fn register(&self, x: usize) -> (r: u8)
        requires
            x < 16,
        ensures
            r == self@.v[x as int],
    {
        self.v[x]
    }

    /// The index register.
    pub fn index(&self) -> (r: u16)
        ensures
            r == self@.i,
    {
        self.i
    }

    /// The program counter.
    pub fn pc(&self) -> (r: u16)
        ensures
            r == self@.pc,
    {
        self.pc
    }

    /// The number of return addresses on the stack.
    pub fn stack_depth(&self) -> (r: usize)
        ensures
            r == self@.stack.len(),
            r <= 16,
    {
        proof {
            use_type_invariant(self);
        }
        self.sp as usize
    }

    /// The memory byte at `addr`.
    pub fn memory_at(&self, addr: usize) -> (r: u8)
        requires
            addr < MEMORY_SIZE,
        ensures
            r == self@.memory[addr as int],
    {
        self.memory[addr]
    }

    /// Whether pixel `(px, py)` is on.
    pub fn pixel(&self, px: usize, py: usize) -> (r: bool)
        requires
            px < 64,
            py < 32,
        ensures
            r == self@.screen[px as int][py as int],
    {
        self.screen[px][py]
    }

    /// A copy of the display.
    pub fn screen(&self) -> (r: [[bool; 32]; 64])
        ensures
            frame_view(r) == self@.screen,
    {
        self.screen
    }

    /// The delay timer.
    pub fn delay_timer(&self) -> (r: u8)
        ensures
            r == self@.dt,
    {
        self.dt
    }

    /// The sound timer; a tone plays while it is non-zero.
    pub fn sound_timer(&self) -> (r: u8)
        ensures
            r == self@.st,
    {
        self.st
    }

}

/// The lowest key held down does not change when keys known to be up are skipped.
proof fn lemma_lowest_pressed(keys: Seq<bool>, from: int, k: int)
    requires
        0 <= from <= k <= 16,
        forall|j: int| from <= j < k ==> !keys[j],
    ensures
        lowest_pressed_from(keys, from) == lowest_pressed_from(keys, k),
    decreases k - from,
{
    if from < k {
        lemma_lowest_pressed(keys, from + 1, k);
    }
}

} // verus!
