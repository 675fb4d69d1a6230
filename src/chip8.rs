use vstd::prelude::*;

use crate::display::{collides, drawn, Display, PIXELS, SPRITES};
use crate::instruction::{decode, fields_fit, lemma_decode_stable, Instruction, RawInstruction};

verus! {

/// General-purpose registers.
pub const NUM_GENERAL_PURPOSE_REGS: usize = 16;

/// Bytes of memory.
pub const MEMORY_SIZE: usize = 4096;

/// Return addresses that the stack holds.
pub const NUM_STACK_FRAMES: usize = 16;

/// Where a program is loaded, and where execution starts.
pub const PROGRAM_CODE_OFFSET: usize = 0x200;

/// The largest program that fits in memory.
pub const MAX_PROGRAM_SIZE: usize = 3584;

/// Instructions run per second of elapsed time.
pub const CLOCK_RATE: u64 = 600;

/// Keys of the keypad.
pub const NUM_KEYS: usize = 16;

/// The register that carry, borrow, shifted-out bit and collision go to.
pub const FLAG_REG: u8 = 0xF;

/// Why the machine stopped.
#[derive(Debug, Clone, Copy, PartialEq, Eq)]
pub enum Chip8Error {
    /// The program does not fit in memory after the program offset.
    ProgramTooLarge { len: usize },
    /// The opcode at `pc` stands for no instruction.
    UnrecognizedInstruction { opcode: u16, pc: u16 },
    /// The instruction at `pc` reaches past the end of memory, or the
    /// instruction itself lies there.
    AddressOutOfRange { pc: u16 },
    /// A call at `pc` with every stack frame in use.
    StackOverflow { pc: u16 },
    /// A return at `pc` with no stack frame in use.
    StackUnderflow { pc: u16 },
}

/// The whole state of the machine, as values.
pub struct Chip8View {
    pub regs: Seq<u8>,
    pub i_reg: u16,
    pub delay_timer: u8,
    pub sound_timer: u8,
    pub stack_pointer: u8,
    pub pc: u16,
    pub memory: Seq<u8>,
    pub stack: Seq<u16>,
    pub key_to_wait_for: Option<u8>,
    pub keyboard: Seq<bool>,
    pub screen: Seq<bool>,
}

impl Chip8View {
    /// Each part has its size, a pending key wait names a register, the
    /// stack pointer counts frames in use and return addresses lie in memory.
    pub open spec fn wf(&self) -> bool {
        &&& self.regs.len() == NUM_GENERAL_PURPOSE_REGS
        &&& self.memory.len() == MEMORY_SIZE
        &&& self.stack.len() == NUM_STACK_FRAMES
        &&& self.keyboard.len() == NUM_KEYS
        &&& self.screen.len() == PIXELS
        &&& self.stack_pointer <= NUM_STACK_FRAMES
        &&& (self.key_to_wait_for matches Some(r) ==> r < NUM_GENERAL_PURPOSE_REGS)
        &&& forall|k: int| 0 <= k < NUM_STACK_FRAMES ==> #[trigger] self.stack[k] < MEMORY_SIZE
    }

    /// The value in register `r`.
    pub open spec fn reg(&self, r: u8) -> u8 {
        self.regs[r as int]
    }

    /// The state with register `r` set to `v`.
    pub open spec fn with_reg(self, r: u8, v: u8) -> Chip8View {
        Chip8View { regs: self.regs.update(r as int, v), ..self }
    }

    /// The state with the flag register set to `f`, then register `r` to `v`.
    pub open spec fn with_flag_then(self, f: u8, r: u8, v: u8) -> Chip8View {
        self.with_reg(FLAG_REG, f).with_reg(r, v)
    }

    /// The state with the program counter at `pc`.
    pub open spec fn goto(self, pc: int) -> Chip8View {
        Chip8View { pc: pc as u16, ..self }
    }

    /// The state with the program counter past this instruction.
    pub open spec fn next(self) -> Chip8View {
        self.goto(self.pc + 2)
    }

    /// The state with the program counter past the next instruction if
    /// `cond`, else past this one.
    pub open spec fn skip_if(self, cond: bool) -> Chip8View {
        if cond {
            self.goto(self.pc + 4)
        } else {
            self.goto(self.pc + 2)
        }
    }

    /// Key `key` is held down; a value past the last key names no key.
    pub open spec fn key_down(&self, key: u8) -> bool {
        key < NUM_KEYS && self.keyboard[key as int]
    }

    /// The opcode held at the program counter.
    pub open spec fn opcode_at_pc(&self) -> u16 {
        (self.memory[self.pc as int] as int * 256 + self.memory[self.pc + 1] as int) as u16
    }

    /// The state with the delay timer one step nearer zero.
    pub open spec fn timer_tick(self) -> Chip8View {
        Chip8View {
            delay_timer: if self.delay_timer > 0 {
                (self.delay_timer - 1) as u8
            } else {
                0
            },
            ..self
        }
    }
}

/// Digit `place` of `v` in decimal: hundreds, tens, ones for 0, 1, 2.
pub open spec fn bcd_digit(v: u8, place: int) -> u8 {
    if place == 0 {
        v / 100
    } else if place == 1 {
        (v / 10) % 10
    } else {
        v % 10
    }
}

/// What the instruction does to the machine, the program counter included;
/// `random` is the byte that a random-number instruction draws.
pub open spec fn execute(m: Chip8View, instr: Instruction, random: u8) -> Result<
    Chip8View,
    Chip8Error,
> {
    let i = m.i_reg as int;
    match instr {
        Instruction::ClearDisplay => Ok(
            Chip8View { screen: Seq::new(PIXELS as nat, |p: int| false), ..m }.next(),
        ),
        Instruction::Return => if m.stack_pointer == 0 {
            Err(Chip8Error::StackUnderflow { pc: m.pc })
        } else {
            let sp = (m.stack_pointer - 1) as u8;
            Ok(Chip8View { stack_pointer: sp, ..m }.goto(m.stack[sp as int] + 2))
        },
        Instruction::Jump(a) => Ok(m.goto(a as int)),
        Instruction::Call(a) => if m.stack_pointer == NUM_STACK_FRAMES {
            Err(Chip8Error::StackOverflow { pc: m.pc })
        } else {
            Ok(
                Chip8View {
                    stack: m.stack.update(m.stack_pointer as int, m.pc),
                    stack_pointer: (m.stack_pointer + 1) as u8,
                    ..m
                }.goto(a as int),
            )
        },
        Instruction::SkipIfEqualsByte(x, kk) => Ok(m.skip_if(m.reg(x) == kk)),
        Instruction::SkipIfNotEqualsByte(x, kk) => Ok(m.skip_if(m.reg(x) != kk)),
        Instruction::SkipIfEqual(x, y) => Ok(m.skip_if(m.reg(x) == m.reg(y))),
        Instruction::SkipIfNotEqual(x, y) => Ok(m.skip_if(m.reg(x) != m.reg(y))),
        Instruction::LoadByte(x, kk) => Ok(m.with_reg(x, kk).next()),
        Instruction::AddByte(x, kk) => Ok(m.with_reg(x, ((m.reg(x) + kk) % 256) as u8).next()),
        Instruction::Move(x, y) => Ok(m.with_reg(x, m.reg(y)).next()),
        Instruction::Or(x, y) => Ok(m.with_reg(x, m.reg(x) | m.reg(y)).next()),
        Instruction::And(x, y) => Ok(m.with_reg(x, m.reg(x) & m.reg(y)).next()),
        Instruction::Xor(x, y) => Ok(m.with_reg(x, m.reg(x) ^ m.reg(y)).next()),
        Instruction::Add(x, y) => {
            let sum = m.reg(x) + m.reg(y);
            Ok(m.with_flag_then(if sum > 255 { 1 } else { 0 }, x, (sum % 256) as u8).next())
        },
        Instruction::Sub(x, y) => Ok(
            m.with_flag_then(
                if m.reg(x) > m.reg(y) { 1 } else { 0 },
                x,
                ((m.reg(x) - m.reg(y) + 256) % 256) as u8,
            ).next(),
        ),
        Instruction::ReverseSub(x, y) => Ok(
            m.with_flag_then(
                if m.reg(y) > m.reg(x) { 1 } else { 0 },
                x,
                ((m.reg(y) - m.reg(x) + 256) % 256) as u8,
            ).next(),
        ),
        Instruction::ShiftRight(x) => Ok(
            m.with_flag_then(m.reg(x) & 1, x, m.reg(x) >> 1u8).next(),
        ),
        Instruction::ShiftLeft(x) => Ok(
            m.with_flag_then(m.reg(x) >> 7u8, x, ((m.reg(x) * 2) % 256) as u8).next(),
        ),
        Instruction::LoadI(a) => Ok(Chip8View { i_reg: a, ..m }.next()),
        Instruction::JumpPlusZero(a) => Ok(m.goto(a + m.reg(0))),
        Instruction::Random(x, kk) => Ok(m.with_reg(x, random & kk).next()),
        Instruction::Draw(x, y, n) => if i + n > MEMORY_SIZE {
            Err(Chip8Error::AddressOutOfRange { pc: m.pc })
        } else {
            let sprite = m.memory.subrange(i, i + n);
            let vx = m.reg(x) as int;
            let vy = m.reg(y) as int;
            Ok(
                Chip8View { screen: drawn(m.screen, vx, vy, sprite), ..m }.with_reg(
                    FLAG_REG,
                    if collides(m.screen, vx, vy, sprite) { 1 } else { 0 },
                ).next(),
            )
        },
        Instruction::SkipIfPressed(x) => Ok(m.skip_if(m.key_down(m.reg(x)))),
        Instruction::SkipIfNotPressed(x) => Ok(m.skip_if(!m.key_down(m.reg(x)))),
        Instruction::LoadDelayTimer(x) => Ok(m.with_reg(x, m.delay_timer).next()),
        Instruction::WaitForKeyPress(x) => Ok(Chip8View { key_to_wait_for: Some(x), ..m }.next()),
        Instruction::SetDelayTimer(x) => Ok(Chip8View { delay_timer: m.reg(x), ..m }.next()),
        Instruction::SetSoundTimer(x) => Ok(Chip8View { sound_timer: m.reg(x), ..m }.next()),
        Instruction::AddToI(x) => Ok(
            Chip8View { i_reg: ((m.i_reg + m.reg(x)) % 0x10000) as u16, ..m }.next(),
        ),
        Instruction::LoadSprite(x) => Ok(
            Chip8View { i_reg: ((m.reg(x) % 16) * 5) as u16, ..m }.next(),
        ),
        Instruction::BCDRepresentation(x) => if i + 3 > MEMORY_SIZE {
            Err(Chip8Error::AddressOutOfRange { pc: m.pc })
        } else {
            let v = m.reg(x);
            Ok(
                Chip8View {
                    memory: m.memory.update(i, bcd_digit(v, 0)).update(i + 1, bcd_digit(v, 1)).update(
                        i + 2,
                        bcd_digit(v, 2),
                    ),
                    ..m
                }.next(),
            )
        },
        Instruction::StoreRegisters(x) => if i + x + 1 > MEMORY_SIZE {
            Err(Chip8Error::AddressOutOfRange { pc: m.pc })
        } else {
            Ok(
                Chip8View {
                    memory: Seq::new(
                        MEMORY_SIZE as nat,
                        |a: int|
                            if i <= a <= i + x {
                                m.regs[a - i]
                            } else {
                                m.memory[a]
                            },
                    ),
                    ..m
                }.next(),
            )
        },
        Instruction::LoadRegisters(x) => if i + x + 1 > MEMORY_SIZE {
            Err(Chip8Error::AddressOutOfRange { pc: m.pc })
        } else {
            Ok(
                Chip8View {
                    regs: Seq::new(
                        NUM_GENERAL_PURPOSE_REGS as nat,
                        |r: int|
                            if r <= x {
                                m.memory[i + r]
                            } else {
                                m.regs[r]
                            },
                    ),
                    ..m
                }.next(),
            )
        },
    }
}

/// One step of the clock: the delay timer counts down; then, unless a key
/// wait is pending, the instruction at the program counter is fetched,
/// decoded and executed. Returns the new state and the error that stopped
/// the step, if any; a failed fetch or execution changes nothing but the
/// timer.
pub open spec fn tick(m: Chip8View, random: u8) -> (Chip8View, Option<Chip8Error>) {
    let t = m.timer_tick();
    if t.key_to_wait_for is Some {
        (t, None)
    } else if t.pc + 1 >= MEMORY_SIZE {
        (t, Some(Chip8Error::AddressOutOfRange { pc: t.pc }))
    } else {
        match decode(t.opcode_at_pc()) {
            None => (t, Some(Chip8Error::UnrecognizedInstruction { opcode: t.opcode_at_pc(), pc: t.pc })),
            Some(instr) => match execute(t, instr, random) {
                Ok(n) => (n, None),
                Err(e) => (t, Some(e)),
            },
        }
    }
}

/// The steps of the clock, one for each byte of `randoms`, up to the first
/// that fails.
pub open spec fn run(m: Chip8View, randoms: Seq<u8>) -> (Chip8View, Option<Chip8Error>)
    decreases randoms.len(),
{
    if randoms.len() == 0 {
        (m, None)
    } else {
        let (before, err) = run(m, randoms.drop_last());
        if err is Some {
            (before, err)
        } else {
            tick(before, randoms.last())
        }
    }
}

/// The state of a machine just loaded with `program`: the font at address
/// zero, the program at the program offset, everything else zero or off.
pub open spec fn loaded(program: Seq<u8>) -> Chip8View {
    Chip8View {
        regs: Seq::new(NUM_GENERAL_PURPOSE_REGS as nat, |r: int| 0u8),
        i_reg: 0,
        delay_timer: 0,
        sound_timer: 0,
        stack_pointer: 0,
        pc: PROGRAM_CODE_OFFSET as u16,
        memory: Seq::new(
            MEMORY_SIZE as nat,
            |a: int|
                if a < 80 {
                    SPRITES@[a]
                } else if PROGRAM_CODE_OFFSET <= a < PROGRAM_CODE_OFFSET + program.len() {
                    program[a - PROGRAM_CODE_OFFSET]
                } else {
                    0u8
                },
        ),
        stack: Seq::new(NUM_STACK_FRAMES as nat, |k: int| 0u16),
        key_to_wait_for: None,
        keyboard: Seq::new(NUM_KEYS as nat, |k: int| false),
        screen: Seq::new(PIXELS as nat, |p: int| false),
    }
}

/// The state after key `key` is pressed: the key is down, and a pending key
/// wait takes the key's number into its register and ends.
pub open spec fn pressed(m: Chip8View, key: u8) -> Chip8View {
    let down = Chip8View { keyboard: m.keyboard.update(key as int, true), ..m };
    match m.key_to_wait_for {
        Some(r) => Chip8View { key_to_wait_for: None, ..down.with_reg(r, key) },
        None => down,
    }
}

/// The state after key `key` is released.
pub open spec fn released(m: Chip8View, key: u8) -> Chip8View {
    Chip8View { keyboard: m.keyboard.update(key as int, false), ..m }
}

/// The clock steps that a budget of `num_instructions` runs: one fewer than
/// the budget.
pub open spec fn steps_for(num_instructions: u64) -> nat {
    if num_instructions == 0 {
        0
    } else {
        (num_instructions - 1) as nat
    }
}

/// The error of a result, if any.
pub open spec fn error_of(r: Result<(), Chip8Error>) -> Option<Chip8Error> {
    match r {
        Ok(_) => None,
        Err(e) => Some(e),
    }
}

/// Running one more step after a run that did not fail is taking that step
/// from where the run ended.
proof fn lemma_run_push(m: Chip8View, randoms: Seq<u8>, random: u8)
    ensures
        run(m, randoms.push(random)) == if run(m, randoms).1 is Some {
            run(m, randoms)
        } else {
            tick(run(m, randoms).0, random)
        },
{
    assert(randoms.push(random).drop_last() =~= randoms);
}

/// While a key wait is pending, steps of the clock run no instruction: they
/// do not fail and change nothing but the delay timer.
pub proof fn lemma_waiting_runs_nothing(m: Chip8View, randoms: Seq<u8>)
    requires
        m.wf(),
        m.key_to_wait_for is Some,
    ensures
        run(m, randoms).1 is None,
        run(m, randoms).0 == (Chip8View { delay_timer: run(m, randoms).0.delay_timer, ..m }),
    decreases randoms.len(),
{
    if randoms.len() > 0 {
        lemma_waiting_runs_nothing(m, randoms.drop_last());
    }
}

/// A key press ends a pending key wait on register `r`: the key's number is
/// in register `r`, no wait is pending, and the next step of the clock runs
/// the instruction at the program counter.
pub proof fn lemma_key_press_resumes(m: Chip8View, key: u8, random: u8)
    requires
        m.wf(),
        key < NUM_KEYS,
        m.key_to_wait_for is Some,
    ensures
        pressed(m, key).reg(m.key_to_wait_for->Some_0) == key,
        pressed(m, key).key_to_wait_for is None,
        pressed(m, key).pc == m.pc,
        pressed(m, key).pc + 1 < MEMORY_SIZE ==> match decode(pressed(m, key).opcode_at_pc()) {
            Some(instr) => tick(pressed(m, key), random) == match execute(
                pressed(m, key).timer_tick(),
                instr,
                random,
            ) {
                Ok(n) => (n, None),
                Err(e) => (pressed(m, key).timer_tick(), Some(e)),
            },
            None => tick(pressed(m, key), random).1 is Some,
        },
{
}

/// Relies on `rand::random::<u8>`: a byte from the thread's random number
/// generator. Nothing is known of its value.
#[verifier::external_body]
fn random_byte() -> (r: u8) {
    rand::random::<u8>()
}

/// The interpreter: registers, memory, stack, timers, keypad and screen.
pub struct Chip8 {
    regs: Vec<u8>,
    i_reg: u16,
    delay_timer_reg: u8,
    sound_timer_reg: u8,
    stack_pointer_reg: u8,
    program_counter_reg: u16,
    memory: Vec<u8>,
    stack: Vec<u16>,
    key_to_wait_for: Option<u8>,
    keyboard: Vec<bool>,
    display: Display,
}

impl View for Chip8 {
    type V = Chip8View;

    closed spec fn view(&self) -> Chip8View {
        Chip8View {
            regs: self.regs@,
            i_reg: self.i_reg,
            delay_timer: self.delay_timer_reg,
            sound_timer: self.sound_timer_reg,
            stack_pointer: self.stack_pointer_reg,
            pc: self.program_counter_reg,
            memory: self.memory@,
            stack: self.stack@,
            key_to_wait_for: self.key_to_wait_for,
            keyboard: self.keyboard@,
            screen: self.display@,
        }
    }
}

impl Chip8 {
    /// The machine's state is well formed.
    pub open spec fn wf(&self) -> bool {
        self@.wf()
    }

    /// A machine loaded with `program`, or `ProgramTooLarge` where the
    /// program does not fit between the program offset and the end of memory.
    pub fn new(program: Vec<u8>) -> (r: Result<Chip8, Chip8Error>)
        ensures
            match r {
                Ok(c) => program@.len() <= MAX_PROGRAM_SIZE && c.wf() && c@ == loaded(program@),
                Err(e) => program@.len() > MAX_PROGRAM_SIZE && e == (Chip8Error::ProgramTooLarge {
                    len: program@.len() as usize,
                }),
            },
    {
        if program.len() > MAX_PROGRAM_SIZE {
            return Err(Chip8Error::ProgramTooLarge { len: program.len() });
        }
        let ghost target = loaded(program@).memory;
        let mut memory: Vec<u8> = vec![0u8; MEMORY_SIZE];
        let mut i: usize = 0;
        while i < 80
            invariant
                i <= 80,
                program@.len() <= MAX_PROGRAM_SIZE,
                target == loaded(program@).memory,
                memory@.len() == MEMORY_SIZE,
                forall|a: int| 0 <= a < i ==> #[trigger] memory@[a] == target[a],
                forall|a: int| i <= a < MEMORY_SIZE ==> #[trigger] memory@[a] == 0,
            decreases 80 - i,
        {
            memory.set(i, SPRITES[i]);
            i = i + 1;
        }
        let mut j: usize = 0;
        while j < program.len()
            invariant
                j <= program@.len(),
                program@.len() <= MAX_PROGRAM_SIZE,
                target == loaded(program@).memory,
                memory@.len() == MEMORY_SIZE,
                forall|a: int|
                    0 <= a < PROGRAM_CODE_OFFSET + j ==> #[trigger] memory@[a] == target[a],
                forall|a: int|
                    PROGRAM_CODE_OFFSET + j <= a < MEMORY_SIZE ==> #[trigger] memory@[a] == 0,
            decreases program.len() - j,
        {
            memory.set(PROGRAM_CODE_OFFSET + j, program[j]);
            j = j + 1;
        }
        assert(memory@ =~= target);
        let c = Chip8 {
            regs: vec![0u8; NUM_GENERAL_PURPOSE_REGS],
            i_reg: 0,
            delay_timer_reg: 0,
            sound_timer_reg: 0,
            stack_pointer_reg: 0,
            program_counter_reg: PROGRAM_CODE_OFFSET as u16,
            memory: memory,
            stack: vec![0u16; NUM_STACK_FRAMES],
            key_to_wait_for: None,
            keyboard: vec![false; NUM_KEYS],
            display: Display::new(),
        };
        assert(c@.regs =~= loaded(program@).regs);
        assert(c@.stack =~= loaded(program@).stack);
        assert(c@.keyboard =~= loaded(program@).keyboard);
        assert(c@.screen =~= loaded(program@).screen);
        Ok(c)
    }

    /// Marks key `key` as down; a pending key wait takes the key's number
    /// into its register and ends.
    pub fn handle_key_press(&mut self, key: u8)
        requires
            old(self).wf(),
            key < NUM_KEYS,
        ensures
            final(self).wf(),
            final(self)@ == pressed(old(self)@, key),
    {
        self.keyboard.set(key as usize, true);
        if let Some(reg) = self.key_to_wait_for {
            self.load_reg(reg, key);
            self.key_to_wait_for = None;
        }
    }

    /// Marks key `key` as up.
    pub fn handle_key_release(&mut self, key: u8)
        requires
            old(self).wf(),
            key < NUM_KEYS,
        ensures
            final(self).wf(),
            final(self)@ == released(old(self)@, key),
    {
        self.keyboard.set(key as usize, false);
    }

    /// Fetches and decodes the instruction at the program counter.
    fn instruction(&self) -> (r: Result<Instruction, Chip8Error>)
        requires
            self.wf(),
        ensures
            self@.pc + 1 >= MEMORY_SIZE ==> r == Err::<Instruction, Chip8Error>(
                Chip8Error::AddressOutOfRange { pc: self@.pc },
            ),
            self@.pc + 1 < MEMORY_SIZE ==> match decode(self@.opcode_at_pc()) {
                Some(instr) => r == Ok::<Instruction, Chip8Error>(instr) && fields_fit(instr),
                None => r == Err::<Instruction, Chip8Error>(
                    Chip8Error::UnrecognizedInstruction {
                        opcode: self@.opcode_at_pc(),
                        pc: self@.pc,
                    },
                ),
            },
    {
        let pc = self.program_counter_reg;
        if pc as usize + 1 >= MEMORY_SIZE {
            return Err(Chip8Error::AddressOutOfRange { pc });
        }
        let higher_order = self.memory[pc as usize] as u16;
        let lower_order = self.memory[pc as usize + 1] as u16;
        let opcode = higher_order * 256 + lower_order;
        proof {
            lemma_decode_stable(opcode);
        }
        match RawInstruction::new(opcode).to_instruction() {
            Some(instr) => Ok(instr),
            None => Err(Chip8Error::UnrecognizedInstruction { opcode, pc }),
        }
    }

    /// The value in register `reg_number`.
    pub fn read_reg(&self, reg_number: u8) -> (r: u8)
        requires
            self.wf(),
            reg_number < NUM_GENERAL_PURPOSE_REGS,
        ensures
            r == self@.reg(reg_number),
    {
        self.regs[reg_number as usize]
    }

    fn load_reg(&mut self, reg_number: u8, value: u8)
        requires
            old(self).wf(),
            reg_number < NUM_GENERAL_PURPOSE_REGS,
        ensures
            final(self).wf(),
            final(self)@ == old(self)@.with_reg(reg_number, value),
    {
        self.regs.set(reg_number as usize, value);
    }

    /// The program counter.
    pub fn program_counter(&self) -> (r: u16)
        ensures
            r == self@.pc,
    {
        self.program_counter_reg
    }

    /// The index register.
    pub fn index_register(&self) -> (r: u16)
        ensures
            r == self@.i_reg,
    {
        self.i_reg
    }

    /// The delay timer.
    pub fn delay_timer(&self) -> (r: u8)
        ensures
            r == self@.delay_timer,
    {
        self.delay_timer_reg
    }

    /// The sound timer.
    pub fn sound_timer(&self) -> (r: u8)
        ensures
            r == self@.sound_timer,
    {
        self.sound_timer_reg
    }

    /// The register that a pending key wait will fill, if any.
    pub fn key_to_wait_for(&self) -> (r: Option<u8>)
        ensures
            r == self@.key_to_wait_for,
    {
        self.key_to_wait_for
    }

    /// The byte at `address`.
    pub fn read_memory(&self, address: u16) -> (r: u8)
        requires
            self.wf(),
            address < MEMORY_SIZE,
        ensures
            r == self@.memory[address as int],
    {
        self.memory[address as usize]
    }

    /// The screen.
    pub fn display(&self) -> (r: &Display)
        requires
            self.wf(),
        ensures
            r.wf(),
            r@ == self@.screen,
    {
        &self.display
    }
    /// One step of the clock, with `random` as the byte that a
    /// random-number instruction draws: the delay timer counts down, then,
    /// unless a key wait is pending, the instruction at the program counter
    /// runs. A failed fetch or execution changes nothing but the timer.
    pub fn step(&mut self, random: u8) -> (r: Result<(), Chip8Error>)
        requires
            old(self).wf(),
        ensures
            final(self).wf(),
            (final(self)@, error_of(r)) == tick(old(self)@, random),
    {
        if self.delay_timer_reg > 0 {
            self.delay_timer_reg = self.delay_timer_reg - 1;
        }
        if self.key_to_wait_for.is_none() {
            match self.instruction() {
                Ok(instruction) => self.run_instruction(instruction, random),
                Err(e) => Err(e),
            }
        } else {
            Ok(())
        }
    }

    /// Runs the clock steps that a budget of `num_instructions` allows (one
    /// fewer than the budget), each with a freshly drawn random byte, and
    /// stops at the first error. The result is that of running those steps
    /// with some sequence of random bytes.
    pub fn cycle(&mut self, num_instructions: u64) -> (r: Result<(), Chip8Error>)
        requires
            old(self).wf(),
        ensures
            final(self).wf(),
            exists|randoms: Seq<u8>|
                randoms.len() <= steps_for(num_instructions) && #[trigger] run(old(self)@, randoms)
                    == (final(self)@, error_of(r)) && (r is Ok ==> randoms.len() == steps_for(
                    num_instructions,
                )),
    {
        let ghost start = self@;
        let ghost randoms: Seq<u8> = Seq::empty();
        let steps: u64 = if num_instructions == 0 {
            0
        } else {
            num_instructions - 1
        };
        let mut done: u64 = 0;
        while done < steps
            invariant
                self.wf(),
                start == old(self)@,
                steps == steps_for(num_instructions),
                done <= steps,
                randoms.len() == done,
                run(start, randoms) == (self@, None::<Chip8Error>),
            decreases steps - done,
        {
            let random = random_byte();
            let r = self.step(random);
            proof {
                lemma_run_push(start, randoms, random);
                randoms = randoms.push(random);
            }
            done = done + 1;
            if let Err(e) = r {
                assert(run(start, randoms) == (self@, Some(e)));
                assert(randoms.len() <= steps_for(num_instructions));
                return Err(e);
            }
        }
        assert(run(start, randoms) == (self@, error_of(Ok(()))));
        Ok(())
    }

    /// Runs one instruction fetched from the program counter, with `random`
    /// as the byte that a random-number instruction draws. On an error
    /// nothing changes.
    fn run_instruction(&mut self, instruction: Instruction, random: u8) -> (r: Result<
        (),
        Chip8Error,
    >)
        requires
            old(self).wf(),
            old(self)@.pc + 1 < MEMORY_SIZE,
            fields_fit(instruction),
        ensures
            final(self).wf(),
            match execute(old(self)@, instruction, random) {
                Ok(n) => r is Ok && final(self)@ == n,
                Err(e) => r == Err::<(), Chip8Error>(e) && final(self)@ == old(self)@,
            },
    {
        let pc = self.program_counter_reg;
        match instruction {
            Instruction::ClearDisplay => {
                self.display.clear();
                assert(self.display@ =~= Seq::new(PIXELS as nat, |p: int| false));
                self.program_counter_reg = pc + 2;
            },
            Instruction::Return => {
                if self.stack_pointer_reg == 0 {
                    return Err(Chip8Error::StackUnderflow { pc });
                }
                let addr = self.stack[(self.stack_pointer_reg - 1) as usize];
                self.stack_pointer_reg = self.stack_pointer_reg - 1;
                self.program_counter_reg = addr + 2;
            },
            Instruction::Jump(addr) => {
                self.program_counter_reg = addr;
            },
            Instruction::Call(addr) => {
                if self.stack_pointer_reg as usize == NUM_STACK_FRAMES {
                    return Err(Chip8Error::StackOverflow { pc });
                }
                self.stack.set(self.stack_pointer_reg as usize, pc);
                self.stack_pointer_reg = self.stack_pointer_reg + 1;
                self.program_counter_reg = addr;
            },
            Instruction::SkipIfEqualsByte(reg, value) => {
                let cond = self.read_reg(reg) == value;
                self.skip_if(cond);
            },
            Instruction::SkipIfNotEqualsByte(reg, value) => {
                let cond = self.read_reg(reg) != value;
                self.skip_if(cond);
            },
            Instruction::SkipIfEqual(reg1, reg2) => {
                let cond = self.read_reg(reg1) == self.read_reg(reg2);
                self.skip_if(cond);
            },
            Instruction::SkipIfNotEqual(reg1, reg2) => {
                let cond = self.read_reg(reg1) != self.read_reg(reg2);
                self.skip_if(cond);
            },
            Instruction::JumpPlusZero(addr) => {
                let offset = self.read_reg(0) as u16;
                self.program_counter_reg = addr + offset;
            },
            Instruction::SkipIfPressed(reg) => {
                let key = self.read_reg(reg);
                let cond = (key as usize) < NUM_KEYS && self.keyboard[key as usize];
                self.skip_if(cond);
            },
            Instruction::SkipIfNotPressed(reg) => {
                let key = self.read_reg(reg);
                let cond = !((key as usize) < NUM_KEYS && self.keyboard[key as usize]);
                self.skip_if(cond);
            },
            Instruction::Draw(_, _, _) | Instruction::BCDRepresentation(_)
            | Instruction::StoreRegisters(_) | Instruction::LoadRegisters(_) => {
                return self.run_memory_instruction(instruction);
            },
            Instruction::LoadI(_) | Instruction::LoadDelayTimer(_)
            | Instruction::WaitForKeyPress(_) | Instruction::SetDelayTimer(_)
            | Instruction::SetSoundTimer(_) | Instruction::AddToI(_)
            | Instruction::LoadSprite(_) => {
                self.run_index_timer_instruction(instruction);
            },
            Instruction::Add(_, _) | Instruction::Sub(_, _) | Instruction::ReverseSub(_, _) => {
                self.run_carry_instruction(instruction);
            },
            Instruction::ShiftRight(_) | Instruction::ShiftLeft(_) => {
                self.run_shift_instruction(instruction);
            },
            _ => {
                self.run_register_instruction(instruction, random);
            },
        }
        Ok(())
    }

    /// Moves the program counter past the next instruction if `cond`, else
    /// past this one.
    fn skip_if(&mut self, cond: bool)
        requires
            old(self).wf(),
            old(self)@.pc + 1 < MEMORY_SIZE,
        ensures
            final(self).wf(),
            final(self)@ == old(self)@.skip_if(cond),
    {
        if cond {
            self.program_counter_reg = self.program_counter_reg + 4;
        } else {
            self.program_counter_reg = self.program_counter_reg + 2;
        }
    }

    /// Runs an instruction that sets a register from registers, an
    /// immediate byte or the random byte.
    fn run_register_instruction(&mut self, instruction: Instruction, random: u8)
        requires
            old(self).wf(),
            old(self)@.pc + 1 < MEMORY_SIZE,
            fields_fit(instruction),
            instruction is LoadByte || instruction is AddByte || instruction is Move
                || instruction is Or || instruction is And || instruction is Xor
                || instruction is Random,
        ensures
            final(self).wf(),
            Ok::<Chip8View, Chip8Error>(final(self)@) == execute(old(self)@, instruction, random),
    {
        match instruction {
            Instruction::LoadByte(reg, value) => {
                self.set_reg_then_advance(reg, value);
            },
            Instruction::AddByte(reg_number, value) => {
                let reg_value = self.read_reg(reg_number);
                self.set_reg_then_advance(reg_number, value.wrapping_add(reg_value));
            },
            Instruction::Move(reg1, reg2) => {
                let value = self.read_reg(reg2);
                self.set_reg_then_advance(reg1, value);
            },
            Instruction::Or(reg1, reg2) => {
                let first = self.read_reg(reg1);
                let second = self.read_reg(reg2);
                self.set_reg_then_advance(reg1, first | second);
            },
            Instruction::And(reg1, reg2) => {
                let first = self.read_reg(reg1);
                let second = self.read_reg(reg2);
                self.set_reg_then_advance(reg1, first & second);
            },
            Instruction::Xor(reg1, reg2) => {
                let first = self.read_reg(reg1);
                let second = self.read_reg(reg2);
                self.set_reg_then_advance(reg1, first ^ second);
            },
            Instruction::Random(reg, mask) => {
                self.set_reg_then_advance(reg, random & mask);
            },
            _ => {},
        }
    }

    /// Sets register `reg` to `value` and moves past this instruction.
    fn set_reg_then_advance(&mut self, reg: u8, value: u8)
        requires
            old(self).wf(),
            old(self)@.pc + 1 < MEMORY_SIZE,
            reg < NUM_GENERAL_PURPOSE_REGS,
        ensures
            final(self).wf(),
            final(self)@ == old(self)@.with_reg(reg, value).next(),
    {
        self.load_reg(reg, value);
        self.program_counter_reg = self.program_counter_reg + 2;
    }

    /// Runs an addition or subtraction of registers, which also sets the
    /// flag register to the carry or the lack of borrow.
    fn run_carry_instruction(&mut self, instruction: Instruction)
        requires
            old(self).wf(),
            old(self)@.pc + 1 < MEMORY_SIZE,
            fields_fit(instruction),
            instruction is Add || instruction is Sub || instruction is ReverseSub,
        ensures
            final(self).wf(),
            Ok::<Chip8View, Chip8Error>(final(self)@) == execute(old(self)@, instruction, 0),
    {
        match instruction {
            Instruction::Add(reg1, reg2) => {
                let first = self.read_reg(reg1) as u16;
                let second = self.read_reg(reg2) as u16;
                let answer = first + second;
                self.set_flag_then_advance(if answer > 255 { 1 } else { 0 }, reg1, (answer % 256) as u8);
            },
            Instruction::Sub(reg1, reg2) => {
                let first = self.read_reg(reg1);
                let second = self.read_reg(reg2);
                let difference = first.wrapping_sub(second);
                assert(difference == ((first - second + 256) % 256) as u8);
                self.set_flag_then_advance(if first > second { 1 } else { 0 }, reg1, difference);
            },
            Instruction::ReverseSub(reg1, reg2) => {
                let first = self.read_reg(reg1);
                let second = self.read_reg(reg2);
                let difference = second.wrapping_sub(first);
                assert(difference == ((second - first + 256) % 256) as u8);
                self.set_flag_then_advance(if second > first { 1 } else { 0 }, reg1, difference);
            },
            _ => {},
        }
    }

    /// Sets the flag register to `flag`, then register `reg` to `value`, and
    /// moves past this instruction.
    fn set_flag_then_advance(&mut self, flag: u8, reg: u8, value: u8)
        requires
            old(self).wf(),
            old(self)@.pc + 1 < MEMORY_SIZE,
            reg < NUM_GENERAL_PURPOSE_REGS,
        ensures
            final(self).wf(),
            final(self)@ == old(self)@.with_flag_then(flag, reg, value).next(),
    {
        self.load_reg(FLAG_REG, flag);
        self.load_reg(reg, value);
        self.program_counter_reg = self.program_counter_reg + 2;
    }

    /// Runs a shift of a register, which also sets the flag register to the
    /// bit shifted out.
    fn run_shift_instruction(&mut self, instruction: Instruction)
        requires
            old(self).wf(),
            old(self)@.pc + 1 < MEMORY_SIZE,
            fields_fit(instruction),
            instruction is ShiftRight || instruction is ShiftLeft,
        ensures
            final(self).wf(),
            Ok::<Chip8View, Chip8Error>(final(self)@) == execute(old(self)@, instruction, 0),
    {
        match instruction {
            Instruction::ShiftRight(reg) => {
                let value = self.read_reg(reg);
                self.set_flag_then_advance(value & 1, reg, value >> 1);
            },
            Instruction::ShiftLeft(reg) => {
                let value = self.read_reg(reg);
                self.set_flag_then_advance(value >> 7, reg, ((value as u16 * 2) % 256) as u8);
            },
            _ => {},
        }
    }

    /// Runs an instruction that sets the index register, a timer or the key
    /// wait.
    fn run_index_timer_instruction(&mut self, instruction: Instruction)
        requires
            old(self).wf(),
            old(self)@.pc + 1 < MEMORY_SIZE,
            fields_fit(instruction),
            instruction is LoadI || instruction is LoadDelayTimer || instruction is WaitForKeyPress
                || instruction is SetDelayTimer || instruction is SetSoundTimer
                || instruction is AddToI || instruction is LoadSprite,
        ensures
            final(self).wf(),
            Ok::<Chip8View, Chip8Error>(final(self)@) == execute(old(self)@, instruction, 0),
    {
        match instruction {
            Instruction::LoadI(value) => {
                self.i_reg = value;
            },
            Instruction::LoadDelayTimer(reg) => {
                let delay_value = self.delay_timer_reg;
                self.load_reg(reg, delay_value);
            },
            Instruction::WaitForKeyPress(reg) => {
                self.key_to_wait_for = Some(reg);
            },
            Instruction::SetDelayTimer(reg) => {
                self.delay_timer_reg = self.read_reg(reg);
            },
            Instruction::SetSoundTimer(reg) => {
                self.sound_timer_reg = self.read_reg(reg);
            },
            Instruction::AddToI(reg) => {
                let value = self.read_reg(reg) as u16;
                self.i_reg = self.i_reg.wrapping_add(value);
            },
            Instruction::LoadSprite(reg) => {
                let digit = self.read_reg(reg) % 16;
                self.i_reg = digit as u16 * 5;
            },
            _ => {},
        }
        self.program_counter_reg = self.program_counter_reg + 2;
    }

    /// Runs an instruction that reads or writes memory at the index
    /// register: it fails, changing nothing, where it would reach past the
    /// end of memory.
    fn run_memory_instruction(&mut self, instruction: Instruction) -> (r: Result<(), Chip8Error>)
        requires
            old(self).wf(),
            old(self)@.pc + 1 < MEMORY_SIZE,
            fields_fit(instruction),
            instruction is Draw || instruction is BCDRepresentation
                || instruction is StoreRegisters || instruction is LoadRegisters,
        ensures
            final(self).wf(),
            match execute(old(self)@, instruction, 0) {
                Ok(n) => r is Ok && final(self)@ == n,
                Err(e) => r == Err::<(), Chip8Error>(e) && final(self)@ == old(self)@,
            },
    {
        let pc = self.program_counter_reg;
        let i = self.i_reg as usize;
        match instruction {
            Instruction::Draw(reg1, reg2, n) => {
                if i + n as usize > MEMORY_SIZE {
                    return Err(Chip8Error::AddressOutOfRange { pc });
                }
                let x = self.read_reg(reg1);
                let y = self.read_reg(reg2);
                let sprite = vstd::slice::slice_subrange(self.memory.as_slice(), i, i + n as usize);
                let collided = self.display.draw(x, y, sprite);
                self.load_reg(FLAG_REG, if collided { 1 } else { 0 });
            },
            Instruction::BCDRepresentation(reg) => {
                if i + 3 > MEMORY_SIZE {
                    return Err(Chip8Error::AddressOutOfRange { pc });
                }
                let value = self.read_reg(reg);
                self.memory.set(i, value / 100);
                self.memory.set(i + 1, (value / 10) % 10);
                self.memory.set(i + 2, value % 10);
            },
            Instruction::StoreRegisters(highest_reg) => {
                if i + highest_reg as usize + 1 > MEMORY_SIZE {
                    return Err(Chip8Error::AddressOutOfRange { pc });
                }
                self.store_registers(highest_reg);
            },
            Instruction::LoadRegisters(highest_reg) => {
                if i + highest_reg as usize + 1 > MEMORY_SIZE {
                    return Err(Chip8Error::AddressOutOfRange { pc });
                }
                self.load_registers(highest_reg);
            },
            _ => {},
        }
        self.program_counter_reg = pc + 2;
        Ok(())
    }

    /// Copies registers `0..=highest_reg` to memory from the index register on.
    fn store_registers(&mut self, highest_reg: u8)
        requires
            old(self).wf(),
            highest_reg < NUM_GENERAL_PURPOSE_REGS,
            old(self)@.i_reg + highest_reg + 1 <= MEMORY_SIZE,
        ensures
            final(self).wf(),
            final(self)@ == (Chip8View {
                memory: Seq::new(
                    MEMORY_SIZE as nat,
                    |a: int|
                        if old(self)@.i_reg <= a <= old(self)@.i_reg + highest_reg {
                            old(self)@.regs[a - old(self)@.i_reg]
                        } else {
                            old(self)@.memory[a]
                        },
                ),
                ..old(self)@
            }),
    {
        let ghost before = self@;
        let i = self.i_reg as usize;
        let mut reg_number: u8 = 0;
        assert(self.memory@ =~= Seq::new(
            MEMORY_SIZE as nat,
            |a: int|
                if i <= a < i + reg_number {
                    before.regs[a - i]
                } else {
                    before.memory[a]
                },
        ));
        while reg_number <= highest_reg
            invariant
                self.wf(),
                before.wf(),
                i == before.i_reg,
                highest_reg < NUM_GENERAL_PURPOSE_REGS,
                i + highest_reg + 1 <= MEMORY_SIZE,
                reg_number <= highest_reg + 1,
                self@ == (Chip8View {
                    memory: Seq::new(
                        MEMORY_SIZE as nat,
                        |a: int|
                            if i <= a < i + reg_number {
                                before.regs[a - i]
                            } else {
                                before.memory[a]
                            },
                    ),
                    ..before
                }),
            decreases highest_reg + 1 - reg_number,
        {
            let value = self.regs[reg_number as usize];
            self.memory.set(i + reg_number as usize, value);
            reg_number = reg_number + 1;
            assert(self.memory@ =~= Seq::new(
                MEMORY_SIZE as nat,
                |a: int|
                    if i <= a < i + reg_number {
                        before.regs[a - i]
                    } else {
                        before.memory[a]
                    },
            ));
        }
        assert(self.memory@ =~= Seq::new(
            MEMORY_SIZE as nat,
            |a: int|
                if i <= a <= i + highest_reg {
                    before.regs[a - i]
                } else {
                    before.memory[a]
                },
        ));
    }

    /// Copies memory from the index register on into registers
    /// `0..=highest_reg`.
    fn load_registers(&mut self, highest_reg: u8)
        requires
            old(self).wf(),
            highest_reg < NUM_GENERAL_PURPOSE_REGS,
            old(self)@.i_reg + highest_reg + 1 <= MEMORY_SIZE,
        ensures
            final(self).wf(),
            final(self)@ == (Chip8View {
                regs: Seq::new(
                    NUM_GENERAL_PURPOSE_REGS as nat,
                    |r: int|
                        if r <= highest_reg {
                            old(self)@.memory[old(self)@.i_reg + r]
                        } else {
                            old(self)@.regs[r]
                        },
                ),
                ..old(self)@
            }),
    {
        let ghost before = self@;
        let i = self.i_reg as usize;
        let mut reg_number: u8 = 0;
        assert(self.regs@ =~= Seq::new(
            NUM_GENERAL_PURPOSE_REGS as nat,
            |r: int|
                if r < reg_number {
                    before.memory[i + r]
                } else {
                    before.regs[r]
                },
        ));
        while reg_number <= highest_reg
            invariant
                self.wf(),
                before.wf(),
                i == before.i_reg,
                highest_reg < NUM_GENERAL_PURPOSE_REGS,
                i + highest_reg + 1 <= MEMORY_SIZE,
                reg_number <= highest_reg + 1,
                self@ == (Chip8View {
                    regs: Seq::new(
                        NUM_GENERAL_PURPOSE_REGS as nat,
                        |r: int|
                            if r < reg_number {
                                before.memory[i + r]
                            } else {
                                before.regs[r]
                            },
                    ),
                    ..before
                }),
            decreases highest_reg + 1 - reg_number,
        {
            let value = self.memory[i + reg_number as usize];
            self.regs.set(reg_number as usize, value);
            reg_number = reg_number + 1;
            assert(self.regs@ =~= Seq::new(
                NUM_GENERAL_PURPOSE_REGS as nat,
                |r: int|
                    if r < reg_number {
                        before.memory[i + r]
                    } else {
                        before.regs[r]
                    },
            ));
        }
        assert(self.regs@ =~= Seq::new(
            NUM_GENERAL_PURPOSE_REGS as nat,
            |r: int|
                if r <= highest_reg {
                    before.memory[i + r]
                } else {
                    before.regs[r]
                },
        ));
    }
}

} // verus!
