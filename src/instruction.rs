use vstd::prelude::*;

verus! {

/// A register number, `0x0..=0xF`.
pub type Register = u8;

/// A 12-bit memory address.
pub type Address = u16;

/// One decoded instruction, with the opcode's fields that it uses.
#[derive(Debug, Clone, Copy, PartialEq, Eq, Structural)]
pub enum Instruction {
    ClearDisplay,
    Return,
    Jump(Address),
    Call(Address),
    SkipIfEqualsByte(Register, u8),
    SkipIfNotEqualsByte(Register, u8),
    SkipIfEqual(Register, Register),
    LoadByte(Register, u8),
    AddByte(Register, u8),
    Move(Register, Register),
    Or(Register, Register),
    And(Register, Register),
    Xor(Register, Register),
    Add(Register, Register),
    Sub(Register, Register),
    ShiftRight(Register),
    ReverseSub(Register, Register),
    ShiftLeft(Register),
    SkipIfNotEqual(Register, Register),
    LoadI(u16),
    JumpPlusZero(Address),
    Random(Register, u8),
    Draw(Register, Register, u8),
    SkipIfPressed(Register),
    SkipIfNotPressed(Register),
    LoadDelayTimer(Register),
    WaitForKeyPress(Register),
    SetDelayTimer(Register),
    SetSoundTimer(Register),
    AddToI(Register),
    LoadSprite(Register),
    BCDRepresentation(Register),
    StoreRegisters(Register),
    LoadRegisters(Register),
}

/// Bits 12-15 of an opcode: the instruction family.
pub open spec fn nibble0(v: u16) -> u8 {
    ((v >> 12u16) & 0xFu16) as u8
}

/// Bits 8-11 of an opcode.
pub open spec fn nibble1(v: u16) -> u8 {
    ((v >> 8u16) & 0xFu16) as u8
}

/// Bits 4-7 of an opcode.
pub open spec fn nibble2(v: u16) -> u8 {
    ((v >> 4u16) & 0xFu16) as u8
}

/// Bits 0-3 of an opcode.
pub open spec fn nibble3(v: u16) -> u8 {
    (v & 0xFu16) as u8
}

/// Bits 0-7 of an opcode.
pub open spec fn low_byte(v: u16) -> u8 {
    (v & 0xFFu16) as u8
}

/// Bits 0-11 of an opcode.
pub open spec fn addr12(v: u16) -> u16 {
    v & 0xFFFu16
}

/// The decoding table: which instruction an opcode stands for, if any.
pub open spec fn decode(v: u16) -> Option<Instruction> {
    let (x, y, n, kk, nnn) = (nibble1(v), nibble2(v), nibble3(v), low_byte(v), addr12(v));
    let f = nibble0(v);
    if f == 0x0 {
        if kk == 0xE0 {
            Some(Instruction::ClearDisplay)
        } else if kk == 0xEE {
            Some(Instruction::Return)
        } else {
            None
        }
    } else if f == 0x1 {
        Some(Instruction::Jump(nnn))
    } else if f == 0x2 {
        Some(Instruction::Call(nnn))
    } else if f == 0x3 {
        Some(Instruction::SkipIfEqualsByte(x, kk))
    } else if f == 0x4 {
        Some(Instruction::SkipIfNotEqualsByte(x, kk))
    } else if f == 0x5 {
        Some(Instruction::SkipIfEqual(x, y))
    } else if f == 0x6 {
        Some(Instruction::LoadByte(x, kk))
    } else if f == 0x7 {
        Some(Instruction::AddByte(x, kk))
    } else if f == 0x8 {
        if n == 0x0 {
            Some(Instruction::Move(x, y))
        } else if n == 0x1 {
            Some(Instruction::Or(x, y))
        } else if n == 0x2 {
            Some(Instruction::And(x, y))
        } else if n == 0x3 {
            Some(Instruction::Xor(x, y))
        } else if n == 0x4 {
            Some(Instruction::Add(x, y))
        } else if n == 0x5 {
            Some(Instruction::Sub(x, y))
        } else if n == 0x6 {
            Some(Instruction::ShiftRight(x))
        } else if n == 0x7 {
            Some(Instruction::ReverseSub(x, y))
        } else if n == 0xE {
            Some(Instruction::ShiftLeft(x))
        } else {
            None
        }
    } else if f == 0x9 {
        Some(Instruction::SkipIfNotEqual(x, y))
    } else if f == 0xA {
        Some(Instruction::LoadI(nnn))
    } else if f == 0xB {
        Some(Instruction::JumpPlusZero(nnn))
    } else if f == 0xC {
        Some(Instruction::Random(x, kk))
    } else if f == 0xD {
        Some(Instruction::Draw(x, y, n))
    } else if f == 0xE {
        if kk == 0x9E {
            Some(Instruction::SkipIfPressed(x))
        } else if kk == 0xA1 {
            Some(Instruction::SkipIfNotPressed(x))
        } else {
            None
        }
    } else {
        if kk == 0x07 {
            Some(Instruction::LoadDelayTimer(x))
        } else if kk == 0x0A {
            Some(Instruction::WaitForKeyPress(x))
        } else if kk == 0x15 {
            Some(Instruction::SetDelayTimer(x))
        } else if kk == 0x18 {
            Some(Instruction::SetSoundTimer(x))
        } else if kk == 0x1E {
            Some(Instruction::AddToI(x))
        } else if kk == 0x29 {
            Some(Instruction::LoadSprite(x))
        } else if kk == 0x33 {
            Some(Instruction::BCDRepresentation(x))
        } else if kk == 0x55 {
            Some(Instruction::StoreRegisters(x))
        } else if kk == 0x65 {
            Some(Instruction::LoadRegisters(x))
        } else {
            None
        }
    }
}

/// The opcode `f x kk`, from a family, a nibble and a byte.
pub open spec fn op_xkk(f: u16, x: u8, kk: u8) -> u16 {
    (f << 12u16) | ((x as u16) << 8u16) | (kk as u16)
}

/// The opcode `f x y n`, from four nibbles.
pub open spec fn op_xyn(f: u16, x: u8, y: u8, n: u8) -> u16 {
    (f << 12u16) | ((x as u16) << 8u16) | ((y as u16) << 4u16) | (n as u16)
}

/// The opcode `f nnn`, from a family and a 12-bit field.
pub open spec fn op_nnn(f: u16, nnn: u16) -> u16 {
    (f << 12u16) | nnn
}

/// Every field of the instruction fits the opcode field it comes from.
pub open spec fn fields_fit(i: Instruction) -> bool {
    match i {
        Instruction::ClearDisplay | Instruction::Return => true,
        Instruction::Jump(a) | Instruction::Call(a) | Instruction::LoadI(a)
        | Instruction::JumpPlusZero(a) => a < 0x1000,
        Instruction::SkipIfEqualsByte(x, _) | Instruction::SkipIfNotEqualsByte(x, _)
        | Instruction::LoadByte(x, _) | Instruction::AddByte(x, _) | Instruction::Random(x, _)
        | Instruction::ShiftRight(x) | Instruction::ShiftLeft(x)
        | Instruction::SkipIfPressed(x) | Instruction::SkipIfNotPressed(x)
        | Instruction::LoadDelayTimer(x) | Instruction::WaitForKeyPress(x)
        | Instruction::SetDelayTimer(x) | Instruction::SetSoundTimer(x) | Instruction::AddToI(x)
        | Instruction::LoadSprite(x) | Instruction::BCDRepresentation(x)
        | Instruction::StoreRegisters(x) | Instruction::LoadRegisters(x) => x < 16,
        Instruction::SkipIfEqual(x, y) | Instruction::Move(x, y) | Instruction::Or(x, y)
        | Instruction::And(x, y) | Instruction::Xor(x, y) | Instruction::Add(x, y)
        | Instruction::Sub(x, y) | Instruction::ReverseSub(x, y)
        | Instruction::SkipIfNotEqual(x, y) => x < 16 && y < 16,
        Instruction::Draw(x, y, n) => x < 16 && y < 16 && n < 16,
    }
}

/// The opcode that an instruction is written as. The shifts keep the
/// register that they do not read in the second nibble at zero.
pub open spec fn encode(i: Instruction) -> u16 {
    match i {
        Instruction::ClearDisplay => 0x00E0,
        Instruction::Return => 0x00EE,
        Instruction::Jump(a) => op_nnn(0x1, a),
        Instruction::Call(a) => op_nnn(0x2, a),
        Instruction::SkipIfEqualsByte(x, kk) => op_xkk(0x3, x, kk),
        Instruction::SkipIfNotEqualsByte(x, kk) => op_xkk(0x4, x, kk),
        Instruction::SkipIfEqual(x, y) => op_xyn(0x5, x, y, 0),
        Instruction::LoadByte(x, kk) => op_xkk(0x6, x, kk),
        Instruction::AddByte(x, kk) => op_xkk(0x7, x, kk),
        Instruction::Move(x, y) => op_xyn(0x8, x, y, 0x0),
        Instruction::Or(x, y) => op_xyn(0x8, x, y, 0x1),
        Instruction::And(x, y) => op_xyn(0x8, x, y, 0x2),
        Instruction::Xor(x, y) => op_xyn(0x8, x, y, 0x3),
        Instruction::Add(x, y) => op_xyn(0x8, x, y, 0x4),
        Instruction::Sub(x, y) => op_xyn(0x8, x, y, 0x5),
        Instruction::ShiftRight(x) => op_xyn(0x8, x, 0, 0x6),
        Instruction::ReverseSub(x, y) => op_xyn(0x8, x, y, 0x7),
        Instruction::ShiftLeft(x) => op_xyn(0x8, x, 0, 0xE),
        Instruction::SkipIfNotEqual(x, y) => op_xyn(0x9, x, y, 0),
        Instruction::LoadI(a) => op_nnn(0xA, a),
        Instruction::JumpPlusZero(a) => op_nnn(0xB, a),
        Instruction::Random(x, kk) => op_xkk(0xC, x, kk),
        Instruction::Draw(x, y, n) => op_xyn(0xD, x, y, n),
        Instruction::SkipIfPressed(x) => op_xkk(0xE, x, 0x9E),
        Instruction::SkipIfNotPressed(x) => op_xkk(0xE, x, 0xA1),
        Instruction::LoadDelayTimer(x) => op_xkk(0xF, x, 0x07),
        Instruction::WaitForKeyPress(x) => op_xkk(0xF, x, 0x0A),
        Instruction::SetDelayTimer(x) => op_xkk(0xF, x, 0x15),
        Instruction::SetSoundTimer(x) => op_xkk(0xF, x, 0x18),
        Instruction::AddToI(x) => op_xkk(0xF, x, 0x1E),
        Instruction::LoadSprite(x) => op_xkk(0xF, x, 0x29),
        Instruction::BCDRepresentation(x) => op_xkk(0xF, x, 0x33),
        Instruction::StoreRegisters(x) => op_xkk(0xF, x, 0x55),
        Instruction::LoadRegisters(x) => op_xkk(0xF, x, 0x65),
    }
}

/// Decoding reads every bit of the opcode: it is not one of the forms whose
/// decoding passes over a field (the second nibble of `0x00E0` and `0x00EE`,
/// the last nibble of `5xy0` and `9xy0`, and `y` of the shifts `8xy6`, `8xyE`).
pub open spec fn reads_every_bit(v: u16) -> bool {
    let f = nibble0(v);
    &&& (f == 0x0 ==> nibble1(v) == 0)
    &&& (f == 0x5 || f == 0x9 ==> nibble3(v) == 0)
    &&& (f == 0x8 && (nibble3(v) == 0x6 || nibble3(v) == 0xE) ==> nibble2(v) == 0)
}

proof fn lemma_split_xkk(v: u16)
    ensures
        op_xkk(nibble0(v) as u16, nibble1(v), low_byte(v)) == v,
        nibble0(v) < 16,
        nibble1(v) < 16,
        nibble2(v) < 16,
        nibble3(v) < 16,
        addr12(v) < 0x1000,
{
    assert((((v >> 12u16) & 0xFu16) as u8 as u16) << 12u16 | ((((v >> 8u16) & 0xFu16) as u8
        as u16) << 8u16) | ((v & 0xFFu16) as u8 as u16) == v) by (bit_vector);
    assert(((v >> 12u16) & 0xFu16) < 16 && ((v >> 8u16) & 0xFu16) < 16 && ((v >> 4u16)
        & 0xFu16) < 16 && (v & 0xFu16) < 16 && (v & 0xFFFu16) < 0x1000) by (bit_vector);
}

proof fn lemma_split_xyn(v: u16)
    ensures
        op_xyn(nibble0(v) as u16, nibble1(v), nibble2(v), nibble3(v)) == v,
{
    assert((((v >> 12u16) & 0xFu16) as u8 as u16) << 12u16 | ((((v >> 8u16) & 0xFu16) as u8
        as u16) << 8u16) | ((((v >> 4u16) & 0xFu16) as u8 as u16) << 4u16) | ((v & 0xFu16) as u8
        as u16) == v) by (bit_vector);
}

proof fn lemma_split_nnn(v: u16)
    ensures
        op_nnn(nibble0(v) as u16, addr12(v)) == v,
{
    assert((((v >> 12u16) & 0xFu16) as u8 as u16) << 12u16 | (v & 0xFFFu16) == v)
        by (bit_vector);
}

proof fn lemma_fields_xkk(f: u16, x: u8, kk: u8)
    requires
        f < 16,
        x < 16,
    ensures
        nibble0(op_xkk(f, x, kk)) == f,
        nibble1(op_xkk(f, x, kk)) == x,
        low_byte(op_xkk(f, x, kk)) == kk,
{
    assert(f < 16 && x < 16 ==> (((f << 12u16 | (x as u16) << 8u16 | (kk as u16)) >> 12u16)
        & 0xFu16) == f && ((((f << 12u16 | (x as u16) << 8u16 | (kk as u16)) >> 8u16)
        & 0xFu16) as u8) == x && (((f << 12u16 | (x as u16) << 8u16 | (kk as u16)) & 0xFFu16)
        as u8) == kk) by (bit_vector);
}

proof fn lemma_fields_xyn(f: u16, x: u8, y: u8, n: u8)
    requires
        f < 16,
        x < 16,
        y < 16,
        n < 16,
    ensures
        nibble0(op_xyn(f, x, y, n)) == f,
        nibble1(op_xyn(f, x, y, n)) == x,
        nibble2(op_xyn(f, x, y, n)) == y,
        nibble3(op_xyn(f, x, y, n)) == n,
{
    let v = op_xyn(f, x, y, n);
    assert(f < 16 && x < 16 && y < 16 && n < 16 && v == (f << 12u16 | (x as u16) << 8u16 | (
    y as u16) << 4u16 | (n as u16)) ==> ((v >> 12u16) & 0xFu16) == f && (((v >> 8u16)
        & 0xFu16) as u8) == x && (((v >> 4u16) & 0xFu16) as u8) == y && ((v & 0xFu16) as u8)
        == n) by (bit_vector);
}

proof fn lemma_fields_nnn(f: u16, nnn: u16)
    requires
        f < 16,
        nnn < 0x1000,
    ensures
        nibble0(op_nnn(f, nnn)) == f,
        addr12(op_nnn(f, nnn)) == nnn,
{
    assert(f < 16 && nnn < 0x1000 ==> (((f << 12u16 | nnn) >> 12u16) & 0xFu16) == f && ((f
        << 12u16 | nnn) & 0xFFFu16) == nnn) by (bit_vector);
}

/// Decoding an opcode gives an instruction whose fields fit the opcode's
/// fields, and writing that instruction back as an opcode gives the opcode
/// again, wherever decoding reads every bit of it.
pub proof fn lemma_decode_encode(v: u16)
    requires
        reads_every_bit(v),
    ensures
        match decode(v) {
            Some(i) => fields_fit(i) && encode(i) == v,
            None => true,
        },
{
    lemma_split_xkk(v);
    lemma_split_xyn(v);
    lemma_split_nnn(v);
    let f = nibble0(v);
    if f == 0x0 {
        assert(op_xkk(0, 0, 0xE0) == 0x00E0 && op_xkk(0, 0, 0xEE) == 0x00EE) by (bit_vector);
    }
}

/// Every opcode either decodes to nothing, or to an instruction whose fields
/// fit and whose own opcode decodes to that same instruction.
pub proof fn lemma_decode_stable(v: u16)
    ensures
        match decode(v) {
            Some(i) => fields_fit(i) && decode(encode(i)) == Some(i),
            None => true,
        },
{
    lemma_split_xkk(v);
    if let Some(i) = decode(v) {
        lemma_encode_decode(i);
    }
}

/// The opcode that an instruction is written as decodes to that instruction.
pub proof fn lemma_encode_decode(i: Instruction)
    requires
        fields_fit(i),
    ensures
        decode(encode(i)) == Some(i),
{
    match i {
        Instruction::ClearDisplay => {
            assert(op_xkk(0, 0, 0xE0) == 0x00E0) by (bit_vector);
            lemma_fields_xkk(0, 0, 0xE0);
        },
        Instruction::Return => {
            assert(op_xkk(0, 0, 0xEE) == 0x00EE) by (bit_vector);
            lemma_fields_xkk(0, 0, 0xEE);
        },
        Instruction::Jump(a) => lemma_fields_nnn(0x1, a),
        Instruction::Call(a) => lemma_fields_nnn(0x2, a),
        Instruction::LoadI(a) => lemma_fields_nnn(0xA, a),
        Instruction::JumpPlusZero(a) => lemma_fields_nnn(0xB, a),
        Instruction::SkipIfEqualsByte(x, kk) => lemma_fields_xkk(0x3, x, kk),
        Instruction::SkipIfNotEqualsByte(x, kk) => lemma_fields_xkk(0x4, x, kk),
        Instruction::LoadByte(x, kk) => lemma_fields_xkk(0x6, x, kk),
        Instruction::AddByte(x, kk) => lemma_fields_xkk(0x7, x, kk),
        Instruction::Random(x, kk) => lemma_fields_xkk(0xC, x, kk),
        Instruction::SkipIfPressed(x) => lemma_fields_xkk(0xE, x, 0x9E),
        Instruction::SkipIfNotPressed(x) => lemma_fields_xkk(0xE, x, 0xA1),
        Instruction::LoadDelayTimer(x) => lemma_fields_xkk(0xF, x, 0x07),
        Instruction::WaitForKeyPress(x) => lemma_fields_xkk(0xF, x, 0x0A),
        Instruction::SetDelayTimer(x) => lemma_fields_xkk(0xF, x, 0x15),
        Instruction::SetSoundTimer(x) => lemma_fields_xkk(0xF, x, 0x18),
        Instruction::AddToI(x) => lemma_fields_xkk(0xF, x, 0x1E),
        Instruction::LoadSprite(x) => lemma_fields_xkk(0xF, x, 0x29),
        Instruction::BCDRepresentation(x) => lemma_fields_xkk(0xF, x, 0x33),
        Instruction::StoreRegisters(x) => lemma_fields_xkk(0xF, x, 0x55),
        Instruction::LoadRegisters(x) => lemma_fields_xkk(0xF, x, 0x65),
        Instruction::SkipIfEqual(x, y) => lemma_fields_xyn(0x5, x, y, 0),
        Instruction::Move(x, y) => lemma_fields_xyn(0x8, x, y, 0x0),
        Instruction::Or(x, y) => lemma_fields_xyn(0x8, x, y, 0x1),
        Instruction::And(x, y) => lemma_fields_xyn(0x8, x, y, 0x2),
        Instruction::Xor(x, y) => lemma_fields_xyn(0x8, x, y, 0x3),
        Instruction::Add(x, y) => lemma_fields_xyn(0x8, x, y, 0x4),
        Instruction::Sub(x, y) => lemma_fields_xyn(0x8, x, y, 0x5),
        Instruction::ShiftRight(x) => lemma_fields_xyn(0x8, x, 0, 0x6),
        Instruction::ReverseSub(x, y) => lemma_fields_xyn(0x8, x, y, 0x7),
        Instruction::ShiftLeft(x) => lemma_fields_xyn(0x8, x, 0, 0xE),
        Instruction::SkipIfNotEqual(x, y) => lemma_fields_xyn(0x9, x, y, 0),
        Instruction::Draw(x, y, n) => lemma_fields_xyn(0xD, x, y, n),
    }
}

/// The 16-bit opcode fetched from memory, before decoding.
pub struct RawInstruction {
    value: u16,
}

impl RawInstruction {
    /// The opcode held.
    pub closed spec fn opcode(&self) -> u16 {
        self.value
    }

    pub fn new(value: u16) -> (r: RawInstruction)
        ensures
            r.opcode() == value,
    {
        RawInstruction { value: value }
    }

    /// Decodes the opcode by the table of `decode`; `None` for an opcode
    /// that stands for no instruction.
    pub fn to_instruction(&self) -> (r: Option<Instruction>)
        ensures
            r == decode(self.opcode()),
    {
        let x = self.oxoo();
        let y = self.ooxo();
        let n = self.ooox();
        let kk = self.ooxx();
        let nnn = self.oxxx();
        match self.xooo() {
            0x0 => {
                if kk == 0xE0 {
                    Some(Instruction::ClearDisplay)
                } else if kk == 0xEE {
                    Some(Instruction::Return)
                } else {
                    None
                }
            },
            0x1 => Some(Instruction::Jump(nnn)),
            0x2 => Some(Instruction::Call(nnn)),
            0x3 => Some(Instruction::SkipIfEqualsByte(x, kk)),
            0x4 => Some(Instruction::SkipIfNotEqualsByte(x, kk)),
            0x5 => Some(Instruction::SkipIfEqual(x, y)),
            0x6 => Some(Instruction::LoadByte(x, kk)),
            0x7 => Some(Instruction::AddByte(x, kk)),
            0x8 => match n {
                0x0 => Some(Instruction::Move(x, y)),
                0x1 => Some(Instruction::Or(x, y)),
                0x2 => Some(Instruction::And(x, y)),
                0x3 => Some(Instruction::Xor(x, y)),
                0x4 => Some(Instruction::Add(x, y)),
                0x5 => Some(Instruction::Sub(x, y)),
                0x6 => Some(Instruction::ShiftRight(x)),
                0x7 => Some(Instruction::ReverseSub(x, y)),
                0xE => Some(Instruction::ShiftLeft(x)),
                _ => None,
            },
            0x9 => Some(Instruction::SkipIfNotEqual(x, y)),
            0xA => Some(Instruction::LoadI(nnn)),
            0xB => Some(Instruction::JumpPlusZero(nnn)),
            0xC => Some(Instruction::Random(x, kk)),
            0xD => Some(Instruction::Draw(x, y, n)),
            0xE => match kk {
                0x9E => Some(Instruction::SkipIfPressed(x)),
                0xA1 => Some(Instruction::SkipIfNotPressed(x)),
                _ => None,
            },
            _ => match kk {
                0x07 => Some(Instruction::LoadDelayTimer(x)),
                0x0A => Some(Instruction::WaitForKeyPress(x)),
                0x15 => Some(Instruction::SetDelayTimer(x)),
                0x18 => Some(Instruction::SetSoundTimer(x)),
                0x1E => Some(Instruction::AddToI(x)),
                0x29 => Some(Instruction::LoadSprite(x)),
                0x33 => Some(Instruction::BCDRepresentation(x)),
                0x55 => Some(Instruction::StoreRegisters(x)),
                0x65 => Some(Instruction::LoadRegisters(x)),
                _ => None,
            },
        }
    }

    fn xooo(&self) -> (r: u8)
        ensures
            r == nibble0(self.value),
            r < 16,
    {
        let v = self.value;
        assert(((v >> 12u16) & 0xFu16) < 16) by (bit_vector);
        ((v >> 12) & 0xF) as u8
    }

    fn oxoo(&self) -> (r: u8)
        ensures
            r == nibble1(self.value),
            r < 16,
    {
        let v = self.value;
        assert(((v >> 8u16) & 0xFu16) < 16) by (bit_vector);
        ((v >> 8) & 0xF) as u8
    }

    fn ooxo(&self) -> (r: u8)
        ensures
            r == nibble2(self.value),
            r < 16,
    {
        let v = self.value;
        assert(((v >> 4u16) & 0xFu16) < 16) by (bit_vector);
        ((v >> 4) & 0xF) as u8
    }

    fn ooox(&self) -> (r: u8)
        ensures
            r == nibble3(self.value),
            r < 16,
    {
        let v = self.value;
        assert((v & 0xFu16) < 16) by (bit_vector);
        (v & 0xF) as u8
    }

    fn ooxx(&self) -> (r: u8)
        ensures
            r == low_byte(self.value),
    {
        let v = self.value;
        assert((v & 0xFFu16) < 256) by (bit_vector);
        (v & 0xFF) as u8
    }

    fn oxxx(&self) -> (r: u16)
        ensures
            r == addr12(self.value),
            r < 0x1000,
    {
        let v = self.value;
        assert((v & 0xFFFu16) < 0x1000) by (bit_vector);
        v & 0xFFF
    }
}

} // verus!
