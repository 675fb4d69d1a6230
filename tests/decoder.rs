use rust8::instruction::{Instruction, RawInstruction};

fn decode(v: u16) -> Option<Instruction> {
    RawInstruction::new(v).to_instruction()
}

fn xkk(f: u16, x: u8, kk: u8) -> u16 {
    (f << 12) | ((x as u16) << 8) | kk as u16
}

fn xyn(f: u16, x: u8, y: u8, n: u8) -> u16 {
    (f << 12) | ((x as u16) << 8) | ((y as u16) << 4) | n as u16
}

fn encode(i: Instruction) -> u16 {
    match i {
        Instruction::ClearDisplay => 0x00E0,
        Instruction::Return => 0x00EE,
        Instruction::Jump(a) => 0x1000 | a,
        Instruction::Call(a) => 0x2000 | a,
        Instruction::SkipIfEqualsByte(x, kk) => xkk(0x3, x, kk),
        Instruction::SkipIfNotEqualsByte(x, kk) => xkk(0x4, x, kk),
        Instruction::SkipIfEqual(x, y) => xyn(0x5, x, y, 0),
        Instruction::LoadByte(x, kk) => xkk(0x6, x, kk),
        Instruction::AddByte(x, kk) => xkk(0x7, x, kk),
        Instruction::Move(x, y) => xyn(0x8, x, y, 0x0),
        Instruction::Or(x, y) => xyn(0x8, x, y, 0x1),
        Instruction::And(x, y) => xyn(0x8, x, y, 0x2),
        Instruction::Xor(x, y) => xyn(0x8, x, y, 0x3),
        Instruction::Add(x, y) => xyn(0x8, x, y, 0x4),
        Instruction::Sub(x, y) => xyn(0x8, x, y, 0x5),
        Instruction::ShiftRight(x) => xyn(0x8, x, 0, 0x6),
        Instruction::ReverseSub(x, y) => xyn(0x8, x, y, 0x7),
        Instruction::ShiftLeft(x) => xyn(0x8, x, 0, 0xE),
        Instruction::SkipIfNotEqual(x, y) => xyn(0x9, x, y, 0),
        Instruction::LoadI(a) => 0xA000 | a,
        Instruction::JumpPlusZero(a) => 0xB000 | a,
        Instruction::Random(x, kk) => xkk(0xC, x, kk),
        Instruction::Draw(x, y, n) => xyn(0xD, x, y, n),
        Instruction::SkipIfPressed(x) => xkk(0xE, x, 0x9E),
        Instruction::SkipIfNotPressed(x) => xkk(0xE, x, 0xA1),
        Instruction::LoadDelayTimer(x) => xkk(0xF, x, 0x07),
        Instruction::WaitForKeyPress(x) => xkk(0xF, x, 0x0A),
        Instruction::SetDelayTimer(x) => xkk(0xF, x, 0x15),
        Instruction::SetSoundTimer(x) => xkk(0xF, x, 0x18),
        Instruction::AddToI(x) => xkk(0xF, x, 0x1E),
        Instruction::LoadSprite(x) => xkk(0xF, x, 0x29),
        Instruction::BCDRepresentation(x) => xkk(0xF, x, 0x33),
        Instruction::StoreRegisters(x) => xkk(0xF, x, 0x55),
        Instruction::LoadRegisters(x) => xkk(0xF, x, 0x65),
    }
}

fn reads_every_bit(v: u16) -> bool {
    let f = v >> 12;
    let x = (v >> 8) & 0xF;
    let y = (v >> 4) & 0xF;
    let n = v & 0xF;
    !(f == 0x0 && x != 0)
        && !((f == 0x5 || f == 0x9) && n != 0)
        && !(f == 0x8 && (n == 0x6 || n == 0xE) && y != 0)
}

#[test]
fn decodes_each_family() {
    assert_eq!(decode(0x00E0), Some(Instruction::ClearDisplay));
    assert_eq!(decode(0x00EE), Some(Instruction::Return));
    assert_eq!(decode(0x1234), Some(Instruction::Jump(0x234)));
    assert_eq!(decode(0x2ABC), Some(Instruction::Call(0xABC)));
    assert_eq!(decode(0x3A42), Some(Instruction::SkipIfEqualsByte(0xA, 0x42)));
    assert_eq!(decode(0x4A42), Some(Instruction::SkipIfNotEqualsByte(0xA, 0x42)));
    assert_eq!(decode(0x5AB0), Some(Instruction::SkipIfEqual(0xA, 0xB)));
    assert_eq!(decode(0x6512), Some(Instruction::LoadByte(5, 0x12)));
    assert_eq!(decode(0x7512), Some(Instruction::AddByte(5, 0x12)));
    assert_eq!(decode(0x8AB0), Some(Instruction::Move(0xA, 0xB)));
    assert_eq!(decode(0x8AB1), Some(Instruction::Or(0xA, 0xB)));
    assert_eq!(decode(0x8AB2), Some(Instruction::And(0xA, 0xB)));
    assert_eq!(decode(0x8AB3), Some(Instruction::Xor(0xA, 0xB)));
    assert_eq!(decode(0x8AB4), Some(Instruction::Add(0xA, 0xB)));
    assert_eq!(decode(0x8AB5), Some(Instruction::Sub(0xA, 0xB)));
    assert_eq!(decode(0x8A06), Some(Instruction::ShiftRight(0xA)));
    assert_eq!(decode(0x8AB7), Some(Instruction::ReverseSub(0xA, 0xB)));
    assert_eq!(decode(0x8A0E), Some(Instruction::ShiftLeft(0xA)));
    assert_eq!(decode(0x9AB0), Some(Instruction::SkipIfNotEqual(0xA, 0xB)));
    assert_eq!(decode(0xA123), Some(Instruction::LoadI(0x123)));
    assert_eq!(decode(0xB123), Some(Instruction::JumpPlusZero(0x123)));
    assert_eq!(decode(0xC30F), Some(Instruction::Random(3, 0x0F)));
    assert_eq!(decode(0xD125), Some(Instruction::Draw(1, 2, 5)));
    assert_eq!(decode(0xE39E), Some(Instruction::SkipIfPressed(3)));
    assert_eq!(decode(0xE3A1), Some(Instruction::SkipIfNotPressed(3)));
    assert_eq!(decode(0xF307), Some(Instruction::LoadDelayTimer(3)));
    assert_eq!(decode(0xF30A), Some(Instruction::WaitForKeyPress(3)));
    assert_eq!(decode(0xF315), Some(Instruction::SetDelayTimer(3)));
    assert_eq!(decode(0xF318), Some(Instruction::SetSoundTimer(3)));
    assert_eq!(decode(0xF31E), Some(Instruction::AddToI(3)));
    assert_eq!(decode(0xF329), Some(Instruction::LoadSprite(3)));
    assert_eq!(decode(0xF333), Some(Instruction::BCDRepresentation(3)));
    assert_eq!(decode(0xF355), Some(Instruction::StoreRegisters(3)));
    assert_eq!(decode(0xF365), Some(Instruction::LoadRegisters(3)));
}

#[test]
fn rejects_opcodes_outside_the_table() {
    assert_eq!(decode(0x0000), None);
    assert_eq!(decode(0x00E1), None);
    assert_eq!(decode(0x8AB8), None);
    assert_eq!(decode(0x8ABF), None);
    assert_eq!(decode(0xE19F), None);
    assert_eq!(decode(0xF1FF), None);
}

#[test]
fn decoding_passes_over_ignored_fields() {
    assert_eq!(decode(0x01E0), Some(Instruction::ClearDisplay));
    assert_eq!(decode(0x5121), Some(Instruction::SkipIfEqual(1, 2)));
    assert_eq!(decode(0x8126), Some(Instruction::ShiftRight(1)));
}

#[test]
fn every_opcode_round_trips() {
    for v in 0..=0xFFFFu16 {
        if let Some(i) = decode(v) {
            assert_eq!(decode(encode(i)), Some(i), "opcode {:04X}", v);
            if reads_every_bit(v) {
                assert_eq!(encode(i), v, "opcode {:04X}", v);
            }
        }
    }
}
