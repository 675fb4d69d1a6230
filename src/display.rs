use vstd::prelude::*;

verus! {

/// Columns of the screen.
pub const WIDTH: usize = 64;

/// Rows of the screen.
pub const HEIGHT: usize = 32;

/// Pixels of the screen.
pub const PIXELS: usize = 2048;

/// The font: one five-byte glyph for each hexadecimal digit, `0` to `F`.
pub const SPRITES: [u8; 80] = [
    0xF0, 0x90, 0x90, 0x90, 0xF0,
    0x20, 0x60, 0x20, 0x20, 0x70,
    0xF0, 0x10, 0xF0, 0x80, 0xF0,
    0xF0, 0x10, 0xF0, 0x10, 0xF0,
    0x90, 0x90, 0xF0, 0x10, 0x10,
    0xF0, 0x80, 0xF0, 0x10, 0xF0,
    0xF0, 0x80, 0xF0, 0x90, 0xF0,
    0xF0, 0x10, 0x20, 0x40, 0x40,
    0xF0, 0x90, 0xF0, 0x90, 0xF0,
    0xF0, 0x90, 0xF0, 0x10, 0xF0,
    0xF0, 0x90, 0xF0, 0x90, 0x90,
    0xE0, 0x90, 0xE0, 0x90, 0xE0,
    0xF0, 0x80, 0x80, 0x80, 0xF0,
    0xE0, 0x90, 0x90, 0x90, 0xE0,
    0xF0, 0x80, 0xF0, 0x80, 0xF0,
    0xF0, 0x80, 0xF0, 0x80, 0x80,
];

/// Bit `c` of a sprite row, counting from the most significant bit.
pub open spec fn bit_at(byte: u8, c: int) -> bool {
    (byte >> ((7 - c) as u8)) & 1u8 == 1u8
}

/// The sprite row that lands on screen row `row` when the sprite's top is
/// at `y`, counting with vertical wraparound.
pub open spec fn sprite_row(y: int, row: int) -> int {
    (row - y) % (HEIGHT as int)
}

/// The bit of a sprite row that lands on screen column `col` when the
/// sprite's left edge is at `x`, counting with horizontal wraparound.
pub open spec fn sprite_col(x: int, col: int) -> int {
    (col - x) % (WIDTH as int)
}

/// The sprite drawn at `(x, y)` has a set bit on pixel `i` (row-major),
/// among its first `rows` rows and the first `bits` bits of row `rows`.
#[verifier::opaque]
pub open spec fn covers_upto(
    sprite: Seq<u8>,
    x: int,
    y: int,
    i: int,
    rows: int,
    bits: int,
) -> bool {
    let k = sprite_row(y, i / (WIDTH as int));
    let c = sprite_col(x, i % (WIDTH as int));
    &&& k < sprite.len()
    &&& c < 8
    &&& (k < rows || (k == rows && c < bits))
    &&& bit_at(sprite[k], c)
}

/// The sprite drawn at `(x, y)` has a set bit on pixel `i` (row-major).
pub open spec fn covers(sprite: Seq<u8>, x: int, y: int, i: int) -> bool {
    covers_upto(sprite, x, y, i, sprite.len() as int, 0)
}

/// The screen after the sprite is drawn at `(x, y)`: each pixel that the
/// sprite covers with a set bit is flipped.
pub open spec fn drawn(screen: Seq<bool>, x: int, y: int, sprite: Seq<u8>) -> Seq<bool> {
    Seq::new(screen.len(), |i: int| screen[i] != covers(sprite, x, y, i))
}

/// Drawing the sprite at `(x, y)` turns some lit pixel off.
pub open spec fn collides(screen: Seq<bool>, x: int, y: int, sprite: Seq<u8>) -> bool {
    exists|i: int| 0 <= i < screen.len() && #[trigger] screen[i] && covers(sprite, x, y, i)
}

/// Drawing the same sprite at the same place twice leaves the screen as it
/// was, and the second drawing turns off exactly the pixels that the first
/// one turned on: it reports a collision exactly when the first lit a pixel.
pub proof fn lemma_draw_twice(screen: Seq<bool>, x: int, y: int, sprite: Seq<u8>)
    ensures
        drawn(drawn(screen, x, y, sprite), x, y, sprite) == screen,
        forall|i: int|
            0 <= i < screen.len() ==> ((#[trigger] drawn(screen, x, y, sprite)[i] && !drawn(
                drawn(screen, x, y, sprite),
                x,
                y,
                sprite,
            )[i]) <==> (!screen[i] && drawn(screen, x, y, sprite)[i])),
        collides(drawn(screen, x, y, sprite), x, y, sprite) <==> exists|i: int|
            0 <= i < screen.len() && !screen[i] && #[trigger] drawn(screen, x, y, sprite)[i],
{
    let once = drawn(screen, x, y, sprite);
    assert(drawn(once, x, y, sprite) =~= screen);
    if collides(once, x, y, sprite) {
        let i = choose|i: int| 0 <= i < once.len() && #[trigger] once[i] && covers(sprite, x, y, i);
        assert(!screen[i] && once[i]);
    }
    if exists|i: int| 0 <= i < screen.len() && !screen[i] && #[trigger] once[i] {
        let i = choose|i: int| 0 <= i < screen.len() && !screen[i] && #[trigger] once[i];
        assert(once[i] && covers(sprite, x, y, i));
    }
}

/// The 64x32 monochrome screen, `true` for a lit pixel.
pub struct Display {
    buffer: Vec<bool>,
}

impl View for Display {
    type V = Seq<bool>;

    /// The pixels, row after row.
    closed spec fn view(&self) -> Seq<bool> {
        self.buffer@
    }
}

/// Pixel `i` (row-major) lies on row `(y + k) % 32` and column `(x + b) % 64`
/// exactly when the sprite's row `k` and bit `b` land on it.
proof fn lemma_cell(i: int, x: int, y: int, k: int, b: int)
    requires
        0 <= i < PIXELS,
        0 <= x < 256,
        0 <= y < 256,
        0 <= k < HEIGHT,
        0 <= b < 8,
    ensures
        (sprite_row(y, i / 64) == k && sprite_col(x, i % 64) == b) <==> i == ((y + k) % 32) * 64
            + (x + b) % 64,
        0 <= ((y + k) % 32) * 64 + (x + b) % 64 < PIXELS,
{
    let r = i / 64;
    let c = i % 64;
    assert(i == r * 64 + c && 0 <= r < 32 && 0 <= c < 64);
    let r2 = (y + k) % 32;
    let c2 = (x + b) % 64;
    assert((r - y) % 32 == k <==> r == r2) by {
        vstd::arithmetic::div_mod::lemma_fundamental_div_mod(y + k, 32);
        vstd::arithmetic::div_mod::lemma_fundamental_div_mod(r - y, 32);
    }
    assert((c - x) % 64 == b <==> c == c2) by {
        vstd::arithmetic::div_mod::lemma_fundamental_div_mod(x + b, 64);
        vstd::arithmetic::div_mod::lemma_fundamental_div_mod(c - x, 64);
    }
    assert(r * 64 + c == r2 * 64 + c2 <==> (r == r2 && c == c2)) by (nonlinear_arith)
        requires
            0 <= r < 32,
            0 <= c < 64,
            0 <= r2 < 32,
            0 <= c2 < 64,
    ;
}

/// The screen after the sprite's first `rows` rows, and the first `bits`
/// bits of row `rows`, are drawn.
pub open spec fn partial_draw(
    screen: Seq<bool>,
    sprite: Seq<u8>,
    x: int,
    y: int,
    rows: int,
    bits: int,
) -> Seq<bool> {
    Seq::new(screen.len(), |i: int| screen[i] != covers_upto(sprite, x, y, i, rows, bits))
}

/// Some lit pixel lies under a set bit among the sprite's first `rows`
/// rows and the first `bits` bits of row `rows`.
pub open spec fn lit_hit(
    screen: Seq<bool>,
    sprite: Seq<u8>,
    x: int,
    y: int,
    rows: int,
    bits: int,
) -> bool {
    exists|i: int|
        0 <= i < screen.len() && #[trigger] screen[i] && covers_upto(sprite, x, y, i, rows, bits)
}

/// Bit `b` of row `k` covers one more pixel than the bits before it.
proof fn lemma_cover_step(sprite: Seq<u8>, x: int, y: int, i: int, k: int, b: int)
    requires
        sprite.len() <= HEIGHT,
        0 <= i < PIXELS,
        0 <= x < 256,
        0 <= y < 256,
        0 <= k < sprite.len(),
        0 <= b < 8,
    ensures
        covers_upto(sprite, x, y, i, k, b + 1) == (covers_upto(sprite, x, y, i, k, b) || (i == ((y
            + k) % 32) * 64 + (x + b) % 64 && bit_at(sprite[k], b))),
        i == ((y + k) % 32) * 64 + (x + b) % 64 ==> !covers_upto(sprite, x, y, i, k, b),
{
    reveal(covers_upto);
    lemma_cell(i, x, y, k, b);
}

/// Drawing bit `b` of row `k` flips one pixel, which no earlier bit reached.
proof fn lemma_draw_step(screen: Seq<bool>, sprite: Seq<u8>, x: int, y: int, k: int, b: int)
    requires
        screen.len() == PIXELS,
        sprite.len() <= HEIGHT,
        0 <= x < 256,
        0 <= y < 256,
        0 <= k < sprite.len(),
        0 <= b < 8,
    ensures
        ({
            let idx = ((y + k) % 32) * 64 + (x + b) % 64;
            let bit = bit_at(sprite[k], b);
            &&& 0 <= idx < PIXELS
            &&& partial_draw(screen, sprite, x, y, k, b)[idx] == screen[idx]
            &&& partial_draw(screen, sprite, x, y, k, b + 1) == partial_draw(
                screen,
                sprite,
                x,
                y,
                k,
                b,
            ).update(idx, screen[idx] != bit)
            &&& lit_hit(screen, sprite, x, y, k, b + 1) == (lit_hit(screen, sprite, x, y, k, b) || (
            screen[idx] && bit))
        }),
{
    let idx = ((y + k) % 32) * 64 + (x + b) % 64;
    let bit = bit_at(sprite[k], b);
    lemma_cell(0, x, y, k, b);
    assert forall|i: int| 0 <= i < PIXELS implies #[trigger] covers_upto(
        sprite,
        x,
        y,
        i,
        k,
        b + 1,
    ) == (covers_upto(sprite, x, y, i, k, b) || (i == idx && bit)) && (i == idx ==> !covers_upto(
        sprite,
        x,
        y,
        i,
        k,
        b,
    )) by {
        lemma_cover_step(sprite, x, y, i, k, b);
    }
    lemma_cover_step(sprite, x, y, idx, k, b);
    let before = partial_draw(screen, sprite, x, y, k, b);
    assert(before[idx] == screen[idx]);
    let after = partial_draw(screen, sprite, x, y, k, b + 1);
    assert(after =~= before.update(idx, screen[idx] != bit));
    if screen[idx] && bit {
        assert(covers_upto(sprite, x, y, idx, k, b + 1));
    }
    if lit_hit(screen, sprite, x, y, k, b) {
        let i = choose|i: int|
            0 <= i < screen.len() && #[trigger] screen[i] && covers_upto(sprite, x, y, i, k, b);
        assert(covers_upto(sprite, x, y, i, k, b + 1));
    }
    if lit_hit(screen, sprite, x, y, k, b + 1) {
        let i = choose|i: int|
            0 <= i < screen.len() && #[trigger] screen[i] && covers_upto(sprite, x, y, i, k, b + 1);
        if i != idx {
            assert(covers_upto(sprite, x, y, i, k, b));
        }
    }
}

/// Nothing drawn yet leaves the screen as it was.
proof fn lemma_draw_start(screen: Seq<bool>, sprite: Seq<u8>, x: int, y: int)
    ensures
        partial_draw(screen, sprite, x, y, 0, 0) == screen,
        !lit_hit(screen, sprite, x, y, 0, 0),
{
    reveal(covers_upto);
    assert(partial_draw(screen, sprite, x, y, 0, 0) =~= screen);
}

/// All eight bits of row `k` drawn is row `k + 1` begun.
proof fn lemma_draw_next_row(screen: Seq<bool>, sprite: Seq<u8>, x: int, y: int, k: int)
    ensures
        partial_draw(screen, sprite, x, y, k, 8) == partial_draw(screen, sprite, x, y, k + 1, 0),
        lit_hit(screen, sprite, x, y, k, 8) == lit_hit(screen, sprite, x, y, k + 1, 0),
{
    assert forall|i: int| #[trigger] covers_upto(sprite, x, y, i, k, 8) == covers_upto(
        sprite,
        x,
        y,
        i,
        k + 1,
        0,
    ) by {
        reveal(covers_upto);
    }
    assert(partial_draw(screen, sprite, x, y, k, 8) =~= partial_draw(
        screen,
        sprite,
        x,
        y,
        k + 1,
        0,
    ));
}

/// Every row drawn is the whole sprite drawn.
proof fn lemma_draw_done(screen: Seq<bool>, sprite: Seq<u8>, x: int, y: int)
    ensures
        partial_draw(screen, sprite, x, y, sprite.len() as int, 0) == drawn(screen, x, y, sprite),
        lit_hit(screen, sprite, x, y, sprite.len() as int, 0) == collides(screen, x, y, sprite),
{
    assert(partial_draw(screen, sprite, x, y, sprite.len() as int, 0) =~= drawn(
        screen,
        x,
        y,
        sprite,
    ));
}

impl Display {
    /// The screen holds its 2048 pixels.
    pub open spec fn wf(&self) -> bool {
        self@.len() == PIXELS
    }

    /// A screen with every pixel unlit.
    pub fn new() -> (r: Display)
        ensures
            r.wf(),
            forall|i: int| 0 <= i < PIXELS ==> !#[trigger] r@[i],
    {
        Display { buffer: vec![false; PIXELS] }
    }

    /// Draws the sprite, one byte per row, with its top left corner at
    /// `(starting_x, starting_y)`, flipping the pixel under each set bit and
    /// wrapping around the edges. Returns whether a lit pixel was turned off.
    pub fn draw(&mut self, starting_x: u8, starting_y: u8, memory: &[u8]) -> (pixel_turned_off:
        bool)
        requires
            old(self).wf(),
            memory@.len() <= HEIGHT,
        ensures
            final(self).wf(),
            final(self)@ == drawn(old(self)@, starting_x as int, starting_y as int, memory@),
            pixel_turned_off == collides(old(self)@, starting_x as int, starting_y as int, memory@),
    {
        let ghost old_screen = self@;
        let ghost sx = starting_x as int;
        let ghost sy = starting_y as int;
        let ghost sprite = memory@;
        let mut pixel_turned_off = false;
        let mut byte_number: usize = 0;
        proof {
            lemma_draw_start(old_screen, sprite, sx, sy);
        }
        while byte_number < memory.len()
            invariant
                self.wf(),
                sx == starting_x as int,
                sy == starting_y as int,
                old_screen.len() == PIXELS,
                sprite == memory@,
                sprite.len() <= HEIGHT,
                0 <= byte_number <= sprite.len(),
                self@ == partial_draw(old_screen, sprite, sx, sy, byte_number as int, 0),
                pixel_turned_off == lit_hit(old_screen, sprite, sx, sy, byte_number as int, 0),
            decreases memory.len() - byte_number,
        {
            let block = memory[byte_number];
            let y = (starting_y as usize + byte_number) % HEIGHT;
            let mut bit_number: u8 = 0;
            while bit_number < 8
                invariant
                    self.wf(),
                    sx == starting_x as int,
                    sy == starting_y as int,
                    old_screen.len() == PIXELS,
                    sprite == memory@,
                    sprite.len() <= HEIGHT,
                    0 <= byte_number < sprite.len(),
                    block == sprite[byte_number as int],
                    y == (sy + byte_number) % 32,
                    0 <= bit_number <= 8,
                    self@ == partial_draw(
                        old_screen,
                        sprite,
                        sx,
                        sy,
                        byte_number as int,
                        bit_number as int,
                    ),
                    pixel_turned_off == lit_hit(
                        old_screen,
                        sprite,
                        sx,
                        sy,
                        byte_number as int,
                        bit_number as int,
                    ),
                decreases 8 - bit_number,
            {
                let x = (starting_x as usize + bit_number as usize) % WIDTH;
                let idx = y * WIDTH + x;
                proof {
                    lemma_draw_step(
                        old_screen,
                        sprite,
                        sx,
                        sy,
                        byte_number as int,
                        bit_number as int,
                    );
                }
                let current_pixel = self.buffer[idx];
                let current_bit = (block >> (7 - bit_number)) & 1 == 1;
                let new_pixel = current_bit != current_pixel;
                self.buffer.set(idx, new_pixel);
                if current_pixel && !new_pixel {
                    pixel_turned_off = true;
                }
                bit_number = bit_number + 1;
            }
            proof {
                lemma_draw_next_row(old_screen, sprite, sx, sy, byte_number as int);
            }
            byte_number = byte_number + 1;
        }
        proof {
            lemma_draw_done(old_screen, sprite, sx, sy);
        }
        pixel_turned_off
    }

    /// The pixels, one vector of 64 per row, top row first.
    pub fn get_buffer(&self) -> (r: Vec<Vec<bool>>)
        requires
            self.wf(),
        ensures
            r@.len() == HEIGHT,
            forall|row: int|
                0 <= row < HEIGHT ==> (#[trigger] r@[row])@ == self@.subrange(
                    row * 64,
                    row * 64 + 64,
                ),
    {
        let mut rows: Vec<Vec<bool>> = Vec::new();
        let mut row: usize = 0;
        while row < HEIGHT
            invariant
                self.wf(),
                row <= HEIGHT,
                rows@.len() == row,
                forall|k: int|
                    0 <= k < row ==> (#[trigger] rows@[k])@ == self@.subrange(k * 64, k * 64 + 64),
            decreases HEIGHT - row,
        {
            let mut line: Vec<bool> = Vec::new();
            let mut col: usize = 0;
            while col < WIDTH
                invariant
                    self.wf(),
                    row < HEIGHT,
                    col <= WIDTH,
                    line@ == self@.subrange(row * 64, row * 64 + col),
                decreases WIDTH - col,
            {
                line.push(self.buffer[row * WIDTH + col]);
                col = col + 1;
                assert(line@ =~= self@.subrange(row * 64, row * 64 + col));
            }
            rows.push(line);
            row = row + 1;
        }
        rows
    }

    /// Turns every pixel off.
    pub fn clear(&mut self)
        requires
            old(self).wf(),
        ensures
            final(self).wf(),
            forall|i: int| 0 <= i < PIXELS ==> !#[trigger] final(self)@[i],
    {
        self.buffer = vec![false; PIXELS];
    }
}

} // verus!
