//! The indexed-colour framebuffer: a grid of palette indices, one byte per
//! pixel, row after row.

use crate::palette::{find_palette, nearest_index, Metric, PALETTE, PALETTE_SIZE};
use crate::{BUFFER_HEIGHT, BUFFER_LEN, BUFFER_WIDTH};
use vstd::prelude::*;

verus! {

/// What a drawing operation can report. Writes off the grid are dropped in
/// silence, so no operation of the framebuffer returns it.
#[derive(Debug)]
pub enum DrawError {
    SetOutOfRange,
}

/// One true-colour pixel write: a position, which may lie off the grid, and
/// red, green and blue.
#[derive(Debug, Clone, Copy)]
pub struct Pixel {
    pub x: i32,
    pub y: i32,
    pub color: [u8; 3],
}

/// The framebuffer.
pub struct Display {
    pub buf: [u8; BUFFER_LEN],
}

/// Whether `(x, y)` is a position on the grid.
pub open spec fn in_bounds(x: int, y: int) -> bool {
    0 <= x < BUFFER_WIDTH && 0 <= y < BUFFER_HEIGHT
}

/// The place of the pixel `(x, y)` in the buffer.
pub open spec fn cell(x: int, y: int) -> int {
    x + y * BUFFER_WIDTH
}

/// The buffer after one write: the cell takes the colour if the position is
/// on the grid, and nothing changes if it is not.
pub open spec fn with_cell(buf: Seq<u8>, x: int, y: int, color: u8) -> Seq<u8> {
    if in_bounds(x, y) {
        buf.update(cell(x, y), color)
    } else {
        buf
    }
}

/// The buffer after a sequence of writes `(x, y, colour)`, made in order.
pub open spec fn after_sets(buf: Seq<u8>, writes: Seq<(int, int, u8)>) -> Seq<u8>
    decreases writes.len(),
{
    if writes.len() == 0 {
        buf
    } else {
        let w = writes.last();
        with_cell(after_sets(buf, writes.drop_last()), w.0, w.1, w.2)
    }
}

/// The palette index that stands for a true colour.
pub open spec fn quantized(color: [u8; 3]) -> u8 {
    nearest_index(PALETTE@, Metric::WeightedSquared, color) as u8
}

/// The indexed write that a true-colour pixel write comes to.
pub open spec fn pixel_write(pixel: Pixel) -> (int, int, u8) {
    (pixel.x as int, pixel.y as int, quantized(pixel.color))
}

/// The buffer after a sequence of true-colour pixel writes, made in order.
pub open spec fn painted(buf: Seq<u8>, pixels: Seq<Pixel>) -> Seq<u8> {
    after_sets(buf, pixels.map_values(|p: Pixel| pixel_write(p)))
}

/// Whether every byte of a buffer is an index into the colour table.
pub open spec fn is_indexed(buf: Seq<u8>) -> bool {
    forall|i: int| 0 <= i < buf.len() ==> #[trigger] buf[i] < PALETTE_SIZE
}

impl View for Display {
    type V = Seq<u8>;

    open spec fn view(&self) -> Seq<u8> {
        self.buf@
    }
}

impl Display {
    /// A framebuffer with every pixel at index 0.
    pub fn new() -> (display: Display)
        ensures
            display@ == Seq::new(BUFFER_LEN as nat, |i: int| 0u8),
            is_indexed(display@),
    {
        Display { buf: [0;BUFFER_LEN] }
    }

    /// The size of the grid: width, then height.
    pub fn size(&self) -> (size: (u32, u32))
        ensures
            size.0 == BUFFER_WIDTH,
            size.1 == BUFFER_HEIGHT,
    {
        (BUFFER_WIDTH as u32, BUFFER_HEIGHT as u32)
    }

    /// Copies the whole buffer, byte for byte, into the shared surface `dest`.
    pub fn flush(&self, dest: &mut [u8])
        requires
            old(dest)@.len() == BUFFER_LEN,
        ensures
            final(dest)@ == self@,
    {
        let mut i: usize = 0;
        while i < BUFFER_LEN
            invariant
                i <= BUFFER_LEN,
                dest@.len() == BUFFER_LEN,
                forall|j: int| 0 <= j < i ==> dest@[j] == self.buf@[j],
            decreases BUFFER_LEN - i,
        {
            dest[i] = self.buf[i];
            i += 1;
        }
    }

    /// Fills every pixel with the colour `value`.
    pub fn clear(&mut self, value: u8)
        ensures
            final(self)@ == Seq::new(BUFFER_LEN as nat, |i: int| value),
            value < PALETTE_SIZE ==> is_indexed(final(self)@),
    {
        let mut i: usize = 0;
        while i < BUFFER_LEN
            invariant
                i <= BUFFER_LEN,
                forall|j: int| 0 <= j < i ==> self.buf@[j] == value,
            decreases BUFFER_LEN - i,
        {
            self.buf[i] = value;
            i += 1;
        }
    }

    /// Fills every pixel with index 0.
    pub fn clear_black(&mut self)
        ensures
            final(self)@ == Seq::new(BUFFER_LEN as nat, |i: int| 0u8),
            is_indexed(final(self)@),
    {
        self.clear(0);
    }

    /// Repaints every pixel with the colour that `f` gives for its position.
    pub fn with_func<F: Fn(usize, usize) -> u8>(&mut self, f: F)
        requires
            forall|x: usize, y: usize|
                x < BUFFER_WIDTH && y < BUFFER_HEIGHT ==> call_requires(f, (x, y)),
        ensures
            forall|x: usize, y: usize|
                x < BUFFER_WIDTH && y < BUFFER_HEIGHT ==> call_ensures(
                    f,
                    (x, y),
                    #[trigger] final(self)@[cell(x as int, y as int)],
                ),
            (forall|x: usize, y: usize, c: u8| #[trigger]
                call_ensures(f, (x, y), c) ==> c < PALETTE_SIZE) ==> is_indexed(final(self)@),
    {
        let mut x: usize = 0;
        while x < BUFFER_WIDTH
            invariant
                x <= BUFFER_WIDTH,
                forall|a: usize, b: usize|
                    a < BUFFER_WIDTH && b < BUFFER_HEIGHT ==> call_requires(f, (a, b)),
                forall|a: usize, b: usize|
                    a < x && b < BUFFER_HEIGHT ==> call_ensures(
                        f,
                        (a, b),
                        #[trigger] self@[cell(a as int, b as int)],
                    ),
            decreases BUFFER_WIDTH - x,
        {
            let mut y: usize = 0;
            while y < BUFFER_HEIGHT
                invariant
                    x < BUFFER_WIDTH,
                    y <= BUFFER_HEIGHT,
                    forall|a: usize, b: usize|
                        a < BUFFER_WIDTH && b < BUFFER_HEIGHT ==> call_requires(f, (a, b)),
                    forall|a: usize, b: usize|
                        (a < x && b < BUFFER_HEIGHT) || (a == x && b < y) ==> call_ensures(
                            f,
                            (a, b),
                            #[trigger] self@[cell(a as int, b as int)],
                        ),
                decreases BUFFER_HEIGHT - y,
            {
                let ghost before = self@;
                let color: u8 = f(x, y);
                let _ = self.set(x, y, color);
                assert forall|a: usize, b: usize|
                    (a < x && b < BUFFER_HEIGHT) || (a == x && b < y + 1) implies call_ensures(
                    f,
                    (a, b),
                    #[trigger] self@[cell(a as int, b as int)],
                ) by {
                    if a != x || b != y {
                        assert(self@[cell(a as int, b as int)] == before[cell(a as int, b as int)]);
                    }
                }
                y += 1;
            }
            x += 1;
        }
        assert((forall|a: usize, b: usize, c: u8| #[trigger]
            call_ensures(f, (a, b), c) ==> c < PALETTE_SIZE) ==> is_indexed(self@)) by {
            if forall|a: usize, b: usize, c: u8| #[trigger]
                call_ensures(f, (a, b), c) ==> c < PALETTE_SIZE {
                assert forall|i: int| 0 <= i < self@.len() implies #[trigger] self@[i]
                    < PALETTE_SIZE by {
                    let a = (i % BUFFER_WIDTH as int) as usize;
                    let b = (i / BUFFER_WIDTH as int) as usize;
                    assert(cell(a as int, b as int) == i);
                    assert(call_ensures(f, (a, b), self@[cell(a as int, b as int)]));
                }
            }
        }
    }

    /// The colour of the pixel `(x, y)`, which must be on the grid.
    pub fn get(&mut self, x: usize, y: usize) -> (color: u8)
        requires
            in_bounds(x as int, y as int),
        ensures
            color == old(self)@[cell(x as int, y as int)],
            final(self)@ == old(self)@,
    {
        let i: usize = x + y * BUFFER_WIDTH;
        self.buf[i]
    }

    /// Writes the colour of the pixel `(x, y)`. A position off the grid is not
    /// an error: the write is dropped.
    pub fn set(&mut self, x: usize, y: usize, color: u8) -> (done: Result<(), DrawError>)
        ensures
            done is Ok,
            final(self)@ == with_cell(old(self)@, x as int, y as int, color),
            is_indexed(old(self)@) && color < PALETTE_SIZE ==> is_indexed(final(self)@),
    {
        if x >= BUFFER_WIDTH || y >= BUFFER_HEIGHT {
            return Ok(());
        }
        let i: usize = x + y * BUFFER_WIDTH;
        self.buf[i] = color;
        Ok(())
    }

    /// Stores one true-colour pixel as the nearest colour of the table. A
    /// pixel off the grid is dropped.
    pub fn draw_pixel(&mut self, pixel: Pixel) -> (done: Result<(), DrawError>)
        ensures
            done is Ok,
            final(self)@ == painted(old(self)@, seq![pixel]),
            is_indexed(old(self)@) ==> is_indexed(final(self)@),
    {
        let ghost before = self@;
        let (pal, _) = find_palette(pixel.color[0], pixel.color[1], pixel.color[2]);
        assert(pixel.color =~= [pixel.color[0], pixel.color[1], pixel.color[2]]);
        if pixel.x >= 0 && pixel.y >= 0 {
            let _ = self.set(pixel.x as usize, pixel.y as usize, pal);
        }
        proof {
            let writes = seq![pixel].map_values(|p: Pixel| pixel_write(p));
            assert(after_sets(before, writes.drop_last()) == before);
        }
        Ok(())
    }

    /// Stores a stream of true-colour pixels, in order, each as the nearest
    /// colour of the table. Pixels off the grid are dropped.
    pub fn draw_iter(&mut self, pixels: &[Pixel]) -> (done: Result<(), DrawError>)
        ensures
            done is Ok,
            final(self)@ == painted(old(self)@, pixels@),
            is_indexed(old(self)@) ==> is_indexed(final(self)@),
    {
        let mut i: usize = 0;
        while i < pixels.len()
            invariant
                i <= pixels@.len(),
                self@ == painted(old(self)@, pixels@.take(i as int)),
                is_indexed(old(self)@) ==> is_indexed(self@),
            decreases pixels@.len() - i,
        {
            let pixel = pixels[i];
            let (pal, _) = find_palette(pixel.color[0], pixel.color[1], pixel.color[2]);
            assert(pixel.color =~= [pixel.color[0], pixel.color[1], pixel.color[2]]);
            if pixel.x >= 0 && pixel.y >= 0 {
                let _ = self.set(pixel.x as usize, pixel.y as usize, pal);
            }
            proof {
                let f = |p: Pixel| pixel_write(p);
                let next = pixels@.take(i + 1).map_values(f);
                assert(next.drop_last() =~= pixels@.take(i as int).map_values(f));
            }
            i += 1;
        }
        assert(pixels@.take(i as int) =~= pixels@);
        Ok(())
    }
}

/// Side of a square of the test card, in pixels.
pub const SWATCH_SIZE: usize = 24;

/// The colour that the test card shows at `(x, y)`: the grid is cut into
/// squares of `SWATCH_SIZE` pixels, counted row after row, and square `n`
/// shows colour `n` of the table; squares past the end of the table show
/// colour 0.
pub open spec fn swatch_color(x: int, y: int) -> int {
    let n = x / (SWATCH_SIZE as int) + (y / (SWATCH_SIZE as int)) * (BUFFER_WIDTH as int / (
    SWATCH_SIZE as int));
    if n >= PALETTE_SIZE {
        0
    } else {
        n
    }
}

/// The colour that the test card shows at a position on the grid.
pub fn swatch(x: usize, y: usize) -> (color: u8)
    requires
        in_bounds(x as int, y as int),
    ensures
        color == swatch_color(x as int, y as int),
        color < PALETTE_SIZE,
{
    let column: usize = x / SWATCH_SIZE;
    let row: usize = y / SWATCH_SIZE;
    let per_row: usize = BUFFER_WIDTH / SWATCH_SIZE;
    let mut i: usize = column + row * per_row;
    if i >= PALETTE_SIZE {
        i = 0;
    }
    i as u8
}

/// Writes that all fall off the grid leave the buffer as it was, however many
/// they are.
pub proof fn lemma_out_of_range_sets(buf: Seq<u8>, writes: Seq<(int, int, u8)>)
    requires
        forall|i: int| 0 <= i < writes.len() ==> !in_bounds(#[trigger] writes[i].0, writes[i].1),
    ensures
        after_sets(buf, writes) == buf,
    decreases writes.len(),
{
    if writes.len() > 0 {
        lemma_out_of_range_sets(buf, writes.drop_last());
    }
}

/// Writes keep the length of the buffer, and writes of table indices keep a
/// buffer of table indices.
pub proof fn lemma_sets_keep_indexed(buf: Seq<u8>, writes: Seq<(int, int, u8)>)
    requires
        buf.len() == BUFFER_LEN,
    ensures
        after_sets(buf, writes).len() == BUFFER_LEN,
        is_indexed(buf) && (forall|i: int| 0 <= i < writes.len() ==> (#[trigger] writes[i]).2
            < PALETTE_SIZE) ==> is_indexed(after_sets(buf, writes)),
    decreases writes.len(),
{
    if writes.len() > 0 {
        lemma_sets_keep_indexed(buf, writes.drop_last());
        assert(forall|i: int|
            0 <= i < writes.drop_last().len() ==> writes.drop_last()[i] == writes[i]);
    }
}

} // verus!
