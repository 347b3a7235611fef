use vstd::prelude::*;

verus! {

/// Width of the display, in pixels.
pub const CHIP8_FB_W: usize = 64;

/// Height of the display, in pixels.
pub const CHIP8_FB_H: usize = 32;

/// Number of pixels of the display.
pub const CHIP8_FB_LEN: usize = 2048;

/// The pixel buffer: one 32-bit value per pixel, row after row.
pub type Chip8Fb = [u32; 2048];

/// The abstract value of a display: its pixel buffer as the consumer of the
/// buffer reads it, and the direction in which rows are counted.
pub struct ScreenView {
    pub inverted_y: bool,
    pub fb: Seq<u32>,
}

/// Whether `(x, y)` names a pixel of the display.
pub open spec fn on_screen(x: int, y: int) -> bool {
    0 <= x < CHIP8_FB_W && 0 <= y < CHIP8_FB_H
}

impl ScreenView {
    /// The buffer holds one value for each pixel.
    pub open spec fn wf(self) -> bool {
        self.fb.len() == CHIP8_FB_LEN
    }

    /// The place in the buffer of the pixel at column `x` of the logical row `y`:
    /// rows are counted from the last row of the buffer when `inverted_y` is set.
    pub open spec fn offset(self, x: int, y: int) -> int {
        if self.inverted_y {
            (CHIP8_FB_H - 1 - y) * CHIP8_FB_W + x
        } else {
            y * CHIP8_FB_W + x
        }
    }

    /// The value of the pixel at the logical coordinates `(x, y)`.
    pub open spec fn pixel(self, x: int, y: int) -> u32 {
        self.fb[self.offset(x, y)]
    }

    /// The display after `value` has been xor-ed into the pixel at `(x, y)`.
    pub open spec fn with_xor(self, x: int, y: int, value: u32) -> ScreenView {
        ScreenView {
            inverted_y: self.inverted_y,
            fb: self.fb.update(self.offset(x, y), self.pixel(x, y) ^ value),
        }
    }

    /// Whether xor-ing `value` into the pixel at `(x, y)` meets a lit pixel
    /// with a lit value.
    pub open spec fn collides(self, x: int, y: int, value: u32) -> bool {
        self.pixel(x, y) != 0 && value != 0
    }

    /// The display with every pixel set to `color`.
    pub open spec fn filled(self, color: u32) -> ScreenView {
        ScreenView { inverted_y: self.inverted_y, fb: Seq::new(CHIP8_FB_LEN as nat, |i: int| color) }
    }
}

/// The logical coordinates name a place inside the buffer, and two
/// different pixels never share one.
pub proof fn lemma_offset_in_buffer(s: ScreenView, x: int, y: int)
    requires
        on_screen(x, y),
    ensures
        0 <= s.offset(x, y) < CHIP8_FB_LEN,
        forall|x2: int, y2: int|
            on_screen(x2, y2) && (x2 != x || y2 != y) ==> #[trigger] s.offset(x2, y2) != s.offset(
                x,
                y,
            ),
{
}

/// Xor-ing the same value twice into the same pixel gives the display back.
pub proof fn lemma_xor_pixel_twice(s: ScreenView, x: int, y: int, value: u32)
    requires
        s.wf(),
        on_screen(x, y),
    ensures
        s.with_xor(x, y, value).with_xor(x, y, value) == s,
{
    let p = s.pixel(x, y);
    assert((p ^ value) ^ value == p) by (bit_vector);
    assert(s.with_xor(x, y, value).with_xor(x, y, value).fb =~= s.fb);
}

/// A 64 by 32 display of 32-bit pixels.
#[derive(Clone)]
pub struct Screen {
    inverted_y: bool,
    fb: Chip8Fb,
}

impl View for Screen {
    type V = ScreenView;

    closed spec fn view(&self) -> ScreenView {
        ScreenView { inverted_y: self.inverted_y, fb: self.fb@ }
    }
}

impl Screen {
    /// A display with every pixel 0, whose rows are counted from the last
    /// row of the buffer.
    pub fn new() -> (r: Self)
        ensures
            r@.wf(),
            r@.inverted_y,
            r@.fb == Seq::new(CHIP8_FB_LEN as nat, |i: int| 0u32),
    {
        let r = Screen { inverted_y: true, fb: [0u32;2048] };
        proof {
            assert(r@.fb =~= Seq::new(CHIP8_FB_LEN as nat, |i: int| 0u32));
        }
        r
    }

    /// The buffer always holds one value for each pixel.
    pub proof fn lemma_wf(&self)
        ensures
            self@.wf(),
    {
    }

    /// Chooses the direction in which rows are counted; the buffer stays as it is.
    pub fn set_inverted_y(&mut self, b: bool)
        ensures
            final(self)@ == (ScreenView { inverted_y: b, fb: old(self)@.fb }),
    {
        self.inverted_y = b;
    }

    fn px_index(&self, coords: (i32, i32)) -> (k: usize)
        requires
            on_screen(coords.0 as int, coords.1 as int),
        ensures
            k == self@.offset(coords.0 as int, coords.1 as int),
            k < CHIP8_FB_LEN,
    {
        let y: usize = if self.inverted_y {
            CHIP8_FB_H - 1 - (coords.1 as usize)
        } else {
            coords.1 as usize
        };
        y * CHIP8_FB_W + (coords.0 as usize)
    }

    /// The pixel buffer, row after row.
    pub fn data(&self) -> (r: &[u32])
        ensures
            r@ == self@.fb,
    {
        self.fb.as_slice()
    }

    /// Width and height of the display.
    pub fn dims(&self) -> (r: (u32, u32))
        ensures
            r.0 == CHIP8_FB_W,
            r.1 == CHIP8_FB_H,
    {
        (64, 32)
    }

    /// Width of the display.
    pub fn width(&self) -> (r: u32)
        ensures
            r == CHIP8_FB_W,
    {
        64
    }

    /// Height of the display.
    pub fn height(&self) -> (r: u32)
        ensures
            r == CHIP8_FB_H,
    {
        32
    }

    /// Overwrites the value at column `coords.0` of the buffer's row `coords.1`.
    pub fn set_pixel(&mut self, coords: (i32, i32), value: u32)
        requires
            on_screen(coords.0 as int, coords.1 as int),
        ensures
            final(self)@ == (ScreenView {
                inverted_y: old(self)@.inverted_y,
                fb: old(self)@.fb.update(coords.1 * CHIP8_FB_W + coords.0, value),
            }),
    {
        let k: usize = (coords.1 as usize) * CHIP8_FB_W + (coords.0 as usize);
        self.fb[k] = value;
    }

    /// Xors `value` into the pixel at the logical coordinates `coords`, and
    /// tells whether both the pixel and `value` were nonzero before.
    pub fn xor_pixel(&mut self, coords: (i32, i32), value: u32) -> (r: bool)
        requires
            on_screen(coords.0 as int, coords.1 as int),
        ensures
            r == old(self)@.collides(coords.0 as int, coords.1 as int, value),
            final(self)@ == old(self)@.with_xor(coords.0 as int, coords.1 as int, value),
    {
        let k = self.px_index(coords);
        let old_px: u32 = self.fb[k];
        self.fb[k] = old_px ^ value;
        old_px != 0 && value != 0
    }

    /// Sets every pixel to `color`.
    pub fn clear(&mut self, color: u32)
        ensures
            final(self)@ == old(self)@.filled(color),
            forall|x: int, y: int| on_screen(x, y) ==> final(self)@.pixel(x, y) == color,
    {
        let mut i: usize = 0;
        while i < CHIP8_FB_LEN
            invariant
                i <= CHIP8_FB_LEN,
                self.inverted_y == old(self).inverted_y,
                forall|j: int| 0 <= j < i ==> self.fb@[j] == color,
            decreases CHIP8_FB_LEN - i,
        {
            self.fb[i] = color;
            i += 1;
        }
        proof {
            assert(self@.fb =~= old(self)@.filled(color).fb);
            assert forall|x: int, y: int| on_screen(x, y) implies self@.pixel(x, y) == color by {
                lemma_offset_in_buffer(self@, x, y);
            }
        }
    }
}

} // verus!
