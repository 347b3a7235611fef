use crate::screen::{on_screen, Screen, ScreenView, CHIP8_FB_H, CHIP8_FB_LEN, CHIP8_FB_W};
use vstd::prelude::*;

verus! {

/// The value that a lit sprite bit xors into a pixel.
pub const SPRITE_COLOR: u32 = 0xFFFF_FFFF;

/// Number of columns of a sprite: one for each bit of a row's byte.
pub const SPRITE_WIDTH: u8 = 8;

/// Whether the bit of `row` for the sprite's column `dx` is set: the most
/// significant bit is the leftmost column.
pub open spec fn row_bit(row: u8, dx: int) -> bool {
    0 <= dx < SPRITE_WIDTH && row & (0x80u8 >> (dx as u8)) != 0
}

/// Whether the sprite whose rows are `rows`, drawn with its top left corner
/// at `(x, y)` and wrapped around the edges of the display, has a lit bit
/// on the pixel `(px, py)`.
pub open spec fn sprite_lit(rows: Seq<u8>, x: int, y: int, px: int, py: int) -> bool {
    let dx = (px - x) % (CHIP8_FB_W as int);
    let dy = (py - y) % (CHIP8_FB_H as int);
    dy < rows.len() && row_bit(rows[dy], dx)
}

/// `sprite_lit`, for the part of the sprite that comes before column `dx_end`
/// of row `dy_end` when the sprite is walked row by row.
pub open spec fn sprite_lit_before(
    rows: Seq<u8>,
    x: int,
    y: int,
    px: int,
    py: int,
    dy_end: int,
    dx_end: int,
) -> bool {
    let dx = (px - x) % (CHIP8_FB_W as int);
    let dy = (py - y) % (CHIP8_FB_H as int);
    sprite_lit(rows, x, y, px, py) && (dy < dy_end || (dy == dy_end && dx < dx_end))
}

impl ScreenView {
    /// The column of the pixel that the buffer holds at `k`.
    pub open spec fn column_of(self, k: int) -> int {
        k % (CHIP8_FB_W as int)
    }

    /// The logical row of the pixel that the buffer holds at `k`.
    pub open spec fn row_of(self, k: int) -> int {
        if self.inverted_y {
            CHIP8_FB_H - 1 - k / (CHIP8_FB_W as int)
        } else {
            k / (CHIP8_FB_W as int)
        }
    }

    /// Whether the sprite has a lit bit on the pixel that the buffer holds at `k`.
    pub open spec fn sprite_covers(self, rows: Seq<u8>, x: int, y: int, k: int) -> bool {
        sprite_lit(rows, x, y, self.column_of(k), self.row_of(k))
    }

    /// Whether a lit bit of the sprite falls on the pixel at `k` and that
    /// pixel is lit.
    pub open spec fn sprite_erases_at(self, rows: Seq<u8>, x: int, y: int, k: int) -> bool {
        self.sprite_covers(rows, x, y, k) && self.fb[k] != 0
    }

    /// The display after the sprite has been drawn: each pixel under a lit
    /// bit of the sprite is inverted, every other pixel is as before.
    pub open spec fn with_sprite(self, rows: Seq<u8>, x: int, y: int) -> ScreenView {
        ScreenView {
            inverted_y: self.inverted_y,
            fb: Seq::new(
                CHIP8_FB_LEN as nat,
                |k: int|
                    if self.sprite_covers(rows, x, y, k) {
                        self.fb[k] ^ SPRITE_COLOR
                    } else {
                        self.fb[k]
                    },
            ),
        }
    }

    /// Whether drawing the sprite turns off a pixel that was lit.
    pub open spec fn sprite_collides(self, rows: Seq<u8>, x: int, y: int) -> bool {
        exists|k: int| 0 <= k < CHIP8_FB_LEN && #[trigger] self.sprite_erases_at(rows, x, y, k)
    }

    spec fn covers_before(self, rows: Seq<u8>, x: int, y: int, dy: int, dx: int, k: int) -> bool {
        sprite_lit_before(rows, x, y, self.column_of(k), self.row_of(k), dy, dx)
    }

    spec fn erases_before(self, rows: Seq<u8>, x: int, y: int, dy: int, dx: int, k: int) -> bool {
        self.covers_before(rows, x, y, dy, dx, k) && self.fb[k] != 0
    }

    spec fn collides_before(self, rows: Seq<u8>, x: int, y: int, dy: int, dx: int) -> bool {
        exists|k: int|
            0 <= k < CHIP8_FB_LEN && #[trigger] self.erases_before(rows, x, y, dy, dx, k)
    }

    /// What the buffer holds once the sprite has been drawn up to, and
    /// without, column `dx` of row `dy`.
    spec fn drawn_before(self, now: ScreenView, rows: Seq<u8>, x: int, y: int, dy: int, dx: int) -> bool {
        &&& now.inverted_y == self.inverted_y
        &&& now.fb.len() == CHIP8_FB_LEN
        &&& forall|k: int|
            0 <= k < CHIP8_FB_LEN ==> #[trigger] now.fb[k] == if self.covers_before(
                rows,
                x,
                y,
                dy,
                dx,
                k,
            ) {
                self.fb[k] ^ SPRITE_COLOR
            } else {
                self.fb[k]
            }
    }
}

/// Each pixel of the display after a sprite has been drawn, by its logical
/// coordinates.
pub proof fn lemma_with_sprite_pixel(s: ScreenView, rows: Seq<u8>, x: int, y: int, px: int, py: int)
    requires
        s.wf(),
        on_screen(px, py),
    ensures
        s.with_sprite(rows, x, y).pixel(px, py) == if sprite_lit(rows, x, y, px, py) {
            s.pixel(px, py) ^ SPRITE_COLOR
        } else {
            s.pixel(px, py)
        },
{
    lemma_pixel_place(s, px, py);
}

/// Drawing a sprite collides exactly when one of its lit bits falls on a lit pixel.
pub proof fn lemma_sprite_collides_pixel(s: ScreenView, rows: Seq<u8>, x: int, y: int)
    requires
        s.wf(),
    ensures
        s.sprite_collides(rows, x, y) <==> exists|px: int, py: int|
            on_screen(px, py) && #[trigger] sprite_lit(rows, x, y, px, py) && s.pixel(px, py) != 0,
{
    if s.sprite_collides(rows, x, y) {
        let k = choose|k: int| 0 <= k < CHIP8_FB_LEN && #[trigger] s.sprite_erases_at(rows, x, y, k);
        let px = s.column_of(k);
        let py = s.row_of(k);
        lemma_place(s, k);
        assert(on_screen(px, py) && sprite_lit(rows, x, y, px, py) && s.pixel(px, py) != 0);
    }
    if exists|px: int, py: int|
        on_screen(px, py) && #[trigger] sprite_lit(rows, x, y, px, py) && s.pixel(px, py) != 0 {
        let (px, py) = choose|px: int, py: int|
            on_screen(px, py) && #[trigger] sprite_lit(rows, x, y, px, py) && s.pixel(px, py) != 0;
        lemma_pixel_place(s, px, py);
        assert(s.sprite_erases_at(rows, x, y, s.offset(px, py)));
    }
}

/// Walking `d` steps from `x` around a ring of `m` places ends at one place,
/// and no other place is `d` steps from `x`.
proof fn lemma_ring(x: int, d: int, c: int, m: int)
    requires
        m == CHIP8_FB_W || m == CHIP8_FB_H,
        0 <= d < m,
        0 <= c < m,
    ensures
        0 <= (x + d) % m < m,
        ((x + d) % m - x) % m == d,
        (c - x) % m == d ==> c == (x + d) % m,
{
    if m == CHIP8_FB_W {
        assert(((x + d) % 64 - x) % 64 == d);
        assert((c - x) % 64 == d ==> c == (x + d) % 64);
    } else {
        assert(((x + d) % 32 - x) % 32 == d);
        assert((c - x) % 32 == d ==> c == (x + d) % 32);
    }
}

/// A place in the buffer and the logical coordinates of its pixel name each other.
proof fn lemma_place(s: ScreenView, k: int)
    requires
        0 <= k < CHIP8_FB_LEN,
    ensures
        on_screen(s.column_of(k), s.row_of(k)),
        s.offset(s.column_of(k), s.row_of(k)) == k,
{
}

/// The pixel at the logical coordinates `(px, py)` has its place in the buffer.
proof fn lemma_pixel_place(s: ScreenView, px: int, py: int)
    requires
        on_screen(px, py),
    ensures
        0 <= s.offset(px, py) < CHIP8_FB_LEN,
        s.column_of(s.offset(px, py)) == px,
        s.row_of(s.offset(px, py)) == py,
{
}

/// The bit at column `dx` of row `dy` falls on one pixel, which no earlier
/// bit of the sprite has touched, and on no other.
proof fn lemma_bit_place(s: ScreenView, rows: Seq<u8>, x: int, y: int, dy: int, dx: int)
    requires
        0 <= dy < rows.len() <= 15,
        0 <= dx < SPRITE_WIDTH,
    ensures
        ({
            let tx = (x + dx) % (CHIP8_FB_W as int);
            let ty = (y + dy) % (CHIP8_FB_H as int);
            let t = s.offset(tx, ty);
            &&& on_screen(tx, ty)
            &&& 0 <= t < CHIP8_FB_LEN
            &&& !s.covers_before(rows, x, y, dy, dx, t)
            &&& s.covers_before(rows, x, y, dy, dx + 1, t) == row_bit(rows[dy], dx)
            &&& forall|k: int|
                0 <= k < CHIP8_FB_LEN && k != t ==> #[trigger] s.covers_before(
                    rows,
                    x,
                    y,
                    dy,
                    dx + 1,
                    k,
                ) == s.covers_before(rows, x, y, dy, dx, k)
        }),
{
    let tx = (x + dx) % (CHIP8_FB_W as int);
    let ty = (y + dy) % (CHIP8_FB_H as int);
    lemma_ring(x, dx, 0, CHIP8_FB_W as int);
    lemma_ring(y, dy, 0, CHIP8_FB_H as int);
    lemma_pixel_place(s, tx, ty);
    let t = s.offset(tx, ty);
    assert forall|k: int| 0 <= k < CHIP8_FB_LEN && k != t implies #[trigger] s.covers_before(
        rows,
        x,
        y,
        dy,
        dx + 1,
        k,
    ) == s.covers_before(rows, x, y, dy, dx, k) by {
        let cx = s.column_of(k);
        let cy = s.row_of(k);
        lemma_place(s, k);
        lemma_ring(x, dx, cx, CHIP8_FB_W as int);
        lemma_ring(y, dy, cy, CHIP8_FB_H as int);
        if (cx - x) % (CHIP8_FB_W as int) == dx && (cy - y) % (CHIP8_FB_H as int) == dy {
            assert(cx == tx && cy == ty);
            assert(false);
        }
    }
}

/// Drawing one more bit of the sprite, at column `dx` of row `dy`, extends
/// what has been drawn before it.
proof fn lemma_draw_step(
    start: ScreenView,
    now: ScreenView,
    rows: Seq<u8>,
    x: int,
    y: int,
    dy: int,
    dx: int,
    erased: bool,
)
    requires
        start.wf(),
        0 <= dy < rows.len() <= 15,
        0 <= dx < SPRITE_WIDTH,
        start.drawn_before(now, rows, x, y, dy, dx),
        erased == start.collides_before(rows, x, y, dy, dx),
    ensures
        ({
            let tx = (x + dx) % (CHIP8_FB_W as int);
            let ty = (y + dy) % (CHIP8_FB_H as int);
            let value = if row_bit(rows[dy], dx) { SPRITE_COLOR } else { 0u32 };
            &&& on_screen(tx, ty)
            &&& start.drawn_before(now.with_xor(tx, ty, value), rows, x, y, dy, dx + 1)
            &&& (erased || now.collides(tx, ty, value)) == start.collides_before(
                rows,
                x,
                y,
                dy,
                dx + 1,
            )
        }),
{
    let tx = (x + dx) % (CHIP8_FB_W as int);
    let ty = (y + dy) % (CHIP8_FB_H as int);
    let bit = row_bit(rows[dy], dx);
    let value = if bit { SPRITE_COLOR } else { 0u32 };
    let t = start.offset(tx, ty);
    let next = now.with_xor(tx, ty, value);
    lemma_bit_place(start, rows, x, y, dy, dx);
    assert(now.offset(tx, ty) == t);
    assert(now.fb[t] == start.fb[t]);
    let p = start.fb[t];
    assert(p ^ 0u32 == p) by (bit_vector);
    assert(next.fb[t] == if bit { p ^ SPRITE_COLOR } else { p });
    assert forall|k: int| 0 <= k < CHIP8_FB_LEN implies #[trigger] next.fb[k] == if start.covers_before(
        rows,
        x,
        y,
        dy,
        dx + 1,
        k,
    ) {
        start.fb[k] ^ SPRITE_COLOR
    } else {
        start.fb[k]
    } by {
        if k != t {
            assert(next.fb[k] == now.fb[k]);
        }
    }
    let hit = now.collides(tx, ty, value);
    assert(SPRITE_COLOR != 0);
    assert(hit == (bit && p != 0));
    if erased {
        let k0 = choose|k: int|
            0 <= k < CHIP8_FB_LEN && #[trigger] start.erases_before(rows, x, y, dy, dx, k);
        assert(start.erases_before(rows, x, y, dy, dx + 1, k0));
    } else if hit {
        assert(start.erases_before(rows, x, y, dy, dx + 1, t));
    } else {
        assert forall|k: int| 0 <= k < CHIP8_FB_LEN implies !#[trigger] start.erases_before(
            rows,
            x,
            y,
            dy,
            dx + 1,
            k,
        ) by {
            if k != t {
                assert(!start.erases_before(rows, x, y, dy, dx, k));
            }
        }
    }
}

/// Once every column of row `dy` is drawn, what has been drawn is what
/// comes before row `dy + 1`.
proof fn lemma_draw_row_done(start: ScreenView, now: ScreenView, rows: Seq<u8>, x: int, y: int, dy: int)
    requires
        start.drawn_before(now, rows, x, y, dy, SPRITE_WIDTH as int),
    ensures
        start.drawn_before(now, rows, x, y, dy + 1, 0),
        start.collides_before(rows, x, y, dy, SPRITE_WIDTH as int) == start.collides_before(
            rows,
            x,
            y,
            dy + 1,
            0,
        ),
{
    assert forall|k: int|
        start.covers_before(rows, x, y, dy, SPRITE_WIDTH as int, k) == start.covers_before(
            rows,
            x,
            y,
            dy + 1,
            0,
            k,
        ) by {}
    if start.collides_before(rows, x, y, dy, SPRITE_WIDTH as int) {
        let k0 = choose|k: int|
            0 <= k < CHIP8_FB_LEN && #[trigger] start.erases_before(
                rows,
                x,
                y,
                dy,
                SPRITE_WIDTH as int,
                k,
            );
        assert(start.erases_before(rows, x, y, dy + 1, 0, k0));
    }
    if start.collides_before(rows, x, y, dy + 1, 0) {
        let k0 = choose|k: int|
            0 <= k < CHIP8_FB_LEN && #[trigger] start.erases_before(rows, x, y, dy + 1, 0, k);
        assert(start.erases_before(rows, x, y, dy, SPRITE_WIDTH as int, k0));
    }
}

/// Nothing is drawn before the first bit, and everything is once the last row is.
proof fn lemma_draw_ends(start: ScreenView, now: ScreenView, rows: Seq<u8>, x: int, y: int)
    requires
        start.wf(),
    ensures
        start.drawn_before(start, rows, x, y, 0, 0),
        !start.collides_before(rows, x, y, 0, 0),
        start.drawn_before(now, rows, x, y, rows.len() as int, 0) ==> now == start.with_sprite(
            rows,
            x,
            y,
        ),
        start.collides_before(rows, x, y, rows.len() as int, 0) == start.sprite_collides(rows, x, y),
{
    assert forall|k: int| !start.covers_before(rows, x, y, 0, 0, k) by {}
    assert forall|k: int|
        start.covers_before(rows, x, y, rows.len() as int, 0, k) == start.sprite_covers(
            rows,
            x,
            y,
            k,
        ) by {}
    if start.drawn_before(now, rows, x, y, rows.len() as int, 0) {
        assert(now.fb =~= start.with_sprite(rows, x, y).fb);
    }
    if start.collides_before(rows, x, y, rows.len() as int, 0) {
        let k0 = choose|k: int|
            0 <= k < CHIP8_FB_LEN && #[trigger] start.erases_before(
                rows,
                x,
                y,
                rows.len() as int,
                0,
                k,
            );
        assert(start.sprite_erases_at(rows, x, y, k0));
    }
    if start.sprite_collides(rows, x, y) {
        let k0 = choose|k: int|
            0 <= k < CHIP8_FB_LEN && #[trigger] start.sprite_erases_at(rows, x, y, k);
        assert(start.erases_before(rows, x, y, rows.len() as int, 0, k0));
    }
}

/// Draws the sprite of `n` rows that `memory` holds from `base` on, with its
/// top left corner at `(x, y)`: each lit bit inverts the pixel under it, and
/// the sprite wraps around the edges of the display. Tells whether a pixel
/// that was lit has been turned off.
pub fn draw_sprite(screen: &mut Screen, memory: &[u8; 4096], base: usize, n: u8, x: u8, y: u8) -> (erased:
    bool)
    requires
        n < 16,
        base + n <= 4096,
    ensures
        final(screen)@ == old(screen)@.with_sprite(
            memory@.subrange(base as int, base + n),
            x as int,
            y as int,
        ),
        erased == old(screen)@.sprite_collides(
            memory@.subrange(base as int, base + n),
            x as int,
            y as int,
        ),
{
    let ghost start = screen@;
    let ghost rows = memory@.subrange(base as int, base + n);
    let mut erased = false;
    let mut dy: u8 = 0;
    proof {
        screen.lemma_wf();
        lemma_draw_ends(start, start, rows, x as int, y as int);
    }
    while dy < n
        invariant
            dy <= n < 16,
            base + n <= 4096,
            start.wf(),
            rows == memory@.subrange(base as int, base + n),
            start.drawn_before(screen@, rows, x as int, y as int, dy as int, 0),
            erased == start.collides_before(rows, x as int, y as int, dy as int, 0),
        decreases n - dy,
    {
        let row: u8 = memory[base + dy as usize];
        let ty: i32 = ((y as usize + dy as usize) % CHIP8_FB_H) as i32;
        let mut dx: u8 = 0;
        while dx < SPRITE_WIDTH
            invariant
                dx <= SPRITE_WIDTH,
                dy < n < 16,
                start.wf(),
                rows.len() == n,
                row == rows[dy as int],
                ty == (y + dy) % (CHIP8_FB_H as int),
                start.drawn_before(screen@, rows, x as int, y as int, dy as int, dx as int),
                erased == start.collides_before(rows, x as int, y as int, dy as int, dx as int),
            decreases SPRITE_WIDTH - dx,
        {
            let tx: i32 = ((x as usize + dx as usize) % CHIP8_FB_W) as i32;
            let lit: bool = row & (0x80u8 >> dx) != 0;
            let value: u32 = if lit {
                SPRITE_COLOR
            } else {
                0
            };
            proof {
                lemma_draw_step(start, screen@, rows, x as int, y as int, dy as int, dx as int, erased);
            }
            let hit = screen.xor_pixel((tx, ty), value);
            erased = erased || hit;
            dx += 1;
        }
        proof {
            lemma_draw_row_done(start, screen@, rows, x as int, y as int, dy as int);
        }
        dy += 1;
    }
    proof {
        lemma_draw_ends(start, screen@, rows, x as int, y as int);
    }
    erased
}

} // verus!
