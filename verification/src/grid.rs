//! A frame buffer for a serpentine-free WS2812 LED matrix that is `WIDTH`
//! LEDs wide and holds `SIZE` LEDs, mounted in one of four orientations.
//!
//! Coordinates are given from the point of view of the viewer; the grid maps
//! them onto the index of the LED in the chain.
use crate::fonts::Glyph;
use vstd::prelude::*;

verus! {

/// An RGB colour, one byte per channel.
#[derive(Clone, Copy, PartialEq, Eq, Structural, Debug)]
pub struct Color {
    pub r: u8,
    pub g: u8,
    pub b: u8,
}

impl Color {
    pub fn new(r: u8, g: u8, b: u8) -> (c: Color)
        ensures
            c == (Color { r, g, b }),
    {
        Color { r, g, b }
    }
}

/// Which physical corner of the matrix the LED chain starts from.
#[derive(Clone, Copy, PartialEq, Eq, Structural, Debug)]
pub enum GridOrigin {
    TopLeft,
    TopRight,
    BottomRight,
    BottomLeft,
}

/// Whether `(x, y)` lies on a grid `w` wide and `h` tall in orientation `o`.
/// The bottom-left and top-right orientations take `x` across the width;
/// the other two take `x` along the height.
pub open spec fn coords_in_bounds(o: GridOrigin, w: int, h: int, x: int, y: int) -> bool {
    &&& 0 <= x
    &&& 0 <= y
    &&& match o {
        GridOrigin::BottomLeft | GridOrigin::TopRight => x < w && y < h,
        GridOrigin::TopLeft | GridOrigin::BottomRight => x < h && y < w,
    }
}

/// The row of the LED chain (a run of `w` consecutive LEDs) that `(x, y)` lands in.
pub open spec fn cell_row(o: GridOrigin, w: int, h: int, x: int, y: int) -> int {
    match o {
        GridOrigin::BottomLeft => y,
        GridOrigin::TopLeft => x,
        GridOrigin::TopRight => h - 1 - y,
        GridOrigin::BottomRight => h - 1 - x,
    }
}

/// The position of `(x, y)` within its row of the LED chain.
pub open spec fn cell_col(o: GridOrigin, w: int, h: int, x: int, y: int) -> int {
    match o {
        GridOrigin::BottomLeft => x,
        GridOrigin::TopLeft => w - 1 - y,
        GridOrigin::TopRight => w - 1 - x,
        GridOrigin::BottomRight => y,
    }
}

/// Index in the LED chain of the pixel at `(x, y)`.
pub open spec fn cell_index(o: GridOrigin, w: int, h: int, x: int, y: int) -> int {
    cell_row(o, w, h, x, y) * w + cell_col(o, w, h, x, y)
}

/// Whether the pixel at `(px, py)` lies in the `w` by `h` box whose corner is `(x, y)`.
pub open spec fn in_box(x: int, y: int, w: int, h: int, px: int, py: int) -> bool {
    x <= px < x + w && y <= py < y + h
}

/// Whether row `r` of column `c` of `glyph` is lit.
pub open spec fn glyph_lit<G: Glyph>(glyph: G, c: int, r: int) -> bool {
    (glyph.spec_col(c as u8) >> (r as u32)) & 1u32 == 1u32
}

proof fn lemma_row_col_unique(w: int, r1: int, c1: int, r2: int, c2: int)
    requires
        w > 0,
        0 <= r1,
        0 <= r2,
        0 <= c1 < w,
        0 <= c2 < w,
        r1 * w + c1 == r2 * w + c2,
    ensures
        r1 == r2,
        c1 == c2,
{
    if r1 < r2 {
        assert((r1 + 1) * w <= r2 * w) by (nonlinear_arith)
            requires
                r1 + 1 <= r2,
                w > 0,
        ;
        assert(false) by (nonlinear_arith)
            requires
                (r1 + 1) * w <= r2 * w,
                c1 < w,
                0 <= c2,
                r1 * w + c1 == r2 * w + c2,
        ;
    } else if r2 < r1 {
        assert((r2 + 1) * w <= r1 * w) by (nonlinear_arith)
            requires
                r2 + 1 <= r1,
                w > 0,
        ;
        assert(false) by (nonlinear_arith)
            requires
                (r2 + 1) * w <= r1 * w,
                c2 < w,
                0 <= c1,
                r1 * w + c1 == r2 * w + c2,
        ;
    }
}

proof fn lemma_row_col_bound(w: int, h: int, r: int, c: int)
    requires
        w > 0,
        0 <= r < h,
        0 <= c < w,
    ensures
        0 <= r * w + c < h * w,
{
    assert(0 <= r * w + c < h * w) by (nonlinear_arith)
        requires
            w > 0,
            0 <= r < h,
            0 <= c < w,
    ;
}

/// Law: every pixel on the grid is stored in an LED below `h * w`.
pub proof fn lemma_index_in_range(o: GridOrigin, w: int, h: int, x: int, y: int)
    requires
        w > 0,
        coords_in_bounds(o, w, h, x, y),
    ensures
        0 <= cell_index(o, w, h, x, y) < h * w,
{
    lemma_row_col_bound(w, h, cell_row(o, w, h, x, y), cell_col(o, w, h, x, y));
}

/// Law: two different pixels on the grid never share an LED.
pub proof fn lemma_index_injective(o: GridOrigin, w: int, h: int, x1: int, y1: int, x2: int, y2: int)
    requires
        w > 0,
        coords_in_bounds(o, w, h, x1, y1),
        coords_in_bounds(o, w, h, x2, y2),
        cell_index(o, w, h, x1, y1) == cell_index(o, w, h, x2, y2),
    ensures
        x1 == x2,
        y1 == y2,
{
    lemma_row_col_unique(
        w,
        cell_row(o, w, h, x1, y1),
        cell_col(o, w, h, x1, y1),
        cell_row(o, w, h, x2, y2),
        cell_col(o, w, h, x2, y2),
    );
}

/// Law: how the LED chain runs for each orientation. Moving one pixel along
/// `x` or `y` moves along the chain by the same step everywhere on the grid
/// (one LED within a chain row, or a whole row of `w` LEDs), so no row of the
/// chain runs backwards:
///
/// - bottom-left: `x + 1` is the next LED, `y + 1` is `w` LEDs on;
/// - top-left: `x + 1` is `w` LEDs on, `y + 1` is the LED before;
/// - top-right: `x + 1` is the LED before, `y + 1` is `w` LEDs back;
/// - bottom-right: `x + 1` is `w` LEDs back, `y + 1` is the next LED.
pub proof fn lemma_index_steps(o: GridOrigin, w: int, h: int, x: int, y: int)
    ensures
        cell_index(o, w, h, x + 1, y) - cell_index(o, w, h, x, y) == match o {
            GridOrigin::BottomLeft => 1,
            GridOrigin::TopLeft => w,
            GridOrigin::TopRight => -1,
            GridOrigin::BottomRight => -w,
        },
        cell_index(o, w, h, x, y + 1) - cell_index(o, w, h, x, y) == match o {
            GridOrigin::BottomLeft => w,
            GridOrigin::TopLeft => -1,
            GridOrigin::TopRight => -w,
            GridOrigin::BottomRight => 1,
        },
{
    assert((y + 1) * w == y * w + w) by (nonlinear_arith);
    assert((x + 1) * w == x * w + w) by (nonlinear_arith);
    assert((h - 1 - (y + 1)) * w == (h - 1 - y) * w - w) by (nonlinear_arith);
    assert((h - 1 - (x + 1)) * w == (h - 1 - x) * w - w) by (nonlinear_arith);
}

/// Law: where the LED chain starts, for each orientation: the first LED
/// shows `(0, 0)` for bottom-left, `(0, w - 1)` for top-left,
/// `(w - 1, h - 1)` for top-right and `(h - 1, 0)` for bottom-right.
pub proof fn lemma_index_start(o: GridOrigin, w: int, h: int)
    ensures
        match o {
            GridOrigin::BottomLeft => cell_index(o, w, h, 0, 0) == 0,
            GridOrigin::TopLeft => cell_index(o, w, h, 0, w - 1) == 0,
            GridOrigin::TopRight => cell_index(o, w, h, w - 1, h - 1) == 0,
            GridOrigin::BottomRight => cell_index(o, w, h, h - 1, 0) == 0,
        },
{
}

/// Law: the LED index of every pixel, in closed form: with the chain start
/// and the steps above, bottom-left is `y * w + x`, top-left is
/// `x * w + (w - 1 - y)`, top-right is `(h - 1 - y) * w + (w - 1 - x)` and
/// bottom-right is `(h - 1 - x) * w + y`.
pub proof fn lemma_index_closed_form(o: GridOrigin, w: int, h: int, x: int, y: int)
    ensures
        cell_index(o, w, h, x, y) == match o {
            GridOrigin::BottomLeft => y * w + x,
            GridOrigin::TopLeft => x * w + (w - 1 - y),
            GridOrigin::TopRight => (h - 1 - y) * w + (w - 1 - x),
            GridOrigin::BottomRight => (h - 1 - x) * w + y,
        },
{
}

/// Law: every LED below `h * w` shows some pixel of the grid.
pub proof fn lemma_index_onto(o: GridOrigin, w: int, h: int, i: int) -> (xy: (int, int))
    requires
        w > 0,
        0 <= i < h * w,
    ensures
        coords_in_bounds(o, w, h, xy.0, xy.1),
        cell_index(o, w, h, xy.0, xy.1) == i,
{
    let r = i / w;
    let c = i % w;
    assert(i == r * w + c && 0 <= c < w && 0 <= r < h) by (nonlinear_arith)
        requires
            w > 0,
            0 <= i < h * w,
            r == i / w,
            c == i % w,
    ;
    match o {
        GridOrigin::BottomLeft => (c, r),
        GridOrigin::TopLeft => (r, w - 1 - c),
        GridOrigin::TopRight => (w - 1 - c, h - 1 - r),
        GridOrigin::BottomRight => (h - 1 - r, c),
    }
}

proof fn lemma_height_fits(w: int, size: int)
    requires
        w > 0,
        size >= 0,
    ensures
        (size / w) * w <= size,
        size / w >= 0,
{
    assert((size / w) * w <= size && size / w >= 0) by (nonlinear_arith)
        requires
            w > 0,
            size >= 0,
    ;
}

/// Channel value `v` shown at brightness `level`: `v * (level + 1) / 256`,
/// so level 255 shows it unchanged and level 0 nearly dark.
pub open spec fn dimmed_channel(v: u8, level: u8) -> u8 {
    ((v as int * (level as int + 1)) / 256) as u8
}

/// `c` as shown at brightness `level`.
pub open spec fn dimmed(c: Color, level: u8) -> Color {
    Color {
        r: dimmed_channel(c.r, level),
        g: dimmed_channel(c.g, level),
        b: dimmed_channel(c.b, level),
    }
}

/// `smart_leds::brightness` applied to the single colour `c`: the crate's
/// `Brightness` iterator maps each channel `v` to `v * (level + 1) / 256`
/// (computed in `u16`, which cannot overflow for bytes).
#[verifier::external_body]
fn dim(c: Color, level: u8) -> (d: Color)
    ensures
        d == dimmed(c, level),
{
    let rgb = smart_leds::RGB8::new(c.r, c.g, c.b);
    match smart_leds::brightness(core::iter::once(rgb), level).next() {
        Some(x) => Color { r: x.r, g: x.g, b: x.b },
        None => c,
    }
}

struct Rect {
    x: usize,
    y: usize,
    width: usize,
    height: usize,
}

/// The frame being prepared for a `WIDTH`-wide matrix of `SIZE` LEDs,
/// with the colours that drawing uses.
pub struct Grid<const WIDTH: usize, const SIZE: usize> {
    data: Vec<Color>,
    orientation: GridOrigin,
    foreground: Color,
    background: Color,
    brightness: u8,
}

impl<const WIDTH: usize, const SIZE: usize> Grid<WIDTH, SIZE> {
    /// The colour of every LED, in chain order.
    pub closed spec fn spec_pixels(&self) -> Seq<Color> {
        self.data@
    }

    pub closed spec fn spec_orientation(&self) -> GridOrigin {
        self.orientation
    }

    pub closed spec fn spec_foreground(&self) -> Color {
        self.foreground
    }

    pub closed spec fn spec_background(&self) -> Color {
        self.background
    }

    pub closed spec fn spec_brightness(&self) -> u8 {
        self.brightness
    }

    /// The frame holds exactly one colour per LED.
    #[verifier::type_invariant]
    pub open spec fn wf(&self) -> bool {
        self.spec_pixels().len() == SIZE
    }

    /// Number of rows of `WIDTH` LEDs.
    pub open spec fn rows() -> int {
        SIZE as int / WIDTH as int
    }

    pub open spec fn in_bounds(&self, x: int, y: int) -> bool {
        coords_in_bounds(self.spec_orientation(), WIDTH as int, Self::rows(), x, y)
    }

    pub open spec fn index_of(&self, x: int, y: int) -> int {
        cell_index(self.spec_orientation(), WIDTH as int, Self::rows(), x, y)
    }

    /// The colour shown at `(x, y)`.
    pub open spec fn pixel(&self, x: int, y: int) -> Color {
        self.spec_pixels()[self.index_of(x, y)]
    }

    /// Everything but the frame content is the same in `self` and `other`.
    pub open spec fn same_settings(&self, other: &Self) -> bool {
        &&& self.spec_orientation() == other.spec_orientation()
        &&& self.spec_foreground() == other.spec_foreground()
        &&& self.spec_background() == other.spec_background()
        &&& self.spec_brightness() == other.spec_brightness()
    }

    /// The LEDs past the last full row hold the same colour in `self` and `other`.
    pub open spec fn same_tail(&self, other: &Self) -> bool {
        forall|i: int|
            Self::rows() * WIDTH <= i < SIZE ==> #[trigger] self.spec_pixels()[i]
                == other.spec_pixels()[i]
    }

    /// `new` is `old` with `glyph` drawn at `(x, y)`: the glyph's box shows
    /// its lit bits in the foreground colour and the rest in the background
    /// colour; everything else, settings included, is as in `old`.
    pub open spec fn blit_post<G: Glyph>(old: Self, new: Self, x: int, y: int, glyph: G) -> bool {
        &&& new.wf()
        &&& new.same_settings(&old)
        &&& new.same_tail(&old)
        &&& forall|px: int, py: int|
            #![trigger new.pixel(px, py)]
            old.in_bounds(px, py) ==> new.pixel(px, py) == if in_box(
                x,
                y,
                glyph.spec_width() as int,
                glyph.spec_height() as int,
                px,
                py,
            ) {
                if glyph_lit(glyph, px - x, py - y) {
                    old.spec_foreground()
                } else {
                    old.spec_background()
                }
            } else {
                old.pixel(px, py)
            }
    }

    /// Law: every pixel of the grid is stored in an LED of the frame, below
    /// the last full row.
    pub proof fn lemma_pixel_has_led(&self, x: int, y: int)
        requires
            WIDTH > 0,
            self.in_bounds(x, y),
        ensures
            0 <= self.index_of(x, y) < Self::rows() * WIDTH <= SIZE,
    {
        lemma_index_in_range(self.spec_orientation(), WIDTH as int, Self::rows(), x, y);
        lemma_height_fits(WIDTH as int, SIZE as int);
    }

    /// Law: two different pixels of the grid never share an LED.
    pub proof fn lemma_pixels_distinct(&self, x1: int, y1: int, x2: int, y2: int)
        requires
            WIDTH > 0,
            self.in_bounds(x1, y1),
            self.in_bounds(x2, y2),
            self.index_of(x1, y1) == self.index_of(x2, y2),
        ensures
            x1 == x2,
            y1 == y2,
    {
        lemma_index_injective(self.spec_orientation(), WIDTH as int, Self::rows(), x1, y1, x2, y2);
    }

    /// Law: every LED below the last full row shows a pixel of the grid, so
    /// pixels and those LEDs correspond one to one.
    pub proof fn lemma_led_has_pixel(&self, i: int) -> (xy: (int, int))
        requires
            WIDTH > 0,
            0 <= i < Self::rows() * WIDTH,
        ensures
            self.in_bounds(xy.0, xy.1),
            self.index_of(xy.0, xy.1) == i,
    {
        lemma_index_onto(self.spec_orientation(), WIDTH as int, Self::rows(), i)
    }

    /// Law: drawing a glyph hides what its box held: two frames with the same
    /// settings that differ only inside the box are equal once the same glyph
    /// is drawn at the same place on both.
    pub proof fn lemma_blit_hides_box<G: Glyph>(
        g1: Self,
        g2: Self,
        h1: Self,
        h2: Self,
        x: int,
        y: int,
        glyph: G,
    )
        requires
            WIDTH > 0,
            g1.wf(),
            g2.wf(),
            g1.same_settings(&g2),
            g1.same_tail(&g2),
            forall|px: int, py: int|
                #![trigger g1.pixel(px, py)]
                g1.in_bounds(px, py) && !in_box(
                    x,
                    y,
                    glyph.spec_width() as int,
                    glyph.spec_height() as int,
                    px,
                    py,
                ) ==> g1.pixel(px, py) == g2.pixel(px, py),
            Self::blit_post(g1, h1, x, y, glyph),
            Self::blit_post(g2, h2, x, y, glyph),
        ensures
            h1.spec_pixels() == h2.spec_pixels(),
    {
        lemma_height_fits(WIDTH as int, SIZE as int);
        assert forall|i: int| 0 <= i < SIZE implies h1.spec_pixels()[i] == h2.spec_pixels()[i] by {
            if i < Self::rows() * WIDTH {
                let xy = g1.lemma_led_has_pixel(i);
                assert(h1.pixel(xy.0, xy.1) == h2.pixel(xy.0, xy.1));
            } else {
                assert(h1.spec_pixels()[i] == g1.spec_pixels()[i]);
                assert(h2.spec_pixels()[i] == g2.spec_pixels()[i]);
            }
        }
        assert(h1.spec_pixels() =~= h2.spec_pixels());
    }

    /// Law: drawing the same glyph twice at the same place leaves the frame
    /// that drawing it once does.
    pub proof fn lemma_blit_twice<G: Glyph>(g: Self, h: Self, k: Self, x: int, y: int, glyph: G)
        requires
            WIDTH > 0,
            g.wf(),
            Self::blit_post(g, h, x, y, glyph),
            Self::blit_post(h, k, x, y, glyph),
        ensures
            k.spec_pixels() == h.spec_pixels(),
    {
        assert forall|px: int, py: int|
            #![trigger g.pixel(px, py)]
            g.in_bounds(px, py) && !in_box(
                x,
                y,
                glyph.spec_width() as int,
                glyph.spec_height() as int,
                px,
                py,
            ) implies g.pixel(px, py) == h.pixel(px, py) by {
            assert(h.pixel(px, py) == g.pixel(px, py));
        }
        assert(g.same_tail(&h));
        Self::lemma_blit_hides_box(g, h, h, k, x, y, glyph);
    }

    /// An all-black frame drawn in white on black, at full brightness.
    pub fn new(orientation: GridOrigin) -> (g: Self)
        ensures
            g.wf(),
            g.spec_orientation() == orientation,
            g.spec_foreground() == (Color { r: 255, g: 255, b: 255 }),
            g.spec_background() == (Color { r: 0, g: 0, b: 0 }),
            g.spec_brightness() == 255,
            forall|i: int| 0 <= i < SIZE ==> #[trigger] g.spec_pixels()[i] == (Color {
                r: 0,
                g: 0,
                b: 0,
            }),
    {
        let mut data: Vec<Color> = Vec::new();
        let mut i: usize = 0;
        while i < SIZE
            invariant
                i <= SIZE,
                data@.len() == i,
                forall|j: int| 0 <= j < i ==> #[trigger] data@[j] == (Color { r: 0, g: 0, b: 0 }),
            decreases SIZE - i,
        {
            data.push(Color { r: 0, g: 0, b: 0 });
            i = i + 1;
        }
        Grid {
            data,
            orientation,
            foreground: Color { r: 255, g: 255, b: 255 },
            background: Color { r: 0, g: 0, b: 0 },
            brightness: 255,
        }
    }

    /// The LED index of `(x, y)`.
    fn index(&self, x: usize, y: usize) -> (i: usize)
        requires
            WIDTH > 0,
            self.in_bounds(x as int, y as int),
        ensures
            i == self.index_of(x as int, y as int),
            i < Self::rows() * WIDTH,
            i < SIZE,
    {
        let height: usize = SIZE / WIDTH;
        proof {
            lemma_height_fits(WIDTH as int, SIZE as int);
            lemma_index_in_range(self.orientation, WIDTH as int, height as int, x as int, y as int);
            let o = self.orientation;
            let r = cell_row(o, WIDTH as int, height as int, x as int, y as int);
            let c = cell_col(o, WIDTH as int, height as int, x as int, y as int);
            assert(r * WIDTH <= r * WIDTH + c) by (nonlinear_arith)
                requires
                    0 <= c,
            ;
        }
        match self.orientation {
            GridOrigin::BottomLeft => y * WIDTH + x,
            GridOrigin::TopLeft => x * WIDTH + (WIDTH - 1 - y),
            GridOrigin::TopRight => (height - 1 - y) * WIDTH + (WIDTH - 1 - x),
            GridOrigin::BottomRight => (height - 1 - x) * WIDTH + y,
        }
    }

    /// Paints `(x, y)` in `color`.
    pub fn set(&mut self, x: usize, y: usize, color: Color)
        requires
            WIDTH > 0,
            old(self).in_bounds(x as int, y as int),
        ensures
            final(self).wf(),
            final(self).same_settings(&*old(self)),
            final(self).spec_pixels() == old(self).spec_pixels().update(
                old(self).index_of(x as int, y as int),
                color,
            ),
            final(self).pixel(x as int, y as int) == color,
            forall|px: int, py: int|
                #![trigger final(self).pixel(px, py)]
                old(self).in_bounds(px, py) && (px != x || py != y) ==> final(self).pixel(px, py)
                    == old(self).pixel(px, py),
            final(self).same_tail(&*old(self)),
    {
        proof {
            use_type_invariant(&*self);
        }
        let i = self.index(x, y);
        self.data[i] = color;
        proof {
            let o = self.orientation;
            let h = Self::rows();
            assert forall|px: int, py: int|
                #![trigger self.pixel(px, py)]
                old(self).in_bounds(px, py) && (px != x || py != y) implies self.pixel(px, py)
                == old(self).pixel(px, py) by {
                lemma_index_in_range(o, WIDTH as int, h, px, py);
                lemma_height_fits(WIDTH as int, SIZE as int);
                if cell_index(o, WIDTH as int, h, px, py) == i {
                    lemma_index_injective(o, WIDTH as int, h, px, py, x as int, y as int);
                }
            }
        }
    }

    /// Paints `(x, y)` in the foreground colour.
    pub fn on(&mut self, x: usize, y: usize)
        requires
            WIDTH > 0,
            old(self).in_bounds(x as int, y as int),
        ensures
            final(self).wf(),
            final(self).same_settings(&*old(self)),
            final(self).spec_pixels() == old(self).spec_pixels().update(
                old(self).index_of(x as int, y as int),
                old(self).spec_foreground(),
            ),
    {
        proof {
            use_type_invariant(&*self);
        }
        let c = self.foreground;
        self.set(x, y, c);
    }

    /// Paints `(x, y)` in the background colour.
    pub fn off(&mut self, x: usize, y: usize)
        requires
            WIDTH > 0,
            old(self).in_bounds(x as int, y as int),
        ensures
            final(self).wf(),
            final(self).same_settings(&*old(self)),
            final(self).spec_pixels() == old(self).spec_pixels().update(
                old(self).index_of(x as int, y as int),
                old(self).spec_background(),
            ),
    {
        proof {
            use_type_invariant(&*self);
        }
        let c = self.background;
        self.set(x, y, c);
    }

    /// Paints every LED in the background colour.
    pub fn clear(&mut self)
        ensures
            final(self).wf(),
            final(self).same_settings(&*old(self)),
            forall|i: int|
                0 <= i < SIZE ==> #[trigger] final(self).spec_pixels()[i]
                    == old(self).spec_background(),
    {
        proof {
            use_type_invariant(&*self);
        }
        let bg = self.background;
        let mut i: usize = 0;
        while i < SIZE
            invariant
                i <= SIZE,
                self.wf(),
                self.same_settings(&*old(self)),
                bg == self.spec_background(),
                forall|j: int| 0 <= j < i ==> #[trigger] self.spec_pixels()[j] == bg,
            decreases SIZE - i,
        {
            self.data[i] = bg;
            i = i + 1;
        }
    }

    /// Paints every pixel of `rect` in the background colour.
    fn clear_rect(&mut self, rect: &Rect)
        requires
            WIDTH > 0,
            rect.x + rect.width <= usize::MAX,
            rect.y + rect.height <= usize::MAX,
            forall|px: int, py: int|
                in_box(rect.x as int, rect.y as int, rect.width as int, rect.height as int, px, py)
                    ==> #[trigger] old(self).in_bounds(px, py),
        ensures
            final(self).wf(),
            final(self).same_settings(&*old(self)),
            final(self).same_tail(&*old(self)),
            forall|px: int, py: int|
                #![trigger final(self).pixel(px, py)]
                old(self).in_bounds(px, py) ==> final(self).pixel(px, py) == if in_box(
                    rect.x as int,
                    rect.y as int,
                    rect.width as int,
                    rect.height as int,
                    px,
                    py,
                ) {
                    old(self).spec_background()
                } else {
                    old(self).pixel(px, py)
                },
    {
        proof {
            use_type_invariant(&*self);
        }
        let rx = rect.x;
        let ry = rect.y;
        let end_x = rect.x + rect.width;
        let end_y = rect.y + rect.height;
        let mut y = ry;
        while y < end_y
            invariant
                ry <= y <= end_y,
                end_y == ry + rect.height,
                end_x == rx + rect.width,
                rx == rect.x,
                ry == rect.y,
                WIDTH > 0,
                self.wf(),
                self.same_settings(&*old(self)),
                self.same_tail(&*old(self)),
                forall|px: int, py: int|
                    in_box(rect.x as int, rect.y as int, rect.width as int, rect.height as int, px, py)
                        ==> #[trigger] old(self).in_bounds(px, py),
                forall|px: int, py: int|
                    #![trigger self.pixel(px, py)]
                    old(self).in_bounds(px, py) ==> self.pixel(px, py) == if in_box(
                        rx as int,
                        ry as int,
                        rect.width as int,
                        y - ry,
                        px,
                        py,
                    ) {
                        old(self).spec_background()
                    } else {
                        old(self).pixel(px, py)
                    },
            decreases end_y - y,
        {
            let mut x = rx;
            while x < end_x
                invariant
                    rx <= x <= end_x,
                    ry <= y < end_y,
                    end_y == ry + rect.height,
                    end_x == rx + rect.width,
                    rx == rect.x,
                    ry == rect.y,
                    WIDTH > 0,
                    self.wf(),
                    self.same_settings(&*old(self)),
                    self.same_tail(&*old(self)),
                    forall|px: int, py: int|
                        in_box(rect.x as int, rect.y as int, rect.width as int, rect.height as int, px, py)
                            ==> #[trigger] old(self).in_bounds(px, py),
                    forall|px: int, py: int|
                        #![trigger self.pixel(px, py)]
                        old(self).in_bounds(px, py) ==> self.pixel(px, py) == if in_box(
                            rx as int,
                            ry as int,
                            rect.width as int,
                            y - ry,
                            px,
                            py,
                        ) || (py == y && rx <= px < x) {
                            old(self).spec_background()
                        } else {
                            old(self).pixel(px, py)
                        },
                decreases end_x - x,
            {
                assert(old(self).in_bounds(x as int, y as int));
                let bg = self.background;
                self.set(x, y, bg);
                x = x + 1;
            }
            y = y + 1;
        }
    }

    /// Sets the colour that `on` and glyphs draw with.
    pub fn set_foreground(&mut self, color: Color)
        ensures
            final(self).spec_foreground() == color,
            final(self).spec_pixels() == old(self).spec_pixels(),
            final(self).spec_background() == old(self).spec_background(),
            final(self).spec_orientation() == old(self).spec_orientation(),
            final(self).spec_brightness() == old(self).spec_brightness(),
    {
        proof {
            use_type_invariant(&*self);
        }
        self.foreground = color;
    }

    /// Sets the colour that `off`, `clear` and glyph backgrounds use.
    pub fn set_background(&mut self, color: Color)
        ensures
            final(self).spec_background() == color,
            final(self).spec_pixels() == old(self).spec_pixels(),
            final(self).spec_foreground() == old(self).spec_foreground(),
            final(self).spec_orientation() == old(self).spec_orientation(),
            final(self).spec_brightness() == old(self).spec_brightness(),
    {
        proof {
            use_type_invariant(&*self);
        }
        self.background = color;
    }

    /// Sets the overall brightness (0-255) that the frame is shown at.
    pub fn set_brightness(&mut self, level: u8)
        ensures
            final(self).spec_brightness() == level,
            final(self).spec_pixels() == old(self).spec_pixels(),
            final(self).spec_foreground() == old(self).spec_foreground(),
            final(self).spec_background() == old(self).spec_background(),
            final(self).spec_orientation() == old(self).spec_orientation(),
    {
        proof {
            use_type_invariant(&*self);
        }
        self.brightness = level;
    }

    /// Draws `glyph` with its top-left corner at `(x, y)`: its box is
    /// first painted in the background colour, then every lit bit in the
    /// foreground colour (column `c`, row `r` at `(x + c, y + r)`).
    pub fn blit_glyph(&mut self, x: usize, y: usize, glyph: impl Glyph)
        requires
            WIDTH > 0,
            glyph.spec_height() <= 32,
            x + glyph.spec_width() <= usize::MAX,
            y + glyph.spec_height() <= usize::MAX,
            forall|px: int, py: int|
                in_box(x as int, y as int, glyph.spec_width() as int, glyph.spec_height() as int, px, py)
                    ==> #[trigger] old(self).in_bounds(px, py),
        ensures
            Self::blit_post(*old(self), *final(self), x as int, y as int, glyph),
    {
        proof {
            use_type_invariant(&*self);
        }
        let gw = glyph.width();
        let gh = glyph.height();
        let rect = Rect { x, y, width: gw as usize, height: gh as usize };
        self.clear_rect(&rect);
        let mut col: u8 = 0;
        while col < gw
            invariant
                col <= gw,
                gw == glyph.spec_width(),
                gh == glyph.spec_height(),
                gh <= 32,
                x + gw <= usize::MAX,
                y + gh <= usize::MAX,
                WIDTH > 0,
                self.wf(),
                self.same_settings(&*old(self)),
                self.same_tail(&*old(self)),
                forall|px: int, py: int|
                    in_box(x as int, y as int, gw as int, gh as int, px, py)
                        ==> #[trigger] old(self).in_bounds(px, py),
                forall|px: int, py: int|
                    #![trigger self.pixel(px, py)]
                    old(self).in_bounds(px, py) ==> self.pixel(px, py) == if in_box(
                        x as int,
                        y as int,
                        gw as int,
                        gh as int,
                        px,
                        py,
                    ) {
                        if px < x + col && glyph_lit(glyph, px - x, py - y) {
                            old(self).spec_foreground()
                        } else {
                            old(self).spec_background()
                        }
                    } else {
                        old(self).pixel(px, py)
                    },
            decreases gw - col,
        {
            let col_data = glyph.col(col);
            let mut row: u8 = 0;
            while row < gh
                invariant
                    col < gw,
                    row <= gh,
                    gw == glyph.spec_width(),
                    gh == glyph.spec_height(),
                    gh <= 32,
                    col_data == glyph.spec_col(col),
                    x + gw <= usize::MAX,
                    y + gh <= usize::MAX,
                    WIDTH > 0,
                    self.wf(),
                    self.same_settings(&*old(self)),
                    self.same_tail(&*old(self)),
                    forall|px: int, py: int|
                        in_box(x as int, y as int, gw as int, gh as int, px, py)
                            ==> #[trigger] old(self).in_bounds(px, py),
                    forall|px: int, py: int|
                        #![trigger self.pixel(px, py)]
                        old(self).in_bounds(px, py) ==> self.pixel(px, py) == if in_box(
                            x as int,
                            y as int,
                            gw as int,
                            gh as int,
                            px,
                            py,
                        ) {
                            if (px < x + col || (px == x + col && py < y + row)) && glyph_lit(
                                glyph,
                                px - x,
                                py - y,
                            ) {
                                old(self).spec_foreground()
                            } else {
                                old(self).spec_background()
                            }
                        } else {
                            old(self).pixel(px, py)
                        },
                decreases gh - row,
            {
                let bit: u32 = 1 << row;
                let lit = (col_data & bit) == bit;
                proof {
                    let r = row as u32;
                    assert(((col_data & (1u32 << r)) == (1u32 << r)) == ((col_data >> r) & 1u32
                        == 1u32)) by (bit_vector)
                        requires
                            r < 32,
                    ;
                    assert(((x + col) as int) - x == col as int);
                    assert((((x + col) as int) - x) as u8 == col);
                }
                if lit {
                    assert(old(self).in_bounds(x + col, y + row));
                    let fg = self.foreground;
                    self.set(x + col as usize, y + row as usize, fg);
                }
                row = row + 1;
            }
            col = col + 1;
        }
    }

    /// The colour of every LED, in chain order, as shown at the frame's
    /// brightness: what is sent to the strip.
    pub fn shown_pixels(&self) -> (f: Vec<Color>)
        ensures
            f@.len() == self.spec_pixels().len(),
            forall|i: int|
                0 <= i < f@.len() ==> #[trigger] f@[i] == dimmed(
                    self.spec_pixels()[i],
                    self.spec_brightness(),
                ),
    {
        let mut f: Vec<Color> = Vec::new();
        let n = self.data.len();
        let mut i: usize = 0;
        while i < n
            invariant
                i <= n,
                n == self.data@.len(),
                f@.len() == i,
                forall|j: int|
                    0 <= j < i ==> #[trigger] f@[j] == dimmed(self.data@[j], self.brightness),
            decreases n - i,
        {
            f.push(dim(self.data[i], self.brightness));
            i = i + 1;
        }
        f
    }

    /// The colour of every LED, in chain order, at full brightness.
    pub fn pixels(&self) -> (p: &Vec<Color>)
        ensures
            p@ == self.spec_pixels(),
    {
        &self.data
    }

    pub fn orientation(&self) -> (o: GridOrigin)
        ensures
            o == self.spec_orientation(),
    {
        self.orientation
    }

    pub fn foreground(&self) -> (c: Color)
        ensures
            c == self.spec_foreground(),
    {
        self.foreground
    }

    pub fn background(&self) -> (c: Color)
        ensures
            c == self.spec_background(),
    {
        self.background
    }

    pub fn brightness(&self) -> (b: u8)
        ensures
            b == self.spec_brightness(),
    {
        self.brightness
    }
}

} // verus!
