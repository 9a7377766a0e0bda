use vstd::prelude::*;
use vstd::arithmetic::div_mod::lemma_fundamental_div_mod_converse;

verus! {

/// Panel width in pixels.
pub const MATRIX_WIDTH: usize = 88;

/// Panel height in pixels.
pub const MATRIX_HEIGHT: usize = 88;

/// Number of cells in the frame buffer.
pub const PIXEL_COUNT: usize = MATRIX_WIDTH * MATRIX_HEIGHT;

/// One cell of the panel: three independent 16-bit PWM intensities.
#[derive(Clone, Copy, PartialEq, Eq, Structural, Debug)]
pub struct Pixel {
    pub r: u16,
    pub g: u16,
    pub b: u16,
}

impl Pixel {
    pub open spec fn black() -> Pixel {
        Pixel { r: 0, g: 0, b: 0 }
    }

    /// Intensity of channel `c` (0 red, 1 green, 2 blue).
    pub open spec fn channel(self, c: int) -> u16 {
        if c == 0 {
            self.r
        } else if c == 1 {
            self.g
        } else {
            self.b
        }
    }
}

/// Position of cell (x, y) in the row-major cell sequence.
pub open spec fn index_of(x: int, y: int) -> int {
    y * MATRIX_WIDTH as int + x
}

pub open spec fn in_bounds(x: int, y: int) -> bool {
    0 <= x < MATRIX_WIDTH as int && 0 <= y < MATRIX_HEIGHT as int
}

pub open spec fn col_of(i: int) -> int {
    i % MATRIX_WIDTH as int
}

pub open spec fn row_of(i: int) -> int {
    i / MATRIX_WIDTH as int
}

/// The cell sequence of a dark panel.
pub open spec fn blank() -> Seq<Pixel> {
    Seq::new(PIXEL_COUNT as nat, |i: int| Pixel::black())
}

/// `v` with cell (x, y) set to `p`; unchanged when (x, y) lies outside the panel.
pub open spec fn with_pixel(v: Seq<Pixel>, x: int, y: int, p: Pixel) -> Seq<Pixel> {
    if in_bounds(x, y) {
        v.update(index_of(x, y), p)
    } else {
        v
    }
}

/// `v` with every cell whose coordinates satisfy `covered` set to `p`.
pub open spec fn paint(v: Seq<Pixel>, covered: spec_fn(int, int) -> bool, p: Pixel) -> Seq<Pixel> {
    Seq::new(v.len(), |i: int| if covered(col_of(i), row_of(i)) { p } else { v[i] })
}

pub proof fn lemma_index_coords(x: int, y: int)
    requires
        in_bounds(x, y),
    ensures
        0 <= index_of(x, y) < PIXEL_COUNT as int,
        col_of(index_of(x, y)) == x,
        row_of(index_of(x, y)) == y,
{
    lemma_fundamental_div_mod_converse(index_of(x, y), MATRIX_WIDTH as int, y, x);
}

pub proof fn lemma_coords_index(i: int)
    requires
        0 <= i < PIXEL_COUNT as int,
    ensures
        in_bounds(col_of(i), row_of(i)),
        index_of(col_of(i), row_of(i)) == i,
{
    vstd::arithmetic::div_mod::lemma_fundamental_div_mod(i, MATRIX_WIDTH as int);
    vstd::arithmetic::div_mod::lemma_div_pos_is_pos(i, MATRIX_WIDTH as int);
    vstd::arithmetic::div_mod::lemma_div_is_ordered(i, PIXEL_COUNT as int, MATRIX_WIDTH as int);
}

/// Writing one cell extends the painted region by that cell.
pub proof fn lemma_paint_one(
    v: Seq<Pixel>,
    covered: spec_fn(int, int) -> bool,
    more: spec_fn(int, int) -> bool,
    x: int,
    y: int,
    p: Pixel,
)
    requires
        v.len() == PIXEL_COUNT,
        forall|a: int, b: int| in_bounds(a, b) ==> (#[trigger] more(a, b) <==> (covered(a, b) || (a == x && b == y))),
    ensures
        with_pixel(paint(v, covered, p), x, y, p) == paint(v, more, p),
{
    let lhs = with_pixel(paint(v, covered, p), x, y, p);
    let rhs = paint(v, more, p);
    assert forall|i: int| 0 <= i < PIXEL_COUNT as int implies lhs[i] == rhs[i] by {
        lemma_coords_index(i);
        if in_bounds(x, y) {
            lemma_index_coords(x, y);
        }
    }
    assert(lhs =~= rhs);
}

/// Painting depends only on which cells of the panel are covered.
pub proof fn lemma_paint_ext(
    v: Seq<Pixel>,
    c1: spec_fn(int, int) -> bool,
    c2: spec_fn(int, int) -> bool,
    p: Pixel,
)
    requires
        v.len() == PIXEL_COUNT,
        forall|a: int, b: int| in_bounds(a, b) ==> (#[trigger] c1(a, b) <==> c2(a, b)),
    ensures
        paint(v, c1, p) == paint(v, c2, p),
{
    assert forall|i: int| 0 <= i < PIXEL_COUNT as int implies paint(v, c1, p)[i] == paint(
        v,
        c2,
        p,
    )[i] by {
        lemma_coords_index(i);
    }
    assert(paint(v, c1, p) =~= paint(v, c2, p));
}

/// Painting twice in one colour paints the union.
pub proof fn lemma_paint_twice(
    v: Seq<Pixel>,
    c1: spec_fn(int, int) -> bool,
    c2: spec_fn(int, int) -> bool,
    p: Pixel,
)
    ensures
        paint(paint(v, c1, p), c2, p) == paint(v, |a: int, b: int| c1(a, b) || c2(a, b), p),
{
    assert(paint(paint(v, c1, p), c2, p) =~= paint(v, |a: int, b: int| c1(a, b) || c2(a, b), p));
}

/// Reading a cell right after writing it on the panel gives the written value
/// and leaves every other cell as it was; a write off the panel changes nothing.
pub proof fn lemma_set_then_get(v: Seq<Pixel>, x: int, y: int, p: Pixel)
    requires
        v.len() == PIXEL_COUNT,
    ensures
        with_pixel(v, x, y, p).len() == PIXEL_COUNT,
        in_bounds(x, y) ==> with_pixel(v, x, y, p)[index_of(x, y)] == p,
        in_bounds(x, y) ==> forall|a: int, b: int|
            in_bounds(a, b) && !(a == x && b == y) ==> #[trigger] with_pixel(v, x, y, p)[index_of(
                a,
                b,
            )] == v[index_of(a, b)],
        !in_bounds(x, y) ==> with_pixel(v, x, y, p) == v,
{
    if in_bounds(x, y) {
        lemma_index_coords(x, y);
        assert forall|a: int, b: int| in_bounds(a, b) && !(a == x && b == y) implies #[trigger] with_pixel(
            v,
            x,
            y,
            p,
        )[index_of(a, b)] == v[index_of(a, b)] by {
            lemma_index_coords(a, b);
        }
    }
}

/// Every cell of a cleared panel is dark.
pub proof fn lemma_blank_is_dark()
    ensures
        blank().len() == PIXEL_COUNT,
        forall|x: int, y: int| in_bounds(x, y) ==> #[trigger] blank()[index_of(x, y)] == Pixel::black(),
{
    assert forall|x: int, y: int| in_bounds(x, y) implies #[trigger] blank()[index_of(x, y)]
        == Pixel::black() by {
        lemma_index_coords(x, y);
    }
}

/// The pixel grid, stored row-major.
pub struct FrameBuffer {
    pixels: Vec<Pixel>,
}

impl View for FrameBuffer {
    type V = Seq<Pixel>;

    closed spec fn view(&self) -> Seq<Pixel> {
        self.pixels@
    }
}

impl FrameBuffer {
    /// The grid keeps its size for its whole life.
    pub open spec fn wf(&self) -> bool {
        self@.len() == PIXEL_COUNT
    }

    pub open spec fn pixel(&self, x: int, y: int) -> Pixel {
        self@[index_of(x, y)]
    }

    /// A dark grid.
    pub fn new() -> (r: FrameBuffer)
        ensures
            r.wf(),
            r@ == blank(),
    {
        let mut pixels: Vec<Pixel> = Vec::new();
        let mut i: usize = 0;
        while i < PIXEL_COUNT
            invariant
                i <= PIXEL_COUNT,
                pixels@ == Seq::new(i as nat, |k: int| Pixel::black()),
            decreases PIXEL_COUNT - i,
        {
            pixels.push(Pixel { r: 0, g: 0, b: 0 });
            i += 1;
        }
        assert(pixels@ =~= blank());
        FrameBuffer { pixels }
    }

    /// Zeroes every cell.
    pub fn clear(&mut self)
        requires
            old(self).wf(),
        ensures
            final(self).wf(),
            final(self)@ == blank(),
    {
        let mut i: usize = 0;
        while i < PIXEL_COUNT
            invariant
                i <= PIXEL_COUNT,
                self@.len() == PIXEL_COUNT,
                forall|k: int| 0 <= k < i ==> self@[k] == Pixel::black(),
            decreases PIXEL_COUNT - i,
        {
            self.pixels.set(i, Pixel { r: 0, g: 0, b: 0 });
            i += 1;
        }
        assert(self@ =~= blank());
    }

    /// The cell at (x, y), or `None` outside the panel.
    pub fn get_pixel(&self, x: usize, y: usize) -> (r: Option<Pixel>)
        requires
            self.wf(),
        ensures
            r == (if in_bounds(x as int, y as int) {
                Some(self.pixel(x as int, y as int))
            } else {
                None
            }),
    {
        if x < MATRIX_WIDTH && y < MATRIX_HEIGHT {
            proof {
                lemma_index_coords(x as int, y as int);
            }
            Some(self.pixels[y * MATRIX_WIDTH + x])
        } else {
            None
        }
    }

    /// Writes cell (x, y) when it lies on the panel; does nothing otherwise.
    pub fn set_pixel(&mut self, x: usize, y: usize, p: Pixel)
        requires
            old(self).wf(),
        ensures
            final(self).wf(),
            final(self)@ == with_pixel(old(self)@, x as int, y as int, p),
    {
        if x < MATRIX_WIDTH && y < MATRIX_HEIGHT {
            proof {
                lemma_index_coords(x as int, y as int);
            }
            self.pixels.set(y * MATRIX_WIDTH + x, p);
        }
    }

    /// Fills the rectangle with corners (x1, y1) and (x2, y2), both included,
    /// clipped to the panel.
    pub fn fill_rect(&mut self, x1: usize, y1: usize, x2: usize, y2: usize, p: Pixel)
        requires
            old(self).wf(),
        ensures
            final(self).wf(),
            final(self)@ == paint(old(self)@, |a: int, b: int| x1 <= a <= x2 && y1 <= b <= y2, p),
    {
        let ghost start = self@;
        let xmax: usize = if x2 < MATRIX_WIDTH - 1 { x2 } else { MATRIX_WIDTH - 1 };
        let ymax: usize = if y2 < MATRIX_HEIGHT - 1 { y2 } else { MATRIX_HEIGHT - 1 };
        let ghost rect = |a: int, b: int| x1 <= a <= x2 && y1 <= b <= y2;
        let mut y: usize = y1;
        proof {
            lemma_paint_ext(start, |a: int, b: int| false, |a: int, b: int| x1 <= a <= xmax && y1 <= b < y, p);
            assert(start =~= paint(start, |a: int, b: int| false, p));
        }
        while y <= ymax
            invariant
                start.len() == PIXEL_COUNT,
                y1 <= y,
                y <= ymax + 1 || y == y1,
                ymax < MATRIX_HEIGHT,
                xmax < MATRIX_WIDTH,
                self.wf(),
                self@ == paint(start, |a: int, b: int| x1 <= a <= xmax && y1 <= b < y, p),
            decreases ymax + 1 - y,
        {
            let mut x: usize = x1;
            proof {
                lemma_paint_ext(
                    start,
                    |a: int, b: int| x1 <= a <= xmax && y1 <= b < y,
                    |a: int, b: int| x1 <= a <= xmax && (y1 <= b < y || (b == y && a < x)),
                    p,
                );
            }
            while x <= xmax
                invariant
                    start.len() == PIXEL_COUNT,
                    y1 <= y <= ymax,
                    x1 <= x,
                    x <= xmax + 1 || x == x1,
                    ymax < MATRIX_HEIGHT,
                    xmax < MATRIX_WIDTH,
                    self.wf(),
                    self@ == paint(
                        start,
                        |a: int, b: int| x1 <= a <= xmax && (y1 <= b < y || (b == y && a < x)),
                        p,
                    ),
                decreases xmax + 1 - x,
            {
                proof {
                    lemma_paint_one(
                        start,
                        |a: int, b: int| x1 <= a <= xmax && (y1 <= b < y || (b == y && a < x)),
                        |a: int, b: int| x1 <= a <= xmax && (y1 <= b < y || (b == y && a < x + 1)),
                        x as int,
                        y as int,
                        p,
                    );
                }
                self.set_pixel(x, y, p);
                x += 1;
            }
            proof {
                lemma_paint_ext(
                    start,
                    |a: int, b: int| x1 <= a <= xmax && (y1 <= b < y || (b == y && a < x)),
                    |a: int, b: int| x1 <= a <= xmax && y1 <= b < y + 1,
                    p,
                );
            }
            y += 1;
        }
        proof {
            lemma_paint_ext(start, |a: int, b: int| x1 <= a <= xmax && y1 <= b < y, rect, p);
        }
    }
}

} // verus!
