use vstd::prelude::*;

use crate::color::Color;

verus! {

/// Largest coordinate magnitude the rasterizer accepts (2^28). Keeping every
/// coordinate and extent within this bound guarantees that all intermediate
/// integer arithmetic of the steppers fits in `i32`.
pub const MAX_COORD: i32 = 268435456;

/// A coordinate small enough for the steppers' `i32` arithmetic.
pub open spec fn coord_ok(v: int) -> bool {
    -(MAX_COORD as int) <= v <= MAX_COORD as int
}

/// Whether `(x, y)` lies on a `w` by `h` grid.
pub open spec fn in_grid(x: int, y: int, w: int, h: int) -> bool {
    0 <= x < w && 0 <= y < h
}

/// One pixel write against a `w` by `h` grid: out-of-bounds writes are
/// silently dropped, in-bounds writes replace the stored color.
pub open spec fn write_at(
    m: Map<(int, int), Color>,
    w: int,
    h: int,
    x: int,
    y: int,
    c: Color,
) -> Map<(int, int), Color> {
    if in_grid(x, y, w, h) {
        m.insert((x, y), c)
    } else {
        m
    }
}

/// The grid contents after writing color `c` at each point of `pts` in order.
pub open spec fn paint(
    m: Map<(int, int), Color>,
    w: int,
    h: int,
    pts: Seq<(int, int)>,
    c: Color,
) -> Map<(int, int), Color>
    decreases pts.len(),
{
    if pts.len() == 0 {
        m
    } else {
        paint(write_at(m, w, h, pts[0].0, pts[0].1, c), w, h, pts.drop_first(), c)
    }
}

/// The view of a vector of pixel coordinates as a sequence of integer points.
pub open spec fn points_view(pts: Seq<(i32, i32)>) -> Seq<(int, int)> {
    pts.map_values(|p: (i32, i32)| (p.0 as int, p.1 as int))
}

/// A concatenation holds exactly the elements of its two parts.
pub proof fn lemma_concat_contains<A>(a: Seq<A>, b: Seq<A>, x: A)
    ensures
        (a + b).contains(x) <==> a.contains(x) || b.contains(x),
{
    if a.contains(x) {
        let i = choose|i: int| 0 <= i < a.len() && a[i] == x;
        assert((a + b)[i] == x);
    }
    if b.contains(x) {
        let i = choose|i: int| 0 <= i < b.len() && b[i] == x;
        assert((a + b)[a.len() + i] == x);
    }
    if (a + b).contains(x) {
        let i = choose|i: int| 0 <= i < (a + b).len() && (a + b)[i] == x;
        if i < a.len() {
            assert(a[i] == x);
        } else {
            assert(b[i - a.len()] == x);
        }
    }
}

/// Painting a concatenation paints the first part, then the second.
pub proof fn lemma_paint_concat(
    m: Map<(int, int), Color>,
    w: int,
    h: int,
    s: Seq<(int, int)>,
    t: Seq<(int, int)>,
    c: Color,
)
    ensures
        paint(m, w, h, s + t, c) == paint(paint(m, w, h, s, c), w, h, t, c),
    decreases s.len(),
{
    if s.len() == 0 {
        assert(s + t =~= t);
    } else {
        let m2 = write_at(m, w, h, s[0].0, s[0].1, c);
        assert((s + t)[0] == s[0]);
        assert((s + t).drop_first() =~= s.drop_first() + t);
        lemma_paint_concat(m2, w, h, s.drop_first(), t, c);
    }
}

/// Painting one more point applies one more write.
pub proof fn lemma_paint_snoc(
    m: Map<(int, int), Color>,
    w: int,
    h: int,
    s: Seq<(int, int)>,
    p: (int, int),
    c: Color,
)
    ensures
        paint(m, w, h, s.push(p), c) == write_at(paint(m, w, h, s, c), w, h, p.0, p.1, c),
{
    let single = seq![p];
    assert(s.push(p) =~= s + single);
    lemma_paint_concat(m, w, h, s, single, c);
    assert(paint(paint(m, w, h, s, c), w, h, single, c) == write_at(
        paint(m, w, h, s, c),
        w,
        h,
        p.0,
        p.1,
        c,
    )) by {
        reveal_with_fuel(paint, 2);
        assert(single.drop_first().len() == 0);
    }
}

/// An abstract destination for pixel writes. A sink is a bounded grid of
/// colored cells; it accepts writes at arbitrary signed coordinates and
/// MUST silently ignore any write that falls outside its bounds, so shapes
/// may overflow the grid edge without clipping logic of their own.
pub trait Displayable: Sized {
    /// Internal well-formedness of the sink's storage.
    spec fn sink_inv(&self) -> bool;

    /// Grid width in pixels.
    spec fn grid_width(&self) -> int;

    /// Grid height in pixels.
    spec fn grid_height(&self) -> int;

    /// Current contents: a color for every in-bounds cell.
    spec fn pixels(&self) -> Map<(int, int), Color>;

    /// Writes one pixel. An out-of-bounds write leaves the sink unchanged:
    /// it is not an error and must not mutate any cell.
    fn display(&mut self, x: i32, y: i32, color: Color)
        requires
            old(self).sink_inv(),
        ensures
            final(self).sink_inv(),
            final(self).grid_width() == old(self).grid_width(),
            final(self).grid_height() == old(self).grid_height(),
            final(self).pixels() == write_at(
                old(self).pixels(),
                old(self).grid_width(),
                old(self).grid_height(),
                x as int,
                y as int,
                color,
            ),
    ;
}

/// Writes color `c` at every point of `pts`, in order.
#[verifier::loop_isolation(false)]
pub(crate) fn blit<D: Displayable>(image: &mut D, pts: &Vec<(i32, i32)>, c: Color)
    requires
        old(image).sink_inv(),
    ensures
        final(image).sink_inv(),
        final(image).grid_width() == old(image).grid_width(),
        final(image).grid_height() == old(image).grid_height(),
        final(image).pixels() == paint(
            old(image).pixels(),
            old(image).grid_width(),
            old(image).grid_height(),
            points_view(pts@),
            c,
        ),
{
    let ghost m0 = old(image).pixels();
    let ghost w = old(image).grid_width();
    let ghost h = old(image).grid_height();
    let ghost all = points_view(pts@);
    let mut k: usize = 0;
    while k < pts.len()
        invariant
            k <= pts.len(),
            image.sink_inv(),
            image.grid_width() == w,
            image.grid_height() == h,
            image.pixels() == paint(m0, w, h, all.take(k as int), c),
        decreases pts.len() - k,
    {
        let p = pts[k];
        proof {
            assert(all[k as int] == (p.0 as int, p.1 as int));
            assert(all.take(k as int + 1) =~= all.take(k as int).push(all[k as int]));
            lemma_paint_snoc(m0, w, h, all.take(k as int), all[k as int], c);
        }
        image.display(p.0, p.1, c);
        k = k + 1;
    }
    proof {
        assert(all.take(pts@.len() as int) =~= all);
    }
}

/// The default in-memory sink: a `width` by `height` grid of colors in
/// row-major order. Out-of-bounds writes are silently dropped.
pub struct Canvas {
    width: i32,
    height: i32,
    data: Vec<Color>,
}

impl Canvas {
    /// Storage holds exactly one color per grid cell.
    spec fn wf(&self) -> bool {
        &&& 0 <= self.width
        &&& 0 <= self.height
        &&& self.data@.len() == self.width as int * self.height as int
    }

    /// Builds a canvas with every cell set to `background`.
    #[verifier::loop_isolation(false)]
    pub fn new(width: i32, height: i32, background: Color) -> (canvas: Canvas)
        requires
            0 <= width,
            0 <= height,
            width as int * height as int <= usize::MAX as int,
        ensures
            canvas.sink_inv(),
            canvas.grid_width() == width as int,
            canvas.grid_height() == height as int,
            canvas.pixels() == Map::new(
                |p: (int, int)| in_grid(p.0, p.1, width as int, height as int),
                |p: (int, int)| background,
            ),
    {
        let total: usize = (width as usize) * (height as usize);
        let mut data: Vec<Color> = Vec::new();
        let mut k: usize = 0;
        while k < total
            invariant
                k <= total,
                data@.len() == k as int,
                forall|i: int| 0 <= i < k as int ==> data@[i] == background,
            decreases total - k,
        {
            data.push(background);
            k = k + 1;
        }
        let canvas = Canvas { width, height, data };
        proof {
            assert forall|p: (int, int)|
                in_grid(p.0, p.1, width as int, height as int) implies 0 <= p.1 * width as int
                + p.0 < width as int * height as int by {
                lemma_row_major_index_bounds(width as int, height as int, p.0, p.1);
            }
            assert(canvas.pixels() =~= Map::new(
                |p: (int, int)| in_grid(p.0, p.1, width as int, height as int),
                |p: (int, int)| background,
            ));
        }
        canvas
    }

    /// Grid width, for bounds-aware callers.
    pub fn width(&self) -> (w: i32)
        ensures
            w as int == self.grid_width(),
    {
        self.width
    }

    /// Grid height, for bounds-aware callers.
    pub fn height(&self) -> (h: i32)
        ensures
            h as int == self.grid_height(),
    {
        self.height
    }

    /// Reads one in-bounds pixel.
    pub fn get_pixel(&self, x: i32, y: i32) -> (c: Color)
        requires
            self.sink_inv(),
            in_grid(x as int, y as int, self.grid_width(), self.grid_height()),
        ensures
            c == self.pixels()[(x as int, y as int)],
    {
        let n: usize = self.data.len();
        proof {
            lemma_row_major_index_bounds(self.width as int, self.height as int, x as int, y as int);
            assert((y as int) * (self.width as int) + (x as int) < n as int);
        }
        let idx: usize = (y as usize) * (self.width as usize) + (x as usize);
        self.data[idx]
    }
}

/// Row-major indexing stays within a `w` by `h` grid's storage.
proof fn lemma_row_major_index_bounds(w: int, h: int, x: int, y: int)
    requires
        0 <= x < w,
        0 <= y < h,
    ensures
        0 <= y * w + x < w * h,
{
    assert(y * w + x < w * h) by (nonlinear_arith)
        requires
            0 <= x < w,
            0 <= y < h,
    ;
    assert(0 <= y * w + x) by (nonlinear_arith)
        requires
            0 <= x,
            0 <= y,
            0 < w,
    ;
}

/// Distinct cells of a grid have distinct row-major indices.
proof fn lemma_row_major_index_injective(w: int, x1: int, y1: int, x2: int, y2: int)
    requires
        0 <= x1 < w,
        0 <= x2 < w,
        (x1, y1) != (x2, y2),
    ensures
        y1 * w + x1 != y2 * w + x2,
{
    if y1 == y2 {
        assert(x1 != x2);
    } else {
        assert(y1 * w + x1 != y2 * w + x2) by (nonlinear_arith)
            requires
                0 <= x1 < w,
                0 <= x2 < w,
                y1 != y2,
        ;
    }
}

impl Displayable for Canvas {
    closed spec fn sink_inv(&self) -> bool {
        self.wf()
    }

    closed spec fn grid_width(&self) -> int {
        self.width as int
    }

    closed spec fn grid_height(&self) -> int {
        self.height as int
    }

    closed spec fn pixels(&self) -> Map<(int, int), Color> {
        Map::new(
            |p: (int, int)| in_grid(p.0, p.1, self.width as int, self.height as int),
            |p: (int, int)| self.data@[p.1 * self.width as int + p.0],
        )
    }

    fn display(&mut self, x: i32, y: i32, color: Color) {
        if x >= 0 && y >= 0 && x < self.width && y < self.height {
            let n: usize = self.data.len();
            proof {
                lemma_row_major_index_bounds(
                    self.width as int,
                    self.height as int,
                    x as int,
                    y as int,
                );
                assert((y as int) * (self.width as int) + (x as int) < n as int);
            }
            let idx: usize = (y as usize) * (self.width as usize) + (x as usize);
            self.data[idx] = color;
            proof {
                let wi = self.width as int;
                let hi = self.height as int;
                let xi = x as int;
                let yi = y as int;
                let m1 = self.pixels();
                let m2 = old(self).pixels().insert((xi, yi), color);
                assert(self.data@ == old(self).data@.update(yi * wi + xi, color));
                assert(m1.dom() =~= m2.dom());
                assert forall|q: (int, int)| m1.dom().contains(q) implies m1[q] == m2[q] by {
                    assert(in_grid(q.0, q.1, wi, hi));
                    if q == (xi, yi) {
                        assert(m1[q] == self.data@[yi * wi + xi]);
                    } else {
                        lemma_row_major_index_injective(wi, q.0, q.1, xi, yi);
                        lemma_row_major_index_bounds(wi, hi, q.0, q.1);
                        assert(m1[q] == old(self).data@[q.1 * wi + q.0]);
                    }
                }
                assert(m1 =~= m2);
            }
        }
    }
}

} // verus!
