use vstd::prelude::*;

use crate::sink::{coord_ok, lemma_concat_contains, points_view, MAX_COORD};

verus! {

/// The eight symmetric images of the octant offset `(x, y)` around
/// `(cx, cy)`, in emission order.
pub open spec fn eight(cx: int, cy: int, x: int, y: int) -> Seq<(int, int)> {
    seq![
        (cx + x, cy + y),
        (cx + y, cy + x),
        (cx - y, cy + x),
        (cx - x, cy + y),
        (cx - x, cy - y),
        (cx - y, cy - x),
        (cx + y, cy - x),
        (cx + x, cy - y),
    ]
}

/// The points the midpoint circle stepper emits from octant state
/// `(x, y, err)` onward: while `x >= y` it emits the eight symmetric images
/// of `(x, y)`, then advances `y` and lets the decision variable choose
/// whether `x` keeps its value or retreats by one.
pub open spec fn circle_octant(cx: int, cy: int, x: int, y: int, err: int) -> Seq<(int, int)>
    decreases x - y + 2,
{
    if y > x {
        Seq::empty()
    } else {
        let y2 = y + 1;
        eight(cx, cy, x, y) + (if err <= 0 {
            circle_octant(cx, cy, x, y2, err + 2 * y2 + 1)
        } else {
            circle_octant(cx, cy, x - 1, y2, err - (2 * (x - 1) + 1))
        })
    }
}

/// The ordered points of the midpoint circle with center `(cx, cy)` and
/// radius `r`.
pub open spec fn circle_seq(cx: int, cy: int, r: int) -> Seq<(int, int)> {
    circle_octant(cx, cy, r, 0, 0)
}

/// The mirror image of `p` across the vertical axis through `cx`.
pub open spec fn mirror_x(cx: int, p: (int, int)) -> (int, int) {
    (2 * cx - p.0, p.1)
}

/// The mirror image of `p` across the horizontal axis through `cy`.
pub open spec fn mirror_y(cy: int, p: (int, int)) -> (int, int) {
    (p.0, 2 * cy - p.1)
}

/// The mirror image of `p` across the diagonal through `(cx, cy)`: the two
/// offsets from the center swap.
pub open spec fn mirror_diag(cx: int, cy: int, p: (int, int)) -> (int, int) {
    (cx + (p.1 - cy), cy + (p.0 - cx))
}

/// The eight symmetric images of one offset are closed under all three
/// mirrors.
proof fn lemma_eight_closed(cx: int, cy: int, x: int, y: int, p: (int, int))
    requires
        eight(cx, cy, x, y).contains(p),
    ensures
        eight(cx, cy, x, y).contains(mirror_x(cx, p)),
        eight(cx, cy, x, y).contains(mirror_y(cy, p)),
        eight(cx, cy, x, y).contains(mirror_diag(cx, cy, p)),
{
    let e = eight(cx, cy, x, y);
    if p == e[0] {
        assert(mirror_x(cx, p) == e[3]);
        assert(mirror_y(cy, p) == e[7]);
        assert(mirror_diag(cx, cy, p) == e[1]);
    } else if p == e[1] {
        assert(mirror_x(cx, p) == e[2]);
        assert(mirror_y(cy, p) == e[6]);
        assert(mirror_diag(cx, cy, p) == e[0]);
    } else if p == e[2] {
        assert(mirror_x(cx, p) == e[1]);
        assert(mirror_y(cy, p) == e[5]);
        assert(mirror_diag(cx, cy, p) == e[7]);
    } else if p == e[3] {
        assert(mirror_x(cx, p) == e[0]);
        assert(mirror_y(cy, p) == e[4]);
        assert(mirror_diag(cx, cy, p) == e[6]);
    } else if p == e[4] {
        assert(mirror_x(cx, p) == e[7]);
        assert(mirror_y(cy, p) == e[3]);
        assert(mirror_diag(cx, cy, p) == e[5]);
    } else if p == e[5] {
        assert(mirror_x(cx, p) == e[6]);
        assert(mirror_y(cy, p) == e[2]);
        assert(mirror_diag(cx, cy, p) == e[4]);
    } else if p == e[6] {
        assert(mirror_x(cx, p) == e[5]);
        assert(mirror_y(cy, p) == e[1]);
        assert(mirror_diag(cx, cy, p) == e[3]);
    } else if p == e[7] {
        assert(mirror_x(cx, p) == e[4]);
        assert(mirror_y(cy, p) == e[0]);
        assert(mirror_diag(cx, cy, p) == e[2]);
    } else {
        assert(false);
    }
}

/// Every suffix of the octant walk emits a point set closed under the three
/// mirrors.
proof fn lemma_octant_closed(cx: int, cy: int, x: int, y: int, err: int, p: (int, int))
    requires
        circle_octant(cx, cy, x, y, err).contains(p),
    ensures
        circle_octant(cx, cy, x, y, err).contains(mirror_x(cx, p)),
        circle_octant(cx, cy, x, y, err).contains(mirror_y(cy, p)),
        circle_octant(cx, cy, x, y, err).contains(mirror_diag(cx, cy, p)),
    decreases x - y + 2,
{
    let s = circle_octant(cx, cy, x, y, err);
    assert(!(y > x));
    let e = eight(cx, cy, x, y);
    let y2 = y + 1;
    let rest = if err <= 0 {
        circle_octant(cx, cy, x, y2, err + 2 * y2 + 1)
    } else {
        circle_octant(cx, cy, x - 1, y2, err - (2 * (x - 1) + 1))
    };
    assert(s == e + rest);
    lemma_concat_contains(e, rest, p);
    if e.contains(p) {
        lemma_eight_closed(cx, cy, x, y, p);
    } else {
        if err <= 0 {
            lemma_octant_closed(cx, cy, x, y2, err + 2 * y2 + 1, p);
        } else {
            lemma_octant_closed(cx, cy, x - 1, y2, err - (2 * (x - 1) + 1), p);
        }
    }
    lemma_concat_contains(e, rest, mirror_x(cx, p));
    lemma_concat_contains(e, rest, mirror_y(cy, p));
    lemma_concat_contains(e, rest, mirror_diag(cx, cy, p));
}

/// Law: the emitted point set of a midpoint circle is invariant under
/// reflection across the vertical and the horizontal axis through its
/// center and under the diagonal swap of the two center offsets — the
/// eight-fold symmetry of the circle.
pub proof fn lemma_circle_eight_fold_symmetry(cx: int, cy: int, r: int, p: (int, int))
    ensures
        circle_seq(cx, cy, r).contains(p) <==> circle_seq(cx, cy, r).contains(mirror_x(cx, p)),
        circle_seq(cx, cy, r).contains(p) <==> circle_seq(cx, cy, r).contains(mirror_y(cy, p)),
        circle_seq(cx, cy, r).contains(p) <==> circle_seq(cx, cy, r).contains(
            mirror_diag(cx, cy, p),
        ),
{
    let s = circle_seq(cx, cy, r);
    if s.contains(p) {
        lemma_octant_closed(cx, cy, r, 0, 0, p);
    }
    if s.contains(mirror_x(cx, p)) {
        lemma_octant_closed(cx, cy, r, 0, 0, mirror_x(cx, p));
        assert(mirror_x(cx, mirror_x(cx, p)) == p);
    }
    if s.contains(mirror_y(cy, p)) {
        lemma_octant_closed(cx, cy, r, 0, 0, mirror_y(cy, p));
        assert(mirror_y(cy, mirror_y(cy, p)) == p);
    }
    if s.contains(mirror_diag(cx, cy, p)) {
        lemma_octant_closed(cx, cy, r, 0, 0, mirror_diag(cx, cy, p));
        assert(mirror_diag(cx, cy, mirror_diag(cx, cy, p)) == p);
    }
}

/// Rasterizes the circle with center `(cx, cy)` and radius `r` with the
/// integer-only midpoint stepper and returns its points in emission order.
#[verifier::loop_isolation(false)]
pub fn circle_points(cx: i32, cy: i32, r: i32) -> (pts: Vec<(i32, i32)>)
    requires
        coord_ok(cx as int),
        coord_ok(cy as int),
        0 <= r,
        r as int <= MAX_COORD as int,
    ensures
        points_view(pts@) == circle_seq(cx as int, cy as int, r as int),
{
    let ghost cxi = cx as int;
    let ghost cyi = cy as int;
    let ghost target = circle_seq(cxi, cyi, r as int);
    let mut x: i32 = r;
    let mut y: i32 = 0;
    let mut err: i32 = 0;
    let mut pts: Vec<(i32, i32)> = Vec::new();
    while x >= y
        invariant
            0 <= y,
            y <= x + 2,
            x <= r,
            -2 * (r as int) <= err as int,
            err as int <= 2 * (y as int) + 1,
            points_view(pts@) + circle_octant(cxi, cyi, x as int, y as int, err as int) == target,
        decreases x - y + 3,
    {
        let ghost pts0 = pts@;
        let ghost ox = x as int;
        let ghost oy = y as int;
        let ghost oerr = err as int;
        pts.push((cx + x, cy + y));
        pts.push((cx + y, cy + x));
        pts.push((cx - y, cy + x));
        pts.push((cx - x, cy + y));
        pts.push((cx - x, cy - y));
        pts.push((cx - y, cy - x));
        pts.push((cx + y, cy - x));
        pts.push((cx + x, cy - y));
        y = y + 1;
        if err <= 0 {
            err = err + 2 * y + 1;
        } else {
            x = x - 1;
            err = err - (2 * x + 1);
        }
        proof {
            assert(circle_octant(cxi, cyi, ox, oy, oerr) == eight(cxi, cyi, ox, oy)
                + circle_octant(cxi, cyi, x as int, y as int, err as int));
            assert(points_view(pts@) =~= points_view(pts0) + eight(cxi, cyi, ox, oy));
            assert(points_view(pts@) + circle_octant(cxi, cyi, x as int, y as int, err as int)
                =~= points_view(pts0) + circle_octant(cxi, cyi, ox, oy, oerr));
        }
    }
    proof {
        assert(circle_octant(cxi, cyi, x as int, y as int, err as int) == Seq::<
            (int, int),
        >::empty());
        assert(points_view(pts@) + Seq::<(int, int)>::empty() =~= points_view(pts@));
    }
    pts
}

} // verus!
