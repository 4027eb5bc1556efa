use vstd::prelude::*;

use crate::sink::{coord_ok, points_view, MAX_COORD};

verus! {

/// How many pixels an edge of extent `s` spans: a zero (or negative) extent
/// still spans one pixel, so a degenerate rectangle draws a single
/// row or column.
pub open spec fn span_len(s: int) -> nat {
    if s >= 1 {
        s as nat
    } else {
        1nat
    }
}

/// The row of `n` pixels starting at `(x0, y)`, extending rightward.
pub open spec fn row_seq(x0: int, y: int, n: nat) -> Seq<(int, int)> {
    Seq::new(n, |k: int| (x0 + k, y))
}

/// The column of `n` pixels starting at `(x, y0)`, extending downward.
pub open spec fn col_seq(x: int, y0: int, n: nat) -> Seq<(int, int)> {
    Seq::new(n, |k: int| (x, y0 + k))
}

/// The rectangle outline with top-left corner `(x0, y0)` and extents
/// `(w, h)`: the top and bottom rows across the full x-range, then the left
/// and right columns across the full y-range.
pub open spec fn rect_seq(x0: int, y0: int, w: int, h: int) -> Seq<(int, int)> {
    let nx = span_len(w);
    let ny = span_len(h);
    let x1 = x0 + nx - 1;
    let y1 = y0 + ny - 1;
    row_seq(x0, y0, nx) + row_seq(x0, y1, nx) + col_seq(x0, y0, ny) + col_seq(x1, y0, ny)
}

/// Pushes the row of `n` pixels starting at `(x0, y)`.
#[verifier::loop_isolation(false)]
fn push_row(pts: &mut Vec<(i32, i32)>, x0: i32, y: i32, n: i32)
    requires
        coord_ok(x0 as int),
        0 <= n,
        n as int <= MAX_COORD as int,
    ensures
        points_view(final(pts)@) == points_view(old(pts)@) + row_seq(x0 as int, y as int, n as nat),
{
    let ghost base = points_view(old(pts)@);
    let ghost row = row_seq(x0 as int, y as int, n as nat);
    let mut k: i32 = 0;
    while k < n
        invariant
            0 <= k <= n,
            points_view(pts@) == base + row.take(k as int),
        decreases n - k,
    {
        let ghost prev = pts@;
        pts.push((x0 + k, y));
        proof {
            assert(points_view(pts@) =~= points_view(prev).push(row[k as int]));
            assert(row.take(k as int + 1) =~= row.take(k as int).push(row[k as int]));
            assert((base + row.take(k as int)).push(row[k as int]) =~= base + row.take(
                k as int + 1,
            ));
        }
        k = k + 1;
    }
    proof {
        assert(base + row.take(n as int) =~= base + row);
    }
}

/// Pushes the column of `n` pixels starting at `(x, y0)`.
#[verifier::loop_isolation(false)]
fn push_col(pts: &mut Vec<(i32, i32)>, x: i32, y0: i32, n: i32)
    requires
        coord_ok(y0 as int),
        0 <= n,
        n as int <= MAX_COORD as int,
    ensures
        points_view(final(pts)@) == points_view(old(pts)@) + col_seq(x as int, y0 as int, n as nat),
{
    let ghost base = points_view(old(pts)@);
    let ghost col = col_seq(x as int, y0 as int, n as nat);
    let mut k: i32 = 0;
    while k < n
        invariant
            0 <= k <= n,
            points_view(pts@) == base + col.take(k as int),
        decreases n - k,
    {
        let ghost prev = pts@;
        pts.push((x, y0 + k));
        proof {
            assert(points_view(pts@) =~= points_view(prev).push(col[k as int]));
            assert(col.take(k as int + 1) =~= col.take(k as int).push(col[k as int]));
            assert((base + col.take(k as int)).push(col[k as int]) =~= base + col.take(
                k as int + 1,
            ));
        }
        k = k + 1;
    }
    proof {
        assert(base + col.take(n as int) =~= base + col);
    }
}

/// Rasterizes the rectangle outline with top-left corner `(x0, y0)`, width
/// `w` and height `h`, returning its points in emission order: top row,
/// bottom row, left column, right column.
pub fn rect_points(x0: i32, y0: i32, w: i32, h: i32) -> (pts: Vec<(i32, i32)>)
    requires
        coord_ok(x0 as int),
        coord_ok(y0 as int),
        0 <= w,
        w as int <= MAX_COORD as int,
        0 <= h,
        h as int <= MAX_COORD as int,
    ensures
        points_view(pts@) == rect_seq(x0 as int, y0 as int, w as int, h as int),
{
    let nx: i32 = if w >= 1 {
        w
    } else {
        1
    };
    let ny: i32 = if h >= 1 {
        h
    } else {
        1
    };
    let x1: i32 = x0 + nx - 1;
    let y1: i32 = y0 + ny - 1;
    let mut pts: Vec<(i32, i32)> = Vec::new();
    proof {
        assert(points_view(pts@) =~= Seq::<(int, int)>::empty());
    }
    push_row(&mut pts, x0, y0, nx);
    push_row(&mut pts, x0, y1, nx);
    push_col(&mut pts, x0, y0, ny);
    push_col(&mut pts, x1, y0, ny);
    proof {
        let nxn = span_len(w as int);
        let nyn = span_len(h as int);
        assert(nx as int == nxn as int);
        assert(ny as int == nyn as int);
        assert(points_view(pts@) =~= rect_seq(x0 as int, y0 as int, w as int, h as int));
    }
    pts
}

/// Law: the rectangle outline contains all four corner pixels and no pixel
/// strictly interior to its bounds.
pub proof fn lemma_rect_corners_and_interior(x0: int, y0: int, w: int, h: int, p: (int, int))
    requires
        1 <= w,
        1 <= h,
    ensures
        rect_seq(x0, y0, w, h).contains((x0, y0)),
        rect_seq(x0, y0, w, h).contains((x0 + w - 1, y0)),
        rect_seq(x0, y0, w, h).contains((x0, y0 + h - 1)),
        rect_seq(x0, y0, w, h).contains((x0 + w - 1, y0 + h - 1)),
        x0 < p.0 < x0 + w - 1 && y0 < p.1 < y0 + h - 1 ==> !rect_seq(x0, y0, w, h).contains(p),
{
    let s = rect_seq(x0, y0, w, h);
    let x1 = x0 + w - 1;
    let y1 = y0 + h - 1;
    assert(s[0] == (x0, y0));
    assert(s.contains((x0, y0)));
    assert(s[w - 1] == (x1, y0));
    assert(s.contains((x1, y0)));
    assert(s[w] == (x0, y1));
    assert(s.contains((x0, y1)));
    assert(s[w + w - 1] == (x1, y1));
    assert(s.contains((x1, y1)));
    if x0 < p.0 < x1 && y0 < p.1 < y1 && s.contains(p) {
        let k = choose|k: int| 0 <= k < s.len() && s[k] == p;
        if k < w {
            assert(s[k] == (x0 + k, y0));
        } else if k < w + w {
            assert(s[k] == (x0 + (k - w), y1));
        } else if k < w + w + h {
            assert(s[k] == (x0, y0 + (k - w - w)));
        } else {
            assert(s[k] == (x1, y0 + (k - w - w - h)));
        }
        assert(false);
    }
}

} // verus!
