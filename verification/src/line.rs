use vstd::prelude::*;

use crate::sink::{coord_ok, points_view};

verus! {

/// The distance `|b - a|`.
pub open spec fn dist(a: int, b: int) -> int {
    if a <= b {
        b - a
    } else {
        a - b
    }
}

/// The unit step from `a` toward `b`, as the stepper picks it
/// (`-1` when `a == b`, where it is never applied).
pub open spec fn step_toward(a: int, b: int) -> int {
    if a < b {
        1
    } else {
        -1
    }
}

/// The Bresenham error accumulator after `i` x-steps and `j` y-steps on a
/// segment with coordinate spans `dx`, `dy`: it starts at `dx - dy`, every
/// x-step subtracts `dy` and every y-step adds `dx`.
pub open spec fn bres_err(dx: int, dy: int, i: int, j: int) -> int {
    dx - dy + j * dx - i * dy
}

/// The Bresenham step-count pairs from `(i, j)` up to `(dx, dy)`, both
/// included. At each pair the doubled error accumulator decides whether the
/// x-count, the y-count, or both advance.
pub open spec fn bres_counts(dx: int, dy: int, i: int, j: int) -> Seq<(int, int)>
    decreases dx - i + dy - j,
        when 0 <= i <= dx && 0 <= j <= dy
        via bres_counts_decreases
{
    if i == dx && j == dy {
        seq![(i, j)]
    } else {
        let e2 = 2 * bres_err(dx, dy, i, j);
        let i2 = if e2 > -dy {
            i + 1
        } else {
            i
        };
        let j2 = if e2 < dx {
            j + 1
        } else {
            j
        };
        seq![(i, j)] + bres_counts(dx, dy, i2, j2)
    }
}

/// The step taken at `(i, j)` stays within the spans, and at least one
/// count advances.
proof fn lemma_bres_step(dx: int, dy: int, i: int, j: int)
    requires
        0 <= i <= dx,
        0 <= j <= dy,
        !(i == dx && j == dy),
    ensures
        2 * bres_err(dx, dy, i, j) > -dy ==> i < dx,
        2 * bres_err(dx, dy, i, j) < dx ==> j < dy,
        2 * bres_err(dx, dy, i, j) > -dy || 2 * bres_err(dx, dy, i, j) < dx,
{
    if i == dx {
        assert(j < dy);
        assert(2 * (dx - dy + j * dx - i * dy) <= -dy) by (nonlinear_arith)
            requires
                i == dx,
                0 <= j,
                j < dy,
                0 <= dx,
        ;
    }
    if j == dy {
        assert(i < dx);
        assert(2 * (dx - dy + j * dx - i * dy) >= dx) by (nonlinear_arith)
            requires
                j == dy,
                0 <= i,
                i < dx,
                0 <= dy,
        ;
    }
    if !(2 * bres_err(dx, dy, i, j) > -dy) && !(2 * bres_err(dx, dy, i, j) < dx) {
        assert(dx <= 2 * bres_err(dx, dy, i, j) <= -dy);
        assert(dx == 0 && dy == 0);
        assert(false);
    }
}

#[via_fn]
proof fn bres_counts_decreases(dx: int, dy: int, i: int, j: int) {
    if !(i == dx && j == dy) {
        lemma_bres_step(dx, dy, i, j);
    }
}

/// The points a stepper with counts `counts` emits, anchored at `(ax, ay)`
/// and stepping by `sx` and `sy`.
pub open spec fn counts_points(ax: int, ay: int, sx: int, sy: int, counts: Seq<(int, int)>) -> Seq<
    (int, int),
> {
    counts.map_values(|ij: (int, int)| (ax + ij.0 * sx, ay + ij.1 * sy))
}

/// The ordered integer points of the Bresenham line from `(ax, ay)` to
/// `(bx, by)`, both endpoints included.
pub open spec fn line_seq(ax: int, ay: int, bx: int, by: int) -> Seq<(int, int)> {
    counts_points(
        ax,
        ay,
        step_toward(ax, bx),
        step_toward(ay, by),
        bres_counts(dist(ax, bx), dist(ay, by), 0, 0),
    )
}

/// Rasterizes the segment from `(ax, ay)` to `(bx, by)` with the classic
/// integer-only Bresenham stepper and returns its points in emission order.
#[verifier::loop_isolation(false)]
#[verifier::rlimit(100)]
#[verifier::spinoff_prover]
pub fn line_points(ax: i32, ay: i32, bx: i32, by: i32) -> (pts: Vec<(i32, i32)>)
    requires
        coord_ok(ax as int),
        coord_ok(ay as int),
        coord_ok(bx as int),
        coord_ok(by as int),
    ensures
        points_view(pts@) == line_seq(ax as int, ay as int, bx as int, by as int),
{
    let ghost axi = ax as int;
    let ghost ayi = ay as int;
    let ghost bxi = bx as int;
    let ghost byi = by as int;
    let dx: i32 = if bx >= ax {
        bx - ax
    } else {
        ax - bx
    };
    let dy: i32 = if by >= ay {
        by - ay
    } else {
        ay - by
    };
    let sx: i32 = if ax < bx {
        1
    } else {
        -1
    };
    let sy: i32 = if ay < by {
        1
    } else {
        -1
    };
    let ghost dxi = dx as int;
    let ghost dyi = dy as int;
    let ghost sxi = sx as int;
    let ghost syi = sy as int;
    let ghost target = line_seq(axi, ayi, bxi, byi);
    let mut err: i32 = dx - dy;
    let mut cx: i32 = ax;
    let mut cy: i32 = ay;
    let ghost mut gi: int = 0;
    let ghost mut gj: int = 0;
    let mut pts: Vec<(i32, i32)> = Vec::new();
    pts.push((cx, cy));
    proof {
        let counts0 = bres_counts(dxi, dyi, 0, 0);
        assert(counts0 =~= seq![(0int, 0int)] + counts0.drop_first());
        assert(counts_points(axi, ayi, sxi, syi, counts0) =~= counts_points(
            axi,
            ayi,
            sxi,
            syi,
            seq![(0int, 0int)],
        ) + counts_points(axi, ayi, sxi, syi, counts0.drop_first()));
        assert(points_view(pts@) =~= counts_points(axi, ayi, sxi, syi, seq![(0int, 0int)]));
    }
    while !(cx == bx && cy == by)
        invariant
            0 <= gi <= dxi,
            0 <= gj <= dyi,
            cx as int == axi + gi * sxi,
            cy as int == ayi + gj * syi,
            axi - dxi <= cx as int <= axi + dxi,
            ayi - dyi <= cy as int <= ayi + dyi,
            err as int == bres_err(dxi, dyi, gi, gj),
            -3 * dyi <= 2 * (err as int) <= 3 * dxi,
            points_view(pts@) + counts_points(
                axi,
                ayi,
                sxi,
                syi,
                bres_counts(dxi, dyi, gi, gj).drop_first(),
            ) == target,
        decreases dxi + dyi - gi - gj,
    {
        proof {
            if gi == dxi && gj == dyi {
                if ax < bx {
                    assert(cx as int == axi + gi);
                } else {
                    assert(cx as int == axi - gi);
                }
                if ay < by {
                    assert(cy as int == ayi + gj);
                } else {
                    assert(cy as int == ayi - gj);
                }
                assert(cx == bx && cy == by);
                assert(false);
            }
            lemma_bres_step(dxi, dyi, gi, gj);
        }
        let ghost oi = gi;
        let ghost oj = gj;
        let e2: i32 = 2 * err;
        if e2 > -dy {
            err = err - dy;
            cx = cx + sx;
            proof {
                gi = gi + 1;
            }
        }
        if e2 < dx {
            err = err + dx;
            cy = cy + sy;
            proof {
                gj = gj + 1;
            }
        }
        pts.push((cx, cy));
        proof {
            assert((oi + 1) * sxi == oi * sxi + sxi) by (nonlinear_arith);
            assert((oj + 1) * syi == oj * syi + syi) by (nonlinear_arith);
            assert(bres_err(dxi, dyi, oi + 1, oj) == bres_err(dxi, dyi, oi, oj) - dyi)
                by (nonlinear_arith);
            assert(bres_err(dxi, dyi, oi, oj + 1) == bres_err(dxi, dyi, oi, oj) + dxi)
                by (nonlinear_arith);
            assert(bres_err(dxi, dyi, oi + 1, oj + 1) == bres_err(dxi, dyi, oi, oj) + dxi - dyi)
                by (nonlinear_arith);
            if ax < bx {
                assert(cx as int == axi + gi);
            } else {
                assert(cx as int == axi - gi);
            }
            if ay < by {
                assert(cy as int == ayi + gj);
            } else {
                assert(cy as int == ayi - gj);
            }
            let counts_prev = bres_counts(dxi, dyi, oi, oj);
            let counts_cur = bres_counts(dxi, dyi, gi, gj);
            assert(counts_prev.drop_first() =~= counts_cur);
            assert(counts_cur =~= seq![(gi, gj)] + counts_cur.drop_first());
            assert(counts_points(axi, ayi, sxi, syi, counts_cur) =~= counts_points(
                axi,
                ayi,
                sxi,
                syi,
                seq![(gi, gj)],
            ) + counts_points(axi, ayi, sxi, syi, counts_cur.drop_first()));
            assert(counts_points(axi, ayi, sxi, syi, seq![(gi, gj)]) =~= seq![
                (cx as int, cy as int),
            ]);
            assert(points_view(pts@) =~= points_view(pts@.drop_last()) + seq![
                (cx as int, cy as int),
            ]);
            assert(points_view(pts@) + counts_points(
                axi,
                ayi,
                sxi,
                syi,
                counts_cur.drop_first(),
            ) =~= points_view(pts@.drop_last()) + counts_points(axi, ayi, sxi, syi, counts_cur));
        }
    }
    proof {
        if ax < bx {
            assert(gi == dxi);
        } else {
            assert(gi == dxi);
        }
        if ay < by {
            assert(gj == dyi);
        } else {
            assert(gj == dyi);
        }
        assert(bres_counts(dxi, dyi, gi, gj).drop_first() =~= Seq::<(int, int)>::empty());
        assert(counts_points(axi, ayi, sxi, syi, Seq::<(int, int)>::empty()) =~= Seq::<
            (int, int),
        >::empty());
        assert(points_view(pts@) =~= points_view(pts@) + Seq::<(int, int)>::empty());
    }
    pts
}

/// Law: the line from a point to itself consists of exactly that point.
pub proof fn lemma_line_single_point(x: int, y: int)
    ensures
        line_seq(x, y, x, y) == seq![(x, y)],
{
    assert(bres_counts(0, 0, 0, 0) == seq![(0int, 0int)]);
    assert(line_seq(x, y, x, y) =~= seq![(x, y)]);
}

/// With no y-span the stepper advances x alone, one pixel per step.
proof fn lemma_counts_pure_x(dx: int, i: int)
    requires
        0 <= i <= dx,
    ensures
        bres_counts(dx, 0, i, 0) == Seq::new((dx - i + 1) as nat, |k: int| (i + k, 0int)),
    decreases dx - i,
{
    let s = bres_counts(dx, 0, i, 0);
    if i == dx {
        assert(s =~= Seq::new((dx - i + 1) as nat, |k: int| (i + k, 0int)));
    } else {
        assert(bres_err(dx, 0, i, 0) == dx);
        lemma_counts_pure_x(dx, i + 1);
        assert(s =~= Seq::new((dx - i + 1) as nat, |k: int| (i + k, 0int)));
    }
}

/// With no x-span the stepper advances y alone, one pixel per step.
proof fn lemma_counts_pure_y(dy: int, j: int)
    requires
        0 <= j <= dy,
    ensures
        bres_counts(0, dy, 0, j) == Seq::new((dy - j + 1) as nat, |k: int| (0int, j + k)),
    decreases dy - j,
{
    let s = bres_counts(0, dy, 0, j);
    if j == dy {
        assert(s =~= Seq::new((dy - j + 1) as nat, |k: int| (0int, j + k)));
    } else {
        assert(bres_err(0, dy, 0, j) == -dy);
        lemma_counts_pure_y(dy, j + 1);
        assert(s =~= Seq::new((dy - j + 1) as nat, |k: int| (0int, j + k)));
    }
}

/// A horizontal line is the row of pixels from `ax` toward `bx`.
proof fn lemma_line_horizontal(ax: int, ay: int, bx: int)
    ensures
        line_seq(ax, ay, bx, ay) == Seq::new(
            (dist(ax, bx) + 1) as nat,
            |k: int| (ax + k * step_toward(ax, bx), ay),
        ),
{
    lemma_counts_pure_x(dist(ax, bx), 0);
    assert(line_seq(ax, ay, bx, ay) =~= Seq::new(
        (dist(ax, bx) + 1) as nat,
        |k: int| (ax + k * step_toward(ax, bx), ay),
    ));
}

/// A vertical line is the column of pixels from `ay` toward `by`.
proof fn lemma_line_vertical(ax: int, ay: int, by: int)
    ensures
        line_seq(ax, ay, ax, by) == Seq::new(
            (dist(ay, by) + 1) as nat,
            |k: int| (ax, ay + k * step_toward(ay, by)),
        ),
{
    lemma_counts_pure_y(dist(ay, by), 0);
    assert(line_seq(ax, ay, ax, by) =~= Seq::new(
        (dist(ay, by) + 1) as nat,
        |k: int| (ax, ay + k * step_toward(ay, by)),
    ));
}

/// Whatever a horizontal line holds, its reversal holds too.
proof fn lemma_horizontal_reverse_subset(ax: int, ay: int, bx: int, p: (int, int))
    ensures
        line_seq(ax, ay, bx, ay).contains(p) ==> line_seq(bx, ay, ax, ay).contains(p),
{
    if line_seq(ax, ay, bx, ay).contains(p) {
        lemma_line_horizontal(ax, ay, bx);
        lemma_line_horizontal(bx, ay, ax);
        let fwd = line_seq(ax, ay, bx, ay);
        let rev = line_seq(bx, ay, ax, ay);
        let d = dist(ax, bx);
        let k = choose|k: int| 0 <= k < fwd.len() && fwd[k] == p;
        if ax == bx {
            assert(rev[k] == p);
        } else if ax < bx {
            assert(fwd[k] == (ax + k * 1, ay));
            assert(rev[d - k] == (bx + (d - k) * (-1), ay));
            assert(rev[d - k] == p);
        } else {
            assert(fwd[k] == (ax + k * (-1), ay));
            assert(rev[d - k] == (bx + (d - k) * 1, ay));
            assert(rev[d - k] == p);
        }
        assert(rev.contains(p));
    }
}

/// Whatever a vertical line holds, its reversal holds too.
proof fn lemma_vertical_reverse_subset(ax: int, ay: int, by: int, p: (int, int))
    ensures
        line_seq(ax, ay, ax, by).contains(p) ==> line_seq(ax, by, ax, ay).contains(p),
{
    if line_seq(ax, ay, ax, by).contains(p) {
        lemma_line_vertical(ax, ay, by);
        lemma_line_vertical(ax, by, ay);
        let fwd = line_seq(ax, ay, ax, by);
        let rev = line_seq(ax, by, ax, ay);
        let d = dist(ay, by);
        let k = choose|k: int| 0 <= k < fwd.len() && fwd[k] == p;
        if ay == by {
            assert(rev[k] == p);
        } else if ay < by {
            assert(fwd[k] == (ax, ay + k * 1));
            assert(rev[d - k] == (ax, by + (d - k) * (-1)));
            assert(rev[d - k] == p);
        } else {
            assert(fwd[k] == (ax, ay + k * (-1)));
            assert(rev[d - k] == (ax, by + (d - k) * 1));
            assert(rev[d - k] == p);
        }
        assert(rev.contains(p));
    }
}

/// With equal spans the stepper advances both coordinates together, one
/// diagonal pixel per step.
proof fn lemma_counts_pure_diag(d: int, i: int)
    requires
        0 <= i <= d,
    ensures
        bres_counts(d, d, i, i) == Seq::new((d - i + 1) as nat, |k: int| (i + k, i + k)),
    decreases d - i,
{
    let s = bres_counts(d, d, i, i);
    if i == d {
        assert(s =~= Seq::new((d - i + 1) as nat, |k: int| (i + k, i + k)));
    } else {
        assert(bres_err(d, d, i, i) == 0);
        lemma_counts_pure_diag(d, i + 1);
        assert(s =~= Seq::new((d - i + 1) as nat, |k: int| (i + k, i + k)));
    }
}

/// A segment with equal spans is the diagonal run of pixels from `(ax, ay)`
/// toward `(bx, by)`.
proof fn lemma_line_diagonal(ax: int, ay: int, bx: int, by: int)
    requires
        dist(ax, bx) == dist(ay, by),
    ensures
        line_seq(ax, ay, bx, by) == Seq::new(
            (dist(ax, bx) + 1) as nat,
            |k: int| (ax + k * step_toward(ax, bx), ay + k * step_toward(ay, by)),
        ),
{
    lemma_counts_pure_diag(dist(ax, bx), 0);
    assert(line_seq(ax, ay, bx, by) =~= Seq::new(
        (dist(ax, bx) + 1) as nat,
        |k: int| (ax + k * step_toward(ax, bx), ay + k * step_toward(ay, by)),
    ));
}

/// Whatever a segment with equal spans holds, its reversal holds too.
proof fn lemma_diagonal_reverse_subset(ax: int, ay: int, bx: int, by: int, p: (int, int))
    requires
        dist(ax, bx) == dist(ay, by),
    ensures
        line_seq(ax, ay, bx, by).contains(p) ==> line_seq(bx, by, ax, ay).contains(p),
{
    if line_seq(ax, ay, bx, by).contains(p) {
        lemma_line_diagonal(ax, ay, bx, by);
        lemma_line_diagonal(bx, by, ax, ay);
        let fwd = line_seq(ax, ay, bx, by);
        let rev = line_seq(bx, by, ax, ay);
        let d = dist(ax, bx);
        let k = choose|k: int| 0 <= k < fwd.len() && fwd[k] == p;
        if d == 0 {
            assert(rev[k] == p);
        } else {
            if ax < bx {
                assert(fwd[k].0 == ax + k * 1);
                assert(rev[d - k].0 == bx + (d - k) * (-1));
            } else {
                assert(fwd[k].0 == ax + k * (-1));
                assert(rev[d - k].0 == bx + (d - k) * 1);
            }
            if ay < by {
                assert(fwd[k].1 == ay + k * 1);
                assert(rev[d - k].1 == by + (d - k) * (-1));
            } else {
                assert(fwd[k].1 == ay + k * (-1));
                assert(rev[d - k].1 == by + (d - k) * 1);
            }
            assert(rev[d - k] == p);
        }
        assert(rev.contains(p));
    }
}

/// Law: an axis-aligned or exactly diagonal segment drawn in the opposite
/// direction emits the same pixels in reversed order.
pub proof fn lemma_line_reverse_order(ax: int, ay: int, bx: int, by: int)
    requires
        ax == bx || ay == by || dist(ax, bx) == dist(ay, by),
    ensures
        line_seq(bx, by, ax, ay) == line_seq(ax, ay, bx, by).reverse(),
{
    let fwd = line_seq(ax, ay, bx, by);
    let rev = line_seq(bx, by, ax, ay);
    if ax == bx {
        lemma_line_vertical(ax, ay, by);
        lemma_line_vertical(ax, by, ay);
        assert(rev =~= fwd.reverse());
    } else if ay == by {
        lemma_line_horizontal(ax, ay, bx);
        lemma_line_horizontal(bx, ay, ax);
        assert(rev =~= fwd.reverse());
    } else {
        lemma_line_diagonal(ax, ay, bx, by);
        lemma_line_diagonal(bx, by, ax, ay);
        assert(rev =~= fwd.reverse());
    }
}

/// Law: an axis-aligned or exactly diagonal segment covers the same pixel
/// set in either drawing direction.
pub proof fn lemma_line_reverse_symmetric(ax: int, ay: int, bx: int, by: int, p: (int, int))
    requires
        ax == bx || ay == by || dist(ax, bx) == dist(ay, by),
    ensures
        line_seq(ax, ay, bx, by).contains(p) <==> line_seq(bx, by, ax, ay).contains(p),
{
    if ax == bx {
        lemma_vertical_reverse_subset(ax, ay, by, p);
        lemma_vertical_reverse_subset(ax, by, ay, p);
    } else if ay == by {
        lemma_horizontal_reverse_subset(ax, ay, bx, p);
        lemma_horizontal_reverse_subset(bx, ay, ax, p);
    } else {
        lemma_diagonal_reverse_subset(ax, ay, bx, by, p);
        lemma_diagonal_reverse_subset(bx, by, ax, ay, p);
    }
}

} // verus!

