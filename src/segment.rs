//! Integer line rasterization: the incremental-error walk between two points.

use vstd::prelude::*;
use raster::{Color, Image};
use crate::canvas::{canvas_ok, painted, plot, lemma_painted_union};

verus! {

pub open spec fn step_toward(a: int, b: int) -> int {
    if a < b { 1 } else { -1 }
}

pub open spec fn abs_diff(a: int, b: int) -> int {
    if a <= b { b - a } else { a - b }
}

pub open spec fn max_of(a: int, b: int) -> int {
    if a >= b { a } else { b }
}

/// The error term of the walk after `px` steps along x and `py` steps along y.
pub open spec fn walk_error(dx: int, dyy: int, px: int, py: int) -> int {
    dx - dyy + (dx * py - dyy * px)
}

/// The pixels visited from the point `px` steps along x and `py` steps along y
/// away from `(x1, y1)`, in directions `sx` and `sy`, towards the point
/// `dx` and `dyy` steps away. At each step the error term decides whether x,
/// y, or both advance.
pub open spec fn walk(x1: int, y1: int, sx: int, sy: int, dx: int, dyy: int, px: int, py: int) -> Seq<(int, int)>
    decreases (dx - px) + (dyy - py),
{
    let here = (x1 + sx * px, y1 + sy * py);
    if (px == dx && py == dyy) || !(0 <= px <= dx && 0 <= py <= dyy) {
        seq![here]
    } else {
        let e2 = 2 * walk_error(dx, dyy, px, py);
        let nx = if e2 >= -dyy { px + 1 } else { px };
        let ny = if e2 <= dx { py + 1 } else { py };
        if nx <= dx && ny <= dyy {
            seq![here] + walk(x1, y1, sx, sy, dx, dyy, nx, ny)
        } else {
            seq![here]
        }
    }
}

/// The pixels of the line from `(x1, y1)` to `(x2, y2)`, in drawing order.
pub open spec fn line_path(x1: int, y1: int, x2: int, y2: int) -> Seq<(int, int)> {
    walk(x1, y1, step_toward(x1, x2), step_toward(y1, y2), abs_diff(x1, x2), abs_diff(y1, y2), 0, 0)
}

pub open spec fn points_of(s: Seq<(int, int)>) -> Set<(int, int)> {
    Set::new(|p: (int, int)| s.contains(p))
}

/// The pixels that the line from `(x1, y1)` to `(x2, y2)` covers.
pub open spec fn line_pixels(x1: int, y1: int, x2: int, y2: int) -> Set<(int, int)> {
    points_of(line_path(x1, y1, x2, y2))
}

/// The state of the walk that every step keeps: the error term stays within
/// half a step of the ideal line.
pub open spec fn walk_state_ok(dx: int, dyy: int, px: int, py: int) -> bool {
    &&& 0 <= px <= dx
    &&& 0 <= py <= dyy
    &&& -max_of(dx, dyy) <= 2 * (dx * py - dyy * px) <= max_of(dx, dyy)
}

/// A step taken before the end never passes the far end along either axis,
/// and the next state is again a good one.
pub proof fn lemma_step(dx: int, dyy: int, px: int, py: int)
    requires
        walk_state_ok(dx, dyy, px, py),
        !(px == dx && py == dyy),
    ensures
        ({
            let e2 = 2 * walk_error(dx, dyy, px, py);
            let nx = if e2 >= -dyy { px + 1 } else { px };
            let ny = if e2 <= dx { py + 1 } else { py };
            &&& nx <= dx
            &&& ny <= dyy
            &&& px + py < nx + ny
            &&& walk_state_ok(dx, dyy, nx, ny)
            &&& dx >= dyy ==> nx == px + 1
            &&& dyy >= dx ==> ny == py + 1
            &&& walk_error(dx, dyy, nx, ny) == walk_error(dx, dyy, px, py) + (if e2 >= -dyy { -dyy } else { 0 }) + (if e2 <= dx { dx } else { 0 })
        }),
{
    let l = dx * py - dyy * px;
    if px == dx {
        assert(l <= -dx) by (nonlinear_arith)
            requires l == dx * py - dyy * px, px == dx, py < dyy, 0 <= dx,;
    }
    if py == dyy {
        assert(l >= dyy) by (nonlinear_arith)
            requires l == dx * py - dyy * px, py == dyy, px < dx, 0 <= dyy,;
    }
    assert(dx * (py + 1) == dx * py + dx) by (nonlinear_arith);
    assert(dyy * (px + 1) == dyy * px + dyy) by (nonlinear_arith);
}

/// How far a pixel is along the walk: steps along x plus steps along y.
pub open spec fn progress(x1: int, y1: int, sx: int, sy: int, p: (int, int)) -> int {
    sx * (p.0 - x1) + sy * (p.1 - y1)
}

/// Two pixels that touch by an edge or a corner, and differ.
pub open spec fn adjacent(p: (int, int), q: (int, int)) -> bool {
    &&& -1 <= q.0 - p.0 <= 1
    &&& -1 <= q.1 - p.1 <= 1
    &&& p != q
}

proof fn lemma_walk_ends(x1: int, y1: int, sx: int, sy: int, dx: int, dyy: int, px: int, py: int)
    requires
        walk_state_ok(dx, dyy, px, py),
    ensures
        ({
            let w = walk(x1, y1, sx, sy, dx, dyy, px, py);
            &&& w.len() == (if dx >= dyy { dx - px } else { dyy - py }) + 1
            &&& w[0] == (x1 + sx * px, y1 + sy * py)
            &&& w.last() == (x1 + sx * dx, y1 + sy * dyy)
        }),
    decreases (dx - px) + (dyy - py),
{
    let w = walk(x1, y1, sx, sy, dx, dyy, px, py);
    if !(px == dx && py == dyy) {
        lemma_step(dx, dyy, px, py);
        let e2 = 2 * walk_error(dx, dyy, px, py);
        let nx = if e2 >= -dyy { px + 1 } else { px };
        let ny = if e2 <= dx { py + 1 } else { py };
        lemma_walk_ends(x1, y1, sx, sy, dx, dyy, nx, ny);
        assert(dx >= dyy ==> px < dx);
        assert(dyy > dx ==> py < dyy);
    }
}

proof fn lemma_walk_order(x1: int, y1: int, sx: int, sy: int, dx: int, dyy: int, px: int, py: int)
    requires
        walk_state_ok(dx, dyy, px, py),
        sx == 1 || sx == -1,
        sy == 1 || sy == -1,
    ensures
        ({
            let w = walk(x1, y1, sx, sy, dx, dyy, px, py);
            &&& forall|i: int| 0 <= i < w.len() - 1 ==> adjacent(#[trigger] w[i], w[i + 1])
            &&& forall|i: int| 0 <= i < w.len() ==> progress(x1, y1, sx, sy, #[trigger] w[i]) >= px + py
            &&& forall|i: int, j: int| 0 <= i < j < w.len() ==> progress(x1, y1, sx, sy, #[trigger] w[i]) < progress(x1, y1, sx, sy, #[trigger] w[j])
        }),
    decreases (dx - px) + (dyy - py),
{
    let w = walk(x1, y1, sx, sy, dx, dyy, px, py);
    let here = (x1 + sx * px, y1 + sy * py);
    assert(progress(x1, y1, sx, sy, here) == px + py) by (nonlinear_arith)
        requires here == (x1 + sx * px, y1 + sy * py), sx == 1 || sx == -1, sy == 1 || sy == -1,;
    if px == dx && py == dyy {
        assert(w == seq![here]);
    } else {
        lemma_step(dx, dyy, px, py);
        let e2 = 2 * walk_error(dx, dyy, px, py);
        let nx = if e2 >= -dyy { px + 1 } else { px };
        let ny = if e2 <= dx { py + 1 } else { py };
        let rest = walk(x1, y1, sx, sy, dx, dyy, nx, ny);
        lemma_walk_order(x1, y1, sx, sy, dx, dyy, nx, ny);
        lemma_walk_ends(x1, y1, sx, sy, dx, dyy, nx, ny);
        assert(w == seq![here] + rest);
        let next = (x1 + sx * nx, y1 + sy * ny);
        assert(rest[0] == next);
        assert(adjacent(here, next)) by (nonlinear_arith)
            requires here == (x1 + sx * px, y1 + sy * py), next == (x1 + sx * nx, y1 + sy * ny),
                sx == 1 || sx == -1, sy == 1 || sy == -1, px <= nx <= px + 1, py <= ny <= py + 1, px + py < nx + ny,;
        assert forall|i: int| 0 <= i < w.len() - 1 implies adjacent(#[trigger] w[i], w[i + 1]) by {
            if i > 0 {
                assert(w[i] == rest[i - 1]);
                assert(w[i + 1] == rest[i]);
            }
        }
        assert forall|i: int| 0 <= i < w.len() implies progress(x1, y1, sx, sy, #[trigger] w[i]) >= px + py by {
            if i > 0 {
                assert(w[i] == rest[i - 1]);
            }
        }
        assert forall|i: int, j: int| 0 <= i < j < w.len() implies progress(x1, y1, sx, sy, #[trigger] w[i]) < progress(x1, y1, sx, sy, #[trigger] w[j]) by {
            assert(w[j] == rest[j - 1]);
            if i > 0 {
                assert(w[i] == rest[i - 1]);
            }
        }
    }
}

/// The path of every line starts at its first endpoint and ends at its second,
/// each pixel touches the next by an edge or a corner, no pixel comes twice,
/// and there are exactly `max(|x2 - x1|, |y2 - y1|) + 1` of them.
pub proof fn lemma_line_path_shape(x1: int, y1: int, x2: int, y2: int)
    ensures
        ({
            let w = line_path(x1, y1, x2, y2);
            &&& w.len() == max_of(abs_diff(x1, x2), abs_diff(y1, y2)) + 1
            &&& w[0] == (x1, y1)
            &&& w.last() == (x2, y2)
            &&& forall|i: int| 0 <= i < w.len() - 1 ==> adjacent(#[trigger] w[i], w[i + 1])
            &&& forall|i: int, j: int| 0 <= i < j < w.len() ==> #[trigger] w[i] != #[trigger] w[j]
        }),
{
    let sx = step_toward(x1, x2);
    let sy = step_toward(y1, y2);
    let dx = abs_diff(x1, x2);
    let dyy = abs_diff(y1, y2);
    assert(walk_state_ok(dx, dyy, 0, 0)) by (nonlinear_arith)
        requires dx >= 0, dyy >= 0,;
    lemma_walk_ends(x1, y1, sx, sy, dx, dyy, 0, 0);
    lemma_walk_order(x1, y1, sx, sy, dx, dyy, 0, 0);
    let w = line_path(x1, y1, x2, y2);
    assert(x1 + sx * 0 == x1 && y1 + sy * 0 == y1);
    assert(x1 + sx * dx == x2) by (nonlinear_arith)
        requires sx == step_toward(x1, x2), dx == abs_diff(x1, x2),;
    assert(y1 + sy * dyy == y2) by (nonlinear_arith)
        requires sy == step_toward(y1, y2), dyy == abs_diff(y1, y2),;
    assert forall|i: int, j: int| 0 <= i < j < w.len() implies #[trigger] w[i] != #[trigger] w[j] by {
        assert(progress(x1, y1, sx, sy, w[i]) < progress(x1, y1, sx, sy, w[j]));
    }
}

/// A line whose two ends coincide covers exactly that one pixel.
pub proof fn lemma_line_single_pixel(x: int, y: int)
    ensures
        line_path(x, y, x, y) == seq![(x, y)],
        line_pixels(x, y, x, y) == set![(x, y)],
{
    assert(line_pixels(x, y, x, y) =~= set![(x, y)]) by {
        assert(seq![(x, y)][0] == (x, y));
    }
}

pub open spec fn between(v: int, a: int, b: int) -> bool {
    (a <= v <= b) || (b <= v <= a)
}

proof fn lemma_walk_row(x1: int, y1: int, sx: int, sy: int, dx: int, px: int)
    requires
        0 <= px <= dx,
    ensures
        walk(x1, y1, sx, sy, dx, 0, px, 0) =~= Seq::new((dx - px + 1) as nat, |i: int| (x1 + sx * (px + i), y1 + sy * 0)),
    decreases dx - px,
{
    if px < dx {
        lemma_walk_row(x1, y1, sx, sy, dx, px + 1);
        assert(walk_error(dx, 0, px, 0) == dx);
    }
}

proof fn lemma_walk_column(x1: int, y1: int, sx: int, sy: int, dyy: int, py: int)
    requires
        0 <= py <= dyy,
    ensures
        walk(x1, y1, sx, sy, 0, dyy, 0, py) =~= Seq::new((dyy - py + 1) as nat, |i: int| (x1 + sx * 0, y1 + sy * (py + i))),
    decreases dyy - py,
{
    if py < dyy {
        lemma_walk_column(x1, y1, sx, sy, dyy, py + 1);
        assert(walk_error(0, dyy, 0, py) == -dyy);
    }
}

/// A horizontal line covers exactly the pixels of its row between its ends.
pub proof fn lemma_row_pixels(x1: int, x2: int, y: int)
    ensures
        line_pixels(x1, y, x2, y) == Set::new(|p: (int, int)| p.1 == y && between(p.0, x1, x2)),
{
    let sx = step_toward(x1, x2);
    let dx = abs_diff(x1, x2);
    lemma_walk_row(x1, y, sx, step_toward(y, y), dx, 0);
    let w = line_path(x1, y, x2, y);
    assert forall|p: (int, int)| line_pixels(x1, y, x2, y).contains(p) <==> (p.1 == y && between(p.0, x1, x2)) by {
        if w.contains(p) {
            let i = choose|i: int| 0 <= i < w.len() && w[i] == p;
            assert(between(x1 + sx * i, x1, x2)) by (nonlinear_arith)
                requires sx == step_toward(x1, x2), dx == abs_diff(x1, x2), 0 <= i <= dx,;
        }
        if p.1 == y && between(p.0, x1, x2) {
            let i = sx * (p.0 - x1);
            assert(0 <= i <= dx && x1 + sx * i == p.0) by (nonlinear_arith)
                requires sx == step_toward(x1, x2), dx == abs_diff(x1, x2), i == sx * (p.0 - x1), between(p.0, x1, x2),;
            assert(w[i] == p);
        }
    }
    assert(line_pixels(x1, y, x2, y) =~= Set::new(|p: (int, int)| p.1 == y && between(p.0, x1, x2)));
}

/// A vertical line covers exactly the pixels of its column between its ends.
pub proof fn lemma_column_pixels(x: int, y1: int, y2: int)
    ensures
        line_pixels(x, y1, x, y2) == Set::new(|p: (int, int)| p.0 == x && between(p.1, y1, y2)),
{
    let sy = step_toward(y1, y2);
    let dyy = abs_diff(y1, y2);
    lemma_walk_column(x, y1, step_toward(x, x), sy, dyy, 0);
    let w = line_path(x, y1, x, y2);
    assert forall|p: (int, int)| line_pixels(x, y1, x, y2).contains(p) <==> (p.0 == x && between(p.1, y1, y2)) by {
        if w.contains(p) {
            let i = choose|i: int| 0 <= i < w.len() && w[i] == p;
            assert(between(y1 + sy * i, y1, y2)) by (nonlinear_arith)
                requires sy == step_toward(y1, y2), dyy == abs_diff(y1, y2), 0 <= i <= dyy,;
        }
        if p.0 == x && between(p.1, y1, y2) {
            let i = sy * (p.1 - y1);
            assert(0 <= i <= dyy && y1 + sy * i == p.1) by (nonlinear_arith)
                requires sy == step_toward(y1, y2), dyy == abs_diff(y1, y2), i == sy * (p.1 - y1), between(p.1, y1, y2),;
            assert(w[i] == p);
        }
    }
    assert(line_pixels(x, y1, x, y2) =~= Set::new(|p: (int, int)| p.0 == x && between(p.1, y1, y2)));
}

proof fn lemma_walk_diagonal(x1: int, y1: int, sx: int, sy: int, m: int, k: int)
    requires
        0 <= k <= m,
    ensures
        walk(x1, y1, sx, sy, m, m, k, k) =~= Seq::new((m - k + 1) as nat, |i: int| (x1 + sx * (k + i), y1 + sy * (k + i))),
    decreases m - k,
{
    if k < m {
        lemma_walk_diagonal(x1, y1, sx, sy, m, k + 1);
        assert(walk_error(m, m, k, k) == 0) by (nonlinear_arith);
    }
}

/// A line that goes as far along x as along y, both increasing, covers
/// exactly the diagonal pixels `(x + i, y + i)` with `0 <= i <= m`.
pub proof fn lemma_diagonal_pixels(x: int, y: int, m: int)
    requires
        m >= 0,
    ensures
        line_pixels(x, y, x + m, y + m) == Set::new(|p: (int, int)| p.0 - x == p.1 - y && 0 <= p.0 - x <= m),
{
    let sx = step_toward(x, x + m);
    lemma_walk_diagonal(x, y, sx, sx, m, 0);
    let w = line_path(x, y, x + m, y + m);
    assert forall|p: (int, int)| line_pixels(x, y, x + m, y + m).contains(p) <==> (p.0 - x == p.1 - y && 0 <= p.0 - x <= m) by {
        if w.contains(p) {
            let i = choose|i: int| 0 <= i < w.len() && w[i] == p;
            assert(sx * i == i) by (nonlinear_arith)
                requires sx == step_toward(x, x + m), 0 <= i <= m,;
        }
        if p.0 - x == p.1 - y && 0 <= p.0 - x <= m {
            let i = p.0 - x;
            assert(sx * i == i) by (nonlinear_arith)
                requires sx == step_toward(x, x + m), 0 <= i <= m,;
            assert(w[i] == p);
        }
    }
    assert(line_pixels(x, y, x + m, y + m) =~= Set::new(|p: (int, int)| p.0 - x == p.1 - y && 0 <= p.0 - x <= m));
}

proof fn lemma_points_push(s: Seq<(int, int)>, p: (int, int))
    ensures
        points_of(s.push(p)) == points_of(s).union(set![p]),
{
    assert forall|q: (int, int)| points_of(s.push(p)).contains(q) <==> points_of(s).union(set![p]).contains(q) by {
        if s.contains(q) {
            let i = choose|i: int| 0 <= i < s.len() && s[i] == q;
            assert(s.push(p)[i] == q);
        }
        if q == p {
            assert(s.push(p)[s.len() as int] == q);
        }
        if s.push(p).contains(q) {
            let i = choose|i: int| 0 <= i < s.push(p).len() && s.push(p)[i] == q;
            if i < s.len() {
                assert(s[i] == q);
            }
        }
    }
    assert(points_of(s.push(p)) =~= points_of(s).union(set![p]));
}

/// Draws the line from `(x1, y1)` to `(x2, y2)` in `color`: every pixel of its
/// path that lies inside the image gets the color, and nothing else changes.
pub fn draw_segment(image: &mut Image, x1: i32, y1: i32, x2: i32, y2: i32, color: &Color)
    requires
        canvas_ok(*old(image)),
    ensures
        canvas_ok(*final(image)),
        painted(*old(image), *final(image), line_pixels(x1 as int, y1 as int, x2 as int, y2 as int), *color),
{
    let ax = x1 as i64;
    let ay = y1 as i64;
    let bx = x2 as i64;
    let by = y2 as i64;
    let dx: i64 = if ax <= bx { bx - ax } else { ax - bx };
    let dyy: i64 = if ay <= by { by - ay } else { ay - by };
    let dy: i64 = -dyy;
    let sx: i64 = if ax < bx { 1 } else { -1 };
    let sy: i64 = if ay < by { 1 } else { -1 };
    let mut err: i64 = dx + dy;
    let mut cx: i64 = ax;
    let mut cy: i64 = ay;
    let ghost mut px: int = 0;
    let ghost mut py: int = 0;
    let ghost mut drawn: Seq<(int, int)> = seq![];
    let ghost full = line_path(x1 as int, y1 as int, x2 as int, y2 as int);
    let ghost orig = *image;
    proof {
        assert(points_of(drawn) =~= Set::empty());
        crate::canvas::lemma_painted_nothing(orig, *color);
        assert(drawn + walk(ax as int, ay as int, sx as int, sy as int, dx as int, dyy as int, 0, 0) =~= full);
    }
    loop
        invariant_except_break
            drawn + walk(ax as int, ay as int, sx as int, sy as int, dx as int, dyy as int, px, py) == full,
        invariant
            canvas_ok(*image),
            dx == abs_diff(ax as int, bx as int),
            dyy == abs_diff(ay as int, by as int),
            dy == -dyy,
            sx == step_toward(ax as int, bx as int),
            sy == step_toward(ay as int, by as int),
            i32::MIN <= ax <= i32::MAX,
            i32::MIN <= bx <= i32::MAX,
            i32::MIN <= ay <= i32::MAX,
            i32::MIN <= by <= i32::MAX,
            walk_state_ok(dx as int, dyy as int, px, py),
            cx == ax + sx * px,
            cy == ay + sy * py,
            err == walk_error(dx as int, dyy as int, px, py),
            painted(orig, *image, points_of(drawn), *color),
        ensures
            drawn == full,
        decreases (dx - px) + (dyy - py),
    {
        let ghost before = *image;
        plot(image, cx, cy, color);
        proof {
            lemma_painted_union(orig, before, *image, points_of(drawn), set![(cx as int, cy as int)], *color);
            lemma_points_push(drawn, (cx as int, cy as int));
            drawn = drawn.push((cx as int, cy as int));
        }
        if cx == bx && cy == by {
            proof {
                assert(px == dx && py == dyy);
                assert(walk(ax as int, ay as int, sx as int, sy as int, dx as int, dyy as int, px, py) == seq![(cx as int, cy as int)]);
                assert(drawn =~= full);
            }
            break;
        }
        proof {
            assert(!(px == dx && py == dyy));
            lemma_step(dx as int, dyy as int, px, py);
        }
        let ghost (opx, opy) = (px, py);
        let e2 = 2 * err;
        if e2 >= dy {
            err = err + dy;
            cx = cx + sx;
            proof {
                px = px + 1;
            }
        }
        if e2 <= dx {
            err = err + dx;
            cy = cy + sy;
            proof {
                py = py + 1;
            }
        }
        proof {
            assert(walk(ax as int, ay as int, sx as int, sy as int, dx as int, dyy as int, opx, opy)
                == seq![(cx as int - sx * (px - opx), cy as int - sy * (py - opy))] + walk(ax as int, ay as int, sx as int, sy as int, dx as int, dyy as int, px, py));
            assert(drawn + walk(ax as int, ay as int, sx as int, sy as int, dx as int, dyy as int, px, py) =~= full);
        }
    }
}

} // verus!
