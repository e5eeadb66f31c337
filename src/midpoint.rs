//! Midpoint circle rasterization with eight-way symmetry.

use vstd::prelude::*;
use raster::{Color, Image};
use crate::canvas::{canvas_ok, painted, plot, lemma_painted_union, lemma_painted_nothing};

verus! {

/// The offsets `(x, y)` of the first octant that the midpoint walk visits from
/// state `(x, y, err)`: after each one, y advances, and x steps back when the
/// error term says the arc has moved inward.
pub open spec fn arc(x: int, y: int, err: int) -> Seq<(int, int)>
    decreases x - y + 2,
{
    if x < y || y < 0 {
        seq![]
    } else {
        let ny = y + 1;
        let e1 = err + 1 + 2 * ny;
        if 2 * (e1 - x) + 1 > 0 {
            seq![(x, y)] + arc(x - 1, ny, e1 + 1 - 2 * (x - 1))
        } else {
            seq![(x, y)] + arc(x, ny, e1)
        }
    }
}

/// The eight reflections of offset `(a, b)` about the center `(cx, cy)`.
pub open spec fn octants(cx: int, cy: int, a: int, b: int) -> Set<(int, int)> {
    set![
        (cx + a, cy + b),
        (cx - a, cy + b),
        (cx + a, cy - b),
        (cx - a, cy - b),
        (cx + b, cy + a),
        (cx - b, cy + a),
        (cx + b, cy - a),
        (cx - b, cy - a),
    ]
}

/// The reflections of every offset of `s`.
pub open spec fn reflect_all(cx: int, cy: int, s: Seq<(int, int)>) -> Set<(int, int)>
    decreases s.len(),
{
    if s.len() == 0 {
        Set::empty()
    } else {
        reflect_all(cx, cy, s.drop_last()).union(octants(cx, cy, s.last().0, s.last().1))
    }
}

/// The pixels of the circle of radius `r` around `(cx, cy)`.
pub open spec fn circle_pixels(cx: int, cy: int, r: int) -> Set<(int, int)> {
    reflect_all(cx, cy, arc(r, 0, 0))
}

fn plot_octants(image: &mut Image, cx: i64, cy: i64, a: i64, b: i64, color: &Color)
    requires
        canvas_ok(*old(image)),
        -0x1_0000_0000 <= cx <= 0x1_0000_0000,
        -0x1_0000_0000 <= cy <= 0x1_0000_0000,
        -0x1_0000_0000 <= a <= 0x1_0000_0000,
        -0x1_0000_0000 <= b <= 0x1_0000_0000,
    ensures
        canvas_ok(*final(image)),
        painted(*old(image), *final(image), octants(cx as int, cy as int, a as int, b as int), *color),
{
    let ghost i0 = *image;
    plot(image, cx + a, cy + b, color);
    let ghost i1 = *image;
    plot(image, cx - a, cy + b, color);
    let ghost i2 = *image;
    plot(image, cx + a, cy - b, color);
    let ghost i3 = *image;
    plot(image, cx - a, cy - b, color);
    let ghost i4 = *image;
    plot(image, cx + b, cy + a, color);
    let ghost i5 = *image;
    plot(image, cx - b, cy + a, color);
    let ghost i6 = *image;
    plot(image, cx + b, cy - a, color);
    let ghost i7 = *image;
    plot(image, cx - b, cy - a, color);
    proof {
        let (x, y, p, q) = (cx as int, cy as int, a as int, b as int);
        let s1 = set![(x + p, y + q)];
        let s2 = s1.union(set![(x - p, y + q)]);
        let s3 = s2.union(set![(x + p, y - q)]);
        let s4 = s3.union(set![(x - p, y - q)]);
        let s5 = s4.union(set![(x + q, y + p)]);
        let s6 = s5.union(set![(x - q, y + p)]);
        let s7 = s6.union(set![(x + q, y - p)]);
        let s8 = s7.union(set![(x - q, y - p)]);
        lemma_painted_union(i0, i1, i2, s1, set![(x - p, y + q)], *color);
        lemma_painted_union(i0, i2, i3, s2, set![(x + p, y - q)], *color);
        lemma_painted_union(i0, i3, i4, s3, set![(x - p, y - q)], *color);
        lemma_painted_union(i0, i4, i5, s4, set![(x + q, y + p)], *color);
        lemma_painted_union(i0, i5, i6, s5, set![(x - q, y + p)], *color);
        lemma_painted_union(i0, i6, i7, s6, set![(x + q, y - p)], *color);
        lemma_painted_union(i0, i7, *image, s7, set![(x - q, y - p)], *color);
        assert(s8 =~= octants(x, y, p, q));
    }
}

/// Draws the circle of radius `r` around `(cx, cy)` in `color`: every pixel of
/// it that lies inside the image gets the color, and nothing else changes.
/// A negative radius draws nothing.
pub fn draw_circle(image: &mut Image, cx: i32, cy: i32, r: i32, color: &Color)
    requires
        canvas_ok(*old(image)),
    ensures
        canvas_ok(*final(image)),
        painted(*old(image), *final(image), circle_pixels(cx as int, cy as int, r as int), *color),
{
    let ghost orig = *image;
    let ghost full = arc(r as int, 0, 0);
    let ghost mut done: Seq<(int, int)> = seq![];
    proof {
        lemma_painted_nothing(orig, *color);
        assert(reflect_all(cx as int, cy as int, done) =~= Set::empty());
        assert(done + full =~= full);
    }
    let rr: i128 = r as i128;
    let mut x: i128 = rr;
    let mut y: i128 = 0;
    let mut err: i128 = 0;
    while x >= y
        invariant
            canvas_ok(*image),
            rr == r,
            0 <= y,
            y <= rr + 1 || rr < 0,
            x <= rr,
            x >= -1 || rr < 0,
            rr >= 0 ==> y <= x + 2,
            rr < 0 ==> x == rr && y == 0,
            err == x * x + y * y - rr * rr + 2 * y + 2 * (rr - x),
            done + arc(x as int, y as int, err as int) == full,
            painted(orig, *image, reflect_all(cx as int, cy as int, done), *color),
        decreases x - y + 2,
    {
        let ghost before = *image;
        plot_octants(image, cx as i64, cy as i64, x as i64, y as i64, color);
        proof {
            lemma_painted_union(orig, before, *image, reflect_all(cx as int, cy as int, done),
                octants(cx as int, cy as int, x as int, y as int), *color);
            let old_done = done;
            done = done.push((x as int, y as int));
            assert(done.drop_last() =~= old_done);
        }
        let ghost (ox, oy, oe) = (x, y, err);
        proof {
            assert(0 <= x * x <= rr * rr) by (nonlinear_arith)
                requires 0 <= x <= rr,;
            assert(0 <= y * y <= rr * rr) by (nonlinear_arith)
                requires 0 <= y <= x <= rr,;
            assert(rr * rr <= 0x4000_0000_0000_0000) by (nonlinear_arith)
                requires 0 <= rr <= 0x8000_0000,;
        }
        y = y + 1;
        err = err + 1 + 2 * y;
        if 2 * (err - x) + 1 > 0 {
            x = x - 1;
            err = err + 1 - 2 * x;
        }
        proof {
            assert(err == x * x + y * y - rr * rr + 2 * y + 2 * (rr - x)) by (nonlinear_arith)
                requires
                    oe == ox * ox + oy * oy - rr * rr + 2 * oy + 2 * (rr - ox),
                    y == oy + 1,
                    x == ox || x == ox - 1,
                    x == ox ==> err == oe + 1 + 2 * y,
                    x == ox - 1 ==> err == oe + 1 + 2 * y + 1 - 2 * x,;
            assert(arc(ox as int, oy as int, oe as int) == seq![(ox as int, oy as int)] + arc(x as int, y as int, err as int));
            assert(done + arc(x as int, y as int, err as int) =~= full);
        }
    }
    proof {
        assert(arc(x as int, y as int, err as int) == Seq::<(int, int)>::empty());
        assert(done =~= full);
    }
}

proof fn lemma_reflect_all_closed(cx: int, cy: int, s: Seq<(int, int)>, p: (int, int))
    requires
        reflect_all(cx, cy, s).contains(p),
    ensures
        reflect_all(cx, cy, s).contains((2 * cx - p.0, p.1)),
        reflect_all(cx, cy, s).contains((p.0, 2 * cy - p.1)),
        reflect_all(cx, cy, s).contains((cx + (p.1 - cy), cy + (p.0 - cx))),
    decreases s.len(),
{
    if s.len() > 0 {
        let rest = s.drop_last();
        if reflect_all(cx, cy, rest).contains(p) {
            lemma_reflect_all_closed(cx, cy, rest, p);
        }
    }
}

/// The pixels of every circle are symmetric under the eight reflections about
/// its center: mirroring either axis, and swapping the two axes.
pub proof fn lemma_circle_symmetric(cx: int, cy: int, r: int, p: (int, int))
    requires
        circle_pixels(cx, cy, r).contains(p),
    ensures
        circle_pixels(cx, cy, r).contains((2 * cx - p.0, p.1)),
        circle_pixels(cx, cy, r).contains((p.0, 2 * cy - p.1)),
        circle_pixels(cx, cy, r).contains((cx + (p.1 - cy), cy + (p.0 - cx))),
{
    lemma_reflect_all_closed(cx, cy, arc(r, 0, 0), p);
}

/// A circle of radius 0 is its center alone.
pub proof fn lemma_circle_radius_zero(cx: int, cy: int)
    ensures
        circle_pixels(cx, cy, 0) == set![(cx, cy)],
{
    assert(arc(-1, 1, 3 + 1 - 2 * -1) == Seq::<(int, int)>::empty());
    assert(arc(0, 0, 0) == seq![(0int, 0int)] + arc(-1, 1, 3 + 1 - 2 * -1));
    assert(arc(0, 0, 0) =~= seq![(0int, 0int)]);
    let s = seq![(0int, 0int)];
    assert(s.drop_last() =~= Seq::<(int, int)>::empty());
    assert(reflect_all(cx, cy, s.drop_last()) == Set::<(int, int)>::empty());
    assert(circle_pixels(cx, cy, 0) =~= set![(cx, cy)]);
}

/// What every state of the walk for radius `r` keeps.
pub open spec fn arc_state_ok(r: int, x: int, y: int, err: int) -> bool {
    &&& err == x * x + y * y - r * r + 2 * y + 2 * (r - x)
    &&& err >= 1 - x
    &&& x >= y ==> x * x + y * y - r * r <= r
    &&& r - x <= y
    &&& 0 <= y
    &&& x <= r
}

proof fn lemma_arc_state_step(r: int, x: int, y: int, err: int)
    requires
        arc_state_ok(r, x, y, err),
        x >= y,
    ensures
        ({
            let ny = y + 1;
            let e1 = err + 1 + 2 * ny;
            if 2 * (e1 - x) + 1 > 0 {
                arc_state_ok(r, x - 1, ny, e1 + 1 - 2 * (x - 1))
            } else {
                arc_state_ok(r, x, ny, e1)
            }
        }),
{
    let ny = y + 1;
    let e1 = err + 1 + 2 * ny;
    let d = x * x + y * y - r * r;
    assert(x * x + ny * ny - r * r == d + 2 * y + 1) by (nonlinear_arith)
        requires d == x * x + y * y - r * r, ny == y + 1,;
    assert((x - 1) * (x - 1) + ny * ny - r * r == d + 2 * ny - 2 * x) by (nonlinear_arith)
        requires d == x * x + y * y - r * r, ny == y + 1,;
}

/// The first-octant offsets at the walk's states lie near radius `r`.
proof fn lemma_arc_offset_near(r: int, x: int, y: int, err: int)
    requires
        r >= 1,
        arc_state_ok(r, x, y, err),
        x >= y,
    ensures
        (2 * r - 3) * (2 * r - 3) <= 4 * (x * x + y * y) < (2 * r + 3) * (2 * r + 3),
{
    let s = x * x + y * y;
    let d = s - r * r;
    assert((2 * r + 3) * (2 * r + 3) == 4 * (r * r) + 12 * r + 9) by (nonlinear_arith);
    assert((2 * r - 3) * (2 * r - 3) == 4 * (r * r) - 12 * r + 9) by (nonlinear_arith);
    if 4 * s < (2 * r - 3) * (2 * r - 3) {
        assert(d <= -3 * r + 2);
        assert(x >= r - 1 && y >= r - 1);
        if r >= 2 {
            assert(s >= 2 * ((r - 1) * (r - 1))) by (nonlinear_arith)
                requires s == x * x + y * y, x >= r - 1, y >= r - 1, r >= 2,;
            assert((r - 1) * (r - 1) == r * r - 2 * r + 1) by (nonlinear_arith);
        } else {
            assert(x * x >= 0 && y * y >= 0) by (nonlinear_arith);
            assert(x == 0) by (nonlinear_arith)
                requires x * x + y * y <= 0, x >= 0, y >= 0,;
        }
    }
}

proof fn lemma_arc_near(r: int, x: int, y: int, err: int)
    requires
        r >= 1,
        arc_state_ok(r, x, y, err),
    ensures
        forall|k: int| 0 <= k < arc(x, y, err).len() ==> {
            let q = #[trigger] arc(x, y, err)[k];
            (2 * r - 3) * (2 * r - 3) <= 4 * (q.0 * q.0 + q.1 * q.1) < (2 * r + 3) * (2 * r + 3)
        },
    decreases x - y + 2,
{
    if x >= y {
        lemma_arc_offset_near(r, x, y, err);
        lemma_arc_state_step(r, x, y, err);
        let ny = y + 1;
        let e1 = err + 1 + 2 * ny;
        let (nx, ne) = if 2 * (e1 - x) + 1 > 0 { (x - 1, e1 + 1 - 2 * (x - 1)) } else { (x, e1) };
        lemma_arc_near(r, nx, ny, ne);
        assert(arc(x, y, err) == seq![(x, y)] + arc(nx, ny, ne));
        assert forall|k: int| 0 < k < arc(x, y, err).len() implies #[trigger] arc(x, y, err)[k] == arc(nx, ny, ne)[k - 1] by {}
    }
}

proof fn lemma_reflect_all_near(cx: int, cy: int, r: int, s: Seq<(int, int)>, p: (int, int))
    requires
        reflect_all(cx, cy, s).contains(p),
        forall|k: int| 0 <= k < s.len() ==> {
            let q = #[trigger] s[k];
            (2 * r - 3) * (2 * r - 3) <= 4 * (q.0 * q.0 + q.1 * q.1) < (2 * r + 3) * (2 * r + 3)
        },
    ensures
        (2 * r - 3) * (2 * r - 3) <= 4 * ((p.0 - cx) * (p.0 - cx) + (p.1 - cy) * (p.1 - cy)) < (2 * r + 3) * (2 * r + 3),
    decreases s.len(),
{
    let rest = s.drop_last();
    if reflect_all(cx, cy, rest).contains(p) {
        assert forall|k: int| 0 <= k < rest.len() implies {
            let q = #[trigger] rest[k];
            (2 * r - 3) * (2 * r - 3) <= 4 * (q.0 * q.0 + q.1 * q.1) < (2 * r + 3) * (2 * r + 3)
        } by {
            assert(rest[k] == s[k]);
        }
        lemma_reflect_all_near(cx, cy, r, rest, p);
    } else {
        let q = s[s.len() - 1];
        let (a, b) = (q.0, q.1);
        assert(octants(cx, cy, a, b).contains(p));
        assert((p.0 - cx) * (p.0 - cx) + (p.1 - cy) * (p.1 - cy) == a * a + b * b) by (nonlinear_arith)
            requires octants(cx, cy, a, b).contains(p),;
    }
}

/// Every pixel of a circle of radius `r >= 1` lies at a distance `d` from the
/// center with `|2r - 3| <= 2d < 2r + 3`, so that `d` rounds to `r - 1`, `r`
/// or `r + 1`.
pub proof fn lemma_circle_near_radius(cx: int, cy: int, r: int, p: (int, int))
    requires
        r >= 1,
        circle_pixels(cx, cy, r).contains(p),
    ensures
        (2 * r - 3) * (2 * r - 3) <= 4 * ((p.0 - cx) * (p.0 - cx) + (p.1 - cy) * (p.1 - cy)) < (2 * r + 3) * (2 * r + 3),
{
    assert(arc_state_ok(r, r, 0, 0)) by (nonlinear_arith)
        requires r >= 1,;
    lemma_arc_near(r, r, 0, 0);
    lemma_reflect_all_near(cx, cy, r, arc(r, 0, 0), p);
}

} // verus!
