use geometrical_shapes::palette::{opaque_color, random_color, resolve, resolve_or_draw};
use geometrical_shapes::{Circle, Cube, Drawable, Line, Point, Rectangle, Triangle};
use raster::{Color, Image};

fn px(img: &Image, x: i32, y: i32) -> (u8, u8, u8, u8) {
    let s = ((y * img.width + x) * 4) as usize;
    (img.bytes[s], img.bytes[s + 1], img.bytes[s + 2], img.bytes[s + 3])
}

fn red() -> Color {
    Color::rgb(200, 10, 20)
}

const RED: (u8, u8, u8, u8) = (200, 10, 20, 255);
const BLANK: (u8, u8, u8, u8) = (0, 0, 0, 255);

fn colored(img: &Image) -> Vec<(i32, i32)> {
    let mut v = Vec::new();
    for y in 0..img.height {
        for x in 0..img.width {
            if px(img, x, y) != BLANK {
                v.push((x, y));
            }
        }
    }
    v
}

#[test]
fn line_diagonal_draws_four_pixels() {
    let mut img = Image::blank(10, 10);
    let mut line = Line::new(&Point::new(0, 0), &Point::new(3, 3));
    line.color(Some(red()));
    line.draw(&mut img);
    assert_eq!(colored(&img), vec![(0, 0), (1, 1), (2, 2), (3, 3)]);
    for (x, y) in colored(&img) {
        assert_eq!(px(&img, x, y), RED);
    }
}

#[test]
fn line_shallow_slope_covers_each_column_once() {
    let mut img = Image::blank(10, 10);
    let mut line = Line::new(&Point::new(7, 3), &Point::new(0, 0));
    line.color(Some(red()));
    line.draw(&mut img);
    let got = colored(&img);
    assert_eq!(got.len(), 8);
    for x in 0..8 {
        assert_eq!(got.iter().filter(|p| p.0 == x).count(), 1);
    }
    assert_eq!(px(&img, 0, 0), RED);
    assert_eq!(px(&img, 7, 3), RED);
}

#[test]
fn line_steep_slope_covers_each_row_once() {
    let mut img = Image::blank(10, 10);
    let mut line = Line::new(&Point::new(2, 9), &Point::new(5, 1));
    line.color(Some(red()));
    line.draw(&mut img);
    let got = colored(&img);
    assert_eq!(got.len(), 9);
    for y in 1..10 {
        assert_eq!(got.iter().filter(|p| p.1 == y).count(), 1);
    }
    assert_eq!(px(&img, 2, 9), RED);
    assert_eq!(px(&img, 5, 1), RED);
}

#[test]
fn zero_length_line_draws_one_pixel() {
    let mut img = Image::blank(10, 10);
    let mut line = Line::new(&Point::new(4, 6), &Point::new(4, 6));
    line.color(Some(red()));
    line.draw(&mut img);
    assert_eq!(colored(&img), vec![(4, 6)]);
}

#[test]
fn line_single_color_when_random() {
    let mut img = Image::blank(10, 10);
    let line = Line::new(&Point::new(0, 9), &Point::new(9, 0));
    line.draw(&mut img);
    let first = px(&img, 0, 9);
    for (x, y) in [(0, 9), (3, 6), (6, 3), (9, 0)] {
        assert_eq!(px(&img, x, y), first);
    }
}

#[test]
fn line_leaving_the_image_is_clipped() {
    let mut img = Image::blank(4, 4);
    let mut line = Line::new(&Point::new(-5, -5), &Point::new(6, 6));
    line.color(Some(red()));
    line.draw(&mut img);
    assert_eq!(colored(&img), vec![(0, 0), (1, 1), (2, 2), (3, 3)]);
}

#[test]
fn point_outside_is_skipped() {
    let mut img = Image::blank(4, 4);
    let mut p = Point::new(4, 1);
    p.color(Some(red()));
    p.draw(&mut img);
    let mut q = Point::new(-1, 2);
    q.color(Some(red()));
    q.draw(&mut img);
    assert!(colored(&img).is_empty());
    let mut r = Point::new(3, 3);
    r.color(Some(red()));
    r.draw(&mut img);
    assert_eq!(colored(&img), vec![(3, 3)]);
}

#[test]
fn rectangle_draws_outline_only() {
    let mut img = Image::blank(10, 10);
    let mut rect = Rectangle::new(&Point::new(1, 1), &Point::new(4, 4));
    rect.color(Some(red()));
    rect.draw(&mut img);
    let mut want = Vec::new();
    for y in 1..5 {
        for x in 1..5 {
            if x == 1 || x == 4 || y == 1 || y == 4 {
                want.push((x, y));
            }
        }
    }
    assert_eq!(colored(&img), want);
    assert_eq!(px(&img, 2, 2), BLANK);
    for (x, y) in colored(&img) {
        assert_eq!(px(&img, x, y), RED);
    }
}

#[test]
fn rectangle_with_swapped_corners_draws_same_outline() {
    let mut a = Image::blank(10, 10);
    let mut b = Image::blank(10, 10);
    let mut r1 = Rectangle::new(&Point::new(1, 2), &Point::new(6, 5));
    r1.color(Some(red()));
    r1.draw(&mut a);
    let mut r2 = Rectangle::new(&Point::new(6, 5), &Point::new(1, 2));
    r2.color(Some(red()));
    r2.draw(&mut b);
    assert_eq!(colored(&a), colored(&b));
    assert_eq!(colored(&a).len(), 2 * 6 + 2 * 4 - 4);
}

#[test]
fn rectangle_other_point_gives_remaining_corners() {
    let rect = Rectangle::new(&Point::new(1, 2), &Point::new(6, 5));
    let (tr, bl) = rect.other_point(&rect.0, &rect.1);
    assert_eq!((tr.0, tr.1), (6, 2));
    assert_eq!((bl.0, bl.1), (1, 5));
}

#[test]
fn triangle_draws_three_sides() {
    let mut img = Image::blank(10, 10);
    let t = Triangle::new(&Point::new(0, 0), &Point::new(6, 0), &Point::new(0, 6), Some(red()));
    t.draw(&mut img);
    for i in 0..7 {
        assert_eq!(px(&img, i, 0), RED);
        assert_eq!(px(&img, 0, i), RED);
        assert_eq!(px(&img, 6 - i, i), RED);
    }
    assert_eq!(colored(&img).len(), 6 + 6 + 6);
}

#[test]
fn triangle_without_color_is_single_colored() {
    let mut img = Image::blank(10, 10);
    let t = Triangle::new(&Point::new(1, 1), &Point::new(8, 2), &Point::new(3, 8), None);
    assert!(t.3.is_none());
    t.draw(&mut img);
    let first = px(&img, 1, 1);
    for (x, y) in colored(&img) {
        assert_eq!(px(&img, x, y), first);
    }
}

#[test]
fn circle_radius_zero_draws_center() {
    let mut img = Image::blank(10, 10);
    let mut c = Circle::new(&Point::new(5, 5), 0);
    c.color(Some(red()));
    c.draw(&mut img);
    assert_eq!(colored(&img), vec![(5, 5)]);
}

#[test]
fn circle_pixels_near_radius_and_symmetric() {
    let mut img = Image::blank(30, 30);
    let mut c = Circle::new(&Point::new(15, 15), 9);
    c.color(Some(red()));
    c.draw(&mut img);
    let got = colored(&img);
    assert!(!got.is_empty());
    for &(x, y) in &got {
        let d = (((x - 15) * (x - 15) + (y - 15) * (y - 15)) as f64).sqrt().round() as i32;
        assert!((8..=10).contains(&d));
        let (a, b) = (x - 15, y - 15);
        for (u, v) in [(a, b), (-a, b), (a, -b), (-a, -b), (b, a), (-b, a), (b, -a), (-b, -a)] {
            assert_eq!(px(&img, 15 + u, 15 + v), RED);
        }
    }
    assert_eq!(px(&img, 24, 15), RED);
    assert_eq!(px(&img, 15, 6), RED);
}

#[test]
fn circle_radius_five_exact_pixels() {
    let mut img = Image::blank(20, 20);
    let mut c = Circle::new(&Point::new(10, 10), 5);
    c.color(Some(red()));
    c.draw(&mut img);
    // first octant offsets: (5,0), (5,1), (4,2), (3,3)
    let mut want = Vec::new();
    for (a, b) in [(5, 0), (5, 1), (4, 2), (3, 3)] {
        for (u, v) in [(a, b), (-a, b), (a, -b), (-a, -b), (b, a), (-b, a), (b, -a), (-b, -a)] {
            want.push((10 + u, 10 + v));
        }
    }
    want.sort_by_key(|p| (p.1, p.0));
    want.dedup();
    assert_eq!(colored(&img), want);
}

#[test]
fn circle_partly_outside_is_clipped() {
    let mut img = Image::blank(10, 10);
    let mut c = Circle::new(&Point::new(0, 0), 4);
    c.color(Some(red()));
    c.draw(&mut img);
    assert_eq!(px(&img, 4, 0), RED);
    assert_eq!(px(&img, 0, 4), RED);
    for (x, y) in colored(&img) {
        assert!(x >= 0 && y >= 0);
    }
}

#[test]
fn cube_draws_two_faces_and_struts() {
    let mut img = Image::blank(20, 20);
    let mut cube = Cube::new(&Point::new(2, 2), &Point::new(8, 6));
    cube.color(Some(red()));
    cube.draw(&mut img);
    // shift is floor(6 / 2) = 3
    let mut want = Image::blank(20, 20);
    for (a, b) in [((2, 2), (8, 6)), ((5, 5), (11, 9))] {
        let mut r = Rectangle::new(&Point::new(a.0, a.1), &Point::new(b.0, b.1));
        r.color(Some(red()));
        r.draw(&mut want);
    }
    for (x, y) in [(2, 2), (8, 2), (2, 6), (8, 6)] {
        let mut l = Line::new(&Point::new(x, y), &Point::new(x + 3, y + 3));
        l.color(Some(red()));
        l.draw(&mut want);
    }
    assert_eq!(colored(&img), colored(&want));
    assert_eq!(px(&img, 11, 9), RED);
    assert_eq!(px(&img, 4, 4), RED);
}

#[test]
fn cube_single_color_when_random() {
    let mut img = Image::blank(20, 20);
    let cube = Cube::new(&Point::new(1, 1), &Point::new(9, 7));
    cube.draw(&mut img);
    let first = px(&img, 1, 1);
    for (x, y) in colored(&img) {
        assert_eq!(px(&img, x, y), first);
    }
}

#[test]
fn point_new_keeps_coordinates() {
    let p = Point::new(12, 34);
    assert_eq!((p.0, p.1), (12, 34));
    assert!(p.2.is_some());
    let c = Circle::new(&p, 7);
    assert_eq!((c.0 .0, c.0 .1, c.1), (12, 34, 7));
}

#[test]
fn random_shapes_stay_in_bounds() {
    for _ in 0..200 {
        let p = Point::random(100, 100);
        assert!((0..100).contains(&p.0) && (0..100).contains(&p.1));
        let c = Circle::random(100, 40);
        assert!((0..100).contains(&c.0 .0) && (0..40).contains(&c.0 .1));
        assert!((0..20).contains(&c.1));
        let l = Line::random(5, 7);
        assert!((0..5).contains(&l.1 .0) && (0..7).contains(&l.1 .1));
        let t = Triangle::random(3, 3, None);
        assert!((0..3).contains(&t.2 .0));
        let r = Rectangle::random(2, 9);
        assert!((0..2).contains(&r.0 .0) && (0..9).contains(&r.1 .1));
        let k = Cube::random(6, 6);
        assert!((0..6).contains(&k.1 .0));
    }
}

#[test]
fn resolve_prefers_explicit_color() {
    let c = resolve(Some(red()), Color::rgb(1, 2, 3));
    assert_eq!((c.r, c.g, c.b, c.a), RED);
    let d = resolve(None, Color::rgb(1, 2, 3));
    assert_eq!((d.r, d.g, d.b, d.a), (1, 2, 3, 255));
}

#[test]
fn random_color_is_opaque() {
    for _ in 0..50 {
        assert_eq!(random_color().a, 255);
    }
}

#[test]
fn color_setter_overrides() {
    let mut p = Point::new(1, 1);
    p.color(Some(Color::rgb(9, 8, 7)));
    let c = p.2.as_ref().unwrap();
    assert_eq!((c.r, c.g, c.b), (9, 8, 7));
    let mut t = Triangle::new(&p, &p, &p, Some(red()));
    t.color(None);
    assert!(t.3.is_none());
}

#[test]
fn from_draws_uses_the_drawn_values() {
    let p = Point::from_draws(3, 97, 0, 128, 255);
    assert_eq!((p.0, p.1), (3, 97));
    let c = p.2.as_ref().unwrap();
    assert_eq!((c.r, c.g, c.b, c.a), (0, 128, 255, 255));
    let q = Point::from_draws(3, 97, 0, 128, 255);
    assert_eq!((q.0, q.1), (p.0, p.1));
    let k = Circle::from_draws(10, 20, 7, 1, 2, 3);
    assert_eq!((k.0 .0, k.0 .1, k.1), (10, 20, 7));
    let kc = k.2.as_ref().unwrap();
    assert_eq!((kc.r, kc.g, kc.b, kc.a), (1, 2, 3, 255));
}

#[test]
fn opaque_color_sets_full_alpha() {
    let c = opaque_color(4, 5, 6);
    assert_eq!((c.r, c.g, c.b, c.a), (4, 5, 6, 255));
}

#[test]
fn resolve_or_draw_keeps_explicit_color() {
    let c = resolve_or_draw(&Some(Color::rgba(1, 2, 3, 4)));
    assert_eq!((c.r, c.g, c.b, c.a), (1, 2, 3, 4));
    assert_eq!(resolve_or_draw(&None).a, 255);
}

#[test]
fn setters_keep_geometry_and_resolve_color() {
    let mut l = Line::new(&Point::new(4, 1), &Point::new(1, 4));
    l.color(None);
    assert_eq!((l.0 .0, l.0 .1, l.1 .0, l.1 .1), (4, 1, 1, 4));
    assert_eq!(l.2.as_ref().unwrap().a, 255);
    let mut r = Rectangle::new(&Point::new(6, 5), &Point::new(1, 2));
    r.color(Some(Color::rgb(7, 7, 7)));
    assert_eq!((r.0 .0, r.0 .1, r.1 .0, r.1 .1), (6, 5, 1, 2));
    assert_eq!(r.2.as_ref().unwrap().g, 7);
    let mut c = Circle::new(&Point::new(2, 3), 4);
    c.color(None);
    assert_eq!((c.0 .0, c.0 .1, c.1), (2, 3, 4));
    assert!(c.2.is_some());
    let mut t = Triangle::new(&Point::new(1, 2), &Point::new(3, 4), &Point::new(5, 6), None);
    t.color(None);
    assert!(t.3.is_none());
    assert_eq!((t.0 .0, t.1 .1, t.2 .0), (1, 4, 5));
}

#[test]
fn cube_struts_are_diagonals() {
    let mut img = Image::blank(30, 30);
    let mut cube = Cube::new(&Point::new(3, 3), &Point::new(13, 8));
    cube.color(Some(red()));
    cube.draw(&mut img);
    // shift is floor(10 / 2) = 5
    for (x, y) in [(3, 3), (13, 3), (3, 8), (13, 8)] {
        for i in 0..6 {
            assert_eq!(px(&img, x + i, y + i), RED);
        }
    }
    assert_eq!(px(&img, 18, 13), RED);
    assert_eq!(px(&img, 8, 13), RED);
    assert_eq!(px(&img, 5, 4), BLANK);
}
