use wolfenstein::canvas::Canvas;
use wolfenstein::color::Rgb;
use wolfenstein::geo::{ColorCircle, ColorLine, ColorRect, Point, Rect, Sprite, TextureRect};
use wolfenstein::graphics::Drawable;
use wolfenstein::helpers::{clear_frame, is_in_circle, min_max_points};
use wolfenstein::ONE;

fn px(v: i64) -> i64 {
    v * ONE
}

fn coloured(c: &Canvas, colour: (u8, u8, u8, u8)) -> Vec<(usize, usize)> {
    let mut out = Vec::new();
    for y in 0..c.height {
        for x in 0..c.width {
            if c.pixel(x, y) == colour {
                out.push((x, y));
            }
        }
    }
    out
}

#[test]
fn aligned_rect_fills_exactly_its_pixels() {
    let mut c = Canvas::new(6, 5);
    clear_frame(&mut c, Rgb::new(0, 0, 0));
    ColorRect::new(px(1), px(1), px(2), px(3), Rgb::new(0, 255, 0)).draw(&mut c);
    let hit = coloured(&c, (0, 255, 0, 255));
    assert_eq!(hit.len(), 6);
    for (x, y) in hit {
        assert!((1..3).contains(&x) && (1..4).contains(&y));
    }
}

#[test]
fn rect_starts_at_ceiling_of_corner() {
    let mut c = Canvas::new(4, 2);
    ColorRect::new(ONE / 2, 0, px(2), px(1), Rgb::new(5, 5, 5)).draw(&mut c);
    assert_eq!(coloured(&c, (5, 5, 5, 255)), vec![(1, 0), (2, 0)]);
}

#[test]
fn rect_is_clipped_and_empty_rect_draws_nothing() {
    let mut c = Canvas::new(3, 3);
    ColorRect::new(-px(5), -px(5), px(6), px(6), Rgb::new(1, 1, 1)).draw(&mut c);
    assert_eq!(coloured(&c, (1, 1, 1, 255)), vec![(0, 0)]);
    let mut d = Canvas::new(3, 3);
    ColorRect::new(px(1), px(1), 0, px(2), Rgb::new(1, 1, 1)).draw(&mut d);
    assert!(d.data.iter().all(|b| *b == 0));
}

#[test]
fn circle_plots_midpoint_ring() {
    let mut c = Canvas::new(11, 11);
    ColorCircle::new(Point::new(px(5), px(5)), px(3), Rgb::new(255, 0, 0)).draw(&mut c);
    let ring = coloured(&c, (255, 0, 0, 255));
    for (x, y) in [(5, 8), (5, 2), (8, 5), (2, 5), (7, 7), (3, 3)] {
        assert!(ring.contains(&(x, y)), "missing {x},{y}");
    }
    assert!(!ring.contains(&(5, 5)));
    for (x, y) in &ring {
        let dx = *x as i64 - 5;
        let dy = *y as i64 - 5;
        let d2 = dx * dx + dy * dy;
        assert!((4..=16).contains(&d2));
    }
}

#[test]
fn circle_of_radius_zero_marks_centre_and_diagonals() {
    let mut c = Canvas::new(3, 3);
    ColorCircle::new(Point::new(px(1), px(1)), 0, Rgb::new(9, 9, 9)).draw(&mut c);
    assert_eq!(
        coloured(&c, (9, 9, 9, 255)),
        vec![(0, 0), (2, 0), (1, 1), (0, 2), (2, 2)]
    );
}

#[test]
fn horizontal_line_is_full_on_its_row() {
    let mut c = Canvas::new(6, 3);
    clear_frame(&mut c, Rgb::new(0, 0, 0));
    ColorLine::new(Point::new(0, px(1)), Point::new(px(4), px(1)), Rgb::new(200, 100, 50)).draw(&mut c);
    assert_eq!(
        coloured(&c, (200, 100, 50, 255)),
        vec![(0, 1), (1, 1), (2, 1), (3, 1)]
    );
    assert_eq!(c.pixel(4, 1), (0, 0, 0, 255));
    assert_eq!(c.pixel(0, 2), (0, 0, 0, 255));
}

#[test]
fn line_splits_brightness_between_two_rows() {
    let mut c = Canvas::new(4, 4);
    clear_frame(&mut c, Rgb::new(0, 0, 0));
    let y = px(1) + ONE / 4;
    ColorLine::new(Point::new(0, y), Point::new(px(2), y), Rgb::new(255, 255, 255)).draw(&mut c);
    assert_eq!(c.pixel(0, 1), (191, 191, 191, 255));
    assert_eq!(c.pixel(0, 2), (63, 63, 63, 255));
}

#[test]
fn steep_line_walks_rows() {
    let mut c = Canvas::new(3, 5);
    clear_frame(&mut c, Rgb::new(0, 0, 0));
    ColorLine::new(Point::new(px(1), px(4)), Point::new(px(1), 0), Rgb::new(0, 0, 255)).draw(&mut c);
    assert_eq!(
        coloured(&c, (0, 0, 255, 255)),
        vec![(1, 0), (1, 1), (1, 2), (1, 3)]
    );
}

#[test]
fn sprite_copies_texels_one_to_one() {
    let mut c = Canvas::new(4, 4);
    let tex = vec![
        1, 1, 1, 0, 2, 2, 2, 0, //
        3, 3, 3, 0, 4, 4, 4, 0,
    ];
    Sprite::new(Rect::new(px(1), px(2), px(2), px(2)), tex).draw(&mut c);
    assert_eq!(c.pixel(1, 2), (1, 1, 1, 255));
    assert_eq!(c.pixel(2, 2), (2, 2, 2, 255));
    assert_eq!(c.pixel(1, 3), (3, 3, 3, 255));
    assert_eq!(c.pixel(2, 3), (4, 4, 4, 255));
    assert_eq!(c.pixel(0, 0), (0, 0, 0, 0));
}

#[test]
fn texture_rect_stretches_nearest_texel() {
    let mut c = Canvas::new(4, 4);
    let tex = vec![
        10, 0, 0, 255, 20, 0, 0, 255, //
        30, 0, 0, 255, 40, 0, 0, 255,
    ];
    TextureRect::new(0, 0, px(4), px(4), tex, 2, 2).draw(&mut c);
    assert_eq!(c.pixel(0, 0), (10, 0, 0, 255));
    assert_eq!(c.pixel(1, 1), (10, 0, 0, 255));
    assert_eq!(c.pixel(2, 1), (20, 0, 0, 255));
    assert_eq!(c.pixel(1, 2), (30, 0, 0, 255));
    assert_eq!(c.pixel(3, 3), (40, 0, 0, 255));
}

#[test]
fn texture_rect_with_empty_texture_draws_nothing() {
    let mut c = Canvas::new(2, 2);
    TextureRect::new(0, 0, px(2), px(2), Vec::new(), 0, 0).draw(&mut c);
    assert!(c.data.iter().all(|b| *b == 0));
}

#[test]
fn rect_geometry() {
    let r = Rect::new(px(1), px(2), px(4), px(6));
    assert!(r.contains_point(Point::new(px(5), px(8))));
    assert!(!r.contains_point(Point::new(px(5) + 1, px(8))));
    assert_eq!(r.center(), Point::new(px(3), px(5)));
    assert_eq!(
        r.points(),
        vec![
            Point::new(px(1), px(2)),
            Point::new(px(5), px(2)),
            Point::new(px(5), px(8)),
            Point::new(px(1), px(8)),
        ]
    );
}

#[test]
fn rotating_a_quarter_turn_swaps_extents() {
    let mut r = Rect::new(0, 0, px(4), px(2));
    r.rotate(Point::new(0, ONE));
    assert_eq!(r, Rect::new(px(1), -px(1), px(2), px(4)));
}

#[test]
fn min_max_of_points() {
    let pts = vec![Point::new(3, -1), Point::new(-2, 7), Point::new(5, 0)];
    assert_eq!(min_max_points(&pts), (-2, 5, -1, 7));
    assert_eq!(min_max_points(&Vec::new()), (i64::MAX, i64::MIN, i64::MAX, i64::MIN));
}

#[test]
fn circle_membership_is_strict() {
    let c = Point::new(0, 0);
    assert!(is_in_circle(Point::new(px(1), px(1)), c, px(2)));
    assert!(!is_in_circle(Point::new(px(2), 0), c, px(2)));
}

#[test]
fn sprite_reads_only_the_leading_texels_of_a_longer_texture() {
    let mut c = Canvas::new(3, 3);
    let mut tex = vec![7, 8, 9, 0];
    tex.extend_from_slice(&[50; 12]);
    Sprite::new(Rect::new(px(2), px(2), px(1), px(1)), tex).draw(&mut c);
    assert_eq!(c.pixel(2, 2), (7, 8, 9, 255));
    assert_eq!(coloured(&c, (50, 50, 50, 255)), vec![]);
}
