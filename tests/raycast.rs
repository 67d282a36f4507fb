use wolfenstein::canvas::Canvas;
use wolfenstein::color::Rgb;
use wolfenstein::fixed::isqrt;
use wolfenstein::geo::Point;
use wolfenstein::helpers::{log_error, screen_to_map};
use wolfenstein::raycast::{GridMap, RayHit};
use wolfenstein::world::{tile_color, Controls, World, PI, TAU};
use wolfenstein::ONE;

fn px(v: i64) -> i64 {
    v * ONE
}

fn grid(columns: usize, rows: usize, walls: &[(usize, usize, u8)], cell: i64) -> GridMap {
    let mut tiles = vec![0u8; columns * rows];
    for (c, r, t) in walls {
        tiles[c + r * columns] = *t;
    }
    GridMap { columns, rows, tiles, cell_width: cell, cell_height: cell }
}

#[test]
fn ray_hits_wall_column_ahead() {
    let walls: Vec<(usize, usize, u8)> = (0..4).map(|y| (2, y, 3)).collect();
    let map = grid(4, 4, &walls, ONE);
    let origin = Point::new(ONE / 2, px(1) + ONE / 2);
    let hit = map.ray_hits(origin, Point::new(ONE, 0)).expect("a wall lies ahead");
    assert_eq!(hit.side, 0);
    assert_eq!(hit.tile, 3);
    assert_eq!(hit.point, Point::new(px(2) + ONE / 2, px(1) + ONE / 2));
    assert!(hit.point.x - origin.x > 0);
    assert_eq!(map.tile_at(2, 1), 3);
}

#[test]
fn ray_leaving_empty_grid_misses() {
    let map = grid(4, 4, &[], ONE);
    let corner = Point::new(ONE / 2, ONE / 2);
    assert_eq!(map.ray_hits(corner, Point::new(-ONE, 0)), None);
    assert_eq!(map.ray_hits(corner, Point::new(0, -ONE)), None);
    assert_eq!(map.ray_hits(corner, Point::new(ONE, ONE / 3)), None);
}

#[test]
fn equal_side_distances_step_along_y() {
    let map = grid(3, 3, &[(1, 0, 1), (0, 1, 2)], ONE);
    let origin = Point::new(ONE / 2, ONE / 2);
    for _ in 0..3 {
        let hit = map.ray_hits(origin, Point::new(46341, 46341));
        assert_eq!(
            hit,
            Some(RayHit { tile: 2, point: Point::new(ONE / 2, px(1) + ONE / 2), side: 1 })
        );
    }
}

#[test]
fn cell_of_maps_positions_to_cells() {
    let map = grid(3, 2, &[], px(4));
    assert_eq!(map.cell_of(px(5), px(7)), Some((1, 1)));
    assert_eq!(map.cell_of(px(12), 0), None);
    assert_eq!(map.cell_of(-1, 0), None);
}

fn strip_world(y: i64) -> World {
    let red_column: Vec<u8> = [255u8, 0, 0, 255].repeat(4);
    let textures = vec![vec![red_column]];
    let map = grid(1, 256, &[(0, 0, 1)], ONE);
    let mut w = World::new(textures, map, 1, 64);
    w.x = ONE / 2;
    w.y = y;
    w
}

fn strip_rows(w: &World) -> Vec<usize> {
    let mut frame = Canvas::new(1, 64);
    w.draw(&mut frame, &vec![Point::new(0, -ONE)]);
    (0..64).filter(|r| frame.pixel(0, *r) == (255, 0, 0, 255)).collect()
}

#[test]
fn single_wall_ahead_draws_one_centred_strip() {
    let near = strip_rows(&strip_world(px(100) + ONE / 2));
    let far = strip_rows(&strip_world(px(200) + ONE / 2));
    assert_eq!(near, (16..48).collect::<Vec<usize>>());
    assert_eq!(far, (24..40).collect::<Vec<usize>>());
    assert_eq!(near.len(), 2 * far.len());
}

#[test]
fn no_hit_leaves_column_cleared() {
    let mut w = strip_world(px(100) + ONE / 2);
    w.map.tiles[0] = 0;
    let mut frame = Canvas::new(1, 64);
    w.draw(&mut frame, &vec![Point::new(0, -ONE)]);
    assert!((0..64).all(|r| frame.pixel(0, r) == (0, 0, 0, 255)));
}

#[test]
fn column_angles_spread_over_field_of_view() {
    let mut w = strip_world(px(10));
    w.theta = 0;
    let a = w.column_angles(4);
    assert_eq!(a, vec![-34314, -17157, 0, 17157]);
}

#[test]
fn movement_stops_at_walls() {
    let map = grid(4, 4, &[(3, 1, 5)], px(10));
    let mut w = World::new(vec![vec![vec![0; 4]]; 5], map, 40, 40);
    w.x = px(15);
    w.y = px(15);
    let forward = Controls { forward: true, ..Controls::default() };
    w.update(&forward, Point::new(ONE, 0));
    assert_eq!((w.x, w.y), (px(17), px(15)));
    w.x = px(28);
    w.update(&forward, Point::new(ONE, 0));
    assert_eq!((w.x, w.y), (px(28), px(15)));
    assert_eq!(w.will_hit_obstacle(px(30), px(15)), Some(5));
    assert_eq!(w.will_hit_obstacle(px(45), px(15)), Some(0));
    assert_eq!(w.will_hit_obstacle(px(5), px(5)), None);
}

#[test]
fn strafing_and_backing_follow_the_heading() {
    let map = grid(4, 4, &[], px(10));
    let mut w = World::new(vec![], map, 40, 40);
    let start = (w.x, w.y);
    assert_eq!(start, (px(20), px(20)));
    w.update(&Controls { strafe_right: true, ..Controls::default() }, Point::new(ONE, 0));
    assert_eq!((w.x, w.y), (px(20), px(22)));
    w.update(&Controls { strafe_left: true, backward: true, ..Controls::default() }, Point::new(ONE, 0));
    assert_eq!((w.x, w.y), (px(18), px(20)));
}

#[test]
fn turning_wraps_within_one_turn() {
    let map = grid(1, 1, &[], ONE);
    let mut w = World::new(vec![], map, 1, 1);
    assert_eq!(w.theta, -(PI / 2));
    w.theta = TAU - 1000;
    w.update(&Controls { right: true, ..Controls::default() }, Point::new(ONE, 0));
    assert_eq!(w.theta, 2277);
    w.theta = -TAU + 1000;
    w.update(&Controls { left: true, ..Controls::default() }, Point::new(ONE, 0));
    assert_eq!(w.theta, -2277);
    w.update(&Controls { left: true, right: true, ..Controls::default() }, Point::new(ONE, 0));
    assert_eq!(w.theta, -2277);
}

#[test]
fn minimap_and_player_marker() {
    let map = grid(2, 1, &[(1, 0, 3)], px(2));
    let mut w = World::new(vec![vec![vec![0; 4]]; 3], map, 4, 2);
    let mut frame = Canvas::new(4, 2);
    w.draw_minimap(&mut frame);
    assert_eq!(frame.pixel(0, 0), (0, 0, 0, 255));
    assert_eq!(frame.pixel(3, 1), (255, 0, 0, 255));
    w.x = px(2);
    w.y = px(1);
    w.draw_player(&mut frame);
    assert_eq!(frame.pixel(0, 0), (255, 255, 255, 255));
    assert_eq!(frame.pixel(3, 1), (255, 255, 255, 255));
}

#[test]
fn tile_colours() {
    assert_eq!(tile_color(0), Rgb::new(0, 0, 0));
    assert_eq!(tile_color(1), Rgb::new(0, 0, 255));
    assert_eq!(tile_color(4), Rgb::new(255, 255, 0));
    assert_eq!(tile_color(9), Rgb::new(255, 255, 255));
}

#[test]
fn integer_square_root_rounds_down() {
    assert_eq!(isqrt(0), 0);
    assert_eq!(isqrt(10), 3);
    assert_eq!(isqrt(16), 4);
    assert_eq!(isqrt(1 << 80), 1 << 40);
}

#[test]
fn screen_positions_to_map_cells() {
    assert_eq!(screen_to_map(px(320), px(180), 640, 24, 24), (12, 6));
    assert_eq!(screen_to_map(-px(3), px(639), 640, 24, 24), (0, 23));
}

#[test]
fn error_report_lines() {
    let lines = log_error("pixels.render", "surface lost", &vec!["device gone".to_string()]);
    assert_eq!(
        lines,
        vec![
            "pixels.render() failed: surface lost".to_string(),
            "  Caused by: device gone".to_string()
        ]
    );
    assert_eq!(log_error("resize", "bad size", &Vec::new()).len(), 1);
}
