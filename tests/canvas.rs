use wolfenstein::canvas::Canvas;
use wolfenstein::color::{blend_channel, Rgb};
use wolfenstein::helpers::{
    clear_frame, draw_pixel_brightness_raw, draw_pixel_brightness_rgb, draw_pixel_raw,
    draw_pixel_rgb, frame_to_rgb, rgb_to_frame,
};
use wolfenstein::ONE;

fn px(v: i64) -> i64 {
    v * ONE
}

#[test]
fn write_then_read_in_bounds() {
    let mut c = Canvas::new(4, 4);
    let red = Rgb::new(200, 10, 20);
    draw_pixel_raw(&mut c, px(1) + ONE / 2, px(2) + ONE / 4, red);
    assert_eq!(c.pixel(1, 2), (200, 10, 20, 255));
    assert_eq!(c.pixel(2, 1), (0, 0, 0, 0));
}

#[test]
fn write_out_of_bounds_is_dropped() {
    let mut c = Canvas::new(4, 3);
    clear_frame(&mut c, Rgb::new(1, 2, 3));
    let before = c.data.clone();
    let white = Rgb::new(255, 255, 255);
    draw_pixel_raw(&mut c, -1, 0, white);
    draw_pixel_raw(&mut c, 0, -px(1), white);
    draw_pixel_raw(&mut c, px(4), 0, white);
    draw_pixel_raw(&mut c, 0, px(3), white);
    draw_pixel_raw(&mut c, i64::MAX, i64::MIN, white);
    assert_eq!(c.data, before);
}

#[test]
fn blend_full_equals_write() {
    let mut a = Canvas::new(3, 3);
    let mut b = Canvas::new(3, 3);
    clear_frame(&mut a, Rgb::new(40, 50, 60));
    clear_frame(&mut b, Rgb::new(40, 50, 60));
    let c = Rgb::new(7, 130, 250);
    draw_pixel_brightness_raw(&mut a, px(1), px(2), c, ONE);
    draw_pixel_raw(&mut b, px(1), px(2), c);
    assert_eq!(a.data, b.data);
}

#[test]
fn blend_zero_keeps_pixel() {
    let mut a = Canvas::new(3, 3);
    clear_frame(&mut a, Rgb::new(40, 50, 60));
    let before = a.data.clone();
    draw_pixel_brightness_raw(&mut a, px(2), px(0), Rgb::new(255, 255, 255), 0);
    assert_eq!(a.data, before);
}

#[test]
fn blend_half_mixes_and_truncates() {
    assert_eq!(blend_channel(100, 200, ONE / 2), 150);
    assert_eq!(blend_channel(0, 255, ONE / 3), 84);
    assert_eq!(blend_channel(255, 255, 2 * ONE), 255);
    assert_eq!(blend_channel(10, 0, 2 * ONE), 0);
    let mut a = Canvas::new(1, 1);
    clear_frame(&mut a, Rgb::new(100, 0, 255));
    draw_pixel_brightness_raw(&mut a, 0, 0, Rgb::new(200, 255, 0), ONE / 2);
    assert_eq!(a.pixel(0, 0), (150, 127, 127, 255));
}

#[test]
fn clear_sets_every_pixel_opaque() {
    let mut a = Canvas::new(2, 3);
    a.clear(Rgb::new(9, 8, 7));
    for y in 0..3 {
        for x in 0..2 {
            assert_eq!(a.pixel(x, y), (9, 8, 7, 255));
        }
    }
}

#[test]
fn from_bytes_checks_length() {
    assert!(Canvas::from_bytes(2, 2, vec![0; 16]).is_some());
    assert!(Canvas::from_bytes(2, 2, vec![0; 15]).is_none());
    assert!(Canvas::from_bytes(usize::MAX, 3, vec![0; 4]).is_none());
}

#[test]
fn frame_and_colours_round_trip() {
    let frame = vec![1, 2, 3, 9, 4, 5, 6, 9, 7];
    let colours = frame_to_rgb(&frame);
    assert_eq!(colours, vec![Rgb::new(1, 2, 3), Rgb::new(4, 5, 6)]);
    assert_eq!(rgb_to_frame(&colours), vec![1, 2, 3, 255, 4, 5, 6, 255]);
}

#[test]
fn colour_buffer_pixels() {
    let mut buf = vec![Rgb::new(10, 10, 10); 6];
    draw_pixel_rgb(&mut buf, 3, px(2), px(1), Rgb::new(1, 2, 3));
    assert_eq!(buf[5], Rgb::new(1, 2, 3));
    draw_pixel_rgb(&mut buf, 3, px(3), 0, Rgb::new(9, 9, 9));
    draw_pixel_rgb(&mut buf, 3, 0, px(2), Rgb::new(9, 9, 9));
    assert_eq!(buf.iter().filter(|c| **c == Rgb::new(9, 9, 9)).count(), 0);
    draw_pixel_brightness_rgb(&mut buf, 3, 0, 0, Rgb::new(100, 255, 0), ONE / 2);
    assert_eq!(buf[0], Rgb::new(60, 137, 10));
}

#[test]
fn repeated_write_is_idempotent() {
    let mut a = Canvas::new(2, 2);
    draw_pixel_raw(&mut a, px(1), px(1), Rgb::new(3, 4, 5));
    let once = a.data.clone();
    draw_pixel_raw(&mut a, px(1), px(1), Rgb::new(3, 4, 5));
    assert_eq!(a.data, once);
}
