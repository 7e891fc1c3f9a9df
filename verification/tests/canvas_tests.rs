use whiteboard::canvas::{
    draw_pixel, draw_pixel_at, erase_point, get_color_at_index, index_of_point, set_color_at_index,
    Pixel, WhiteboardData,
};
use whiteboard::color::Color;
use whiteboard::geometry::{IntRect, UPoint};
use whiteboard::pixels::{key_of, point_of_key, Pixels, Points};

#[test]
fn set_color_writes_four_channels() {
    let mut data = vec![9u8; 8];
    set_color_at_index(4, &mut data, &Color::rgba(1, 2, 3, 4));
    assert_eq!(data, vec![9, 9, 9, 9, 1, 2, 3, 4]);
}

#[test]
fn set_color_drops_channels_past_the_end() {
    let mut data = vec![9u8; 6];
    set_color_at_index(4, &mut data, &Color::rgba(1, 2, 3, 4));
    assert_eq!(data, vec![9, 9, 9, 9, 1, 2]);
    let mut small = vec![9u8; 2];
    set_color_at_index(8, &mut small, &Color::rgba(1, 2, 3, 4));
    assert_eq!(small, vec![9, 9]);
}

#[test]
fn get_color_needs_whole_pixel() {
    let data = vec![1u8, 2, 3, 4, 5, 6, 7];
    assert_eq!(get_color_at_index(0, &data), Some(Color::rgba(1, 2, 3, 4)));
    assert_eq!(get_color_at_index(3, &data), Some(Color::rgba(4, 5, 6, 7)));
    assert_eq!(get_color_at_index(4, &data), None);
}

#[test]
fn index_of_point_is_row_major_times_four() {
    assert_eq!(index_of_point(&UPoint::new(2, 3), 10), 128);
    assert_eq!(index_of_point(&UPoint::new(0, 0), 10), 0);
}

#[test]
fn draw_and_erase_pixels_in_buffer() {
    let mut data = vec![7u8; 16];
    draw_pixel_at(&mut data, &UPoint::new(1, 1), &Color::rgba(1, 2, 3, 4), 2);
    assert_eq!(&data[12..16], &[1, 2, 3, 4]);
    draw_pixel(&mut data, &Pixel::new(Color::rgb(5, 6, 7), UPoint::new(0, 0)), 2);
    assert_eq!(&data[0..4], &[5, 6, 7, 255]);
    erase_point(&mut data, &UPoint::new(1, 0), 2);
    assert_eq!(&data[4..8], &[0, 0, 0, 0]);
    assert_eq!(&data[8..12], &[7, 7, 7, 7]);
}

#[test]
fn whiteboard_data_draws_by_canvas_width() {
    let mut wd = WhiteboardData {
        canvas_bounds: IntRect { x1: 10, y1: 10, x2: 13, y2: 12 },
        data: vec![0u8; 24],
    };
    assert_eq!(wd.get_index_of_point(&UPoint::new(1, 1)), 16);
    wd.draw_pixel(&UPoint::new(1, 1), &Color::rgba(1, 1, 1, 1));
    assert_eq!(&wd.data[16..20], &[1, 1, 1, 1]);
    wd.erase_point(&UPoint::new(1, 1));
    assert_eq!(wd.data, vec![0u8; 24]);
}

#[test]
fn point_keys_round_trip() {
    let p = UPoint::new(123, 456);
    assert_eq!(key_of(&p), (123u64 << 32) + 456);
    assert_eq!(point_of_key(key_of(&p)), p);
    assert_eq!(point_of_key(u64::MAX), UPoint::new(u32::MAX, u32::MAX));
}

#[test]
fn pixels_append_keeps_earliest_of_a_point() {
    let mut px = Pixels::new();
    let mut batch = vec![
        Pixel::new(Color::rgb(1, 1, 1), UPoint::new(0, 0)),
        Pixel::new(Color::rgb(2, 2, 2), UPoint::new(0, 0)),
        Pixel::new(Color::rgb(3, 3, 3), UPoint::new(1, 0)),
    ];
    px.append(&mut batch);
    assert!(batch.is_empty());
    let mut v = px.to_vec();
    v.sort_by_key(|p| (p.point.x, p.point.y));
    assert_eq!(
        v,
        vec![
            Pixel::new(Color::rgb(1, 1, 1), UPoint::new(0, 0)),
            Pixel::new(Color::rgb(3, 3, 3), UPoint::new(1, 0)),
        ]
    );
}

#[test]
fn pixels_append_replaces_existing_colour() {
    let mut px = Pixels::new();
    px.append(&mut vec![Pixel::new(Color::rgb(1, 1, 1), UPoint::new(4, 4))]);
    px.append(&mut vec![Pixel::new(Color::rgb(9, 9, 9), UPoint::new(4, 4))]);
    assert_eq!(px.to_vec(), vec![Pixel::new(Color::rgb(9, 9, 9), UPoint::new(4, 4))]);
}

#[test]
fn points_append_is_a_union() {
    let mut pts = Points::new();
    let mut a = vec![UPoint::new(1, 1), UPoint::new(2, 2), UPoint::new(1, 1)];
    pts.append(&mut a);
    assert!(a.is_empty());
    pts.append(&mut vec![UPoint::new(3, 3), UPoint::new(2, 2)]);
    let mut v = pts.to_vec();
    v.sort_by_key(|p| (p.x, p.y));
    assert_eq!(v, vec![UPoint::new(1, 1), UPoint::new(2, 2), UPoint::new(3, 3)]);
}

#[test]
fn get_color_past_the_largest_index_is_none() {
    let data = vec![1u8, 2, 3, 4];
    assert_eq!(get_color_at_index(usize::MAX, &data), None);
    assert_eq!(get_color_at_index(usize::MAX - 2, &data), None);
}
