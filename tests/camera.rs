use engine::camera::{
    Camera, BOTTOM_SCROLL_BOUNDARY, LEFT_SCROLL_BOUNDARY, RIGHT_SCROLL_BOUNDARY, TOP_SCROLL_BOUNDARY,
};
use engine::rect::Rect;
use engine::tilemap::{OutOfBounds, TileMap};

fn map(width: i32, height: i32) -> TileMap {
    let mut b: Vec<u8> = b"TMAP".to_vec();
    for v in [width, height, 0, 0] {
        b.extend_from_slice(&v.to_le_bytes());
    }
    b.extend_from_slice(&0u32.to_le_bytes());
    b.extend(std::iter::repeat(0u8).take((width * height) as usize));
    b.extend_from_slice(&0u32.to_le_bytes());
    TileMap::new(&b, OutOfBounds::Empty).unwrap()
}

#[test]
fn max_scroll_is_map_extent_less_window() {
    let c = Camera::new(&map(40, 10));
    assert_eq!(c.max_x_scroll, 40 * 64 - 800);
    assert_eq!(c.max_y_scroll, 10 * 64 - 450);
    let small = Camera::new(&map(2, 2));
    assert_eq!((small.max_x_scroll, small.max_y_scroll), (0, 0));
}

#[test]
fn scroll_follows_past_the_far_boundary() {
    let mut c = Camera::new(&map(40, 10));
    c.follow(&Rect::new(600, 100, 10, 10));
    assert_eq!(c.x_scroll, 610 - RIGHT_SCROLL_BOUNDARY);
    assert_eq!(c.y_scroll, 0);
    c.follow(&Rect::new(c.x_scroll + LEFT_SCROLL_BOUNDARY - 5, 100, 10, 10));
    assert_eq!(c.x_scroll, 610 - RIGHT_SCROLL_BOUNDARY - 5);
}

#[test]
fn scroll_stays_within_bounds_however_far_the_box_goes() {
    let mut c = Camera::new(&map(40, 10));
    c.follow(&Rect::new(i32::MAX - 10, i32::MAX - 10, 10, 10));
    assert_eq!((c.x_scroll, c.y_scroll), (c.max_x_scroll, c.max_y_scroll));
    c.follow(&Rect::new(i32::MIN, i32::MIN, 10, 10));
    assert_eq!((c.x_scroll, c.y_scroll), (0, 0));
    for step in 0..200 {
        let x = step * 97 - 3000;
        c.follow(&Rect::new(x, -x, 20, 20));
        assert!(0 <= c.x_scroll && c.x_scroll <= c.max_x_scroll);
        assert!(0 <= c.y_scroll && c.y_scroll <= c.max_y_scroll);
    }
}

#[test]
fn dead_zone_leaves_scroll_alone() {
    let mut c = Camera::new(&map(40, 10));
    c.follow(&Rect::new(LEFT_SCROLL_BOUNDARY, TOP_SCROLL_BOUNDARY, 10, 10));
    assert_eq!((c.x_scroll, c.y_scroll), (0, 0));
    c.follow(&Rect::new(300, BOTTOM_SCROLL_BOUNDARY + 1, 10, 10));
    assert_eq!(c.y_scroll, BOTTOM_SCROLL_BOUNDARY + 11 - BOTTOM_SCROLL_BOUNDARY);
    let v = c.visible_rect();
    assert_eq!((v.left, v.top, v.width, v.height), (0, 11, 800, 450));
}
