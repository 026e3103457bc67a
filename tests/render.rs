use engine::mapfile::AtlasRect;
use engine::render::{RenderContext, SpriteInfo, NO_ROTATION};
use engine::ui::draw_nine_tile;

fn sprite() -> SpriteInfo {
    SpriteInfo {
        atlas: AtlasRect { left: 11, top: 12, right: 13, bottom: 14 },
        width: 32,
        height: 16,
        origin_x: 4,
        origin_y: 6,
    }
}

#[test]
fn a_placement_is_two_clockwise_triangles() {
    let mut context = RenderContext::new();
    context.draw_image((100, 200), &sprite(), NO_ROTATION, false);
    let v = context.render();
    assert_eq!(v.len(), 6);
    let corners: Vec<(i64, i64, u32, u32)> = v.iter().map(|v| (v.x, v.y, v.u, v.v)).collect();
    assert_eq!(
        corners,
        vec![
            (-4, -6, 11, 12),
            (28, -6, 13, 12),
            (-4, 10, 11, 14),
            (28, -6, 13, 12),
            (28, 10, 13, 14),
            (-4, 10, 11, 14),
        ]
    );
    assert!(v.iter().all(|v| v.anchor_x == 100 && v.anchor_y == 200));
}

#[test]
fn flip_swaps_horizontal_texture_coordinates_only() {
    let mut context = RenderContext::new();
    context.draw_image((0, 0), &sprite(), NO_ROTATION, true);
    let v = context.render();
    assert_eq!((v[0].x, v[0].u), (-4, 13));
    assert_eq!((v[1].x, v[1].u), (28, 11));
    assert_eq!(v[0].v, 12);
}

#[test]
fn offset_and_rotation_are_carried() {
    let mut context = RenderContext::new();
    context.set_offset(30, -40);
    context.draw_image((100, 100), &sprite(), 0x3f80_0000, false);
    let v = context.render();
    assert_eq!((v[0].anchor_x, v[0].anchor_y), (70, 140));
    assert!(v.iter().all(|v| v.rotation == 0x3f80_0000));
}

#[test]
fn render_empties_the_batch() {
    let mut context = RenderContext::new();
    context.draw_image((0, 0), &sprite(), NO_ROTATION, false);
    context.draw_image((1, 1), &sprite(), NO_ROTATION, false);
    assert_eq!(context.render().len(), 12);
    assert_eq!(context.render().len(), 0);
}

#[test]
fn nine_tile_panel_corners() {
    let assets: [SpriteInfo; 9] = core::array::from_fn(|i| SpriteInfo {
        atlas: AtlasRect { left: i as u32, top: 0, right: 0, bottom: 0 },
        width: 20,
        height: 20,
        origin_x: 0,
        origin_y: 0,
    });
    let mut context = RenderContext::new();
    context.set_offset(500, 500);
    draw_nine_tile(&mut context, 50, 20, 100, 80, &assets);
    let v = context.render();
    assert_eq!(v.len(), 9 * 6);
    // Top-left corner of each piece, and the atlas it uses.
    let tl: Vec<(i64, i64, u32)> = v.iter().step_by(6).map(|v| (v.x, v.y, v.u)).collect();
    assert_eq!(
        tl,
        vec![
            (50, 20, 0),
            (70, 20, 1),
            (130, 20, 2),
            (50, 40, 3),
            (70, 40, 4),
            (130, 40, 5),
            (50, 80, 6),
            (70, 80, 7),
            (130, 80, 8),
        ]
    );
    // Bottom-right corner of the last piece.
    assert_eq!((v[9 * 6 - 2].x, v[9 * 6 - 2].y), (150, 100));
    assert!(v.iter().all(|v| v.anchor_x == 0 && v.anchor_y == 0));
}
