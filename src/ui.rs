//! Panels drawn from nine images: four fixed corners, four edges stretched
//! along one axis and a centre stretched along both.
use crate::render::{screen_quad, Quad, RenderContext, SpriteInfo};
use vstd::prelude::*;

verus! {

/// Side of a panel's corner pieces, in pixels.
pub const NINE_TILE_BORDER: i32 = 20;

/// The nine quads of a panel, row by row:
/// ```text
/// 0 1 2
/// 3 4 5
/// 6 7 8
/// ```
pub open spec fn nine_tile_quads(left: int, top: int, width: int, height: int, assets: Seq<SpriteInfo>) -> Seq<Quad> {
    let right = left + width;
    let bottom = top + height;
    let il = left + NINE_TILE_BORDER;
    let ir = right - NINE_TILE_BORDER;
    let it = top + NINE_TILE_BORDER;
    let ib = bottom - NINE_TILE_BORDER;
    seq![
        screen_quad(left, top, il, it, assets[0].atlas),
        screen_quad(il, top, ir, it, assets[1].atlas),
        screen_quad(ir, top, right, it, assets[2].atlas),
        screen_quad(left, it, il, ib, assets[3].atlas),
        screen_quad(il, it, ir, ib, assets[4].atlas),
        screen_quad(ir, it, right, ib, assets[5].atlas),
        screen_quad(left, ib, il, bottom, assets[6].atlas),
        screen_quad(il, ib, ir, bottom, assets[7].atlas),
        screen_quad(ir, ib, right, bottom, assets[8].atlas),
    ]
}

/// Draws a panel covering the given screen rectangle.
pub fn draw_nine_tile(
    context: &mut RenderContext,
    left: i32,
    top: i32,
    width: i32,
    height: i32,
    assets: &[SpriteInfo; 9],
)
    ensures
        final(context).offset() == old(context).offset(),
        final(context).quads() == old(context).quads() + nine_tile_quads(
            left as int,
            top as int,
            width as int,
            height as int,
            assets@,
        ),
{
    let l = left as i64;
    let t = top as i64;
    let right = l + width as i64;
    let bottom = t + height as i64;
    let inner_left = l + NINE_TILE_BORDER as i64;
    let inner_right = right - NINE_TILE_BORDER as i64;
    let inner_top = t + NINE_TILE_BORDER as i64;
    let inner_bottom = bottom - NINE_TILE_BORDER as i64;
    let ghost start = context.quads();
    context.draw_quad(l, t, inner_left, inner_top, &assets[0].atlas);
    context.draw_quad(inner_left, t, inner_right, inner_top, &assets[1].atlas);
    context.draw_quad(inner_right, t, right, inner_top, &assets[2].atlas);
    context.draw_quad(l, inner_top, inner_left, inner_bottom, &assets[3].atlas);
    context.draw_quad(inner_left, inner_top, inner_right, inner_bottom, &assets[4].atlas);
    context.draw_quad(inner_right, inner_top, right, inner_bottom, &assets[5].atlas);
    context.draw_quad(l, inner_bottom, inner_left, bottom, &assets[6].atlas);
    context.draw_quad(inner_left, inner_bottom, inner_right, bottom, &assets[7].atlas);
    context.draw_quad(inner_right, inner_bottom, right, bottom, &assets[8].atlas);
    assert(context.quads() =~= start + nine_tile_quads(
        left as int,
        top as int,
        width as int,
        height as int,
        assets@,
    ));
}

} // verus!
