//! The per-frame sprite batch.
//!
//! Placements are recorded as quads in integer pixel space; each quad keeps
//! the rotation it is drawn with as the bit pattern of an `f32` angle in
//! radians. The batch is turned into vertices, six per quad, when a frame is
//! flushed; rotating a corner and mapping it to device coordinates is
//! floating-point work that the display does with those vertices.
use crate::mapfile::AtlasRect;
use vstd::prelude::*;

verus! {

pub const WINDOW_WIDTH: i32 = 800;

pub const WINDOW_HEIGHT: i32 = 450;

/// An image in the atlas: its rectangle there, its size in pixels and the
/// point of the image that is placed at a sprite's position.
#[derive(Clone, Copy, PartialEq, Eq, Structural, Debug)]
pub struct SpriteInfo {
    pub atlas: AtlasRect,
    pub width: u32,
    pub height: u32,
    pub origin_x: i32,
    pub origin_y: i32,
}

/// One textured rectangle of the batch. The corners are relative to the
/// anchor and are rotated about it by `rotation` before the anchor is added.
#[derive(Clone, Copy, PartialEq, Eq, Structural, Debug)]
pub struct Quad {
    pub anchor_x: i64,
    pub anchor_y: i64,
    pub left: i64,
    pub top: i64,
    pub right: i64,
    pub bottom: i64,
    pub rotation: u32,
    pub u_left: u32,
    pub u_right: u32,
    pub v_top: u32,
    pub v_bottom: u32,
}

/// A corner of a quad with its texture coordinates.
#[derive(Clone, Copy, PartialEq, Eq, Structural, Debug)]
pub struct Vertex {
    pub anchor_x: i64,
    pub anchor_y: i64,
    pub x: i64,
    pub y: i64,
    pub rotation: u32,
    pub u: u32,
    pub v: u32,
}

/// The angle 0.0 as `f32` bits: no rotation.
pub const NO_ROTATION: u32 = 0;

/// The quad for a sprite at a world position, with the scroll offset taken
/// off. Flipping swaps the left and right texture coordinates only.
pub open spec fn image_quad(
    offset: (i32, i32),
    position: (i32, i32),
    sprite: SpriteInfo,
    rotation: u32,
    flip_h: bool,
) -> Quad {
    Quad {
        anchor_x: (position.0 - offset.0) as i64,
        anchor_y: (position.1 - offset.1) as i64,
        left: -sprite.origin_x as i64,
        top: -sprite.origin_y as i64,
        right: (sprite.width - sprite.origin_x) as i64,
        bottom: (sprite.height - sprite.origin_y) as i64,
        rotation,
        u_left: if flip_h { sprite.atlas.right } else { sprite.atlas.left },
        u_right: if flip_h { sprite.atlas.left } else { sprite.atlas.right },
        v_top: sprite.atlas.top,
        v_bottom: sprite.atlas.bottom,
    }
}

/// An unrotated quad given by its screen-space edges.
pub open spec fn screen_quad(left: int, top: int, right: int, bottom: int, atlas: AtlasRect) -> Quad {
    Quad {
        anchor_x: 0,
        anchor_y: 0,
        left: left as i64,
        top: top as i64,
        right: right as i64,
        bottom: bottom as i64,
        rotation: NO_ROTATION,
        u_left: atlas.left,
        u_right: atlas.right,
        v_top: atlas.top,
        v_bottom: atlas.bottom,
    }
}

pub open spec fn corner(q: Quad, x: i64, y: i64, u: u32, v: u32) -> Vertex {
    Vertex { anchor_x: q.anchor_x, anchor_y: q.anchor_y, x, y, rotation: q.rotation, u, v }
}

/// Two triangles with clockwise winding: top-left, top-right, bottom-left,
/// then top-right, bottom-right, bottom-left.
pub open spec fn quad_vertices(q: Quad) -> Seq<Vertex> {
    let tl = corner(q, q.left, q.top, q.u_left, q.v_top);
    let tr = corner(q, q.right, q.top, q.u_right, q.v_top);
    let bl = corner(q, q.left, q.bottom, q.u_left, q.v_bottom);
    let br = corner(q, q.right, q.bottom, q.u_right, q.v_bottom);
    seq![tl, tr, bl, tr, br, bl]
}

pub open spec fn batch_vertices(qs: Seq<Quad>) -> Seq<Vertex>
    decreases qs.len(),
{
    if qs.len() == 0 {
        Seq::empty()
    } else {
        batch_vertices(qs.drop_last()) + quad_vertices(qs.last())
    }
}

/// The sprites placed so far this frame, and the scroll offset that world
/// positions are drawn with.
pub struct RenderContext {
    quads: Vec<Quad>,
    offset: (i32, i32),
}

impl RenderContext {
    pub closed spec fn quads(&self) -> Seq<Quad> {
        self.quads@
    }

    pub closed spec fn offset(&self) -> (i32, i32) {
        self.offset
    }

    pub fn new() -> (r: RenderContext)
        ensures
            r.quads() == Seq::<Quad>::empty(),
            r.offset() == (0i32, 0i32),
    {
        RenderContext { quads: Vec::new(), offset: (0, 0) }
    }

    pub fn set_offset(&mut self, x: i32, y: i32)
        ensures
            final(self).quads() == old(self).quads(),
            final(self).offset() == (x, y),
    {
        self.offset = (x, y);
    }

    /// Adds a sprite placed at a world position.
    pub fn draw_image(&mut self, position: (i32, i32), sprite: &SpriteInfo, rotation: u32, flip_h: bool)
        ensures
            final(self).offset() == old(self).offset(),
            final(self).quads() == old(self).quads().push(
                image_quad(old(self).offset(), position, *sprite, rotation, flip_h),
            ),
    {
        let (u_left, u_right) = if flip_h {
            (sprite.atlas.right, sprite.atlas.left)
        } else {
            (sprite.atlas.left, sprite.atlas.right)
        };
        let q = Quad {
            anchor_x: position.0 as i64 - self.offset.0 as i64,
            anchor_y: position.1 as i64 - self.offset.1 as i64,
            left: -(sprite.origin_x as i64),
            top: -(sprite.origin_y as i64),
            right: sprite.width as i64 - sprite.origin_x as i64,
            bottom: sprite.height as i64 - sprite.origin_y as i64,
            rotation,
            u_left,
            u_right,
            v_top: sprite.atlas.top,
            v_bottom: sprite.atlas.bottom,
        };
        self.quads.push(q);
    }

    /// Adds an unrotated quad given by its screen-space edges; the scroll
    /// offset does not apply.
    pub fn draw_quad(&mut self, left: i64, top: i64, right: i64, bottom: i64, atlas: &AtlasRect)
        ensures
            final(self).offset() == old(self).offset(),
            final(self).quads() == old(self).quads().push(
                screen_quad(left as int, top as int, right as int, bottom as int, *atlas),
            ),
    {
        let q = Quad {
            anchor_x: 0,
            anchor_y: 0,
            left,
            top,
            right,
            bottom,
            rotation: NO_ROTATION,
            u_left: atlas.left,
            u_right: atlas.right,
            v_top: atlas.top,
            v_bottom: atlas.bottom,
        };
        self.quads.push(q);
    }

    /// Ends the frame: hands out the whole batch as vertices, six per quad in
    /// placement order, and empties it.
    pub fn render(&mut self) -> (r: Vec<Vertex>)
        ensures
            r@ == batch_vertices(old(self).quads()),
            r@.len() == 6 * old(self).quads().len(),
            final(self).quads() == Seq::<Quad>::empty(),
            final(self).offset() == old(self).offset(),
    {
        let mut out: Vec<Vertex> = Vec::new();
        let mut i: usize = 0;
        while i < self.quads.len()
            invariant
                0 <= i <= self.quads@.len(),
                out@ == batch_vertices(self.quads@.take(i as int)),
                out@.len() == 6 * i,
            decreases self.quads@.len() - i,
        {
            let q = self.quads[i];
            let tl = Vertex { anchor_x: q.anchor_x, anchor_y: q.anchor_y, x: q.left, y: q.top, rotation: q.rotation, u: q.u_left, v: q.v_top };
            let tr = Vertex { anchor_x: q.anchor_x, anchor_y: q.anchor_y, x: q.right, y: q.top, rotation: q.rotation, u: q.u_right, v: q.v_top };
            let bl = Vertex { anchor_x: q.anchor_x, anchor_y: q.anchor_y, x: q.left, y: q.bottom, rotation: q.rotation, u: q.u_left, v: q.v_bottom };
            let br = Vertex { anchor_x: q.anchor_x, anchor_y: q.anchor_y, x: q.right, y: q.bottom, rotation: q.rotation, u: q.u_right, v: q.v_bottom };
            out.push(tl);
            out.push(tr);
            out.push(bl);
            out.push(tr);
            out.push(br);
            out.push(bl);
            proof {
                let t = self.quads@.take(i + 1);
                assert(t.drop_last() =~= self.quads@.take(i as int));
                assert(t.last() == q);
                assert(out@ =~= batch_vertices(self.quads@.take(i as int)) + quad_vertices(q));
            }
            i = i + 1;
        }
        proof {
            assert(self.quads@.take(i as int) =~= self.quads@);
        }
        self.quads.clear();
        out
    }
}

} // verus!
