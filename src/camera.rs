//! Scrolling: the view follows one tracked box, within the map's extent.
use crate::rect::Rect;
use crate::render::{WINDOW_HEIGHT, WINDOW_WIDTH};
use crate::tilemap::{TileMap, TILE_SIZE};
use vstd::prelude::*;

verus! {

/// A third of the window's width: the view scrolls left once the tracked
/// box's left edge comes nearer than this to the view's left edge.
pub const LEFT_SCROLL_BOUNDARY: i32 = 266;

/// Two thirds of the window's width: the view scrolls right once the tracked
/// box's right edge passes this.
pub const RIGHT_SCROLL_BOUNDARY: i32 = 533;

/// A third of the window's height.
pub const TOP_SCROLL_BOUNDARY: i32 = 150;

/// Two thirds of the window's height.
pub const BOTTOM_SCROLL_BOUNDARY: i32 = 300;

/// The scroll position of one axis after following a box from `lo` to `hi`:
/// pushed so that `hi` sits at the far boundary when it passed it (at most
/// `max`), else pulled so that `lo` sits at the near boundary when it fell
/// short of it (at least 0), else unchanged.
pub open spec fn scroll_axis(scroll: int, lo: int, hi: int, near: int, far: int, max: int) -> int {
    if hi > scroll + far {
        if hi - far < max {
            hi - far
        } else {
            max
        }
    } else if lo < scroll + near {
        if lo - near > 0 {
            lo - near
        } else {
            0
        }
    } else {
        scroll
    }
}

/// How far the view may scroll along an axis: the map's extent less the
/// view's, or 0 when the map is smaller than the view.
pub open spec fn max_scroll(extent: int, viewport: int) -> int {
    if extent > viewport {
        extent - viewport
    } else {
        0
    }
}

/// Following never takes the scroll position out of `[0, max]`, however far
/// the tracked box has gone.
pub proof fn lemma_scroll_stays_in_range(
    scroll: int,
    lo: int,
    hi: int,
    near: int,
    far: int,
    max: int,
)
    requires
        0 <= scroll <= max,
    ensures
        0 <= scroll_axis(scroll, lo, hi, near, far, max) <= max,
{
}

/// The scroll position of the view over a map.
pub struct Camera {
    pub x_scroll: i32,
    pub y_scroll: i32,
    pub max_x_scroll: i32,
    pub max_y_scroll: i32,
}

impl Camera {
    /// Each scroll position lies in `[0, max]`.
    pub open spec fn wf(&self) -> bool {
        &&& 0 <= self.x_scroll <= self.max_x_scroll
        &&& 0 <= self.y_scroll <= self.max_y_scroll
    }

    /// A view at the map's top-left corner.
    pub fn new(tile_map: &TileMap) -> (r: Camera)
        requires
            tile_map.wf(),
        ensures
            r.wf(),
            r.x_scroll == 0,
            r.y_scroll == 0,
            r.max_x_scroll == max_scroll(
                tile_map.data().width * TILE_SIZE,
                WINDOW_WIDTH as int,
            ),
            r.max_y_scroll == max_scroll(
                tile_map.data().height * TILE_SIZE,
                WINDOW_HEIGHT as int,
            ),
    {
        let w = tile_map.width() as i64 * TILE_SIZE as i64;
        let h = tile_map.height() as i64 * TILE_SIZE as i64;
        let mx = if w > WINDOW_WIDTH as i64 {
            (w - WINDOW_WIDTH as i64) as i32
        } else {
            0
        };
        let my = if h > WINDOW_HEIGHT as i64 {
            (h - WINDOW_HEIGHT as i64) as i32
        } else {
            0
        };
        Camera { x_scroll: 0, y_scroll: 0, max_x_scroll: mx, max_y_scroll: my }
    }

    /// Moves the view so that the tracked box stays between the scroll
    /// boundaries, each axis on its own.
    pub fn follow(&mut self, player_rect: &Rect<i32>)
        requires
            old(self).wf(),
        ensures
            final(self).wf(),
            final(self).max_x_scroll == old(self).max_x_scroll,
            final(self).max_y_scroll == old(self).max_y_scroll,
            final(self).x_scroll == scroll_axis(
                old(self).x_scroll as int,
                player_rect.left as int,
                player_rect.right_spec(),
                LEFT_SCROLL_BOUNDARY as int,
                RIGHT_SCROLL_BOUNDARY as int,
                old(self).max_x_scroll as int,
            ),
            final(self).y_scroll == scroll_axis(
                old(self).y_scroll as int,
                player_rect.top as int,
                player_rect.bottom_spec(),
                TOP_SCROLL_BOUNDARY as int,
                BOTTOM_SCROLL_BOUNDARY as int,
                old(self).max_y_scroll as int,
            ),
    {
        self.x_scroll = follow_axis(
            self.x_scroll,
            player_rect.left,
            player_rect.width,
            LEFT_SCROLL_BOUNDARY,
            RIGHT_SCROLL_BOUNDARY,
            self.max_x_scroll,
        );
        self.y_scroll = follow_axis(
            self.y_scroll,
            player_rect.top,
            player_rect.height,
            TOP_SCROLL_BOUNDARY,
            BOTTOM_SCROLL_BOUNDARY,
            self.max_y_scroll,
        );
    }

    /// The part of the world that the view shows.
    pub fn visible_rect(&self) -> (r: Rect<i32>)
        ensures
            r == (Rect { left: self.x_scroll, top: self.y_scroll, width: WINDOW_WIDTH, height: WINDOW_HEIGHT }),
    {
        Rect::new(self.x_scroll, self.y_scroll, WINDOW_WIDTH, WINDOW_HEIGHT)
    }
}

fn follow_axis(scroll: i32, lo: i32, size: i32, near: i32, far: i32, max: i32) -> (r: i32)
    requires
        0 <= scroll <= max,
        0 <= near <= far,
        far <= i32::MAX,
    ensures
        r == scroll_axis(scroll as int, lo as int, lo + size, near as int, far as int, max as int),
        0 <= r <= max,
{
    let hi = lo as i64 + size as i64;
    if hi > scroll as i64 + far as i64 {
        if hi - (far as i64) < max as i64 {
            (hi - far as i64) as i32
        } else {
            max
        }
    } else if (lo as i64) < scroll as i64 + near as i64 {
        if lo as i64 - near as i64 > 0 {
            (lo as i64 - near as i64) as i32
        } else {
            0
        }
    } else {
        scroll
    }
}

} // verus!
