//! The tile grid of a level: loading, writing, point queries and drawing.
use crate::mapfile::{
    atlas_bytes, atlas_entry, decode, encode, field_name, field_terminated, grid_offset, magic,
    name_field, name_field_at, object_entry, objects_bytes, push_i32, push_u32, read_i32,
    read_i32_at, read_name_at, read_u32, read_u32_at, valid_name, zero_from, AtlasRect, LoadError,
    MapData, ObjectMarker, ATLAS_ENTRY_LEN, HEADER_LEN, MAX_TILES_ACROSS, NAME_FIELD_LEN,
    OBJECT_LEN,
};
use crate::rect::Rect;
use crate::render::{image_quad, Quad, RenderContext, SpriteInfo, NO_ROTATION};
use vstd::bytes::*;
use vstd::prelude::*;
use vstd::slice::*;

verus! {

/// Side of a tile in world units.
pub const TILE_SIZE: i32 = 64;

/// Flag bit of a tile type that blocks movement.
pub const FLAG_SOLID: u8 = 1;

/// Flag bit of a tile type that can be climbed.
pub const FLAG_LADDER: u8 = 2;

/// What the map answers for points outside its grid.
#[derive(Clone, Copy, PartialEq, Eq, Structural, Debug)]
pub enum OutOfBounds {
    /// Outside is open space: neither solid nor a ladder.
    Empty,
    /// Outside is wall: solid, and not a ladder.
    Solid,
}

/// A level's grid of tile indices, the flags and atlas rectangles of its
/// tile types, its spawn markers and the player's start position. It is
/// read-only once loaded.
pub struct TileMap {
    width: i32,
    height: i32,
    tiles: Vec<u8>,
    tile_flags: Vec<u8>,
    atlas_coords: Vec<AtlasRect>,
    objects: Vec<ObjectMarker>,
    player_start_x: i32,
    player_start_y: i32,
    out_of_bounds: OutOfBounds,
}

/// Index of the first tile whose span reaches past `lo`.
pub open spec fn first_visible(lo: int) -> int {
    if lo <= 0 {
        0
    } else {
        lo / TILE_SIZE as int
    }
}

/// One past the last tile that starts before `hi`, at most `n`.
pub open spec fn end_visible(hi: int, n: int) -> int {
    if hi <= 0 {
        0
    } else if (hi + TILE_SIZE - 1) / TILE_SIZE as int <= n {
        (hi + TILE_SIZE - 1) / TILE_SIZE as int
    } else {
        n
    }
}

impl TileMap {
    /// What the map holds, in the terms of the file format.
    pub closed spec fn data(&self) -> MapData {
        MapData {
            width: self.width,
            height: self.height,
            start_x: self.player_start_x,
            start_y: self.player_start_y,
            atlas: self.atlas_coords@,
            flags: self.tile_flags@,
            tiles: self.tiles@,
            objects: self.objects@.map_values(|o: ObjectMarker| o@),
        }
    }

    pub closed spec fn policy(&self) -> OutOfBounds {
        self.out_of_bounds
    }

    pub open spec fn wf(&self) -> bool {
        self.data().wf()
    }

    pub open spec fn in_bounds(&self, x: int, y: int) -> bool {
        &&& 0 <= x < self.data().width * TILE_SIZE
        &&& 0 <= y < self.data().height * TILE_SIZE
    }

    /// The tile index at a grid cell.
    pub open spec fn tile_at(&self, col: int, row: int) -> u8 {
        self.data().tiles[row * self.data().width + col]
    }

    /// The flags of the tile type at a grid cell; an empty cell has none.
    pub open spec fn cell_flags(&self, col: int, row: int) -> u8 {
        let t = self.tile_at(col, row);
        if t == 0 {
            0
        } else {
            self.data().flags[t - 1]
        }
    }

    /// The flags that hold at a world point.
    pub open spec fn flags_at(&self, x: int, y: int) -> u8 {
        if self.in_bounds(x, y) {
            self.cell_flags(x / TILE_SIZE as int, y / TILE_SIZE as int)
        } else if self.policy() == OutOfBounds::Solid {
            FLAG_SOLID
        } else {
            0
        }
    }

    /// The sprite of a non-empty tile: its atlas rectangle, a full tile in size.
    pub open spec fn tile_sprite(&self, t: u8) -> SpriteInfo {
        SpriteInfo {
            atlas: self.data().atlas[t - 1],
            width: TILE_SIZE as u32,
            height: TILE_SIZE as u32,
            origin_x: 0,
            origin_y: 0,
        }
    }

    /// The quads for the non-empty cells of one row, columns `c0` up to `c1`.
    pub open spec fn row_quads(&self, offset: (i32, i32), row: int, c0: int, c1: int) -> Seq<Quad>
        decreases c1 - c0,
    {
        if c1 <= c0 {
            Seq::empty()
        } else {
            let prev = self.row_quads(offset, row, c0, c1 - 1);
            let t = self.tile_at(c1 - 1, row);
            if t == 0 {
                prev
            } else {
                prev.push(
                    image_quad(
                        offset,
                        (((c1 - 1) * TILE_SIZE) as i32, (row * TILE_SIZE) as i32),
                        self.tile_sprite(t),
                        NO_ROTATION,
                        false,
                    ),
                )
            }
        }
    }

    /// The quads for the non-empty cells of rows `r0` up to `r1`, row by row.
    pub open spec fn area_quads(&self, offset: (i32, i32), r0: int, r1: int, c0: int, c1: int) -> Seq<
        Quad,
    >
        decreases r1 - r0,
    {
        if r1 <= r0 {
            Seq::empty()
        } else {
            self.area_quads(offset, r0, r1 - 1, c0, c1) + self.row_quads(offset, r1 - 1, c0, c1)
        }
    }

    /// The quads that drawing the map through a view rectangle adds.
    pub open spec fn visible_quads(&self, offset: (i32, i32), view: Rect<i32>) -> Seq<Quad> {
        self.area_quads(
            offset,
            first_visible(view.top as int),
            end_visible(view.bottom_spec(), self.data().height as int),
            first_visible(view.left as int),
            end_visible(view.right_spec(), self.data().width as int),
        )
    }

    /// Loads a map from its file contents. Bytes after the last object are
    /// not read. `out_of_bounds` fixes what points outside the grid are.
    pub fn new(data: &[u8], out_of_bounds: OutOfBounds) -> (r: Result<TileMap, LoadError>)
        ensures
            match decode(data@) {
                Ok(d) => r matches Ok(m) && m.data() == d && m.policy() == out_of_bounds && m.wf(),
                Err(e) => r == Err::<TileMap, LoadError>(e),
            },
    {
        let len = data.len();
        if len < 4 {
            return Err(LoadError::Truncated);
        }
        proof {
            assert(data@.subrange(0, 4) == magic() <==> (data@[0] == 0x54 && data@[1] == 0x4d
                && data@[2] == 0x41 && data@[3] == 0x50)) by {
                if data@[0] == 0x54 && data@[1] == 0x4d && data@[2] == 0x41 && data@[3] == 0x50 {
                    assert(data@.subrange(0, 4) =~= magic());
                }
                if data@.subrange(0, 4) == magic() {
                    assert(data@.subrange(0, 4)[0] == data@[0]);
                    assert(data@.subrange(0, 4)[1] == data@[1]);
                    assert(data@.subrange(0, 4)[2] == data@[2]);
                    assert(data@.subrange(0, 4)[3] == data@[3]);
                }
            }
        }
        if !(data[0] == 0x54 && data[1] == 0x4d && data[2] == 0x41 && data[3] == 0x50) {
            return Err(LoadError::BadMagic);
        }
        if len < 24 {
            return Err(LoadError::Truncated);
        }
        let width = read_i32_at(data, 4);
        let height = read_i32_at(data, 8);
        if !(0 <= width && width <= MAX_TILES_ACROSS && 0 <= height && height <= MAX_TILES_ACROSS) {
            return Err(LoadError::BadDimensions);
        }
        let player_start_x = read_i32_at(data, 12);
        let player_start_y = read_i32_at(data, 16);
        let n = read_u32_at(data, 20);
        proof {
            assert(width * height <= MAX_TILES_ACROSS * MAX_TILES_ACROSS) by (nonlinear_arith)
                requires
                    0 <= width <= MAX_TILES_ACROSS,
                    0 <= height <= MAX_TILES_ACROSS,
            ;
        }
        let grid: u64 = HEADER_LEN + (ATLAS_ENTRY_LEN + 1) * n as u64;
        let count_at: u64 = grid + width as u64 * height as u64;
        if (len as u64) < count_at + 4 {
            return Err(LoadError::Truncated);
        }
        let ghost b = data@;
        let ghost g = grid_offset(n as int);
        let ghost c = g + width * height;
        assert(grid == g && count_at == c);
        let grid_at = grid as usize;
        let cells_end = count_at as usize;
        // Every cell must name a defined tile type.
        let mut i: usize = grid_at;
        while i < cells_end
            invariant
                g <= i <= c,
                b.len() >= HEADER_LEN,
                b.subrange(0, 4) == magic(),
                read_i32(b, 4) == width,
                read_i32(b, 8) == height,
                0 <= width <= MAX_TILES_ACROSS,
                0 <= height <= MAX_TILES_ACROSS,
                read_u32(b, 20) == n,
                g == grid_offset(n as int),
                c == g + width * height,
                grid_at == g,
                cells_end == c,
                c + 4 <= b.len(),
                b == data@,
                forall|j: int| g <= j < i ==> !(b[j] > n),
            decreases c - i,
        {
            if data[i] as u64 > n as u64 {
                proof {
                    assert(g <= i < c && b[i as int] > n);
                    lemma_decode_prefix(b);
                }
                return Err(LoadError::UnknownTile);
            }
            i = i + 1;
        }
        assert(!(exists|j: int| g <= j < c && b[j] > n));
        let m = read_u32_at(data, cells_end);
        let objects_at: u64 = count_at + 4;
        if (len as u64) < objects_at + OBJECT_LEN * m as u64 {
            return Err(LoadError::Truncated);
        }
        // Object markers.
        let ghost o = c + 4;
        let mut objects: Vec<ObjectMarker> = Vec::new();
        let mut k: u64 = 0;
        while k < m as u64
            invariant
                0 <= k <= m,
                b.len() >= HEADER_LEN,
                b.subrange(0, 4) == magic(),
                read_i32(b, 4) == width,
                read_i32(b, 8) == height,
                0 <= width <= MAX_TILES_ACROSS,
                0 <= height <= MAX_TILES_ACROSS,
                read_u32(b, 20) == n,
                g == grid_offset(n as int),
                c == g + width * height,
                c + 4 <= b.len(),
                m == read_u32(b, c),
                forall|j: int| g <= j < c ==> !(b[j] > n),
                o == c + 4,
                objects_at == o,
                o + OBJECT_LEN * m <= b.len(),
                b == data@,
                len == b.len(),
                objects@.len() == k,
                forall|j: int|
                    0 <= j < k ==> (#[trigger] objects@[j])@ == object_entry(b, o + OBJECT_LEN * j),
                forall|j: int|
                    0 <= j < k ==> field_terminated(
                        #[trigger] name_field_at(b, o + OBJECT_LEN * j),
                    ),
            decreases m - k,
        {
            proof {
                assert(o + OBJECT_LEN * k + OBJECT_LEN <= o + OBJECT_LEN * m) by (nonlinear_arith)
                    requires
                        k < m,
                ;
            }
            let off = (objects_at + OBJECT_LEN * k) as usize;
            let name = match read_name_at(data, off) {
                Some(name) => name,
                None => {
                    proof {
                        assert(0 <= k < m && !field_terminated(
                            name_field_at(b, o + OBJECT_LEN * k),
                        ));
                        lemma_decode_prefix(b);
                    }
                    return Err(LoadError::BadObjectName);
                },
            };
            let x = read_i32_at(data, off + 32);
            let y = read_i32_at(data, off + 36);
            objects.push(ObjectMarker { name, x, y });
            k = k + 1;
        }
        // Atlas rectangles.
        let mut atlas_coords: Vec<AtlasRect> = Vec::new();
        let mut t: u64 = 0;
        while t < n as u64
            invariant
                0 <= t <= n,
                g <= b.len(),
                g == HEADER_LEN + (ATLAS_ENTRY_LEN + 1) * n,
                b == data@,
                len == b.len(),
                atlas_coords@.len() == t,
                forall|j: int|
                    0 <= j < t ==> #[trigger] atlas_coords@[j] == atlas_entry(
                        b,
                        HEADER_LEN + ATLAS_ENTRY_LEN * j,
                    ),
            decreases n - t,
        {
            assert(HEADER_LEN + ATLAS_ENTRY_LEN * t + ATLAS_ENTRY_LEN <= g) by (nonlinear_arith)
                requires
                    t < n,
                    g == HEADER_LEN + (ATLAS_ENTRY_LEN + 1) * n,
            ;
            let off = (HEADER_LEN + ATLAS_ENTRY_LEN * t) as usize;
            atlas_coords.push(
                AtlasRect {
                    left: read_u32_at(data, off),
                    top: read_u32_at(data, off + 4),
                    right: read_u32_at(data, off + 8),
                    bottom: read_u32_at(data, off + 12),
                },
            );
            t = t + 1;
        }
        let flags_at = (HEADER_LEN + ATLAS_ENTRY_LEN * n as u64) as usize;
        let tile_flags = slice_to_vec(slice_subrange(data, flags_at, grid as usize));
        let tiles = slice_to_vec(slice_subrange(data, grid_at, cells_end));
        let map = TileMap {
            width,
            height,
            tiles,
            tile_flags,
            atlas_coords,
            objects,
            player_start_x,
            player_start_y,
            out_of_bounds,
        };
        proof {
            let d = decode(data@).unwrap();
            assert(!(exists|j: int| g <= j < c && b[j] > n));
            assert(!(exists|j: int|
                0 <= j < m && !field_terminated(
                    #[trigger] name_field_at(b, o + OBJECT_LEN * j),
                )));
            assert(decode(data@) is Ok);
            assert(map.data().atlas =~= d.atlas);
            assert(map.data().objects =~= d.objects);
            assert(map.data().flags =~= d.flags);
            assert(map.data().tiles =~= d.tiles);
            assert(map.data() == d);
            assert forall|j: int| 0 <= j < d.tiles.len() implies d.tiles[j] <= d.atlas.len() by {
                assert(d.tiles[j] == b[g + j]);
            }
            assert forall|j: int| 0 <= j < d.objects.len() implies valid_name(
                #[trigger] d.objects[j].0,
            ) by {
                lemma_terminated_name(name_field_at(b, o + OBJECT_LEN * j));
            }
        }
        Ok(map)
    }

    /// The file contents that hold this map.
    pub fn to_bytes(&self) -> (r: Vec<u8>)
        requires
            self.wf(),
        ensures
            r@ == encode(self.data()),
    {
        let mut out: Vec<u8> = Vec::new();
        out.push(0x54);
        out.push(0x4d);
        out.push(0x41);
        out.push(0x50);
        assert(out@ =~= magic());
        push_i32(&mut out, self.width);
        push_i32(&mut out, self.height);
        push_i32(&mut out, self.player_start_x);
        push_i32(&mut out, self.player_start_y);
        push_u32(&mut out, self.atlas_coords.len() as u32);
        let ghost head = out@;
        let mut i: usize = 0;
        while i < self.atlas_coords.len()
            invariant
                0 <= i <= self.atlas_coords@.len(),
                out@ == head + atlas_bytes(self.atlas_coords@.take(i as int)),
            decreases self.atlas_coords@.len() - i,
        {
            let a = self.atlas_coords[i];
            push_u32(&mut out, a.left);
            push_u32(&mut out, a.top);
            push_u32(&mut out, a.right);
            push_u32(&mut out, a.bottom);
            proof {
                let t = self.atlas_coords@.take(i + 1);
                assert(t.drop_last() =~= self.atlas_coords@.take(i as int));
                assert(out@ =~= head + atlas_bytes(t));
            }
            i = i + 1;
        }
        assert(self.atlas_coords@.take(i as int) =~= self.atlas_coords@);
        push_bytes(&mut out, self.tile_flags.as_slice());
        push_bytes(&mut out, self.tiles.as_slice());
        push_u32(&mut out, self.objects.len() as u32);
        let ghost objs = self.data().objects;
        let ghost mid = out@;
        let mut k: usize = 0;
        while k < self.objects.len()
            invariant
                self.wf(),
                objs == self.data().objects,
                0 <= k <= self.objects@.len(),
                out@ == mid + objects_bytes(objs.take(k as int)),
            decreases self.objects@.len() - k,
        {
            let obj = &self.objects[k];
            let ghost before = out@;
            assert(objs[k as int] == obj@);
            assert(valid_name(objs[k as int].0));
            push_bytes(&mut out, obj.name.as_slice());
            let mut pad: usize = obj.name.len();
            while pad < 32
                invariant
                    obj.name@.len() <= pad <= 32,
                    out@ == before + obj.name@ + Seq::new((pad - obj.name@.len()) as nat, |j: int| 0u8),
                decreases 32 - pad,
            {
                out.push(0);
                proof {
                    assert(out@ =~= before + obj.name@ + Seq::new(
                        (pad + 1 - obj.name@.len()) as nat,
                        |j: int| 0u8,
                    ));
                }
                pad = pad + 1;
            }
            assert(out@ =~= before + name_field(obj.name@));
            push_i32(&mut out, obj.x);
            push_i32(&mut out, obj.y);
            proof {
                let t = objs.take(k + 1);
                assert(t.drop_last() =~= objs.take(k as int));
                assert(t.last() == obj@);
                assert(out@ =~= mid + objects_bytes(t));
            }
            k = k + 1;
        }
        assert(objs.take(k as int) =~= objs);
        out
    }

    pub fn width(&self) -> (r: i32)
        ensures
            r == self.data().width,
    {
        self.width
    }

    pub fn height(&self) -> (r: i32)
        ensures
            r == self.data().height,
    {
        self.height
    }

    pub fn player_start(&self) -> (r: (i32, i32))
        ensures
            r == (self.data().start_x, self.data().start_y),
    {
        (self.player_start_x, self.player_start_y)
    }

    pub fn objects(&self) -> (r: &Vec<ObjectMarker>)
        ensures
            r@.map_values(|o: ObjectMarker| o@) == self.data().objects,
    {
        &self.objects
    }

    pub fn out_of_bounds(&self) -> (r: OutOfBounds)
        ensures
            r == self.policy(),
    {
        self.out_of_bounds
    }

    /// Whether the point is in a cell whose tile type is solid, or outside
    /// the grid under the `Solid` policy.
    pub fn is_solid(&self, x: i32, y: i32) -> (r: bool)
        requires
            self.wf(),
        ensures
            r == (self.flags_at(x as int, y as int) & FLAG_SOLID != 0),
            self.in_bounds(x as int, y as int) ==> r == (self.cell_flags(
                x / TILE_SIZE,
                y / TILE_SIZE,
            ) & FLAG_SOLID != 0),
            !self.in_bounds(x as int, y as int) ==> r == (self.policy() == OutOfBounds::Solid),
    {
        let f = self.get_flags(x, y);
        proof {
            assert(FLAG_SOLID & FLAG_SOLID != 0) by (bit_vector);
            assert(0u8 & FLAG_SOLID == 0) by (bit_vector);
        }
        (f & FLAG_SOLID) != 0
    }

    /// Whether the point is in a cell whose tile type can be climbed; never
    /// outside the grid.
    pub fn is_ladder(&self, x: i32, y: i32) -> (r: bool)
        requires
            self.wf(),
        ensures
            r == (self.flags_at(x as int, y as int) & FLAG_LADDER != 0),
            self.in_bounds(x as int, y as int) ==> r == (self.cell_flags(
                x / TILE_SIZE,
                y / TILE_SIZE,
            ) & FLAG_LADDER != 0),
            !self.in_bounds(x as int, y as int) ==> !r,
    {
        let f = self.get_flags(x, y);
        proof {
            assert(FLAG_SOLID & FLAG_LADDER == 0) by (bit_vector);
            assert(0u8 & FLAG_LADDER == 0) by (bit_vector);
        }
        (f & FLAG_LADDER) != 0
    }

    /// The flags of the tile type under a world point.
    pub fn get_flags(&self, x: i32, y: i32) -> (r: u8)
        requires
            self.wf(),
        ensures
            r == self.flags_at(x as int, y as int),
    {
        if x < 0 || y < 0 || x as i64 >= self.width as i64 * TILE_SIZE as i64 || y as i64
            >= self.height as i64 * TILE_SIZE as i64 {
            return match self.out_of_bounds {
                OutOfBounds::Solid => FLAG_SOLID,
                OutOfBounds::Empty => 0,
            };
        }
        let col = (x / TILE_SIZE) as usize;
        let row = (y / TILE_SIZE) as usize;
        let w = self.width as usize;
        let cells = self.tiles.len();
        proof {
            let h = self.height as int;
            assert(cells == w * h);
            assert(col < w) by (nonlinear_arith)
                requires
                    0 <= x < w * 64,
                    col == x / 64,
            ;
            assert(row < h) by (nonlinear_arith)
                requires
                    0 <= y < h * 64,
                    row == y / 64,
            ;
            assert(row * w + col < w * h && row * w <= w * h) by (nonlinear_arith)
                requires
                    row < h,
                    col < w,
            ;
        }
        let tile_num = self.tiles[row * w + col];
        if tile_num == 0 {
            return 0;
        }
        self.tile_flags[(tile_num - 1) as usize]
    }

    /// Submits one sprite per non-empty tile that the view rectangle
    /// overlaps, row by row, left to right; nothing else is drawn.
    pub fn draw(&self, context: &mut RenderContext, visible_rect: &Rect<i32>)
        requires
            self.wf(),
        ensures
            final(context).offset() == old(context).offset(),
            final(context).quads() == old(context).quads() + self.visible_quads(
                old(context).offset(),
                *visible_rect,
            ),
    {
        let left_tile = first_visible_tile(visible_rect.left as i64);
        let right_tile = end_visible_tile(
            visible_rect.left as i64 + visible_rect.width as i64,
            self.width,
        );
        let top_tile = first_visible_tile(visible_rect.top as i64);
        let bottom_tile = end_visible_tile(
            visible_rect.top as i64 + visible_rect.height as i64,
            self.height,
        );
        let ghost offset = context.offset();
        let ghost start = context.quads();
        let mut y = top_tile;
        while y < bottom_tile
            invariant
                self.wf(),
                0 <= top_tile <= y,
                0 <= left_tile,
                y <= bottom_tile || y == top_tile,
                bottom_tile <= self.height,
                right_tile <= self.width,
                context.offset() == offset,
                context.quads() == start + self.area_quads(
                    offset,
                    top_tile as int,
                    y as int,
                    left_tile as int,
                    right_tile as int,
                ),
            decreases bottom_tile - y,
        {
            let ghost row_start = context.quads();
            let mut x = left_tile;
            while x < right_tile
                invariant
                    self.wf(),
                    0 <= y < bottom_tile <= self.height,
                    0 <= left_tile <= x,
                    x <= right_tile || x == left_tile,
                    right_tile <= self.width,
                    context.offset() == offset,
                    context.quads() == row_start + self.row_quads(
                        offset,
                        y as int,
                        left_tile as int,
                        x as int,
                    ),
                decreases right_tile - x,
            {
                let w = self.width as usize;
                let cells = self.tiles.len();
                proof {
                    let h = self.height as int;
                    assert(cells == w * h);
                    assert((y as int) * w + (x as int) < w * h && (y as int) * w <= w * h) by (nonlinear_arith)
                        requires
                            0 <= y < h,
                            0 <= x < w,
                    ;
                    assert(x * TILE_SIZE <= MAX_TILES_ACROSS * TILE_SIZE) by (nonlinear_arith)
                        requires
                            0 <= x <= MAX_TILES_ACROSS,
                    ;
                    assert(y * TILE_SIZE <= MAX_TILES_ACROSS * TILE_SIZE) by (nonlinear_arith)
                        requires
                            0 <= y <= MAX_TILES_ACROSS,
                    ;
                }
                let tile = self.tiles[(y as usize) * w + x as usize];
                if tile != 0 {
                    let sprite = SpriteInfo {
                        atlas: self.atlas_coords[(tile - 1) as usize],
                        width: TILE_SIZE as u32,
                        height: TILE_SIZE as u32,
                        origin_x: 0,
                        origin_y: 0,
                    };
                    context.draw_image((TILE_SIZE * x, TILE_SIZE * y), &sprite, NO_ROTATION, false);
                }
                x = x + 1;
            }
            proof {
                assert(self.row_quads(offset, y as int, left_tile as int, x as int) == self.row_quads(
                    offset,
                    y as int,
                    left_tile as int,
                    right_tile as int,
                ));
                assert(self.area_quads(
                    offset,
                    top_tile as int,
                    y + 1,
                    left_tile as int,
                    right_tile as int,
                ) == self.area_quads(
                    offset,
                    top_tile as int,
                    y as int,
                    left_tile as int,
                    right_tile as int,
                ) + self.row_quads(offset, y as int, left_tile as int, right_tile as int));
                assert(context.quads() =~= start + self.area_quads(
                    offset,
                    top_tile as int,
                    y + 1,
                    left_tile as int,
                    right_tile as int,
                ));
            }
            y = y + 1;
        }
        proof {
            assert(self.area_quads(offset, top_tile as int, y as int, left_tile as int, right_tile as int)
                == self.area_quads(
                offset,
                top_tile as int,
                bottom_tile as int,
                left_tile as int,
                right_tile as int,
            ));
        }
    }
}

/// A cell holding tile index 0 is neither solid nor a ladder.
pub proof fn lemma_empty_cell_is_open(map: &TileMap, col: int, row: int)
    requires
        map.tile_at(col, row) == 0,
    ensures
        map.cell_flags(col, row) & FLAG_SOLID == 0,
        map.cell_flags(col, row) & FLAG_LADDER == 0,
{
    assert(0u8 & FLAG_SOLID == 0) by (bit_vector);
    assert(0u8 & FLAG_LADDER == 0) by (bit_vector);
}

/// Appends all of `src`.
fn push_bytes(out: &mut Vec<u8>, src: &[u8])
    ensures
        final(out)@ == old(out)@ + src@,
{
    let ghost start = out@;
    let mut i: usize = 0;
    while i < src.len()
        invariant
            0 <= i <= src@.len(),
            out@ == start + src@.take(i as int),
        decreases src@.len() - i,
    {
        out.push(src[i]);
        assert(out@ =~= start + src@.take(i + 1));
        i = i + 1;
    }
    assert(src@.take(i as int) =~= src@);
}

/// Unfolds `decode` past the header checks.
proof fn lemma_decode_prefix(b: Seq<u8>)
    requires
        b.len() >= HEADER_LEN,
        b.subrange(0, 4) == magic(),
        0 <= read_i32(b, 4) <= MAX_TILES_ACROSS,
        0 <= read_i32(b, 8) <= MAX_TILES_ACROSS,
        b.len() >= grid_offset(read_u32(b, 20) as int) + read_i32(b, 4)
            * read_i32(b, 8) + 4,
    ensures
        ({
            let n = read_u32(b, 20) as int;
            let g = grid_offset(n);
            let c = g + read_i32(b, 4) * read_i32(b, 8);
            let m = read_u32(b, c) as int;
            let o = c + 4;
            &&& (exists|i: int| g <= i < c && b[i] > n) ==> decode(b) == Err::<MapData, LoadError>(
                LoadError::UnknownTile,
            )
            &&& (!(exists|i: int| g <= i < c && b[i] > n) && b.len() >= o + OBJECT_LEN * m
                && (exists|k: int|
                0 <= k < m && !field_terminated(
                    #[trigger] name_field_at(b, o + OBJECT_LEN * k),
                ))) ==> decode(b) == Err::<MapData, LoadError>(LoadError::BadObjectName)
        }),
{
}

/// The name in a terminated field fits a field and has no zero byte.
proof fn lemma_terminated_name(field: Seq<u8>)
    requires
        field.len() == NAME_FIELD_LEN,
        field_terminated(field),
    ensures
        valid_name(field_name(field)),
{
    let z = zero_from(field, 0);
    lemma_zero_from_range(field, 0);
    assert forall|i: int| 0 <= i <= z implies zero_from(field, i) == z by {
        lemma_zero_from_before(field, i, z);
    }
    assert forall|i: int| 0 <= i < z implies #[trigger] field_name(field)[i] != 0 by {
        lemma_zero_from_before(field, i, z);
    }
}

proof fn lemma_zero_from_range(field: Seq<u8>, i: int)
    requires
        0 <= i <= field.len(),
    ensures
        i <= zero_from(field, i) <= field.len(),
    decreases field.len() - i,
{
    if i < field.len() {
        lemma_zero_from_range(field, i + 1);
    }
}

/// Between `i` and the first zero, no byte is zero.
proof fn lemma_zero_from_before(field: Seq<u8>, i: int, z: int)
    requires
        0 <= i <= z,
        z == zero_from(field, 0),
        z < field.len(),
    ensures
        zero_from(field, i) == z,
        i < z ==> field[i] != 0,
    decreases i,
{
    if i > 0 {
        lemma_zero_from_before(field, i - 1, z);
    }
}

/// Index of the first tile column (or row) that a span starting at `lo` reaches.
fn first_visible_tile(lo: i64) -> (r: i32)
    requires
        i32::MIN <= lo <= i32::MAX,
    ensures
        r == first_visible(lo as int),
        r >= 0,
{
    if lo <= 0 {
        0
    } else {
        (lo / TILE_SIZE as i64) as i32
    }
}

/// One past the last tile column (or row) that a span ending at `hi` reaches,
/// at most `n`.
fn end_visible_tile(hi: i64, n: i32) -> (r: i32)
    requires
        2 * i32::MIN <= hi <= 2 * i32::MAX,
        n >= 0,
    ensures
        r == end_visible(hi as int, n as int),
        0 <= r <= n,
{
    if hi <= 0 {
        0
    } else {
        let t = (hi + TILE_SIZE as i64 - 1) / TILE_SIZE as i64;
        if t <= n as i64 {
            t as i32
        } else {
            n
        }
    }
}

} // verus!
