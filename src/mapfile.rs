//! The packed little-endian tile-map format.
//!
//! ```text
//! magic            4 bytes, "TMAP"
//! width            i32
//! height           i32
//! player_start_x   i32
//! player_start_y   i32
//! num_tile_types   u32
//! atlas rects      num_tile_types x (left, top, right, bottom), each the bits of an f32
//! tile flags       num_tile_types x u8
//! tile grid        width * height x u8, row-major, 0 = empty
//! num_objects      u32
//! objects          num_objects x (name: 32 bytes zero-padded, x: i32, y: i32)
//! ```
//!
//! `decode` says what a buffer holds, `encode` what a map is written as.
use vstd::bytes::*;
use vstd::prelude::*;
use vstd::slice::*;

verus! {

/// Length of the fixed header: magic, width, height, start position, tile-type count.
pub const HEADER_LEN: u64 = 24;

/// Bytes per atlas rectangle.
pub const ATLAS_ENTRY_LEN: u64 = 16;

/// Bytes of the zero-padded name field of an object marker.
pub const NAME_FIELD_LEN: u64 = 32;

/// Bytes per object marker.
pub const OBJECT_LEN: u64 = 40;

/// The most tiles a map may have across or down: the largest count whose
/// extent in world units (64 per tile) still fits an `i32`.
pub const MAX_TILES_ACROSS: i32 = 33554431;

/// A tile type's rectangle in the texture atlas. Each edge holds the bit
/// pattern of an `f32` in normalized texture coordinates; nothing here
/// computes with them, they are handed on to the renderer as they are.
#[derive(Clone, Copy, PartialEq, Eq, Structural, Debug)]
pub struct AtlasRect {
    pub left: u32,
    pub top: u32,
    pub right: u32,
    pub bottom: u32,
}

/// A spawn marker: an entity type name and the world position to create it at.
#[derive(Debug)]
pub struct ObjectMarker {
    pub name: Vec<u8>,
    pub x: i32,
    pub y: i32,
}

impl View for ObjectMarker {
    type V = (Seq<u8>, i32, i32);

    open spec fn view(&self) -> (Seq<u8>, i32, i32) {
        (self.name@, self.x, self.y)
    }
}

/// Why a buffer is not a tile map.
#[derive(Clone, Copy, PartialEq, Eq, Structural, Debug)]
pub enum LoadError {
    /// The buffer ends before a field that it must hold.
    Truncated,
    /// The first four bytes are not "TMAP".
    BadMagic,
    /// Width or height is negative, or too large for world coordinates.
    BadDimensions,
    /// A grid cell names a tile type that the map does not define.
    UnknownTile,
    /// An object name fills its whole field with no terminating zero.
    BadObjectName,
}

/// What a tile-map file holds.
pub struct MapData {
    pub width: i32,
    pub height: i32,
    pub start_x: i32,
    pub start_y: i32,
    pub atlas: Seq<AtlasRect>,
    pub flags: Seq<u8>,
    pub tiles: Seq<u8>,
    pub objects: Seq<(Seq<u8>, i32, i32)>,
}

/// A name that fits its field: shorter than the field and free of zero bytes.
pub open spec fn valid_name(name: Seq<u8>) -> bool {
    &&& name.len() < NAME_FIELD_LEN
    &&& forall|i: int| 0 <= i < name.len() ==> name[i] != 0
}

impl MapData {
    /// The invariant of a loaded map: one cell per grid position, one flag
    /// byte per atlas rectangle, every non-empty cell naming a defined tile
    /// type, and counts and names that fit their fields.
    pub open spec fn wf(self) -> bool {
        &&& 0 <= self.width <= MAX_TILES_ACROSS
        &&& 0 <= self.height <= MAX_TILES_ACROSS
        &&& self.tiles.len() == self.width * self.height
        &&& self.flags.len() == self.atlas.len()
        &&& self.atlas.len() <= u32::MAX
        &&& forall|i: int| 0 <= i < self.tiles.len() ==> self.tiles[i] <= self.atlas.len()
        &&& self.objects.len() <= u32::MAX
        &&& forall|k: int| 0 <= k < self.objects.len() ==> valid_name(#[trigger] self.objects[k].0)
    }
}

pub open spec fn magic() -> Seq<u8> {
    seq![0x54u8, 0x4du8, 0x41u8, 0x50u8]
}

pub open spec fn read_u32(b: Seq<u8>, off: int) -> u32 {
    spec_u32_from_le_bytes(b.subrange(off, off + 4))
}

pub open spec fn read_i32(b: Seq<u8>, off: int) -> i32 {
    #[verifier::truncate] (read_u32(b, off) as i32)
}

pub open spec fn i32_bytes(v: i32) -> Seq<u8> {
    spec_u32_to_le_bytes(#[verifier::truncate] (v as u32))
}

/// Offset of the tile grid, after the header, the atlas rectangles and the flags.
pub open spec fn grid_offset(n: int) -> int {
    HEADER_LEN + (ATLAS_ENTRY_LEN + 1) * n
}

/// Position of the first zero at or after `i`, or the length when there is none.
pub open spec fn zero_from(s: Seq<u8>, i: int) -> int
    decreases s.len() - i,
{
    if i >= s.len() || i < 0 {
        s.len() as int
    } else if s[i] == 0 {
        i
    } else {
        zero_from(s, i + 1)
    }
}

/// The name held in a zero-padded field: the bytes before the first zero.
pub open spec fn field_name(field: Seq<u8>) -> Seq<u8> {
    field.take(zero_from(field, 0))
}

/// A field holds a name when it has a terminating zero.
pub open spec fn field_terminated(field: Seq<u8>) -> bool {
    zero_from(field, 0) < field.len()
}

pub open spec fn atlas_entry(b: Seq<u8>, off: int) -> AtlasRect {
    AtlasRect {
        left: read_u32(b, off),
        top: read_u32(b, off + 4),
        right: read_u32(b, off + 8),
        bottom: read_u32(b, off + 12),
    }
}

pub open spec fn name_field_at(b: Seq<u8>, off: int) -> Seq<u8> {
    b.subrange(off, off + NAME_FIELD_LEN)
}

pub open spec fn object_entry(b: Seq<u8>, off: int) -> (Seq<u8>, i32, i32) {
    (field_name(name_field_at(b, off)), read_i32(b, off + 32), read_i32(b, off + 36))
}

/// What a buffer holds, or the first thing wrong with it. Bytes after the
/// last object are not read.
pub open spec fn decode(b: Seq<u8>) -> Result<MapData, LoadError> {
    if b.len() < 4 {
        Err(LoadError::Truncated)
    } else if b.subrange(0, 4) != magic() {
        Err(LoadError::BadMagic)
    } else if b.len() < HEADER_LEN {
        Err(LoadError::Truncated)
    } else if !(0 <= read_i32(b, 4) <= MAX_TILES_ACROSS && 0 <= read_i32(b, 8) <= MAX_TILES_ACROSS) {
        Err(LoadError::BadDimensions)
    } else {
        let w = read_i32(b, 4) as int;
        let h = read_i32(b, 8) as int;
        let n = read_u32(b, 20) as int;
        let g = grid_offset(n);
        let c = g + w * h;
        if b.len() < c + 4 {
            Err(LoadError::Truncated)
        } else if exists|i: int| g <= i < c && b[i] > n {
            Err(LoadError::UnknownTile)
        } else {
            let m = read_u32(b, c) as int;
            let o = c + 4;
            if b.len() < o + OBJECT_LEN * m {
                Err(LoadError::Truncated)
            } else if exists|k: int|
                0 <= k < m && !field_terminated(#[trigger] name_field_at(b, o + OBJECT_LEN * k)) {
                Err(LoadError::BadObjectName)
            } else {
                Ok(
                    MapData {
                        width: w as i32,
                        height: h as i32,
                        start_x: read_i32(b, 12),
                        start_y: read_i32(b, 16),
                        atlas: Seq::new(
                            n as nat,
                            |i: int| atlas_entry(b, HEADER_LEN + ATLAS_ENTRY_LEN * i),
                        ),
                        flags: b.subrange(HEADER_LEN + ATLAS_ENTRY_LEN * n, g),
                        tiles: b.subrange(g, c),
                        objects: Seq::new(m as nat, |k: int| object_entry(b, o + OBJECT_LEN * k)),
                    },
                )
            }
        }
    }
}

pub open spec fn atlas_rect_bytes(r: AtlasRect) -> Seq<u8> {
    spec_u32_to_le_bytes(r.left) + spec_u32_to_le_bytes(r.top) + spec_u32_to_le_bytes(r.right)
        + spec_u32_to_le_bytes(r.bottom)
}

pub open spec fn atlas_bytes(a: Seq<AtlasRect>) -> Seq<u8>
    decreases a.len(),
{
    if a.len() == 0 {
        Seq::empty()
    } else {
        atlas_bytes(a.drop_last()) + atlas_rect_bytes(a.last())
    }
}

/// A name followed by zeros up to the field's length.
pub open spec fn name_field(name: Seq<u8>) -> Seq<u8> {
    name + Seq::new((NAME_FIELD_LEN - name.len()) as nat, |i: int| 0u8)
}

pub open spec fn object_bytes(o: (Seq<u8>, i32, i32)) -> Seq<u8> {
    name_field(o.0) + i32_bytes(o.1) + i32_bytes(o.2)
}

pub open spec fn objects_bytes(objs: Seq<(Seq<u8>, i32, i32)>) -> Seq<u8>
    decreases objs.len(),
{
    if objs.len() == 0 {
        Seq::empty()
    } else {
        objects_bytes(objs.drop_last()) + object_bytes(objs.last())
    }
}

/// The bytes that hold a map.
pub open spec fn encode(d: MapData) -> Seq<u8> {
    magic() + i32_bytes(d.width) + i32_bytes(d.height) + i32_bytes(d.start_x) + i32_bytes(
        d.start_y,
    ) + spec_u32_to_le_bytes(d.atlas.len() as u32) + atlas_bytes(d.atlas) + d.flags + d.tiles
        + spec_u32_to_le_bytes(d.objects.len() as u32) + objects_bytes(d.objects)
}


/// Reads the little-endian `u32` at `off`.
pub(crate) fn read_u32_at(b: &[u8], off: usize) -> (r: u32)
    requires
        off + 4 <= b.len(),
    ensures
        r == read_u32(b@, off as int),
{
    u32_from_le_bytes(slice_subrange(b, off, off + 4))
}

/// Reads the little-endian `i32` at `off`.
pub(crate) fn read_i32_at(b: &[u8], off: usize) -> (r: i32)
    requires
        off + 4 <= b.len(),
    ensures
        r == read_i32(b@, off as int),
{
    #[verifier::truncate]
    (read_u32_at(b, off) as i32)
}

/// The name in the 32-byte field at `off`, or `None` when the field has no
/// terminating zero.
pub(crate) fn read_name_at(b: &[u8], off: usize) -> (r: Option<Vec<u8>>)
    requires
        off + NAME_FIELD_LEN <= b.len(),
    ensures
        r is None <==> !field_terminated(name_field_at(b@, off as int)),
        r matches Some(v) ==> v@ == field_name(name_field_at(b@, off as int)),
{
    let field = slice_subrange(b, off, off + 32);
    assert(field@ == name_field_at(b@, off as int));
    let mut i: usize = 0;
    while i < 32 && field[i] != 0
        invariant
            0 <= i <= 32,
            field@.len() == 32,
            zero_from(field@, 0) == zero_from(field@, i as int),
        decreases 32 - i,
    {
        i = i + 1;
    }
    if i == 32 {
        None
    } else {
        Some(slice_to_vec(slice_subrange(field, 0, i)))
    }
}

/// Appends the little-endian bytes of `v`.
pub(crate) fn push_u32(out: &mut Vec<u8>, v: u32)
    ensures
        final(out)@ == old(out)@ + spec_u32_to_le_bytes(v),
{
    let mut bytes = u32_to_le_bytes(v);
    out.append(&mut bytes);
}

/// Appends the little-endian bytes of `v`.
pub(crate) fn push_i32(out: &mut Vec<u8>, v: i32)
    ensures
        final(out)@ == old(out)@ + i32_bytes(v),
{
    push_u32(out, #[verifier::truncate] (v as u32));
}

proof fn lemma_window(b: Seq<u8>, off: int, s: Seq<u8>, i: int, j: int)
    requires
        0 <= off,
        off + s.len() <= b.len(),
        b.subrange(off, off + s.len()) == s,
        0 <= i <= j <= s.len(),
    ensures
        b.subrange(off + i, off + j) == s.subrange(i, j),
{
    assert(b.subrange(off + i, off + j) =~= s.subrange(i, j)) by {
        assert forall|k: int| 0 <= k < j - i implies b.subrange(off + i, off + j)[k] == s.subrange(
            i,
            j,
        )[k] by {
            assert(b.subrange(off, off + s.len())[i + k] == b[off + i + k]);
        }
    }
}

proof fn lemma_i32_bytes(v: i32)
    ensures
        i32_bytes(v).len() == 4,
        #[verifier::truncate] (spec_u32_from_le_bytes(i32_bytes(v)) as i32) == v,
{
    lemma_auto_spec_u32_to_from_le_bytes();
    let u = #[verifier::truncate] (v as u32);
    assert(spec_u32_to_le_bytes(u).len() == 4);
    assert(#[verifier::truncate] ((#[verifier::truncate] (v as u32)) as i32) == v) by (bit_vector);
}

proof fn lemma_atlas_bytes(a: Seq<AtlasRect>)
    ensures
        atlas_bytes(a).len() == ATLAS_ENTRY_LEN * a.len(),
        forall|i: int|
            0 <= i < a.len() ==> atlas_bytes(a).subrange(
                ATLAS_ENTRY_LEN * i,
                ATLAS_ENTRY_LEN * i + ATLAS_ENTRY_LEN,
            ) == atlas_rect_bytes(#[trigger] a[i]),
    decreases a.len(),
{
    lemma_auto_spec_u32_to_from_le_bytes();
    if a.len() > 0 {
        let p = a.drop_last();
        lemma_atlas_bytes(p);
        let s = atlas_bytes(a);
        let q = atlas_bytes(p);
        assert(s == q + atlas_rect_bytes(a.last()));
        assert forall|i: int| 0 <= i < a.len() implies s.subrange(
            ATLAS_ENTRY_LEN * i,
            ATLAS_ENTRY_LEN * i + ATLAS_ENTRY_LEN,
        ) == atlas_rect_bytes(#[trigger] a[i]) by {
            if i < p.len() {
                assert(a[i] == p[i]);
                assert(s.subrange(ATLAS_ENTRY_LEN * i, ATLAS_ENTRY_LEN * i + ATLAS_ENTRY_LEN)
                    =~= q.subrange(ATLAS_ENTRY_LEN * i, ATLAS_ENTRY_LEN * i + ATLAS_ENTRY_LEN));
            } else {
                assert(s.subrange(ATLAS_ENTRY_LEN * i, ATLAS_ENTRY_LEN * i + ATLAS_ENTRY_LEN)
                    =~= atlas_rect_bytes(a.last()));
            }
        }
    }
}

proof fn lemma_objects_bytes(objs: Seq<(Seq<u8>, i32, i32)>)
    requires
        forall|k: int| 0 <= k < objs.len() ==> valid_name(#[trigger] objs[k].0),
    ensures
        objects_bytes(objs).len() == OBJECT_LEN * objs.len(),
        forall|k: int|
            0 <= k < objs.len() ==> objects_bytes(objs).subrange(
                OBJECT_LEN * k,
                OBJECT_LEN * k + OBJECT_LEN,
            ) == object_bytes(#[trigger] objs[k]),
    decreases objs.len(),
{
    lemma_auto_spec_u32_to_from_le_bytes();
    if objs.len() > 0 {
        let p = objs.drop_last();
        assert forall|k: int| 0 <= k < p.len() implies valid_name(#[trigger] p[k].0) by {
            assert(p[k] == objs[k]);
        }
        lemma_objects_bytes(p);
        let last = objs.last();
        assert(valid_name(objs[objs.len() - 1].0));
        assert(object_bytes(last).len() == OBJECT_LEN);
        let s = objects_bytes(objs);
        let q = objects_bytes(p);
        assert(s == q + object_bytes(last));
        assert forall|k: int| 0 <= k < objs.len() implies s.subrange(
            OBJECT_LEN * k,
            OBJECT_LEN * k + OBJECT_LEN,
        ) == object_bytes(#[trigger] objs[k]) by {
            if k < p.len() {
                assert(objs[k] == p[k]);
                assert(s.subrange(OBJECT_LEN * k, OBJECT_LEN * k + OBJECT_LEN) =~= q.subrange(
                    OBJECT_LEN * k,
                    OBJECT_LEN * k + OBJECT_LEN,
                ));
            } else {
                assert(s.subrange(OBJECT_LEN * k, OBJECT_LEN * k + OBJECT_LEN) =~= object_bytes(
                    last,
                ));
            }
        }
    }
}

proof fn lemma_zero_from_name(name: Seq<u8>, i: int)
    requires
        valid_name(name),
        0 <= i <= name.len(),
    ensures
        zero_from(name_field(name), i) == name.len(),
    decreases name.len() - i,
{
    if i < name.len() {
        lemma_zero_from_name(name, i + 1);
    }
}

proof fn lemma_name_field(name: Seq<u8>)
    requires
        valid_name(name),
    ensures
        name_field(name).len() == NAME_FIELD_LEN,
        field_terminated(name_field(name)),
        field_name(name_field(name)) == name,
{
    lemma_zero_from_name(name, 0);
    assert(field_name(name_field(name)) =~= name);
}

proof fn lemma_concat(s: Seq<u8>, t: Seq<u8>)
    ensures
        (s + t).subrange(0, s.len() as int) == s,
        (s + t).subrange(s.len() as int, s.len() + t.len() as int) == t,
{
    assert((s + t).subrange(0, s.len() as int) =~= s);
    assert((s + t).subrange(s.len() as int, s.len() + t.len() as int) =~= t);
}

/// `b` starts with `q + t`, which gives the place of `t` and that `b` starts with `q`.
proof fn lemma_step(b: Seq<u8>, q: Seq<u8>, t: Seq<u8>)
    requires
        q.len() + t.len() <= b.len(),
        b.subrange(0, q.len() + t.len() as int) == q + t,
    ensures
        b.subrange(0, q.len() as int) == q,
        b.subrange(q.len() as int, q.len() + t.len() as int) == t,
{
    lemma_concat(q, t);
    lemma_window(b, 0, q + t, 0, q.len() as int);
    lemma_window(b, 0, q + t, q.len() as int, q.len() + t.len() as int);
}

/// Where each field of an encoded map lies.
proof fn lemma_encode_layout(d: MapData)
    requires
        d.wf(),
    ensures
        ({
            let b = encode(d);
            let n = d.atlas.len() as int;
            let g = grid_offset(n);
            let c = g + d.width * d.height;
            &&& b.len() == c + 4 + OBJECT_LEN * d.objects.len()
            &&& b.subrange(0, 4) == magic()
            &&& read_i32(b, 4) == d.width
            &&& read_i32(b, 8) == d.height
            &&& read_i32(b, 12) == d.start_x
            &&& read_i32(b, 16) == d.start_y
            &&& read_u32(b, 20) == n
            &&& b.subrange(HEADER_LEN as int, HEADER_LEN + ATLAS_ENTRY_LEN * n) == atlas_bytes(
                d.atlas,
            )
            &&& b.subrange(HEADER_LEN + ATLAS_ENTRY_LEN * n, g) == d.flags
            &&& b.subrange(g, c) == d.tiles
            &&& read_u32(b, c) == d.objects.len()
            &&& b.subrange(c + 4, b.len() as int) == objects_bytes(d.objects)
        }),
{
    lemma_auto_spec_u32_to_from_le_bytes();
    lemma_i32_bytes(d.width);
    lemma_i32_bytes(d.height);
    lemma_i32_bytes(d.start_x);
    lemma_i32_bytes(d.start_y);
    lemma_atlas_bytes(d.atlas);
    lemma_objects_bytes(d.objects);
    let n = d.atlas.len() as int;
    let m = d.objects.len() as int;
    let p1 = magic() + i32_bytes(d.width);
    let p2 = p1 + i32_bytes(d.height);
    let p3 = p2 + i32_bytes(d.start_x);
    let p4 = p3 + i32_bytes(d.start_y);
    let p5 = p4 + spec_u32_to_le_bytes(n as u32);
    let p6 = p5 + atlas_bytes(d.atlas);
    let p7 = p6 + d.flags;
    let p8 = p7 + d.tiles;
    let p9 = p8 + spec_u32_to_le_bytes(m as u32);
    let b = p9 + objects_bytes(d.objects);
    assert(b == encode(d));
    lemma_concat(p9, objects_bytes(d.objects));
    lemma_step(b, p8, spec_u32_to_le_bytes(m as u32));
    lemma_step(b, p7, d.tiles);
    lemma_step(b, p6, d.flags);
    lemma_step(b, p5, atlas_bytes(d.atlas));
    lemma_step(b, p4, spec_u32_to_le_bytes(n as u32));
    lemma_step(b, p3, i32_bytes(d.start_y));
    lemma_step(b, p2, i32_bytes(d.start_x));
    lemma_step(b, p1, i32_bytes(d.height));
    lemma_step(b, magic(), i32_bytes(d.width));
}

/// Loading what a well-formed map is written as gives back the same map:
/// dimensions, start position, atlas rectangles, flags, grid and objects;
/// writing it again gives the same bytes.
pub proof fn lemma_decode_encode(d: MapData)
    requires
        d.wf(),
    ensures
        decode(encode(d)) == Ok::<MapData, LoadError>(d),
        encode(decode(encode(d))->Ok_0) == encode(d),
{
    lemma_encode_layout(d);
    lemma_atlas_bytes(d.atlas);
    lemma_objects_bytes(d.objects);
    let b = encode(d);
    let n = d.atlas.len() as int;
    let m = d.objects.len() as int;
    let g = grid_offset(n);
    let c = g + d.width * d.height;
    let o = c + 4;
    let ab = atlas_bytes(d.atlas);
    let ob = objects_bytes(d.objects);
    assert forall|i: int| g <= i < c implies !(b[i] > n) by {
        assert(b.subrange(g, c)[i - g] == b[i]);
    }
    let atlas = Seq::new(n as nat, |i: int| atlas_entry(b, HEADER_LEN + ATLAS_ENTRY_LEN * i));
    assert forall|i: int| 0 <= i < n implies atlas[i] == d.atlas[i] by {
        lemma_atlas_entry(b, d.atlas, i);
    }
    assert(atlas =~= d.atlas);
    let objects = Seq::new(m as nat, |k: int| object_entry(b, o + OBJECT_LEN * k));
    assert forall|k: int| 0 <= k < m implies objects[k] == d.objects[k] && field_terminated(
        #[trigger] name_field_at(b, o + OBJECT_LEN * k),
    ) by {
        lemma_object_entry(b, o, d.objects, k);
    }
    assert(objects =~= d.objects);
}

proof fn lemma_atlas_entry(b: Seq<u8>, a: Seq<AtlasRect>, i: int)
    requires
        0 <= i < a.len(),
        HEADER_LEN + ATLAS_ENTRY_LEN * a.len() <= b.len(),
        b.subrange(HEADER_LEN as int, HEADER_LEN + ATLAS_ENTRY_LEN * a.len()) == atlas_bytes(a),
    ensures
        atlas_entry(b, HEADER_LEN + ATLAS_ENTRY_LEN * i) == a[i],
{
    lemma_auto_spec_u32_to_from_le_bytes();
    lemma_atlas_bytes(a);
    let ab = atlas_bytes(a);
    let off = HEADER_LEN + ATLAS_ENTRY_LEN * i;
    let r = a[i];
    lemma_window(b, HEADER_LEN as int, ab, ATLAS_ENTRY_LEN * i, ATLAS_ENTRY_LEN * i + ATLAS_ENTRY_LEN);
    let rb = atlas_rect_bytes(r);
    lemma_window(b, off, rb, 0, 4);
    lemma_window(b, off, rb, 4, 8);
    lemma_window(b, off, rb, 8, 12);
    lemma_window(b, off, rb, 12, 16);
    assert(rb.subrange(0, 4) =~= spec_u32_to_le_bytes(r.left));
    assert(rb.subrange(4, 8) =~= spec_u32_to_le_bytes(r.top));
    assert(rb.subrange(8, 12) =~= spec_u32_to_le_bytes(r.right));
    assert(rb.subrange(12, 16) =~= spec_u32_to_le_bytes(r.bottom));
}

proof fn lemma_object_entry(b: Seq<u8>, o: int, objs: Seq<(Seq<u8>, i32, i32)>, k: int)
    requires
        0 <= k < objs.len(),
        0 <= o,
        forall|j: int| 0 <= j < objs.len() ==> valid_name(#[trigger] objs[j].0),
        o + OBJECT_LEN * objs.len() == b.len(),
        b.subrange(o, b.len() as int) == objects_bytes(objs),
    ensures
        object_entry(b, o + OBJECT_LEN * k) == objs[k],
        field_terminated(name_field_at(b, o + OBJECT_LEN * k)),
{
    lemma_objects_bytes(objs);
    let ob = objects_bytes(objs);
    let off = o + OBJECT_LEN * k;
    let e = objs[k];
    lemma_name_field(e.0);
    lemma_i32_bytes(e.1);
    lemma_i32_bytes(e.2);
    lemma_window(b, o, ob, OBJECT_LEN * k, OBJECT_LEN * k + OBJECT_LEN);
    let eb = object_bytes(e);
    lemma_window(b, off, eb, 0, 32);
    lemma_window(b, off, eb, 32, 36);
    lemma_window(b, off, eb, 36, 40);
    assert(eb.subrange(0, 32) =~= name_field(e.0));
    assert(eb.subrange(32, 36) =~= i32_bytes(e.1));
    assert(eb.subrange(36, 40) =~= i32_bytes(e.2));
}

} // verus!
