use engine::mapfile::{AtlasRect, LoadError};
use engine::rect::Rect;
use engine::render::RenderContext;
use engine::tilemap::{OutOfBounds, TileMap, FLAG_LADDER, FLAG_SOLID, TILE_SIZE};

/// The file contents of a map with the given tile types (atlas rectangle
/// left edges, flags) and grid.
fn map_bytes(
    width: i32,
    height: i32,
    start: (i32, i32),
    types: &[(u32, u8)],
    grid: &[u8],
    objects: &[(&str, i32, i32)],
) -> Vec<u8> {
    let mut b: Vec<u8> = b"TMAP".to_vec();
    for v in [width, height, start.0, start.1] {
        b.extend_from_slice(&v.to_le_bytes());
    }
    b.extend_from_slice(&(types.len() as u32).to_le_bytes());
    for (left, _) in types {
        for v in [*left, 2, 3, 4] {
            b.extend_from_slice(&v.to_le_bytes());
        }
    }
    for (_, flags) in types {
        b.push(*flags);
    }
    b.extend_from_slice(grid);
    b.extend_from_slice(&(objects.len() as u32).to_le_bytes());
    for (name, x, y) in objects {
        let mut field = [0u8; 32];
        field[..name.len()].copy_from_slice(name.as_bytes());
        b.extend_from_slice(&field);
        b.extend_from_slice(&x.to_le_bytes());
        b.extend_from_slice(&y.to_le_bytes());
    }
    b
}

fn strip_map(policy: OutOfBounds) -> TileMap {
    let b = map_bytes(4, 1, (0, 0), &[(7, FLAG_SOLID)], &[1, 0, 0, 0], &[]);
    TileMap::new(&b, policy).unwrap()
}

#[test]
fn solid_cell_and_empty_neighbour() {
    let map = strip_map(OutOfBounds::Empty);
    assert!(map.is_solid(32, 32));
    assert!(!map.is_solid(96, 32));
}

#[test]
fn cell_edges_follow_floor_division() {
    let map = strip_map(OutOfBounds::Empty);
    assert!(map.is_solid(0, 0));
    assert!(map.is_solid(63, 63));
    assert!(!map.is_solid(64, 0));
}

#[test]
fn flags_come_from_the_tile_type() {
    let b = map_bytes(
        3,
        2,
        (0, 0),
        &[(1, FLAG_SOLID), (2, FLAG_LADDER), (3, FLAG_SOLID | FLAG_LADDER)],
        &[1, 2, 3, 0, 2, 1],
        &[],
    );
    let map = TileMap::new(&b, OutOfBounds::Empty).unwrap();
    assert_eq!(map.get_flags(10, 10), FLAG_SOLID);
    assert_eq!(map.get_flags(70, 10), FLAG_LADDER);
    assert_eq!(map.get_flags(130, 10), FLAG_SOLID | FLAG_LADDER);
    assert_eq!(map.get_flags(10, 70), 0);
    assert!(map.is_ladder(70, 10));
    assert!(!map.is_solid(70, 10));
    assert!(map.is_solid(130, 127));
    assert!(map.is_ladder(70, 100));
    assert!(map.is_solid(130, 100));
    // An empty cell is neither solid nor a ladder.
    assert!(!map.is_solid(0, 64));
    assert!(!map.is_ladder(0, 64));
}

#[test]
fn outside_is_empty_under_the_empty_policy() {
    let map = strip_map(OutOfBounds::Empty);
    for (x, y) in [(-1, 0), (0, -1), (256, 0), (0, 64), (i32::MIN, i32::MAX)] {
        assert!(!map.is_solid(x, y));
        assert!(!map.is_ladder(x, y));
        assert_eq!(map.get_flags(x, y), 0);
    }
}

#[test]
fn outside_is_solid_under_the_solid_policy() {
    let map = strip_map(OutOfBounds::Solid);
    for (x, y) in [(-1, 0), (0, -1), (256, 0), (0, 64), (i32::MAX, i32::MIN)] {
        assert!(map.is_solid(x, y));
        assert!(!map.is_ladder(x, y));
    }
    assert!(!map.is_solid(96, 32));
}

#[test]
fn writing_gives_back_the_loaded_bytes() {
    let b = map_bytes(
        3,
        2,
        (5, -6),
        &[(0x3f00_0000, FLAG_SOLID), (9, FLAG_LADDER)],
        &[1, 2, 0, 0, 2, 1],
        &[("player", 1, 2), ("balloon", -300, 400)],
    );
    let map = TileMap::new(&b, OutOfBounds::Empty).unwrap();
    assert_eq!(map.to_bytes(), b);
    let again = TileMap::new(&map.to_bytes(), OutOfBounds::Empty).unwrap();
    assert_eq!(again.width(), 3);
    assert_eq!(again.height(), 2);
    assert_eq!(again.player_start(), (5, -6));
    let names: Vec<Vec<u8>> = again.objects().iter().map(|o| o.name.clone()).collect();
    assert_eq!(names, vec![b"player".to_vec(), b"balloon".to_vec()]);
    assert_eq!(again.objects()[1].x, -300);
    assert_eq!(again.objects()[1].y, 400);
    assert_eq!(again.to_bytes(), b);
}

#[test]
fn trailing_bytes_are_not_read() {
    let mut b = map_bytes(1, 1, (0, 0), &[(1, FLAG_SOLID)], &[1], &[]);
    let plain = b.clone();
    b.extend_from_slice(&[9, 9, 9]);
    let map = TileMap::new(&b, OutOfBounds::Empty).unwrap();
    assert_eq!(map.to_bytes(), plain);
}

#[test]
fn bad_magic_is_refused() {
    let mut b = map_bytes(1, 1, (0, 0), &[], &[0], &[]);
    b[0] = b'X';
    assert_eq!(TileMap::new(&b, OutOfBounds::Empty).err(), Some(LoadError::BadMagic));
}

#[test]
fn truncated_buffers_are_refused() {
    let b = map_bytes(2, 2, (0, 0), &[(1, 1)], &[1, 0, 0, 1], &[("a", 1, 1)]);
    for cut in [0, 3, 4, 23, 24 + 17, 24 + 17 + 3, b.len() - 1] {
        assert_eq!(
            TileMap::new(&b[..cut], OutOfBounds::Empty).err(),
            Some(LoadError::Truncated),
            "cut at {}",
            cut
        );
    }
    assert!(TileMap::new(&b, OutOfBounds::Empty).is_ok());
}

#[test]
fn negative_or_huge_dimensions_are_refused() {
    let b = map_bytes(-1, 1, (0, 0), &[], &[], &[]);
    assert_eq!(TileMap::new(&b, OutOfBounds::Empty).err(), Some(LoadError::BadDimensions));
    let b = map_bytes(1 << 25, 0, (0, 0), &[], &[], &[]);
    assert_eq!(TileMap::new(&b, OutOfBounds::Empty).err(), Some(LoadError::BadDimensions));
    let b = map_bytes((1 << 25) - 1, 0, (0, 0), &[], &[], &[]);
    assert!(TileMap::new(&b, OutOfBounds::Empty).is_ok());
}

#[test]
fn undefined_tile_type_is_refused() {
    let b = map_bytes(2, 1, (0, 0), &[(1, 1)], &[1, 2], &[]);
    assert_eq!(TileMap::new(&b, OutOfBounds::Empty).err(), Some(LoadError::UnknownTile));
}

#[test]
fn unterminated_object_name_is_refused() {
    let long = "abcdefghijklmnopqrstuvwxyz012345";
    assert_eq!(long.len(), 32);
    let b = map_bytes(1, 1, (0, 0), &[], &[0], &[("ok", 0, 0), (long, 0, 0)]);
    assert_eq!(TileMap::new(&b, OutOfBounds::Empty).err(), Some(LoadError::BadObjectName));
    let fits = "abcdefghijklmnopqrstuvwxyz01234";
    let b = map_bytes(1, 1, (0, 0), &[], &[0], &[(fits, 0, 0)]);
    assert!(TileMap::new(&b, OutOfBounds::Empty).is_ok());
}

#[test]
fn draw_submits_visible_non_empty_tiles_row_by_row() {
    // 4 x 3 grid; the view covers columns 1..3 and rows 0..2.
    let b = map_bytes(
        4,
        3,
        (0, 0),
        &[(10, 1), (20, 0)],
        &[1, 1, 2, 1, 0, 2, 0, 1, 1, 1, 1, 1],
        &[],
    );
    let map = TileMap::new(&b, OutOfBounds::Empty).unwrap();
    let mut context = RenderContext::new();
    context.set_offset(70, 10);
    map.draw(&mut context, &Rect::new(70, 10, 120, 100));
    let verts = context.render();
    // Columns 1 and 2 of rows 0 and 1: tiles 1, 2, 0, 2.
    assert_eq!(verts.len(), 3 * 6);
    let anchors: Vec<(i64, i64, u32)> = verts.iter().step_by(6).map(|v| (v.anchor_x, v.anchor_y, v.u)).collect();
    assert_eq!(
        anchors,
        vec![
            (TILE_SIZE as i64 - 70, -10, 10),
            (2 * TILE_SIZE as i64 - 70, -10, 20),
            (TILE_SIZE as i64 - 70, TILE_SIZE as i64 - 10, 20),
        ]
    );
    assert_eq!((verts[4].x, verts[4].y), (64, 64));
}

#[test]
fn draw_clamps_to_the_grid() {
    let map = strip_map(OutOfBounds::Empty);
    let mut context = RenderContext::new();
    map.draw(&mut context, &Rect::new(-500, -500, 5000, 5000));
    assert_eq!(context.render().len(), 6);
    map.draw(&mut context, &Rect::new(300, 0, 100, 100));
    assert_eq!(context.render().len(), 0);
}

#[test]
fn tile_sprite_uses_the_type_atlas_rectangle() {
    let map = strip_map(OutOfBounds::Empty);
    let mut context = RenderContext::new();
    map.draw(&mut context, &Rect::new(0, 0, 64, 64));
    let v = context.render();
    assert_eq!(v.len(), 6);
    let atlas = AtlasRect { left: 7, top: 2, right: 3, bottom: 4 };
    assert_eq!((v[0].u, v[0].v, v[4].u, v[4].v), (atlas.left, atlas.top, atlas.right, atlas.bottom));
    assert_eq!((v[4].x, v[4].y), (TILE_SIZE as i64, TILE_SIZE as i64));
}
