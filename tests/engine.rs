use engine::engine::{EntityFactory, GameEngine, UnknownEntity};
use engine::entity::{CollisionInfo, Entity};
use engine::mapfile::LoadError;
use engine::rect::Rect;
use engine::render::RenderContext;
use engine::tilemap::{OutOfBounds, TileMap};

#[derive(Debug, PartialEq)]
struct Thing {
    kind: u8,
    x: i32,
    y: i32,
    live: bool,
}

impl Entity for Thing {
    fn update(&mut self, _spawned: &mut Vec<Thing>, buttons: u32, _tile_map: &TileMap, _player_rect: &Rect<i32>) {
        if buttons != 0 {
            self.x += 1000;
        }
    }

    fn draw(&self, _context: &mut RenderContext) {}

    fn is_live(&self) -> bool {
        self.live
    }

    fn get_collision_class(&self) -> u32 {
        0
    }

    fn get_collision_mask(&self) -> u32 {
        0
    }

    fn get_bounding_box(&self) -> Rect<i32> {
        Rect::new(self.x, self.y, 10, 10)
    }

    fn collide(&mut self, _other: &CollisionInfo) {}
}

struct Maker(u8);

impl EntityFactory<Thing> for Maker {
    fn create(&self, x: i32, y: i32) -> Thing {
        Thing { kind: self.0, x, y, live: true }
    }
}

fn map_bytes(objects: &[(&str, i32, i32)]) -> Vec<u8> {
    let mut b: Vec<u8> = b"TMAP".to_vec();
    for v in [40i32, 20, 64, 128] {
        b.extend_from_slice(&v.to_le_bytes());
    }
    b.extend_from_slice(&0u32.to_le_bytes());
    b.extend(std::iter::repeat(0u8).take(40 * 20));
    b.extend_from_slice(&(objects.len() as u32).to_le_bytes());
    for (name, x, y) in objects {
        let mut field = [0u8; 32];
        field[..name.len()].copy_from_slice(name.as_bytes());
        b.extend_from_slice(&field);
        b.extend_from_slice(&x.to_le_bytes());
        b.extend_from_slice(&y.to_le_bytes());
    }
    b
}

fn engine_for(objects: &[(&str, i32, i32)]) -> GameEngine<Thing, Maker> {
    let map = TileMap::new(&map_bytes(objects), OutOfBounds::Empty).unwrap();
    GameEngine::new(map)
}

#[test]
fn markers_become_entities_in_order() {
    let mut eng = engine_for(&[("balloon", 10, 20), ("crate", 30, 40), ("balloon", 50, 60)]);
    eng.register_entity(b"balloon", Maker(1));
    eng.register_entity(b"crate", Maker(2));
    eng.spawn_player(&Maker(9));
    assert_eq!(eng.create_entities(), Ok(()));
    let got: Vec<(u8, i32, i32)> = eng.entities.iter().map(|e| (e.kind, e.x, e.y)).collect();
    assert_eq!(got, vec![(9, 64, 128), (1, 10, 20), (2, 30, 40), (1, 50, 60)]);
}

#[test]
fn later_registration_replaces_earlier() {
    let mut eng = engine_for(&[("balloon", 1, 2)]);
    eng.register_entity(b"balloon", Maker(1));
    eng.register_entity(b"balloon", Maker(5));
    assert_eq!(eng.create_entities(), Ok(()));
    assert_eq!(eng.entities[0].kind, 5);
}

#[test]
fn unknown_marker_name_creates_nothing() {
    let mut eng = engine_for(&[("balloon", 1, 2), ("dragon", 3, 4), ("ghost", 5, 6)]);
    eng.register_entity(b"balloon", Maker(1));
    assert_eq!(eng.create_entities(), Err(UnknownEntity { index: 1 }));
    assert!(eng.entities.is_empty());
}

#[test]
fn load_replaces_the_level_or_reports_why_not() {
    let mut eng = engine_for(&[]);
    let mut bad = map_bytes(&[]);
    bad[1] = 0;
    assert_eq!(eng.load_tile_map(&bad, OutOfBounds::Solid), Err(LoadError::BadMagic));
    assert!(!eng.tile_map.is_solid(-1, -1));
    assert_eq!(eng.load_tile_map(&map_bytes(&[]), OutOfBounds::Solid), Ok(()));
    assert!(eng.tile_map.is_solid(-1, -1));
    assert_eq!(eng.camera.max_x_scroll, 40 * 64 - 800);
}

#[test]
fn frame_moves_view_with_the_first_entity() {
    let mut eng = engine_for(&[]);
    eng.spawn_player(&Maker(9));
    eng.entities[0].x = 1000;
    let contacts = eng.run_frame();
    assert!(contacts.is_empty());
    assert_eq!(eng.camera.x_scroll, 1010 - 533);
    eng.buttons = 1;
    eng.run_frame();
    assert_eq!(eng.entities[0].x, 2000);
    eng.draw_scene();
    assert!(eng.render_context.render().is_empty());
}

#[test]
fn controls_go_down_and_up() {
    let mut eng = engine_for(&[]);
    eng.key_down(engine::entity::CONTROL_LEFT);
    eng.key_down(engine::entity::CONTROL_FIRE);
    assert_eq!(eng.buttons, engine::entity::CONTROL_LEFT | engine::entity::CONTROL_FIRE);
    eng.key_up(engine::entity::CONTROL_LEFT);
    assert_eq!(eng.buttons, engine::entity::CONTROL_FIRE);
}

#[test]
fn new_engine_starts_at_the_top_left_with_an_empty_batch() {
    let mut eng = engine_for(&[]);
    assert_eq!((eng.camera.x_scroll, eng.camera.y_scroll), (0, 0));
    assert_eq!((eng.camera.max_x_scroll, eng.camera.max_y_scroll), (40 * 64 - 800, 20 * 64 - 450));
    assert!(eng.render_context.render().is_empty());
}
