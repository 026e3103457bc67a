use engine::entity::{
    do_frame, find_contacts, handle_collisions, integrate, prune, CollisionInfo, Contact, Entity,
};
use engine::rect::Rect;
use engine::render::{RenderContext, SpriteInfo};
use engine::mapfile::AtlasRect;
use engine::tilemap::{OutOfBounds, TileMap};

struct Probe {
    bbox: Rect<i32>,
    class: u32,
    mask: u32,
    live: bool,
    hits: Vec<CollisionInfo>,
    spawn_at: Option<(i32, i32)>,
}

impl Probe {
    fn new(left: i32, top: i32, class: u32, mask: u32) -> Probe {
        Probe {
            bbox: Rect::new(left, top, 10, 10),
            class,
            mask,
            live: true,
            hits: Vec::new(),
            spawn_at: None,
        }
    }
}

impl Entity for Probe {
    fn update(&mut self, spawned: &mut Vec<Probe>, _buttons: u32, _tile_map: &TileMap, _player_rect: &Rect<i32>) {
        if let Some((x, y)) = self.spawn_at {
            spawned.push(Probe::new(x, y, 1, 1));
            self.live = false;
        }
    }

    fn draw(&self, context: &mut RenderContext) {
        let sprite = SpriteInfo {
            atlas: AtlasRect { left: 0, top: 0, right: 1, bottom: 1 },
            width: 10,
            height: 10,
            origin_x: 0,
            origin_y: 0,
        };
        context.draw_image((self.bbox.left, self.bbox.top), &sprite, 0, false);
    }

    fn is_live(&self) -> bool {
        self.live
    }

    fn get_collision_class(&self) -> u32 {
        self.class
    }

    fn get_collision_mask(&self) -> u32 {
        self.mask
    }

    fn get_bounding_box(&self) -> Rect<i32> {
        self.bbox
    }

    fn collide(&mut self, other: &CollisionInfo) {
        self.hits.push(*other);
    }
}

fn empty_map() -> TileMap {
    let mut b: Vec<u8> = b"TMAP".to_vec();
    for v in [1i32, 1, 0, 0] {
        b.extend_from_slice(&v.to_le_bytes());
    }
    b.extend_from_slice(&0u32.to_le_bytes());
    b.push(0);
    b.extend_from_slice(&0u32.to_le_bytes());
    TileMap::new(&b, OutOfBounds::Empty).unwrap()
}

#[test]
fn both_sides_of_a_mutual_collision_fire_once() {
    let mut entities = vec![Probe::new(0, 0, 1, 2), Probe::new(5, 5, 2, 1)];
    let contacts = handle_collisions(&mut entities);
    assert_eq!(
        contacts,
        vec![Contact { entity: 0, other: 1 }, Contact { entity: 1, other: 0 }]
    );
    assert_eq!(entities[0].hits.len(), 1);
    assert_eq!(entities[1].hits.len(), 1);
    assert_eq!(entities[0].hits[0].class, 2);
    assert_eq!(entities[1].hits[0].class, 1);
}

#[test]
fn collision_depends_on_mask_not_position() {
    // A accepts B, B does not accept A; in both orders only A is told.
    let mut ab = vec![Probe::new(0, 0, 1, 2), Probe::new(5, 5, 2, 4)];
    assert_eq!(handle_collisions(&mut ab), vec![Contact { entity: 0, other: 1 }]);
    let mut ba = vec![Probe::new(5, 5, 2, 4), Probe::new(0, 0, 1, 2)];
    assert_eq!(handle_collisions(&mut ba), vec![Contact { entity: 1, other: 0 }]);
}

#[test]
fn no_contact_without_overlap() {
    let mut entities = vec![Probe::new(0, 0, 1, 1), Probe::new(10, 0, 1, 1)];
    assert!(handle_collisions(&mut entities).is_empty());
    assert!(entities[0].hits.is_empty());
}

#[test]
fn single_entity_makes_no_comparison() {
    let mut entities = vec![Probe::new(0, 0, 1, 1)];
    assert!(handle_collisions(&mut entities).is_empty());
    assert!(entities[0].hits.is_empty());
    let mut none: Vec<Probe> = Vec::new();
    assert!(handle_collisions(&mut none).is_empty());
}

#[test]
fn contacts_follow_pass_order() {
    let infos = vec![
        CollisionInfo { bbox: Rect::new(0, 0, 10, 10), class: 1, mask: 1 },
        CollisionInfo { bbox: Rect::new(5, 5, 10, 10), class: 1, mask: 1 },
        CollisionInfo { bbox: Rect::new(8, 8, 10, 10), class: 1, mask: 1 },
    ];
    assert_eq!(
        find_contacts(&infos),
        vec![
            Contact { entity: 0, other: 1 },
            Contact { entity: 1, other: 0 },
            Contact { entity: 0, other: 2 },
            Contact { entity: 2, other: 0 },
            Contact { entity: 1, other: 2 },
            Contact { entity: 2, other: 1 },
        ]
    );
}

#[test]
fn prune_twice_is_prune_once() {
    let mut entities = vec![Probe::new(0, 0, 1, 1), Probe::new(1, 0, 1, 1), Probe::new(2, 0, 1, 1)];
    entities[1].live = false;
    prune(&mut entities);
    let lefts: Vec<i32> = entities.iter().map(|e| e.bbox.left).collect();
    assert_eq!(lefts, vec![0, 2]);
    prune(&mut entities);
    let again: Vec<i32> = entities.iter().map(|e| e.bbox.left).collect();
    assert_eq!(again, lefts);
}

#[test]
fn integrate_appends_then_prunes() {
    let mut entities = vec![Probe::new(0, 0, 1, 1), Probe::new(1, 0, 1, 1)];
    entities[0].live = false;
    let mut spawned = vec![Probe::new(7, 0, 1, 1)];
    integrate(&mut entities, &mut spawned);
    let lefts: Vec<i32> = entities.iter().map(|e| e.bbox.left).collect();
    assert_eq!(lefts, vec![1, 7]);
    assert!(spawned.is_empty());
}

#[test]
fn spawn_and_die_in_one_frame_keeps_the_count() {
    let map = empty_map();
    let mut first = Probe::new(0, 0, 1, 1);
    first.spawn_at = Some((0, 0));
    let mut entities = vec![first, Probe::new(100, 100, 1, 1)];
    let contacts = do_frame(&mut entities, 0, &map, &Rect::new(0, 0, 0, 0));
    assert_eq!(entities.len(), 2);
    assert!(contacts.is_empty());
    // The survivor comes first, the newcomer after it.
    assert_eq!(entities[0].bbox.left, 100);
    assert_eq!(entities[1].bbox.left, 0);
    assert!(entities[1].hits.is_empty());
}

#[test]
fn new_entity_is_not_in_the_collision_pass_of_its_frame() {
    let map = empty_map();
    let mut spawner = Probe::new(0, 0, 1, 1);
    spawner.spawn_at = Some((505, 505));
    // The newcomer appears on top of the second entity, which accepts it.
    let mut entities = vec![spawner, Probe::new(500, 500, 1, 1)];
    let contacts = do_frame(&mut entities, 0, &map, &Rect::new(0, 0, 0, 0));
    assert!(contacts.is_empty());
    assert!(entities.iter().all(|e| e.hits.is_empty()));
    assert_eq!(entities.len(), 2);
    // In the next frame the two meet.
    let next = do_frame(&mut entities, 0, &map, &Rect::new(0, 0, 0, 0));
    assert_eq!(next, vec![Contact { entity: 0, other: 1 }, Contact { entity: 1, other: 0 }]);
}

#[test]
fn draw_pass_keeps_collection_order() {
    let entities = vec![Probe::new(3, 0, 1, 1), Probe::new(1, 0, 1, 1), Probe::new(2, 0, 1, 1)];
    let mut context = RenderContext::new();
    engine::entity::draw_entities(&entities, &mut context);
    let v = context.render();
    let xs: Vec<i64> = v.iter().step_by(6).map(|v| v.anchor_x).collect();
    assert_eq!(xs, vec![3, 1, 2]);
}

#[test]
fn entity_not_live_after_collisions_is_not_updated() {
    let map = empty_map();
    // The first entity is already dead: it must neither update nor spawn.
    let mut dead = Probe::new(0, 0, 1, 1);
    dead.live = false;
    dead.spawn_at = Some((300, 300));
    let mut entities = vec![dead, Probe::new(100, 100, 1, 1)];
    do_frame(&mut entities, 0, &map, &Rect::new(0, 0, 0, 0));
    assert_eq!(entities.len(), 1);
    assert_eq!(entities[0].bbox.left, 100);
}
