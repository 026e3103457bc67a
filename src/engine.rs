//! The game state that the frame loop owns: map, entities, view, the
//! registry of entity constructors, and the input state.
use crate::camera::{max_scroll, Camera};
use crate::entity::{
    all_contacts, do_frame, draw_entities, frame_result, infos_of, quads_of, Contact, Entity,
};
use crate::mapfile::{decode, LoadError, ObjectMarker};
use crate::rect::Rect;
use crate::render::{Quad, RenderContext, WINDOW_HEIGHT, WINDOW_WIDTH};
use crate::tilemap::{OutOfBounds, TileMap, TILE_SIZE};
use vstd::prelude::*;

verus! {

/// Makes entities of one kind at a position; registered under the name that
/// the map's object markers use. `spec_create` names what `create` returns;
/// its default body leaves it unspecified.
pub trait EntityFactory<E> {
    open spec fn spec_create(&self, x: i32, y: i32) -> E {
        arbitrary()
    }

    fn create(&self, x: i32, y: i32) -> (r: E)
        ensures
            r == self.spec_create(x, y),
    ;
}

/// The entities that a list of object markers becomes, each made by the
/// constructor registered under its name.
pub open spec fn created<E, F: EntityFactory<E>>(
    factories: Seq<(Seq<u8>, F)>,
    objs: Seq<(Seq<u8>, i32, i32)>,
) -> Seq<E> {
    Seq::new(
        objs.len(),
        |k: int| find_factory(factories, objs[k].0)->Some_0.spec_create(objs[k].1, objs[k].2),
    )
}

/// An object marker names an entity kind that nothing is registered under.
#[derive(Clone, Copy, PartialEq, Eq, Structural, Debug)]
pub struct UnknownEntity {
    /// Position of the marker in the map's object list.
    pub index: usize,
}

/// The constructor registered last under `name`, if any.
pub open spec fn find_factory<F>(entries: Seq<(Seq<u8>, F)>, name: Seq<u8>) -> Option<F>
    decreases entries.len(),
{
    if entries.len() == 0 {
        None
    } else if entries.last().0 == name {
        Some(entries.last().1)
    } else {
        find_factory(entries.drop_last(), name)
    }
}

pub struct GameEngine<E, F> {
    pub render_context: RenderContext,
    pub tile_map: TileMap,
    pub entities: Vec<E>,
    pub camera: Camera,
    pub entity_fns: Vec<(Vec<u8>, F)>,
    pub buttons: u32,
    pub quit: bool,
}

fn bytes_equal(a: &[u8], b: &[u8]) -> (r: bool)
    ensures
        r == (a@ == b@),
{
    if a.len() != b.len() {
        return false;
    }
    let mut i: usize = 0;
    while i < a.len()
        invariant
            a@.len() == b@.len(),
            0 <= i <= a@.len(),
            forall|j: int| 0 <= j < i ==> a@[j] == b@[j],
        decreases a@.len() - i,
    {
        if a[i] != b[i] {
            return false;
        }
        i = i + 1;
    }
    assert(a@ =~= b@);
    true
}

impl<E: Entity, F: EntityFactory<E>> GameEngine<E, F> {
    pub closed spec fn factories(&self) -> Seq<(Seq<u8>, F)> {
        self.entity_fns@.map_values(|e: (Vec<u8>, F)| (e.0@, e.1))
    }

    pub open spec fn wf(&self) -> bool {
        &&& self.tile_map.wf()
        &&& self.camera.wf()
    }

    /// An engine on a level with no entities and no registered constructors.
    pub fn new(tile_map: TileMap) -> (r: GameEngine<E, F>)
        requires
            tile_map.wf(),
        ensures
            r.wf(),
            r.tile_map == tile_map,
            r.entities@ == Seq::<E>::empty(),
            r.factories() == Seq::<(Seq<u8>, F)>::empty(),
            r.buttons == 0,
            !r.quit,
            r.camera.x_scroll == 0,
            r.camera.y_scroll == 0,
            r.camera.max_x_scroll == max_scroll(
                tile_map.data().width * TILE_SIZE,
                WINDOW_WIDTH as int,
            ),
            r.camera.max_y_scroll == max_scroll(
                tile_map.data().height * TILE_SIZE,
                WINDOW_HEIGHT as int,
            ),
            r.render_context.quads() == Seq::<Quad>::empty(),
            r.render_context.offset() == (0i32, 0i32),
    {
        let camera = Camera::new(&tile_map);
        GameEngine {
            render_context: RenderContext::new(),
            tile_map,
            entities: Vec::new(),
            camera,
            entity_fns: Vec::new(),
            buttons: 0,
            quit: false,
        }
    }

    /// Registers a constructor under a name; it replaces one registered
    /// before under the same name.
    pub fn register_entity(&mut self, name: &[u8], create_fn: F)
        ensures
            final(self).factories() == old(self).factories().push((name@, create_fn)),
            find_factory(final(self).factories(), name@) == Some(create_fn),
            forall|other: Seq<u8>|
                other != name@ ==> find_factory(final(self).factories(), other) == find_factory(
                    old(self).factories(),
                    other,
                ),
            final(self).tile_map == old(self).tile_map,
            final(self).camera == old(self).camera,
            final(self).entities@ == old(self).entities@,
    {
        self.entity_fns.push((vstd::slice::slice_to_vec(name), create_fn));
        proof {
            let f = self.factories();
            assert(f =~= old(self).factories().push((name@, create_fn)));
            assert(f.drop_last() =~= old(self).factories());
        }
    }

    /// Index of the constructor that `find_factory` names.
    fn find_factory_index(&self, name: &[u8]) -> (r: Option<usize>)
        ensures
            match find_factory(self.factories(), name@) {
                None => r is None,
                Some(f) => r matches Some(i) && i < self.factories().len() && self.factories()[i as int].1 == f,
            },
    {
        let mut i = self.entity_fns.len();
        assert(self.factories().take(i as int) =~= self.factories());
        while i > 0
            invariant
                i <= self.entity_fns@.len(),
                self.factories().len() == self.entity_fns@.len(),
                find_factory(self.factories(), name@) == find_factory(
                    self.factories().take(i as int),
                    name@,
                ),
            decreases i,
        {
            let ghost t = self.factories().take(i as int);
            assert(t.last() == self.factories()[i - 1]);
            if bytes_equal(self.entity_fns[i - 1].0.as_slice(), name) {
                return Some(i - 1);
            }
            assert(t.drop_last() =~= self.factories().take(i - 1));
            i = i - 1;
        }
        None
    }

    /// Replaces the level with the map that a file holds, and puts the view
    /// at its top-left corner. On an error nothing changes.
    pub fn load_tile_map(&mut self, data: &[u8], out_of_bounds: OutOfBounds) -> (r: Result<(), LoadError>)
        requires
            old(self).wf(),
        ensures
            final(self).wf(),
            match decode(data@) {
                Ok(d) => r is Ok && final(self).tile_map.data() == d && final(self).tile_map.policy()
                    == out_of_bounds && final(self).camera.x_scroll == 0 && final(self).camera.y_scroll
                    == 0 && final(self).camera.max_x_scroll == max_scroll(
                    d.width * TILE_SIZE,
                    WINDOW_WIDTH as int,
                ) && final(self).camera.max_y_scroll == max_scroll(
                    d.height * TILE_SIZE,
                    WINDOW_HEIGHT as int,
                ),
                Err(e) => r == Err::<(), LoadError>(e) && final(self).tile_map == old(self).tile_map
                    && final(self).camera == old(self).camera,
            },
            final(self).entities@ == old(self).entities@,
    {
        match TileMap::new(data, out_of_bounds) {
            Ok(map) => {
                self.camera = Camera::new(&map);
                self.tile_map = map;
                Ok(())
            },
            Err(e) => Err(e),
        }
    }

    /// Creates one entity per object marker of the map, in marker order,
    /// after the existing ones. When a marker names no registered
    /// constructor, the first such marker is reported and nothing is created.
    pub fn create_entities(&mut self) -> (r: Result<(), UnknownEntity>)
        requires
            old(self).wf(),
        ensures
            final(self).wf(),
            final(self).tile_map == old(self).tile_map,
            final(self).camera == old(self).camera,
            ({
                let objs = old(self).tile_map.data().objects;
                match r {
                    Ok(()) => (forall|k: int|
                        0 <= k < objs.len() ==> find_factory(old(self).factories(), #[trigger] objs[k].0)
                            is Some) && final(self).entities@ == old(self).entities@ + created(
                        old(self).factories(),
                        objs,
                    ),
                    Err(u) => u.index < objs.len() && find_factory(
                        old(self).factories(),
                        objs[u.index as int].0,
                    ) is None && (forall|k: int|
                        0 <= k < u.index ==> find_factory(old(self).factories(), #[trigger] objs[k].0)
                            is Some) && final(self).entities@ == old(self).entities@,
                }
            }),
    {
        let objects: &Vec<ObjectMarker> = self.tile_map.objects();
        let ghost objs = self.tile_map.data().objects;
        let mut chosen: Vec<usize> = Vec::new();
        let mut k: usize = 0;
        while k < objects.len()
            invariant
                objects@.map_values(|o: ObjectMarker| o@) == objs,
                objs == old(self).tile_map.data().objects,
                self.tile_map == old(self).tile_map,
                self.camera == old(self).camera,
                self.entities@ == old(self).entities@,
                self.factories() == old(self).factories(),
                self.wf(),
                0 <= k <= objects@.len(),
                chosen@.len() == k,
                forall|j: int| 0 <= j < k ==> find_factory(self.factories(), #[trigger] objs[j].0) is Some,
                forall|j: int|
                    0 <= j < k ==> (#[trigger] chosen@[j]) < self.factories().len()
                        && find_factory(self.factories(), objs[j].0) == Some(
                        self.factories()[chosen@[j] as int].1,
                    ),
            decreases objects@.len() - k,
        {
            assert(objs[k as int] == objects@[k as int]@);
            assert(objs[k as int].0 == objects@[k as int].name@);
            match self.find_factory_index(objects[k].name.as_slice()) {
                Some(i) => chosen.push(i),
                None => {
                    return Err(UnknownEntity { index: k });
                },
            }
            k = k + 1;
        }
        let ghost start = self.entities@;
        let mut j: usize = 0;
        while j < chosen.len()
            invariant
                self.wf(),
                self.tile_map == old(self).tile_map,
                self.camera == old(self).camera,
                self.factories() == old(self).factories(),
                start == old(self).entities@,
                chosen@.len() == objects@.len(),
                objects@.map_values(|o: ObjectMarker| o@) == objs,
                forall|i: int|
                    0 <= i < chosen@.len() ==> (#[trigger] chosen@[i]) < self.factories().len()
                        && find_factory(self.factories(), objs[i].0) == Some(
                        self.factories()[chosen@[i] as int].1,
                    ),
                0 <= j <= chosen@.len(),
                self.entities@ == start + created(self.factories(), objs).take(j as int),
            decreases chosen@.len() - j,
        {
            let m = &objects[j];
            assert(objs[j as int] == m@);
            let e = self.entity_fns[chosen[j]].1.create(m.x, m.y);
            self.entities.push(e);
            assert(self.entities@ =~= start + created(self.factories(), objs).take(j + 1));
            j = j + 1;
        }
        assert(created(self.factories(), objs).take(j as int) =~= created(self.factories(), objs));
        Ok(())
    }

    /// Adds the player at the map's start position. It must come first in the
    /// collection: the view follows the first entity.
    pub fn spawn_player(&mut self, create_fn: &F)
        ensures
            final(self).entities@ == old(self).entities@.push(
                create_fn.spec_create(old(self).tile_map.data().start_x, old(self).tile_map.data().start_y),
            ),
            final(self).tile_map == old(self).tile_map,
            final(self).camera == old(self).camera,
    {
        let (x, y) = self.tile_map.player_start();
        let e = create_fn.create(x, y);
        self.entities.push(e);
    }

    /// Advances the simulation by one step: the view follows the first
    /// entity, then the collision pass, the update pass, integration and
    /// pruning run over the entities. Returns the collision calls made.
    pub fn run_frame(&mut self) -> (r: Vec<Contact>)
        requires
            old(self).wf(),
        ensures
            final(self).wf(),
            final(self).tile_map == old(self).tile_map,
            r@ == all_contacts(infos_of(old(self).entities@)),
            old(self).entities@.len() > 0 ==> final(self).camera.x_scroll == crate::camera::scroll_axis(
                old(self).camera.x_scroll as int,
                old(self).entities@[0].spec_info().bbox.left as int,
                old(self).entities@[0].spec_info().bbox.right_spec(),
                crate::camera::LEFT_SCROLL_BOUNDARY as int,
                crate::camera::RIGHT_SCROLL_BOUNDARY as int,
                old(self).camera.max_x_scroll as int,
            ),
            old(self).entities@.len() > 0 ==> final(self).camera.y_scroll == crate::camera::scroll_axis(
                old(self).camera.y_scroll as int,
                old(self).entities@[0].spec_info().bbox.top as int,
                old(self).entities@[0].spec_info().bbox.bottom_spec(),
                crate::camera::TOP_SCROLL_BOUNDARY as int,
                crate::camera::BOTTOM_SCROLL_BOUNDARY as int,
                old(self).camera.max_y_scroll as int,
            ),
            old(self).entities@.len() == 0 ==> final(self).camera == old(self).camera,
            final(self).entities@ == frame_result(
                old(self).entities@,
                old(self).buttons,
                &old(self).tile_map,
                if old(self).entities@.len() > 0 {
                    old(self).entities@[0].spec_info().bbox
                } else {
                    (Rect { left: 0, top: 0, width: 0, height: 0 })
                },
            ),
            final(self).render_context.offset() == (
                final(self).camera.x_scroll,
                final(self).camera.y_scroll,
            ),
    {
        let player_rect = if self.entities.len() > 0 {
            let b = self.entities[0].get_bounding_box();
            self.camera.follow(&b);
            b
        } else {
            Rect::new(0, 0, 0, 0)
        };
        self.render_context.set_offset(self.camera.x_scroll, self.camera.y_scroll);
        do_frame(&mut self.entities, self.buttons, &self.tile_map, &player_rect)
    }

    /// Draws the visible tiles, then every entity in collection order, into
    /// the frame's batch; the caller adds what goes on top and flushes.
    pub fn draw_scene(&mut self)
        requires
            old(self).wf(),
        ensures
            final(self).wf(),
            final(self).render_context.offset() == old(self).render_context.offset(),
            final(self).render_context.quads() == old(self).render_context.quads()
                + old(self).tile_map.visible_quads(
                old(self).render_context.offset(),
                (Rect {
                    left: old(self).camera.x_scroll,
                    top: old(self).camera.y_scroll,
                    width: WINDOW_WIDTH,
                    height: WINDOW_HEIGHT,
                }),
            ) + quads_of(old(self).entities@, old(self).render_context.offset()),
            final(self).entities@ == old(self).entities@,
            final(self).tile_map == old(self).tile_map,
            final(self).camera == old(self).camera,
    {
        let view = self.camera.visible_rect();
        self.tile_map.draw(&mut self.render_context, &view);
        draw_entities(&self.entities, &mut self.render_context);
    }

    /// A control went down: its bits join the input state.
    pub fn key_down(&mut self, mask: u32)
        ensures
            final(self).buttons == old(self).buttons | mask,
    {
        self.buttons = self.buttons | mask;
    }

    /// A control went up: its bits leave the input state.
    pub fn key_up(&mut self, mask: u32)
        ensures
            final(self).buttons == old(self).buttons & !mask,
    {
        self.buttons = self.buttons & !mask;
    }
}

} // verus!
