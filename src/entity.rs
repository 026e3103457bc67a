//! The contract of a simulated object and the per-frame protocol over a
//! collection of them: collision pass, update pass, integration of spawned
//! objects, and pruning of dead ones.
use crate::rect::Rect;
use crate::render::{Quad, RenderContext};
use crate::tilemap::TileMap;
use vstd::prelude::*;

verus! {

/// The input bits that every entity's `update` receives, one per control.
pub const CONTROL_UP: u32 = 0x1;

pub const CONTROL_DOWN: u32 = 0x2;

pub const CONTROL_LEFT: u32 = 0x4;

pub const CONTROL_RIGHT: u32 = 0x8;

pub const CONTROL_FIRE: u32 = 0x10;

pub const CONTROL_JUMP: u32 = 0x20;

pub const CONTROL_MENU: u32 = 0x40;

/// What the collision pass reads of an entity: its bounding box, the class
/// bits saying what kind of entity it is, and the mask bits saying which
/// classes it accepts collisions from. It is also the read-only view of the
/// other party that `collide` receives.
#[derive(Clone, Copy, Debug)]
pub struct CollisionInfo {
    pub bbox: Rect<i32>,
    pub class: u32,
    pub mask: u32,
}

/// One call of `collide`: the entity at index `entity` is told that it was
/// hit by the entity at index `other`.
#[derive(Clone, Copy, PartialEq, Eq, Structural, Debug)]
pub struct Contact {
    pub entity: usize,
    pub other: usize,
}

/// A simulated object. Each call of `update` advances it by one fixed time
/// step. Entities never touch each other: they learn of each other only
/// through `collide`, and they create new entities only by appending them to
/// the spawn list that `update` receives.
///
/// The spec functions name what the methods return or do. Their default
/// bodies leave the value unspecified; an implementation may define them,
/// and the contracts below hold of it either way.
pub trait Entity: Sized {
    /// Whether the entity stays in the collection.
    open spec fn spec_live(&self) -> bool {
        arbitrary()
    }

    /// What `get_bounding_box`, `get_collision_class` and
    /// `get_collision_mask` report.
    open spec fn spec_info(&self) -> CollisionInfo {
        arbitrary()
    }

    /// The entity after one `update`.
    open spec fn spec_updated(&self, buttons: u32, tile_map: &TileMap, player_rect: Rect<i32>) -> Self {
        arbitrary()
    }

    /// The entities that one `update` spawns, in order.
    open spec fn spec_spawned(&self, buttons: u32, tile_map: &TileMap, player_rect: Rect<i32>) -> Seq<
        Self,
    > {
        arbitrary()
    }

    /// The entity after being told of a collision with `other`.
    open spec fn spec_collided(&self, other: CollisionInfo) -> Self {
        arbitrary()
    }

    /// The quads that `draw` adds under a scroll offset.
    open spec fn spec_quads(&self, offset: (i32, i32)) -> Seq<Quad> {
        arbitrary()
    }

    fn update(&mut self, spawned: &mut Vec<Self>, buttons: u32, tile_map: &TileMap, player_rect: &Rect<i32>)
        requires
            tile_map.wf(),
        ensures
            *final(self) == old(self).spec_updated(buttons, tile_map, *player_rect),
            final(spawned)@ == old(spawned)@ + old(self).spec_spawned(
                buttons,
                tile_map,
                *player_rect,
            ),
    ;

    fn draw(&self, context: &mut RenderContext)
        ensures
            final(context).offset() == old(context).offset(),
            final(context).quads() == old(context).quads() + self.spec_quads(old(context).offset()),
    ;

    fn is_live(&self) -> (r: bool)
        ensures
            r == self.spec_live(),
    ;

    fn get_collision_class(&self) -> (r: u32)
        ensures
            r == self.spec_info().class,
    ;

    fn get_collision_mask(&self) -> (r: u32)
        ensures
            r == self.spec_info().mask,
    ;

    fn get_bounding_box(&self) -> (r: Rect<i32>)
        ensures
            r == self.spec_info().bbox,
    ;

    fn collide(&mut self, other: &CollisionInfo)
        ensures
            *final(self) == old(self).spec_collided(*other),
    ;
}

/// The entities after the calls `cs` of a collision pass, made in order,
/// each with the other party's information from `infos`.
pub open spec fn apply_contacts<E: Entity>(es: Seq<E>, infos: Seq<CollisionInfo>, cs: Seq<Contact>) -> Seq<E>
    decreases cs.len(),
{
    if cs.len() == 0 {
        es
    } else {
        let prev = apply_contacts(es, infos, cs.drop_last());
        let c = cs.last();
        prev.update(c.entity as int, prev[c.entity as int].spec_collided(infos[c.other as int]))
    }
}

/// The entities after a collision pass.
pub open spec fn collided<E: Entity>(es: Seq<E>) -> Seq<E> {
    apply_contacts(es, infos_of(es), all_contacts(infos_of(es)))
}

/// An entity after the update pass: a live one is updated, one that is not
/// live stays as it is.
pub open spec fn updated_one<E: Entity>(
    e: E,
    buttons: u32,
    tile_map: &TileMap,
    player_rect: Rect<i32>,
) -> E {
    if e.spec_live() {
        e.spec_updated(buttons, tile_map, player_rect)
    } else {
        e
    }
}

/// What an entity spawns in the update pass: nothing when it is not live.
pub open spec fn spawned_one<E: Entity>(
    e: E,
    buttons: u32,
    tile_map: &TileMap,
    player_rect: Rect<i32>,
) -> Seq<E> {
    if e.spec_live() {
        e.spec_spawned(buttons, tile_map, player_rect)
    } else {
        Seq::empty()
    }
}

/// Every entity after the update pass.
pub open spec fn updated_all<E: Entity>(
    es: Seq<E>,
    buttons: u32,
    tile_map: &TileMap,
    player_rect: Rect<i32>,
) -> Seq<E> {
    Seq::new(es.len(), |i: int| updated_one(es[i], buttons, tile_map, player_rect))
}

/// What the first `k` entities spawn in the update pass, in order.
pub open spec fn spawned_upto<E: Entity>(
    es: Seq<E>,
    k: int,
    buttons: u32,
    tile_map: &TileMap,
    player_rect: Rect<i32>,
) -> Seq<E>
    decreases k,
{
    if k <= 0 {
        Seq::empty()
    } else {
        spawned_upto(es, k - 1, buttons, tile_map, player_rect) + spawned_one(
            es[k - 1],
            buttons,
            tile_map,
            player_rect,
        )
    }
}

/// The quads that drawing the entities in order adds.
pub open spec fn quads_of<E: Entity>(es: Seq<E>, offset: (i32, i32)) -> Seq<Quad>
    decreases es.len(),
{
    if es.len() == 0 {
        Seq::empty()
    } else {
        quads_of(es.drop_last(), offset) + es.last().spec_quads(offset)
    }
}

/// `a` accepts a collision from `b`.
pub open spec fn accepts(a: CollisionInfo, b: CollisionInfo) -> bool {
    a.mask & b.class != 0
}

/// The entity at `i` is told of a collision with the entity at `j`: two
/// different entities whose boxes overlap, where `i` accepts `j`'s class.
pub open spec fn fires(s: Seq<CollisionInfo>, i: int, j: int) -> bool {
    &&& 0 <= i < s.len()
    &&& 0 <= j < s.len()
    &&& i != j
    &&& s[i].bbox.overlaps_spec(s[j].bbox)
    &&& accepts(s[i], s[j])
}

/// The calls for the pair `i < j`: first `i` told of `j`, then `j` of `i`.
pub open spec fn pair_contacts(s: Seq<CollisionInfo>, i: int, j: int) -> Seq<Contact> {
    let first = if fires(s, i, j) {
        seq![Contact { entity: i as usize, other: j as usize }]
    } else {
        Seq::empty()
    };
    let second = if fires(s, j, i) {
        seq![Contact { entity: j as usize, other: i as usize }]
    } else {
        Seq::empty()
    };
    first + second
}

/// The calls for the pairs `(i, j)` with `i < j < end`.
pub open spec fn row_contacts(s: Seq<CollisionInfo>, i: int, end: int) -> Seq<Contact>
    decreases end - i,
{
    if end <= i + 1 {
        Seq::empty()
    } else {
        row_contacts(s, i, end - 1) + pair_contacts(s, i, end - 1)
    }
}

/// The calls for the pairs whose lower index is below `end`, in the order
/// of the pass.
pub open spec fn contacts_upto(s: Seq<CollisionInfo>, end: int) -> Seq<Contact>
    decreases end,
{
    if end <= 0 {
        Seq::empty()
    } else {
        contacts_upto(s, end - 1) + row_contacts(s, end - 1, s.len() as int)
    }
}

/// All calls of a collision pass over entities with the given boxes,
/// classes and masks: each unordered pair once, lower index first.
pub open spec fn all_contacts(s: Seq<CollisionInfo>) -> Seq<Contact> {
    contacts_upto(s, s.len() as int)
}

pub open spec fn infos_of<E: Entity>(s: Seq<E>) -> Seq<CollisionInfo> {
    Seq::new(s.len(), |i: int| s[i].spec_info())
}

/// The entities that are live, in their order.
pub open spec fn live_only<E: Entity>(s: Seq<E>) -> Seq<E>
    decreases s.len(),
{
    if s.len() == 0 {
        Seq::empty()
    } else {
        let r = live_only(s.drop_last());
        if s.last().spec_live() {
            r.push(s.last())
        } else {
            r
        }
    }
}

proof fn lemma_concat_contains(a: Seq<Contact>, b: Seq<Contact>, x: Contact)
    ensures
        (a + b).contains(x) <==> a.contains(x) || b.contains(x),
{
    if (a + b).contains(x) {
        let k = choose|k: int| 0 <= k < (a + b).len() && (a + b)[k] == x;
        if k < a.len() {
            assert(a[k] == x);
        } else {
            assert(b[k - a.len()] == x);
        }
    }
    if a.contains(x) {
        let k = choose|k: int| 0 <= k < a.len() && a[k] == x;
        assert((a + b)[k] == x);
    }
    if b.contains(x) {
        let k = choose|k: int| 0 <= k < b.len() && b[k] == x;
        assert((a + b)[a.len() + k] == x);
    }
}

proof fn lemma_pair_contains(s: Seq<CollisionInfo>, i: int, j: int, c: Contact)
    requires
        0 <= i < j < s.len(),
        s.len() <= usize::MAX,
    ensures
        pair_contacts(s, i, j).contains(c) <==> fires(s, c.entity as int, c.other as int) && ((
        c.entity == i && c.other == j) || (c.entity == j && c.other == i)),
{
    let ci = Contact { entity: i as usize, other: j as usize };
    let cj = Contact { entity: j as usize, other: i as usize };
    let first = if fires(s, i, j) {
        seq![ci]
    } else {
        Seq::empty()
    };
    let second = if fires(s, j, i) {
        seq![cj]
    } else {
        Seq::empty()
    };
    lemma_concat_contains(first, second, c);
    if fires(s, i, j) {
        assert(first[0] == ci);
    }
    if fires(s, j, i) {
        assert(second[0] == cj);
    }
}

proof fn lemma_row_contains(s: Seq<CollisionInfo>, i: int, end: int, c: Contact)
    requires
        0 <= i < s.len(),
        end <= s.len(),
        s.len() <= usize::MAX,
    ensures
        row_contacts(s, i, end).contains(c) <==> fires(s, c.entity as int, c.other as int) && ((
        c.entity == i && i < c.other < end) || (c.other == i && i < c.entity < end)),
    decreases end - i,
{
    if end > i + 1 {
        lemma_row_contains(s, i, end - 1, c);
        lemma_pair_contains(s, i, end - 1, c);
        lemma_concat_contains(row_contacts(s, i, end - 1), pair_contacts(s, i, end - 1), c);
    }
}

proof fn lemma_upto_contains(s: Seq<CollisionInfo>, end: int, c: Contact)
    requires
        0 <= end <= s.len(),
        s.len() <= usize::MAX,
    ensures
        contacts_upto(s, end).contains(c) <==> fires(s, c.entity as int, c.other as int) && (
        c.entity < end || c.other < end),
    decreases end,
{
    if end > 0 {
        lemma_upto_contains(s, end - 1, c);
        lemma_row_contains(s, end - 1, s.len() as int, c);
        lemma_concat_contains(contacts_upto(s, end - 1), row_contacts(s, end - 1, s.len() as int), c);
    }
}

/// A call of the collision pass is made exactly when its entity accepts a
/// collision from the other, different entity, and their boxes overlap.
pub proof fn lemma_contact_iff(s: Seq<CollisionInfo>, c: Contact)
    requires
        s.len() <= usize::MAX,
    ensures
        all_contacts(s).contains(c) <==> fires(s, c.entity as int, c.other as int),
{
    lemma_upto_contains(s, s.len() as int, c);
}

/// Collision symmetry: for two entities with overlapping boxes, the first is
/// told of the second exactly when its mask shares a bit with the second's
/// class, whichever of the two comes first in the collection.
pub proof fn lemma_collision_symmetry(s: Seq<CollisionInfo>, a: usize, b: usize)
    requires
        s.len() <= usize::MAX,
        a < s.len(),
        b < s.len(),
        a != b,
        s[a as int].bbox.overlaps_spec(s[b as int].bbox),
    ensures
        all_contacts(s).contains(Contact { entity: a, other: b }) <==> (s[a as int].mask
            & s[b as int].class != 0),
{
    lemma_contact_iff(s, Contact { entity: a, other: b });
}

/// Whether an entity is told of another depends only on the two entities,
/// not on where the collection holds them.
pub proof fn lemma_contacts_follow_entities(
    s: Seq<CollisionInfo>,
    t: Seq<CollisionInfo>,
    i: usize,
    j: usize,
    k: usize,
    l: usize,
)
    requires
        s.len() <= usize::MAX,
        t.len() <= usize::MAX,
        i < s.len(),
        j < s.len(),
        k < t.len(),
        l < t.len(),
        i != j,
        k != l,
        s[i as int] == t[k as int],
        s[j as int] == t[l as int],
    ensures
        all_contacts(s).contains(Contact { entity: i, other: j }) <==> all_contacts(t).contains(
            Contact { entity: k, other: l },
        ),
{
    lemma_contact_iff(s, Contact { entity: i, other: j });
    lemma_contact_iff(t, Contact { entity: k, other: l });
}

/// No entity is told of itself, every call names entities of the
/// collection, and a collection of fewer than two entities makes no call.
pub proof fn lemma_no_self_contact(s: Seq<CollisionInfo>)
    requires
        s.len() <= usize::MAX,
    ensures
        forall|k: int|
            0 <= k < all_contacts(s).len() ==> (#[trigger] all_contacts(s)[k]).entity != all_contacts(
                s,
            )[k].other && all_contacts(s)[k].entity < s.len() && all_contacts(s)[k].other < s.len(),
        s.len() <= 1 ==> all_contacts(s).len() == 0,
{
    assert forall|k: int| 0 <= k < all_contacts(s).len() implies (#[trigger] all_contacts(
        s,
    )[k]).entity != all_contacts(s)[k].other && all_contacts(s)[k].entity < s.len() && all_contacts(
        s,
    )[k].other < s.len() by {
        lemma_contact_iff(s, all_contacts(s)[k]);
    }
    if s.len() <= 1 && all_contacts(s).len() > 0 {
        lemma_contact_iff(s, all_contacts(s)[0]);
    }
}

/// The lower index of the pair a call belongs to.
pub open spec fn pair_lo(c: Contact) -> int {
    if c.entity < c.other {
        c.entity as int
    } else {
        c.other as int
    }
}

/// The higher index of the pair a call belongs to.
pub open spec fn pair_hi(c: Contact) -> int {
    if c.entity < c.other {
        c.other as int
    } else {
        c.entity as int
    }
}

/// The order of the pass: by lower index, then higher index, then the call
/// to the lower entity first.
pub open spec fn contact_before(a: Contact, b: Contact) -> bool {
    ||| pair_lo(a) < pair_lo(b)
    ||| pair_lo(a) == pair_lo(b) && pair_hi(a) < pair_hi(b)
    ||| pair_lo(a) == pair_lo(b) && pair_hi(a) == pair_hi(b) && a.entity < b.entity
}

pub open spec fn in_pass_order(cs: Seq<Contact>) -> bool {
    forall|i: int, j: int| 0 <= i < j < cs.len() ==> contact_before(#[trigger] cs[i], #[trigger] cs[j])
}

proof fn lemma_concat_in_order(a: Seq<Contact>, b: Seq<Contact>)
    requires
        in_pass_order(a),
        in_pass_order(b),
        forall|i: int, j: int|
            0 <= i < a.len() && 0 <= j < b.len() ==> contact_before(#[trigger] a[i], #[trigger] b[j]),
    ensures
        in_pass_order(a + b),
{
    assert forall|i: int, j: int| 0 <= i < j < (a + b).len() implies contact_before(
        #[trigger] (a + b)[i],
        #[trigger] (a + b)[j],
    ) by {
        if j < a.len() {
            assert((a + b)[i] == a[i] && (a + b)[j] == a[j]);
        } else if i >= a.len() {
            assert((a + b)[i] == b[i - a.len()] && (a + b)[j] == b[j - a.len()]);
        } else {
            assert((a + b)[i] == a[i] && (a + b)[j] == b[j - a.len()]);
        }
    }
}

proof fn lemma_row_in_order(s: Seq<CollisionInfo>, i: int, end: int)
    requires
        0 <= i < s.len(),
        end <= s.len(),
        s.len() <= usize::MAX,
    ensures
        in_pass_order(row_contacts(s, i, end)),
        forall|k: int|
            0 <= k < row_contacts(s, i, end).len() ==> pair_lo(#[trigger] row_contacts(s, i, end)[k])
                == i && i < pair_hi(row_contacts(s, i, end)[k]) < end,
    decreases end - i,
{
    if end > i + 1 {
        lemma_row_in_order(s, i, end - 1);
        let a = row_contacts(s, i, end - 1);
        let p = pair_contacts(s, i, end - 1);
        assert forall|k: int| 0 <= k < p.len() implies pair_lo(#[trigger] p[k]) == i && pair_hi(p[k])
            == end - 1 && (k == 0 && p.len() == 2 ==> p[k].entity == i) && (k == 1 ==> p[k].entity
            == end - 1) by {}
        assert(in_pass_order(p));
        lemma_concat_in_order(a, p);
        assert forall|k: int| 0 <= k < (a + p).len() implies pair_lo(#[trigger] (a + p)[k]) == i && i
            < pair_hi((a + p)[k]) < end by {
            if k < a.len() {
                assert((a + p)[k] == a[k]);
            } else {
                assert((a + p)[k] == p[k - a.len()]);
            }
        }
    }
}

proof fn lemma_upto_in_order(s: Seq<CollisionInfo>, end: int)
    requires
        0 <= end <= s.len(),
        s.len() <= usize::MAX,
    ensures
        in_pass_order(contacts_upto(s, end)),
        forall|k: int|
            0 <= k < contacts_upto(s, end).len() ==> pair_lo(#[trigger] contacts_upto(s, end)[k])
                < end,
    decreases end,
{
    if end > 0 {
        lemma_upto_in_order(s, end - 1);
        lemma_row_in_order(s, end - 1, s.len() as int);
        let a = contacts_upto(s, end - 1);
        let r = row_contacts(s, end - 1, s.len() as int);
        lemma_concat_in_order(a, r);
        assert forall|k: int| 0 <= k < (a + r).len() implies pair_lo(#[trigger] (a + r)[k]) < end by {
            if k < a.len() {
                assert((a + r)[k] == a[k]);
            } else {
                assert((a + r)[k] == r[k - a.len()]);
            }
        }
    }
}

/// The calls of a collision pass come in the pass order, so none is made
/// twice: each entity of a firing pair is told of the other exactly once.
pub proof fn lemma_each_contact_once(s: Seq<CollisionInfo>)
    requires
        s.len() <= usize::MAX,
    ensures
        in_pass_order(all_contacts(s)),
        all_contacts(s).no_duplicates(),
{
    lemma_upto_in_order(s, s.len() as int);
    let cs = all_contacts(s);
    assert forall|i: int, j: int| 0 <= i < cs.len() && 0 <= j < cs.len() && i != j implies cs[i]
        != cs[j] by {
        if i < j {
            assert(contact_before(cs[i], cs[j]));
        } else {
            assert(contact_before(cs[j], cs[i]));
        }
    }
}

/// Some position of `p` holds `j`.
pub open spec fn takes_value(p: Seq<int>, j: int) -> bool {
    exists|k: int| 0 <= k < p.len() && p[k] == j
}

/// Collision symmetry under reordering: when `t` holds the entities of `s`
/// in another order (`t[k] == s[p[k]]` for a permutation `p`), the pass over
/// `t` makes a call between two entities exactly when the pass over `s`
/// makes it between the same two, and neither pass makes a call twice.
pub proof fn lemma_contacts_under_permutation(s: Seq<CollisionInfo>, t: Seq<CollisionInfo>, p: Seq<int>)
    requires
        s.len() <= usize::MAX,
        t.len() == s.len(),
        p.len() == s.len(),
        forall|k: int| 0 <= k < s.len() ==> 0 <= #[trigger] p[k] < s.len() && t[k] == s[p[k]],
        forall|k: int, l: int| 0 <= k < s.len() && 0 <= l < s.len() && k != l ==> #[trigger] p[k]
            != #[trigger] p[l],
        forall|j: int| 0 <= j < s.len() ==> #[trigger] takes_value(p, j),
    ensures
        forall|k: int, l: int|
            0 <= k < s.len() && 0 <= l < s.len() ==> (all_contacts(t).contains(
                Contact { entity: k as usize, other: l as usize },
            ) <==> all_contacts(s).contains(
                Contact { entity: #[trigger] p[k] as usize, other: #[trigger] p[l] as usize },
            )),
        forall|c: Contact|
            #[trigger] all_contacts(s).contains(c) ==> exists|k: int, l: int|
                0 <= k < s.len() && 0 <= l < s.len() && #[trigger] p[k] == c.entity && #[trigger] p[l]
                    == c.other && all_contacts(t).contains(
                    Contact { entity: k as usize, other: l as usize },
                ),
        all_contacts(s).no_duplicates(),
        all_contacts(t).no_duplicates(),
{
    let n = s.len() as int;
    assert forall|k: int, l: int| 0 <= k < n && 0 <= l < n implies (all_contacts(t).contains(
        Contact { entity: k as usize, other: l as usize },
    ) <==> all_contacts(s).contains(
        Contact { entity: #[trigger] p[k] as usize, other: #[trigger] p[l] as usize },
    )) by {
        lemma_contact_iff(t, Contact { entity: k as usize, other: l as usize });
        lemma_contact_iff(s, Contact { entity: p[k] as usize, other: p[l] as usize });
    }
    assert forall|c: Contact| #[trigger] all_contacts(s).contains(c) implies exists|k: int, l: int|
        0 <= k < n && 0 <= l < n && #[trigger] p[k] == c.entity && #[trigger] p[l] == c.other
            && all_contacts(t).contains(Contact { entity: k as usize, other: l as usize }) by {
        lemma_contact_iff(s, c);
        assert(takes_value(p, c.entity as int));
        assert(takes_value(p, c.other as int));
        let k = choose|k: int| 0 <= k < p.len() && p[k] == c.entity as int;
        let l = choose|l: int| 0 <= l < p.len() && p[l] == c.other as int;
        lemma_contact_iff(t, Contact { entity: k as usize, other: l as usize });
        assert(Contact { entity: p[k] as usize, other: p[l] as usize } == c);
    }
    lemma_each_contact_once(s);
    lemma_each_contact_once(t);
}

/// The broad phase of this engine: every pair is tested. Quadratic in the
/// number of entities, which suits the tens of objects that a level holds.
pub fn find_contacts(infos: &Vec<CollisionInfo>) -> (r: Vec<Contact>)
    ensures
        r@ == all_contacts(infos@),
{
    let n = infos.len();
    let mut out: Vec<Contact> = Vec::new();
    let mut i: usize = 0;
    while i < n
        invariant
            n == infos@.len(),
            0 <= i <= n,
            out@ == contacts_upto(infos@, i as int),
        decreases n - i,
    {
        let ghost before = out@;
        let b1 = infos[i].bbox;
        let mut j: usize = i + 1;
        while j < n
            invariant
                n == infos@.len(),
                0 <= i < n,
                i + 1 <= j <= n,
                b1 == infos@[i as int].bbox,
                out@ == before + row_contacts(infos@, i as int, j as int),
            decreases n - j,
        {
            let ghost mid = out@;
            if b1.overlaps(&infos[j].bbox) {
                if (infos[i].mask & infos[j].class) != 0 {
                    out.push(Contact { entity: i, other: j });
                }
                if (infos[j].mask & infos[i].class) != 0 {
                    out.push(Contact { entity: j, other: i });
                }
            }
            proof {
                assert(out@ =~= mid + pair_contacts(infos@, i as int, j as int));
            }
            j = j + 1;
        }
        proof {
            assert(row_contacts(infos@, i as int, j as int) == row_contacts(
                infos@,
                i as int,
                n as int,
            ));
        }
        i = i + 1;
    }
    out
}

/// The collision pass. Which calls happen is decided from the boxes,
/// classes and masks that the entities have when the pass begins; the calls
/// are made in the order of `all_contacts`, each with the other party's
/// information as it was then. Returns the calls made.
pub fn handle_collisions<E: Entity>(entities: &mut Vec<E>) -> (r: Vec<Contact>)
    ensures
        r@ == all_contacts(infos_of(old(entities)@)),
        forall|k: int|
            0 <= k < r@.len() ==> (#[trigger] r@[k]).entity < old(entities)@.len() && r@[k].other
                < old(entities)@.len(),
        final(entities)@ == collided(old(entities)@),
        final(entities)@.len() == old(entities)@.len(),
{
    let ghost start = entities@;
    let n = entities.len();
    let mut infos: Vec<CollisionInfo> = Vec::new();
    let mut i: usize = 0;
    while i < n
        invariant
            n == entities@.len(),
            entities@ == start,
            0 <= i <= n,
            infos@ == infos_of(start).take(i as int),
        decreases n - i,
    {
        let e = &entities[i];
        let info = CollisionInfo {
            bbox: e.get_bounding_box(),
            class: e.get_collision_class(),
            mask: e.get_collision_mask(),
        };
        infos.push(info);
        proof {
            assert(infos@ =~= infos_of(start).take(i + 1));
        }
        i = i + 1;
    }
    assert(infos@ =~= infos_of(start));
    let contacts = find_contacts(&infos);
    proof {
        lemma_no_self_contact(infos@);
    }
    let mut k: usize = 0;
    while k < contacts.len()
        invariant
            n == entities@.len(),
            n == infos@.len(),
            infos@ == infos_of(start),
            contacts@ == all_contacts(infos@),
            0 <= k <= contacts@.len(),
            forall|c: int|
                0 <= c < contacts@.len() ==> (#[trigger] contacts@[c]).entity < n
                    && contacts@[c].other < n,
            entities@ == apply_contacts(start, infos@, contacts@.take(k as int)),
        decreases contacts@.len() - k,
    {
        let c = contacts[k];
        proof {
            let t = contacts@.take(k + 1);
            assert(t.drop_last() =~= contacts@.take(k as int));
            assert(t.last() == c);
        }
        entities[c.entity].collide(&infos[c.other]);
        k = k + 1;
    }
    assert(contacts@.take(k as int) =~= contacts@);
    contacts
}

proof fn lemma_live_only_step<E: Entity>(s: Seq<E>, k: int)
    requires
        0 <= k < s.len(),
    ensures
        live_only(s.take(k + 1)) == if s[k].spec_live() {
            live_only(s.take(k)).push(s[k])
        } else {
            live_only(s.take(k))
        },
{
    assert(s.take(k + 1).drop_last() =~= s.take(k));
}

/// Pruning a pruned collection changes nothing.
pub proof fn lemma_prune_idempotent<E: Entity>(s: Seq<E>)
    ensures
        live_only(live_only(s)) == live_only(s),
    decreases s.len(),
{
    if s.len() > 0 {
        let r = live_only(s.drop_last());
        lemma_prune_idempotent(s.drop_last());
        if s.last().spec_live() {
            assert(r.push(s.last()).drop_last() =~= r);
        }
    }
}

/// Pruning a joined collection prunes each part.
pub proof fn lemma_prune_append<E: Entity>(a: Seq<E>, b: Seq<E>)
    ensures
        live_only(a + b) == live_only(a) + live_only(b),
    decreases b.len(),
{
    if b.len() == 0 {
        assert(a + b =~= a);
        assert(live_only(a) + live_only(b) =~= live_only(a));
    } else {
        lemma_prune_append(a, b.drop_last());
        assert((a + b).drop_last() =~= a + b.drop_last());
        assert((a + b).last() == b.last());
        if b.last().spec_live() {
            assert(live_only(a) + live_only(b.drop_last()).push(b.last()) =~= (live_only(a)
                + live_only(b.drop_last())).push(b.last()));
        }
    }
}

/// Pruning keeps exactly the live entities, in order, and never grows.
pub proof fn lemma_prune_keeps_live<E: Entity>(s: Seq<E>)
    ensures
        live_only(s).len() <= s.len(),
        forall|i: int| 0 <= i < live_only(s).len() ==> (#[trigger] live_only(s)[i]).spec_live(),
        (forall|i: int| 0 <= i < s.len() ==> (#[trigger] s[i]).spec_live()) ==> live_only(s) == s,
    decreases s.len(),
{
    if s.len() > 0 {
        lemma_prune_keeps_live(s.drop_last());
        if forall|i: int| 0 <= i < s.len() ==> (#[trigger] s[i]).spec_live() {
            assert forall|i: int| 0 <= i < s.drop_last().len() implies (
            #[trigger] s.drop_last()[i]).spec_live() by {
                assert(s.drop_last()[i] == s[i]);
            }
            assert(s.drop_last().push(s.last()) =~= s);
            assert(s[s.len() - 1].spec_live());
        }
    }
}

/// Pruning a collection where only the entity at `e` is not live removes
/// that entity alone.
proof fn lemma_prune_all_but_one<E: Entity>(u: Seq<E>, e: int)
    requires
        0 <= e < u.len(),
        !u[e].spec_live(),
        forall|i: int| 0 <= i < u.len() && i != e ==> (#[trigger] u[i]).spec_live(),
    ensures
        live_only(u) == u.remove(e),
    decreases u.len(),
{
    let dl = u.drop_last();
    if e == u.len() - 1 {
        assert forall|i: int| 0 <= i < dl.len() implies (#[trigger] dl[i]).spec_live() by {
            assert(dl[i] == u[i]);
        }
        lemma_prune_keeps_live(dl);
        assert(u.remove(e) =~= dl);
    } else {
        assert(dl[e] == u[e]);
        assert forall|i: int| 0 <= i < dl.len() && i != e implies (#[trigger] dl[i]).spec_live() by {
            assert(dl[i] == u[i]);
        }
        lemma_prune_all_but_one(dl, e);
        assert(u[u.len() - 1].spec_live());
        assert(dl.remove(e).push(u.last()) =~= u.remove(e));
    }
}

proof fn lemma_apply_contacts_len<E: Entity>(es: Seq<E>, infos: Seq<CollisionInfo>, cs: Seq<Contact>)
    requires
        forall|k: int| 0 <= k < cs.len() ==> (#[trigger] cs[k]).entity < es.len(),
    ensures
        apply_contacts(es, infos, cs).len() == es.len(),
    decreases cs.len(),
{
    if cs.len() > 0 {
        lemma_apply_contacts_len(es, infos, cs.drop_last());
    }
}

proof fn lemma_spawned_single<E: Entity>(
    c: Seq<E>,
    e: int,
    k: int,
    buttons: u32,
    tile_map: &TileMap,
    player_rect: Rect<i32>,
)
    requires
        0 <= e < c.len(),
        0 <= k <= c.len(),
        spawned_one(c[e], buttons, tile_map, player_rect).len() == 1,
        forall|i: int|
            0 <= i < c.len() && i != e ==> spawned_one(#[trigger] c[i], buttons, tile_map, player_rect)
                == Seq::<E>::empty(),
    ensures
        spawned_upto(c, k, buttons, tile_map, player_rect) == if k > e {
            spawned_one(c[e], buttons, tile_map, player_rect)
        } else {
            Seq::<E>::empty()
        },
    decreases k,
{
    if k > 0 {
        lemma_spawned_single(c, e, k - 1, buttons, tile_map, player_rect);
        let prev = spawned_upto(c, k - 1, buttons, tile_map, player_rect);
        let one = spawned_one(c[k - 1], buttons, tile_map, player_rect);
        if k - 1 == e {
            assert(prev + one =~= one);
        } else {
            assert(prev + one =~= prev);
        }
    }
}

/// Spawning and dying in one step: when, after the collision pass, the
/// entity at `e` is live, its update leaves it not live and spawns exactly
/// one live entity, and every other entity is live, stays live and spawns
/// nothing, then the step keeps the number of entities: the one at `e`
/// leaves, the others keep their order, and the new entity comes last.
pub proof fn lemma_spawn_replaces<E: Entity>(
    es: Seq<E>,
    c: Seq<E>,
    e: int,
    buttons: u32,
    tile_map: &TileMap,
    player_rect: Rect<i32>,
)
    requires
        c == collided(es),
        es.len() <= usize::MAX,
        0 <= e < c.len(),
        forall|i: int| 0 <= i < c.len() ==> (#[trigger] c[i]).spec_live(),
        !c[e].spec_updated(buttons, tile_map, player_rect).spec_live(),
        c[e].spec_spawned(buttons, tile_map, player_rect).len() == 1,
        c[e].spec_spawned(buttons, tile_map, player_rect)[0].spec_live(),
        forall|i: int|
            0 <= i < c.len() && i != e ==> (#[trigger] c[i]).spec_updated(
                buttons,
                tile_map,
                player_rect,
            ).spec_live() && c[i].spec_spawned(buttons, tile_map, player_rect) == Seq::<E>::empty(),
    ensures
        frame_result(es, buttons, tile_map, player_rect) == updated_all(
            c,
            buttons,
            tile_map,
            player_rect,
        ).remove(e).push(c[e].spec_spawned(buttons, tile_map, player_rect)[0]),
        frame_result(es, buttons, tile_map, player_rect).len() == es.len(),
{
    assert(infos_of(es).len() == es.len());
    lemma_no_self_contact(infos_of(es));
    lemma_apply_contacts_len(es, infos_of(es), all_contacts(infos_of(es)));
    let u = updated_all(c, buttons, tile_map, player_rect);
    let x = c[e].spec_spawned(buttons, tile_map, player_rect)[0];
    assert forall|i: int| 0 <= i < c.len() && i != e implies spawned_one(
        #[trigger] c[i],
        buttons,
        tile_map,
        player_rect,
    ) == Seq::<E>::empty() by {}
    lemma_spawned_single(c, e, c.len() as int, buttons, tile_map, player_rect);
    let sp = spawned_upto(c, c.len() as int, buttons, tile_map, player_rect);
    assert(sp =~= seq![x]);
    assert forall|i: int| 0 <= i < u.len() && i != e implies (#[trigger] u[i]).spec_live() by {}
    lemma_prune_all_but_one(u, e);
    lemma_prune_append(u, sp);
    assert(sp.drop_last() =~= Seq::<E>::empty());
    assert(live_only(Seq::<E>::empty()) == Seq::<E>::empty());
    assert(sp.last() == x);
    assert(live_only(sp) =~= seq![x]);
    assert(u.remove(e) + seq![x] =~= u.remove(e).push(x));
}

/// Removes every entity that is not live, keeping the order of the others.
pub fn prune<E: Entity>(entities: &mut Vec<E>)
    ensures
        final(entities)@ == live_only(old(entities)@),
{
    let ghost start = entities@;
    let n = entities.len();
    let mut k: usize = 0;
    let mut i: usize = 0;
    while k < n
        invariant
            n == start.len(),
            0 <= k <= n,
            i <= k,
            i == live_only(start.take(k as int)).len(),
            entities@ == live_only(start.take(k as int)) + start.skip(k as int),
        decreases n - k,
    {
        proof {
            lemma_live_only_step(start, k as int);
            lemma_prune_keeps_live(start.take(k as int));
            assert(entities@[i as int] == start[k as int]);
        }
        if entities[i].is_live() {
            proof {
                assert(entities@ =~= live_only(start.take(k + 1)) + start.skip(k + 1));
            }
            i = i + 1;
        } else {
            entities.remove(i);
            proof {
                assert(entities@ =~= live_only(start.take(k + 1)) + start.skip(k + 1));
            }
        }
        k = k + 1;
    }
    proof {
        assert(start.take(n as int) =~= start);
        assert(entities@ =~= live_only(start));
    }
}

/// The update pass: every live entity, in collection order, is updated once
/// and may append new entities to the list that is returned. An entity that
/// is not live is neither updated nor asked to spawn.
pub fn update_entities<E: Entity>(
    entities: &mut Vec<E>,
    buttons: u32,
    tile_map: &TileMap,
    player_rect: &Rect<i32>,
) -> (spawned: Vec<E>)
    requires
        tile_map.wf(),
    ensures
        final(entities)@ == updated_all(old(entities)@, buttons, tile_map, *player_rect),
        spawned@ == spawned_upto(
            old(entities)@,
            old(entities)@.len() as int,
            buttons,
            tile_map,
            *player_rect,
        ),
{
    let ghost start = entities@;
    let mut spawned: Vec<E> = Vec::new();
    let n = entities.len();
    let mut i: usize = 0;
    while i < n
        invariant
            n == entities@.len(),
            n == start.len(),
            0 <= i <= n,
            tile_map.wf(),
            forall|j: int|
                0 <= j < n ==> #[trigger] entities@[j] == if j < i {
                    updated_one(start[j], buttons, tile_map, *player_rect)
                } else {
                    start[j]
                },
            spawned@ == spawned_upto(start, i as int, buttons, tile_map, *player_rect),
        decreases n - i,
    {
        if entities[i].is_live() {
            entities[i].update(&mut spawned, buttons, tile_map, player_rect);
        } else {
            assert(spawned@ =~= spawned@ + spawned_one(start[i as int], buttons, tile_map, *player_rect));
        }
        i = i + 1;
    }
    assert(entities@ =~= updated_all(start, buttons, tile_map, *player_rect));
    spawned
}

/// Adds the spawned entities after the existing ones, then prunes.
pub fn integrate<E: Entity>(entities: &mut Vec<E>, spawned: &mut Vec<E>)
    ensures
        final(entities)@ == live_only(old(entities)@ + old(spawned)@),
        final(spawned)@ == Seq::<E>::empty(),
{
    entities.append(spawned);
    prune(entities);
}

/// One simulation step: the collision pass over the entities as they are,
/// then the update pass over the entities live after it, then integration
/// of what was spawned and pruning.
/// Returns the collision calls that were made; none names an entity that
/// was spawned during this step.
pub fn do_frame<E: Entity>(
    entities: &mut Vec<E>,
    buttons: u32,
    tile_map: &TileMap,
    player_rect: &Rect<i32>,
) -> (r: Vec<Contact>)
    requires
        tile_map.wf(),
    ensures
        r@ == all_contacts(infos_of(old(entities)@)),
        forall|k: int|
            0 <= k < r@.len() ==> (#[trigger] r@[k]).entity < old(entities)@.len() && r@[k].other
                < old(entities)@.len(),
        final(entities)@ == frame_result(old(entities)@, buttons, tile_map, *player_rect),
{
    let contacts = handle_collisions(entities);
    let mut spawned = update_entities(entities, buttons, tile_map, player_rect);
    integrate(entities, &mut spawned);
    contacts
}

/// The collection after one simulation step.
pub open spec fn frame_result<E: Entity>(
    es: Seq<E>,
    buttons: u32,
    tile_map: &TileMap,
    player_rect: Rect<i32>,
) -> Seq<E> {
    let c = collided(es);
    live_only(
        updated_all(c, buttons, tile_map, player_rect) + spawned_upto(
            c,
            c.len() as int,
            buttons,
            tile_map,
            player_rect,
        ),
    )
}

/// The draw pass: every entity in collection order, so later entities paint
/// over earlier ones.
pub fn draw_entities<E: Entity>(entities: &Vec<E>, context: &mut RenderContext)
    ensures
        final(context).offset() == old(context).offset(),
        final(context).quads() == old(context).quads() + quads_of(entities@, old(context).offset()),
{
    let ghost start = context.quads();
    let ghost offset = context.offset();
    let mut i: usize = 0;
    while i < entities.len()
        invariant
            0 <= i <= entities@.len(),
            context.offset() == offset,
            context.quads() == start + quads_of(entities@.take(i as int), offset),
        decreases entities@.len() - i,
    {
        entities[i].draw(context);
        proof {
            let t = entities@.take(i + 1);
            assert(t.drop_last() =~= entities@.take(i as int));
            assert(context.quads() =~= start + quads_of(t, offset));
        }
        i = i + 1;
    }
    assert(entities@.take(i as int) =~= entities@);
}

} // verus!
