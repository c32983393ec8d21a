use vstd::prelude::*;
use crate::entity::{Entity, EntityID, shift};
use crate::geometry::{Bounds, Overlap, overlaps, spec_overlaps};
use crate::resolve::{
    MAX_PUSH, accepts, all_valid, blocks, bounded, candidate, depths, displaced, hits,
    lemma_entity_bounds_bounded, lemma_push_vector_bounded, lemma_resolved_frame, lemma_zero_move, passes_through, placed,
    push_coord, push_list, push_of, push_target, push_vector, pushed_all, resolved, shoved, shoves, spec_depths,
    spec_simple_move, stopped, walls,
};

verus! {

/// The single owner of every entity, keyed by `EntityID`.
///
/// Entities are kept in insertion order; a removal keeps the order of the
/// rest. Identifiers are handed out from a counter that only grows, so none
/// is issued twice.
#[derive(Clone, Debug)]
pub struct ECSManager {
    ids: Vec<EntityID>,
    entities: Vec<Entity>,
    next_id: usize,
}

/// No identifier occurs twice.
pub open spec fn unique_ids(ids: Seq<EntityID>) -> bool {
    forall|i: int, j: int| 0 <= i < ids.len() && 0 <= j < ids.len() && i != j ==> ids[i] != ids[j]
}

/// Slot `j` holds a solid entity with a collider, keyed other than
/// `moving`, whose box overlaps `cand`.
pub open spec fn collides(ids: Seq<EntityID>, es: Seq<Entity>, moving: EntityID, j: int, cand: Bounds) -> bool {
    &&& 0 <= j < es.len()
    &&& ids[j] != moving
    &&& es[j].solid
    &&& es[j].spec_bounds() is Some
    &&& spec_overlaps(cand, es[j].spec_bounds().unwrap())
}

/// The collisions of box `cand` among the first `n` slots, in slot order:
/// each entity's key with the penetration depths of `cand` into its box.
pub open spec fn collisions(
    ids: Seq<EntityID>,
    es: Seq<Entity>,
    moving: EntityID,
    cand: Bounds,
    n: int,
) -> Seq<(EntityID, Overlap)>
    decreases n,
{
    if n <= 0 {
        Seq::empty()
    } else {
        let before = collisions(ids, es, moving, cand, n - 1);
        if collides(ids, es, moving, n - 1, cand) {
            before.push((ids[n - 1], spec_depths(cand, es[n - 1].spec_bounds().unwrap())))
        } else {
            before
        }
    }
}

impl ECSManager {
    /// The identifiers of the stored entities, in iteration order.
    pub closed spec fn ids(&self) -> Seq<EntityID> {
        self.ids@
    }

    /// The stored entities; the one at index `i` is keyed by `ids()[i]`.
    pub closed spec fn entities(&self) -> Seq<Entity> {
        self.entities@
    }

    /// The identifier that the next `create_entity` hands out.
    pub closed spec fn next_id(&self) -> usize {
        self.next_id
    }

    /// Keys and entities pair up, each entity carries its own key, keys
    /// are unique, and every key is below the counter.
    pub open spec fn wf(&self) -> bool {
        &&& self.ids().len() == self.entities().len()
        &&& forall|i: int| 0 <= i < self.ids().len() ==> (#[trigger] self.entities()[i]).id == self.ids()[i]
        &&& unique_ids(self.ids())
        &&& forall|i: int| 0 <= i < self.ids().len() ==> (#[trigger] self.ids()[i]).0 < self.next_id()
    }

    /// Every stored entity meets what the resolver assumes of it.
    pub open spec fn all_valid(&self) -> bool {
        all_valid(self.entities())
    }

    pub open spec fn contains(&self, id: EntityID) -> bool {
        exists|i: int| 0 <= i < self.ids().len() && self.ids()[i] == id
    }

    /// `i` is the slot of `id`.
    pub open spec fn slot_of(&self, id: EntityID, i: int) -> bool {
        0 <= i < self.ids().len() && self.ids()[i] == id
    }

    /// An empty store. The world size is not used.
    pub fn new(_width: i32, _height: i32) -> (r: ECSManager)
        ensures
            r.wf(),
            r.ids() == Seq::<EntityID>::empty(),
            r.entities() == Seq::<Entity>::empty(),
            r.next_id() == 1,
    {
        ECSManager { ids: Vec::new(), entities: Vec::new(), next_id: 1 }
    }

    /// The slot that holds `id`, if any.
    fn find(&self, id: EntityID) -> (r: Option<usize>)
        requires
            self.wf(),
        ensures
            match r {
                Some(i) => self.slot_of(id, i as int),
                None => !self.contains(id),
            },
    {
        let mut i: usize = 0;
        while i < self.ids.len()
            invariant
                self.wf(),
                i <= self.ids@.len(),
                forall|k: int| 0 <= k < i ==> self.ids@[k] != id,
            decreases self.ids@.len() - i,
        {
            if self.ids[i] == id {
                return Some(i);
            }
            i += 1;
        }
        None
    }

    /// Inserts `entity` under its own identifier. An entity already stored
    /// under that identifier is replaced in its slot; a new one goes last.
    /// The counter moves past the identifier, so `create_entity` never
    /// hands it out.
    pub fn add_entity(&mut self, entity: Entity) -> (r: EntityID)
        requires
            old(self).wf(),
            entity.id.0 < usize::MAX,
        ensures
            r == entity.id,
            final(self).wf(),
            final(self).contains(r),
            final(self).next_id() == if entity.id.0 < old(self).next_id() {
                old(self).next_id()
            } else {
                (entity.id.0 + 1) as usize
            },
            forall|i: int|
                old(self).slot_of(r, i) ==> final(self).ids() == old(self).ids()
                    && final(self).entities() == old(self).entities().update(i, entity),
            !old(self).contains(r) ==> final(self).ids() == old(self).ids().push(r)
                && final(self).entities() == old(self).entities().push(entity),
            old(self).all_valid() && entity.is_valid() ==> final(self).all_valid(),
    {
        let id = entity.id;
        if id.0 >= self.next_id {
            self.next_id = id.0 + 1;
        }
        match self.find(id) {
            Some(i) => {
                self.entities.set(i, entity);
                assert(self.slot_of(id, i as int));
            },
            None => {
                self.ids.push(id);
                self.entities.push(entity);
                assert(self.slot_of(id, self.ids@.len() - 1));
            },
        }
        id
    }

    /// Stores a fresh entity made by `Entity::new` under the next identifier
    /// and returns that identifier.
    pub fn create_entity(&mut self, name: &str, x: i32, y: i32, z_order: i32) -> (r: EntityID)
        requires
            old(self).wf(),
            old(self).next_id() < usize::MAX,
        ensures
            r == EntityID(old(self).next_id()),
            !old(self).contains(r),
            final(self).wf(),
            final(self).next_id() == old(self).next_id() + 1,
            final(self).ids() == old(self).ids().push(r),
            final(self).entities().len() == old(self).entities().len() + 1,
            final(self).entities().drop_last() == old(self).entities(),
            ({
                let e = final(self).entities().last();
                &&& e.id == r
                &&& e.position_x == x
                &&& e.position_y == y
                &&& e.z_order == z_order
                &&& e.sprite.is_none()
                &&& e.collider.is_none()
                &&& !e.simple_collisions
                &&& e.pushable
                &&& e.solid
                &&& e.mass == 1
            }),
            old(self).all_valid() ==> final(self).all_valid(),
    {
        let id = EntityID(self.next_id);
        self.next_id = self.next_id + 1;
        let entity = Entity::new(id, name, x, y, z_order);
        self.ids.push(id);
        self.entities.push(entity);
        assert(self.entities@.drop_last() =~= old(self).entities@);
        id
    }

    /// The entity stored under `id`, if any.
    pub fn get_entity(&self, id: EntityID) -> (r: Option<&Entity>)
        requires
            self.wf(),
        ensures
            match r {
                Some(e) => e.id == id && exists|i: int| self.slot_of(id, i) && *e == self.entities()[i],
                None => !self.contains(id),
            },
    {
        match self.find(id) {
            Some(i) => Some(&self.entities[i]),
            None => None,
        }
    }

    /// The entity stored under `id`, for changing in place. The store stays
    /// well formed as long as the caller leaves the entity's `id` as it is.
    pub fn get_entity_mut(&mut self, id: EntityID) -> (r: Option<&mut Entity>)
        requires
            old(self).wf(),
        ensures
            final(self).ids() == old(self).ids(),
            final(self).next_id() == old(self).next_id(),
            match r {
                Some(e) => e.id == id && (final(e).id == id ==> final(self).wf()) && exists|i: int|
                    old(self).slot_of(id, i) && *e == old(self).entities()[i]
                        && final(self).entities() == old(self).entities().update(i, *final(e)),
                None => !old(self).contains(id) && final(self).entities() == old(self).entities()
                    && final(self).wf(),
            },
    {
        match self.find(id) {
            Some(i) => Some(&mut self.entities[i]),
            None => None,
        }
    }

    /// A snapshot of the identifiers, in iteration order. Later changes to
    /// the store do not reach it.
    pub fn iter_entity_ids(&self) -> (r: Vec<EntityID>)
        ensures
            r@ == self.ids(),
    {
        let mut r: Vec<EntityID> = Vec::new();
        let mut i: usize = 0;
        while i < self.ids.len()
            invariant
                i <= self.ids@.len(),
                r@ == self.ids@.subrange(0, i as int),
            decreases self.ids@.len() - i,
        {
            r.push(self.ids[i]);
            i += 1;
            assert(r@ =~= self.ids@.subrange(0, i as int));
        }
        assert(r@ =~= self.ids@);
        r
    }

    /// The stored entities, in iteration order.
    pub fn iter_entities(&self) -> (r: &[Entity])
        ensures
            r@ == self.entities(),
    {
        self.entities.as_slice()
    }

    /// The stored entities, in iteration order, for changing in place.
    /// Their number and their keys stay as they are; the store stays well
    /// formed as long as the caller leaves each entity's `id` as it is.
    pub fn iter_entities_mut(&mut self) -> (r: &mut [Entity])
        requires
            old(self).wf(),
        ensures
            r@ == old(self).entities(),
            final(self).entities() == final(r)@,
            final(self).ids() == old(self).ids(),
            final(self).next_id() == old(self).next_id(),
            final(r)@.len() == r@.len() && (forall|i: int|
                0 <= i < r@.len() ==> (#[trigger] final(r)@[i]).id == r@[i].id) ==> final(self).wf(),
    {
        self.entities.as_mut_slice()
    }

    /// Takes the entity stored under `id` out of the store, if any.
    pub fn remove_entity(&mut self, id: EntityID) -> (r: Option<Entity>)
        requires
            old(self).wf(),
        ensures
            final(self).wf(),
            final(self).next_id() == old(self).next_id(),
            !final(self).contains(id),
            match r {
                Some(e) => exists|i: int|
                    old(self).slot_of(id, i) && e == old(self).entities()[i]
                        && final(self).ids() == old(self).ids().remove(i)
                        && final(self).entities() == old(self).entities().remove(i),
                None => !old(self).contains(id) && final(self).ids() == old(self).ids()
                    && final(self).entities() == old(self).entities(),
            },
            old(self).all_valid() ==> final(self).all_valid(),
    {
        match self.find(id) {
            Some(i) => {
                self.ids.remove(i);
                let e = self.entities.remove(i);
                assert(old(self).slot_of(id, i as int));
                Some(e)
            },
            None => None,
        }
    }

    /// Empties the store. The counter keeps its value, so identifiers
    /// issued before are not issued again.
    pub fn clear(&mut self)
        requires
            old(self).wf(),
        ensures
            final(self).wf(),
            final(self).ids() == Seq::<EntityID>::empty(),
            final(self).entities() == Seq::<Entity>::empty(),
            final(self).next_id() == old(self).next_id(),
    {
        self.ids.clear();
        self.entities.clear();
    }

    /// A restricted move of slot `k` to `(x, y)`: only solid, unpushable
    /// entities stop it, and it pushes nothing.
    fn simple_move_entity(&mut self, k: usize, x: i32, y: i32) -> (r: bool)
        requires
            old(self).wf(),
            k < old(self).entities().len(),
        ensures
            r == !stopped(old(self).entities(), k as int, x, y),
            final(self).entities() == spec_simple_move(old(self).entities(), k as int, x, y),
            final(self).ids() == old(self).ids(),
            final(self).next_id() == old(self).next_id(),
    {
        if let Some(c) = self.entities[k].collider {
            let t = c.bounds_at(x, y);
            assert(t == placed(self.entities@[k as int], x, y).spec_bounds().unwrap());
            let n = self.entities.len();
            let mut u: usize = 0;
            while u < n
                invariant
                    n == self.entities@.len(),
                    k < n,
                    u <= n,
                    self.entities@[k as int].collider is Some,
                    t == placed(self.entities@[k as int], x, y).spec_bounds().unwrap(),
                    forall|v: int| 0 <= v < u ==> !walls(self.entities@, k as int, v, t),
                decreases n - u,
            {
                let other = &self.entities[u];
                if u != k && other.solid && !other.pushable {
                    if let Some(b) = other.get_collider_bounds() {
                        if overlaps(t, b) {
                            assert(walls(self.entities@, k as int, u as int, t));
                            return false;
                        }
                    }
                }
                u += 1;
            }
        }
        self.entities[k].position_x = x;
        self.entities[k].position_y = y;
        assert(self.entities@ =~= old(self).entities@.update(
            k as int,
            placed(old(self).entities@[k as int], x, y),
        ));
        true
    }

    /// Scans every other slot for what the box `cand` of the mover at slot
    /// `m` runs into: `None` at the first unpushable entity, else every
    /// pushable one with its push, in slot order.
    fn collect_pushes(&self, m: usize, cand: Bounds) -> (r: Option<Vec<(usize, i64, i64, i64)>>)
        requires
            self.wf(),
            self.all_valid(),
            m < self.entities().len(),
            bounded(cand),
        ensures
            r is None <==> exists|j: int| blocks(self.entities(), m as int, j, cand),
            r matches Some(p) ==> push_list(self.entities(), m as int, cand, p@),
    {
        let n = self.entities.len();
        let mut pushes: Vec<(usize, i64, i64, i64)> = Vec::new();
        let mut j: usize = 0;
        while j < n
            invariant
                self.wf(),
                self.all_valid(),
                n == self.entities@.len(),
                m < n,
                j <= n,
                bounded(cand),
                forall|i: int| 0 <= i < j ==> !blocks(self.entities@, m as int, i, cand),
                forall|q: int|
                    0 <= q < pushes@.len() ==> (#[trigger] pushes@[q]).0 < j && shoves(
                        self.entities@,
                        m as int,
                        pushes@[q].0 as int,
                        cand,
                    ) && (pushes@[q].1 as int, pushes@[q].2 as int, pushes@[q].3 as int) == push_of(
                        self.entities@,
                        m as int,
                        pushes@[q].0 as int,
                        cand,
                    ),
                forall|q1: int, q2: int|
                    0 <= q1 < q2 < pushes@.len() ==> pushes@[q1].0 < pushes@[q2].0,
                forall|k: int|
                    0 <= k < j && #[trigger] shoves(self.entities@, m as int, k, cand) ==> exists|
                        q: int,
                    |
                        0 <= q < pushes@.len() && pushes@[q].0 == k,
            decreases n - j,
        {
            let other = &self.entities[j];
            if j != m && other.solid {
                if let Some(b) = other.get_collider_bounds() {
                    if overlaps(cand, b) {
                        if other.pushable {
                            proof {
                                lemma_entity_bounds_bounded(*other);
                                assert(self.entities@[m as int].is_valid());
                            }
                            let v = push_vector(cand, b, self.entities[m].mass, other.mass);
                            let ghost before = pushes@;
                            let den: i64 = self.entities[m].mass as i64 + other.mass as i64;
                            pushes.push((j, v.0, v.1, den));
                            assert(pushes@[pushes@.len() - 1].0 == j);
                            assert forall|k: int|
                                0 <= k < j + 1 && #[trigger] shoves(
                                    self.entities@,
                                    m as int,
                                    k,
                                    cand,
                                ) implies exists|q: int|
                                0 <= q < pushes@.len() && pushes@[q].0 == k by {
                                if k < j {
                                    let q0 = choose|q: int| 0 <= q < before.len() && before[q].0 == k;
                                    assert(pushes@[q0] == before[q0]);
                                } else {
                                    assert(pushes@[pushes@.len() - 1].0 == k);
                                }
                            }
                        } else {
                            assert(blocks(self.entities@, m as int, j as int, cand));
                            return None;
                        }
                    }
                }
            }
            j += 1;
        }
        Some(pushes)
    }

    /// Applies the pushes that `collect_pushes` listed, one restricted move
    /// each, on the store as it stands after the mover's own move. A pushed
    /// entity pushes nothing further.
    fn process_pushed_entities(&mut self, m: usize, cand: Bounds, pushes: Vec<(usize, i64, i64, i64)>)
        requires
            old(self).wf(),
            old(self).all_valid(),
            m < old(self).entities().len(),
            push_list(old(self).entities(), m as int, cand, pushes@),
        ensures
            final(self).wf(),
            final(self).entities() == pushed_all(old(self).entities(), m as int, cand),
            final(self).ids() == old(self).ids(),
            final(self).next_id() == old(self).next_id(),
    {
        let ghost post = self.entities@;
        let n = self.entities.len();
        let mut q: usize = 0;
        while q < pushes.len()
            invariant
                self.wf(),
                self.ids@ == old(self).ids@,
                self.next_id == old(self).next_id,
                post == old(self).entities@,
                n == post.len(),
                self.entities@.len() == n,
                m < n,
                q <= pushes@.len(),
                push_list(post, m as int, cand, pushes@),
                all_valid(post),
                forall|k: int|
                    0 <= k < n ==> {
                        let e = #[trigger] self.entities@[k];
                        &&& e.id == post[k].id
                        &&& e.solid == post[k].solid
                        &&& e.pushable == post[k].pushable
                        &&& e.collider == post[k].collider
                        &&& e.mass == post[k].mass
                    },
                forall|k: int|
                    0 <= k < n ==> #[trigger] self.entities@[k] == if shoves(post, m as int, k, cand)
                        && (q < pushes@.len() ==> k < pushes@[q as int].0) {
                        shoved(post, m as int, k, cand)
                    } else {
                        post[k]
                    },
            decreases pushes@.len() - q,
        {
            let (k, num_x, num_y, den) = pushes[q];
            let ghost cur = self.entities@;
            assert(shoves(post, m as int, k as int, cand));
            assert(cur[k as int] == post[k as int]);
            assert(push_of(post, m as int, k as int, cand) == (num_x as int, num_y as int, den as int));
            proof {
                assert(post[m as int].is_valid());
                lemma_push_vector_bounded(
                    cand,
                    post[k as int].spec_bounds().unwrap(),
                    post[m as int].mass,
                    post[k as int].mass,
                );
            }
            let x = push_coord(self.entities[k].position_x, num_x, den);
            let y = push_coord(self.entities[k].position_y, num_y, den);
            assert((x, y) == push_target(post, m as int, k as int, cand));
            let ghost t = placed(post[k as int], x, y).spec_bounds().unwrap();
            assert(placed(cur[k as int], x, y).spec_bounds().unwrap() == t);
            assert forall|u: int| #[trigger] walls(cur, k as int, u, t) == walls(post, k as int, u, t) by {
                if 0 <= u < n {
                    assert(cur[u].pushable == post[u].pushable);
                    if !post[u].pushable {
                        assert(!shoves(post, m as int, u, cand));
                        assert(cur[u] == post[u]);
                    }
                }
            }
            proof {
                if stopped(cur, k as int, x, y) {
                    let u = choose|u: int| walls(cur, k as int, u, t);
                    assert(walls(post, k as int, u, t));
                }
                if stopped(post, k as int, x, y) {
                    let u = choose|u: int| walls(post, k as int, u, t);
                    assert(walls(cur, k as int, u, t));
                }
            }
            assert(stopped(cur, k as int, x, y) == stopped(post, k as int, x, y));
            self.simple_move_entity(k, x, y);
            assert(self.entities@[k as int] == shoved(post, m as int, k as int, cand));
            q += 1;
            assert forall|j: int|
                0 <= j < n && j != k as int implies #[trigger] self.entities@[j] == if shoves(
                    post,
                    m as int,
                    j,
                    cand,
                ) && (q < pushes@.len() ==> j < pushes@[q as int].0) {
                    shoved(post, m as int, j, cand)
                } else {
                    post[j]
                } by {
                assert(self.entities@[j] == cur[j]);
                if shoves(post, m as int, j, cand) {
                    let qj = choose|qq: int| 0 <= qq < pushes@.len() && pushes@[qq].0 == j;
                    if qj < q - 1 {
                        assert(pushes@[qj].0 < pushes@[q - 1].0);
                    } else if qj > q - 1 {
                        assert(pushes@[q - 1].0 < pushes@[qj].0);
                        if q < pushes@.len() {
                            if qj > q {
                                assert(pushes@[q as int].0 < pushes@[qj].0);
                            }
                        }
                    }
                }
            }
        }
        assert(self.entities@ =~= pushed_all(post, m as int, cand));
    }

    /// Tries to move the entity stored under `id` by `(dx, dy)`.
    ///
    /// An entity that is not stored is not moved (`false`). One without a
    /// collider, or that is not solid, moves without any test. Otherwise
    /// its box at the new place is tested against every other solid entity
    /// with a collider, where it stands now: the first unpushable one hit
    /// rejects the move and nothing changes (`false`). Else the mover takes
    /// the whole displacement and every pushable entity hit makes one
    /// restricted move along its push (`true`).
    pub fn move_entity(&mut self, id: EntityID, dx: i32, dy: i32) -> (r: bool)
        requires
            old(self).wf(),
            old(self).all_valid(),
        ensures
            final(self).wf(),
            final(self).all_valid(),
            final(self).ids() == old(self).ids(),
            final(self).next_id() == old(self).next_id(),
            !old(self).contains(id) ==> !r && final(self).entities() == old(self).entities(),
            forall|m: int|
                old(self).slot_of(id, m) ==> r == accepts(old(self).entities(), m, dx, dy)
                    && final(self).entities() == resolved(old(self).entities(), m, dx, dy),
            // Only positions change.
            forall|k: int|
                0 <= k < final(self).entities().len() ==> {
                    let e = #[trigger] final(self).entities()[k];
                    e == placed(old(self).entities()[k], e.position_x, e.position_y)
                },
            // A mover without a collider always moves, by the whole displacement.
            forall|m: int|
                old(self).slot_of(id, m) && old(self).entities()[m].collider is None ==> r
                    && final(self).entities() == old(self).entities().update(
                    m,
                    displaced(old(self).entities()[m], dx, dy),
                ),
            // A solid mover with a collider whose new box overlaps a solid,
            // unpushable entity does not move, and nothing else changes.
            forall|m: int, j: int|
                old(self).slot_of(id, m) && !passes_through(old(self).entities()[m]) && blocks(
                    old(self).entities(),
                    m,
                    j,
                    candidate(old(self).entities()[m], dx, dy),
                ) ==> !r && final(self).entities() == old(self).entities(),
            // An accepted move takes the mover exactly by the displacement.
            forall|m: int|
                old(self).slot_of(id, m) && r ==> final(self).entities()[m] == displaced(
                    old(self).entities()[m],
                    dx,
                    dy,
                ),
            // Any other entity moves by at most `MAX_PUSH` on each axis.
            forall|k: int|
                0 <= k < old(self).entities().len() && old(self).ids()[k] != id ==> {
                    let (a, b) = (old(self).entities()[k], #[trigger] final(self).entities()[k]);
                    &&& -(MAX_PUSH as int) <= b.position_x - a.position_x <= MAX_PUSH
                    &&& -(MAX_PUSH as int) <= b.position_y - a.position_y <= MAX_PUSH
                },
            // Only the entities that the mover itself shoves can move: a
            // pushed entity pushes nothing further.
            forall|m: int, k: int|
                #![trigger old(self).slot_of(id, m), final(self).entities()[k]]
                old(self).slot_of(id, m) && 0 <= k < old(self).entities().len() && k != m && (
                passes_through(old(self).entities()[m]) || !shoves(
                    old(self).entities(),
                    m,
                    k,
                    candidate(old(self).entities()[m], dx, dy),
                )) ==> final(self).entities()[k] == old(self).entities()[k],
            // A zero displacement of an entity that hits nothing succeeds and
            // changes nothing.
            forall|m: int|
                old(self).slot_of(id, m) && dx == 0 && dy == 0 && (passes_through(
                    old(self).entities()[m],
                ) || forall|j: int| !hits(old(self).entities(), m, j, candidate(old(self).entities()[m], 0, 0)))
                    ==> r && final(self).entities() == old(self).entities(),
    {
        let m = match self.find(id) {
            Some(i) => i,
            None => return false,
        };
        let ghost es = self.entities@;
        proof {
            lemma_resolved_frame(es, m as int, dx, dy);
            lemma_zero_move(es, m as int);
        }
        let new_x = shift(self.entities[m].position_x, dx);
        let new_y = shift(self.entities[m].position_y, dy);
        let collider = self.entities[m].collider;
        if !self.entities[m].solid || collider.is_none() {
            self.entities[m].position_x = new_x;
            self.entities[m].position_y = new_y;
            assert(self.entities@ =~= es.update(m as int, displaced(es[m as int], dx, dy)));
            return true;
        }
        let cand = collider.unwrap().bounds_at(new_x, new_y);
        proof {
            lemma_entity_bounds_bounded(displaced(es[m as int], dx, dy));
        }
        let pushes = match self.collect_pushes(m, cand) {
            Some(p) => p,
            None => return false,
        };
        self.entities[m].position_x = new_x;
        self.entities[m].position_y = new_y;
        let ghost post = self.entities@;
        assert(post =~= es.update(m as int, displaced(es[m as int], dx, dy)));
        assert forall|k: int| #[trigger] shoves(post, m as int, k, cand) == shoves(es, m as int, k, cand) by {
            if 0 <= k < es.len() && k != m {
                assert(post[k] == es[k]);
            }
        }
        assert(push_list(post, m as int, cand, pushes@)) by {
            assert forall|q: int| 0 <= q < pushes@.len() implies #[trigger] push_of(
                post,
                m as int,
                pushes@[q].0 as int,
                cand,
            ) == push_of(es, m as int, pushes@[q].0 as int, cand) by {
                assert(shoves(es, m as int, pushes@[q].0 as int, cand));
            }
        }
        self.process_pushed_entities(m, cand, pushes);
        proof {
            assert forall|k: int| 0 <= k < self.entities@.len() implies #[trigger] self.entities@[k].is_valid() by {
                assert(es[k].is_valid());
            }
        }
        true
    }

    /// Every solid entity with a collider, other than `moving_id`, whose
    /// box overlaps `candidate`, with the penetration depths of `candidate`
    /// into it, in iteration order.
    pub fn query_collisions(&self, moving_id: EntityID, candidate: Bounds) -> (r: Vec<(EntityID, Overlap)>)
        requires
            self.wf(),
            bounded(candidate),
        ensures
            r@ == collisions(self.ids(), self.entities(), moving_id, candidate, self.entities().len() as int),
    {
        let n = self.entities.len();
        let mut found: Vec<(EntityID, Overlap)> = Vec::new();
        let mut j: usize = 0;
        while j < n
            invariant
                self.wf(),
                n == self.entities@.len(),
                j <= n,
                bounded(candidate),
                found@ == collisions(self.ids@, self.entities@, moving_id, candidate, j as int),
            decreases n - j,
        {
            let other = &self.entities[j];
            if self.ids[j] != moving_id && other.solid {
                if let Some(b) = other.get_collider_bounds() {
                    if overlaps(candidate, b) {
                        proof {
                            lemma_entity_bounds_bounded(*other);
                        }
                        found.push((self.ids[j], depths(candidate, b)));
                    }
                }
            }
            j += 1;
        }
        found
    }
}

} // verus!
