//! Simulation state and the per-tick orchestration.
//!
//! One tick runs, in order: gravity integration, collision detection,
//! movement resolution, movement application, and post-contact vertical
//! velocity zeroing.  The contact and movement buffers are per-tick scratch,
//! rebuilt from scratch every tick.

use vstd::prelude::*;

verus! {

use crate::fixed::DISP_LIMIT;
use crate::fixed::DT_LIMIT;
use crate::fixed::STEP_LIMIT;
use crate::fixed::WORLD_LIMIT;
use crate::fixed::mul_scale;
use crate::fixed::mul_scaled;
use crate::fixed::lemma_mul_scaled_bound;
use crate::rect::Rect;
use crate::rect::rect_bounded;
use crate::rect::rect_intersection;
use crate::rect::spec_intersects;
use crate::entity::Entity;
use crate::entity::all_bounded;
use crate::entity::ent_bounded;
use crate::entity::entity_of;
use crate::entity::find_entity;
use crate::entity::find_from;
use crate::entity::has_key;
use crate::entity::keys_unique;
use crate::entity::lemma_find_from;
use crate::entity::lemma_find_from_same_keys;
use crate::entity::lemma_has_key;
use crate::collision::CollisionDirection;
use crate::collision::CollisionEvent;
use crate::collision::all_events;
use crate::collision::compute_movement;
use crate::collision::lemma_event_live;
use crate::collision::lemma_record_source;
use crate::collision::lemma_records_keys_distinct;
use crate::collision::simulate_collisions;
use crate::collision::spec_dx;
use crate::collision::spec_dy;
use crate::collision::spec_moves;
use crate::collision::spec_records;

/// One gravity integration step for a single entity: a gravity-bound
/// entity's vertical velocity grows by `gravity * dt`.
pub open spec fn gravity_one(e: Entity, g: int, dt: int) -> Entity {
    if e.obeys_gravity {
        Entity {
            key: e.key,
            aabb: e.aabb,
            vx: e.vx,
            vy: (e.vy + mul_scaled(g, dt)) as i64,
            obeys_gravity: e.obeys_gravity,
            is_hazard: e.is_hazard,
        }
    } else {
        e
    }
}

/// The table after gravity integration.
pub open spec fn spec_gravity(s: Seq<Entity>, g: int, dt: int) -> Seq<Entity> {
    Seq::new(s.len(), |i: int| gravity_one(s[i], g, dt))
}

/// Some contact of the tick has this subject and a vertical side.
pub open spec fn spec_has_vertical(cols: Seq<CollisionEvent>, key: u32) -> bool {
    exists|k: int|
        0 <= k < cols.len() && (#[trigger] cols[k]).subject == key && (cols[k].dir
            == CollisionDirection::Above || cols[k].dir == CollisionDirection::Below)
}

/// Some contact of the tick has this subject and side `Above`: something
/// stands directly beneath the entity in its direction of fall.
pub open spec fn spec_grounded(cols: Seq<CollisionEvent>, key: u32) -> bool {
    exists|k: int|
        0 <= k < cols.len() && (#[trigger] cols[k]).subject == key && cols[k].dir
            == CollisionDirection::Above
}

/// Post-contact correction for a single entity: a gravity-bound entity
/// involved in a vertical contact as subject has its vertical velocity
/// consumed.
pub open spec fn cease_one(e: Entity, cols: Seq<CollisionEvent>) -> Entity {
    if e.obeys_gravity && spec_has_vertical(cols, e.key) {
        Entity {
            key: e.key,
            aabb: e.aabb,
            vx: e.vx,
            vy: 0,
            obeys_gravity: e.obeys_gravity,
            is_hazard: e.is_hazard,
        }
    } else {
        e
    }
}

/// The table after post-contact vertical velocity zeroing.
pub open spec fn spec_cease(s: Seq<Entity>, cols: Seq<CollisionEvent>) -> Seq<Entity> {
    Seq::new(s.len(), |i: int| cease_one(s[i], cols))
}

/// True iff some contact of the list has this subject and a vertical side.
fn has_vertical_contact(collisions: &Vec<CollisionEvent>, key: u32) -> (r: bool)
    ensures
        r == spec_has_vertical(collisions@, key),
{
    let n = collisions.len();
    let mut k: usize = 0;
    while k < n
        invariant
            0 <= k <= n,
            n == collisions@.len(),
            forall|m: int|
                0 <= m < k ==> !((#[trigger] collisions@[m]).subject == key && (collisions@[m].dir
                    == CollisionDirection::Above || collisions@[m].dir
                    == CollisionDirection::Below)),
        decreases n - k,
    {
        let c = collisions[k];
        if c.subject == key && (matches!(c.dir, CollisionDirection::Above) || matches!(
            c.dir,
            CollisionDirection::Below,
        )) {
            proof {
                assert((collisions@[k as int]).subject == key && (collisions@[k as int].dir
                    == CollisionDirection::Above || collisions@[k as int].dir
                    == CollisionDirection::Below));
            }
            return true;
        }
        k = k + 1;
    }
    false
}

/// Index of the first movement record with the given key at or past
/// position `i`, or `-1` where there is none.
pub open spec fn mov_find(ms: Seq<(u32, i64, i64)>, key: u32, i: int) -> int
    decreases ms.len() - i,
{
    if i < 0 || i >= ms.len() {
        -1
    } else if ms[i].0 == key {
        i
    } else {
        mov_find(ms, key, i + 1)
    }
}

/// `mov_find` returns the position of the first record with the key past
/// `i`, or `-1` where there is none.
pub proof fn lemma_mov_find(ms: Seq<(u32, i64, i64)>, key: u32, i: int)
    requires
        0 <= i <= ms.len(),
    ensures
        mov_find(ms, key, i) == -1 || i <= mov_find(ms, key, i) < ms.len(),
        mov_find(ms, key, i) >= 0 ==> ms[mov_find(ms, key, i)].0 == key && forall|m: int|
            i <= m < mov_find(ms, key, i) ==> ms[m].0 != key,
        mov_find(ms, key, i) == -1 ==> forall|m: int| i <= m < ms.len() ==> ms[m].0 != key,
    decreases ms.len() - i,
{
    if i < ms.len() && ms[i].0 != key {
        lemma_mov_find(ms, key, i + 1);
    }
}

/// The entity at position `i` of the table after the first `n` movement
/// records have been applied: the first entity carrying a moved key has the
/// record's displacement added to its position; every other entity stands
/// still.
pub open spec fn apply_one_upto(s: Seq<Entity>, ms: Seq<(u32, i64, i64)>, n: int, i: int) -> Entity {
    let e = s[i];
    let j = mov_find(ms, e.key, 0);
    if 0 <= j < n && i == find_from(s, e.key, 0) {
        Entity {
            key: e.key,
            aabb: Rect {
                x: (e.aabb.x + ms[j].1) as i64,
                y: (e.aabb.y + ms[j].2) as i64,
                w: e.aabb.w,
                h: e.aabb.h,
            },
            vx: e.vx,
            vy: e.vy,
            obeys_gravity: e.obeys_gravity,
            is_hazard: e.is_hazard,
        }
    } else {
        e
    }
}

/// The table after the first `n` movement records have been applied.
pub open spec fn spec_apply_upto(s: Seq<Entity>, ms: Seq<(u32, i64, i64)>, n: int) -> Seq<Entity> {
    Seq::new(s.len(), |i: int| apply_one_upto(s, ms, n, i))
}

/// The table after every movement record has been applied.
pub open spec fn spec_apply(s: Seq<Entity>, ms: Seq<(u32, i64, i64)>) -> Seq<Entity> {
    spec_apply_upto(s, ms, ms.len() as int)
}

/// The entity survives culling against the visibility window: its box
/// still intersects the window, or it carries the protected key.
pub open spec fn cull_keep(e: Entity, view: Rect, keep: u32) -> bool {
    spec_intersects(e.aabb, view) || e.key == keep
}

/// The first `i` entities that survive culling, in table order.
pub open spec fn spec_cull(s: Seq<Entity>, view: Rect, keep: u32, i: int) -> Seq<Entity>
    decreases i,
{
    if i <= 0 {
        Seq::empty()
    } else {
        let rest = spec_cull(s, view, keep, i - 1);
        if cull_keep(s[i - 1], view, keep) {
            rest.push(s[i - 1])
        } else {
            rest
        }
    }
}

/// Every surviving entity is one of the table's entities, at exactly one
/// position of the culled table.
pub proof fn lemma_cull_source(s: Seq<Entity>, view: Rect, keep: u32, n: int, k: int)
    requires
        0 <= n <= s.len(),
        0 <= k < spec_cull(s, view, keep, n).len(),
    ensures
        exists|m: int|
            0 <= m < n && #[trigger] s[m] == spec_cull(s, view, keep, n)[k] && cull_keep(
                s[m],
                view,
                keep,
            ) && spec_cull(s, view, keep, m).len() == k,
    decreases n,
{
    let rest = spec_cull(s, view, keep, n - 1);
    if k < rest.len() {
        lemma_cull_source(s, view, keep, n - 1, k);
        let m = choose|m: int|
            0 <= m < n - 1 && #[trigger] s[m] == rest[k] && cull_keep(s[m], view, keep)
                && spec_cull(s, view, keep, m).len() == k;
        assert(s[m] == spec_cull(s, view, keep, n)[k] && cull_keep(s[m], view, keep) && spec_cull(
            s,
            view,
            keep,
            m,
        ).len() == k);
    } else {
        assert(s[n - 1] == spec_cull(s, view, keep, n)[k] && cull_keep(s[n - 1], view, keep)
            && spec_cull(s, view, keep, n - 1).len() == k);
    }
}

/// The simulation: the entity table it exclusively owns, its tuning, and
/// the current tick's scratch buffers.
pub struct GameState {
    /// Gravity acceleration, fixed-point units per second squared; positive
    /// is downward.
    pub gravity: i64,
    /// The entity table.
    pub entities: Vec<Entity>,
    /// Next key to issue; all live keys are below it.
    pub next_key: u32,
    /// This tick's contacts, rebuilt every tick.
    pub frame_collisions: Vec<CollisionEvent>,
    /// This tick's movement records, rebuilt every tick.
    pub frame_movements: Vec<(u32, i64, i64)>,
}

/// This tick's contact list: detection runs on the gravity-integrated
/// table.
pub open spec fn tick_collisions(s: Seq<Entity>, g: int, dt: int) -> Seq<CollisionEvent> {
    all_events(spec_gravity(s, g, dt), dt)
}

/// This tick's movement records: resolution runs on the gravity-integrated
/// table and the fresh contact list.
pub open spec fn tick_movements(s: Seq<Entity>, g: int, dt: int) -> Seq<(u32, i64, i64)> {
    let sg = spec_gravity(s, g, dt);
    spec_records(sg, all_events(sg, dt), dt, sg.len() as int)
}

/// The entity table at the end of one tick: gravity integration, then
/// movement application, then post-contact vertical velocity zeroing.
pub open spec fn tick_entities(s: Seq<Entity>, g: int, dt: int) -> Seq<Entity> {
    let sg = spec_gravity(s, g, dt);
    let cols = all_events(sg, dt);
    spec_cease(spec_apply(sg, spec_records(sg, cols, dt, sg.len() as int)), cols)
}

/// Well-formed simulation state: keys are pairwise distinct and below
/// `next_key`, and gravity is a world-sized scalar.
pub open spec fn gs_wf(g: GameState) -> bool {
    &&& keys_unique(g.entities@)
    &&& forall|i: int| 0 <= i < g.entities@.len() ==> (#[trigger] g.entities@[i]).key < g.next_key
    &&& -WORLD_LIMIT <= g.gravity <= WORLD_LIMIT
}

impl GameState {
    /// Fresh simulation with an empty entity table and the given gravity.
    pub fn new(gravity: i64) -> (g: GameState)
        requires
            -WORLD_LIMIT <= gravity <= WORLD_LIMIT,
        ensures
            g.gravity == gravity,
            g.entities@ == Seq::<Entity>::empty(),
            g.next_key == 0,
            g.frame_collisions@ == Seq::<CollisionEvent>::empty(),
            g.frame_movements@ == Seq::<(u32, i64, i64)>::empty(),
            gs_wf(g),
    {
        GameState {
            gravity,
            entities: Vec::new(),
            next_key: 0,
            frame_collisions: Vec::new(),
            frame_movements: Vec::new(),
        }
    }

    /// Put the entity into the table under a freshly issued key, and return
    /// that key.
    pub fn add_entity(&mut self, entity: Entity) -> (key: u32)
        requires
            gs_wf(*old(self)),
            old(self).next_key < u32::MAX,
        ensures
            key == old(self).next_key,
            !has_key(old(self).entities@, key),
            final(self).entities@ == old(self).entities@.push(
                (Entity {
                    key,
                    aabb: entity.aabb,
                    vx: entity.vx,
                    vy: entity.vy,
                    obeys_gravity: entity.obeys_gravity,
                    is_hazard: entity.is_hazard,
                }),
            ),
            final(self).gravity == old(self).gravity,
            final(self).next_key == old(self).next_key + 1,
            final(self).frame_collisions@ == old(self).frame_collisions@,
            final(self).frame_movements@ == old(self).frame_movements@,
            gs_wf(*final(self)),
    {
        let key = self.next_key;
        let mut stored = entity;
        stored.key = key;
        self.entities.push(stored);
        self.next_key = self.next_key + 1;
        proof {
            lemma_find_from(old(self).entities@, key, 0);
        }
        key
    }

    /// The first entity carrying the key, or `None` where no entity does.
    pub fn get_entity(&self, key: u32) -> (r: Option<Entity>)
        ensures
            match r {
                Some(e) => has_key(self.entities@, key) && e == entity_of(self.entities@, key),
                None => !has_key(self.entities@, key),
            },
    {
        match find_entity(&self.entities, key) {
            Some(i) => Some(self.entities[i]),
            None => None,
        }
    }

    /// Number of live entities.
    pub fn entity_count(&self) -> (n: usize)
        ensures
            n == self.entities@.len(),
    {
        self.entities.len()
    }

    /// The entity was the subject of an `Above` contact this tick:
    /// something lies directly beneath it in its direction of fall.
    pub fn is_grounded(&self, key: u32) -> (r: bool)
        ensures
            r == spec_grounded(self.frame_collisions@, key),
    {
        let n = self.frame_collisions.len();
        let mut k: usize = 0;
        while k < n
            invariant
                0 <= k <= n,
                n == self.frame_collisions@.len(),
                forall|m: int|
                    0 <= m < k ==> !((#[trigger] self.frame_collisions@[m]).subject == key
                        && self.frame_collisions@[m].dir == CollisionDirection::Above),
            decreases n - k,
        {
            let c = self.frame_collisions[k];
            if c.subject == key && matches!(c.dir, CollisionDirection::Above) {
                proof {
                    assert((self.frame_collisions@[k as int]).subject == key
                        && self.frame_collisions@[k as int].dir == CollisionDirection::Above);
                }
                return true;
            }
            k = k + 1;
        }
        false
    }

    /// Drop every entity whose box no longer intersects the visibility
    /// window, keeping the protected entity whatever its position.
    pub fn cull_entities(&mut self, view: Rect, keep_key: u32)
        requires
            gs_wf(*old(self)),
            all_bounded(old(self).entities@, 10 * DISP_LIMIT as int),
            rect_bounded(view, 10 * DISP_LIMIT as int),
        ensures
            final(self).entities@ == spec_cull(
                old(self).entities@,
                view,
                keep_key,
                old(self).entities@.len() as int,
            ),
            final(self).gravity == old(self).gravity,
            final(self).next_key == old(self).next_key,
            final(self).frame_collisions@ == old(self).frame_collisions@,
            final(self).frame_movements@ == old(self).frame_movements@,
            gs_wf(*final(self)),
    {
        let ghost s = self.entities@;
        let n = self.entities.len();
        let mut out: Vec<Entity> = Vec::new();
        let mut i: usize = 0;
        while i < n
            invariant
                0 <= i <= n,
                n == s.len(),
                s == self.entities@,
                all_bounded(s, 10 * DISP_LIMIT as int),
                rect_bounded(view, 10 * DISP_LIMIT as int),
                out@ == spec_cull(s, view, keep_key, i as int),
            decreases n - i,
        {
            let e = self.entities[i];
            proof {
                assert(ent_bounded(s[i as int], 10 * DISP_LIMIT as int));
            }
            if rect_intersection(e.aabb, view) || e.key == keep_key {
                out.push(e);
            }
            i = i + 1;
        }
        self.entities = out;
        proof {
            let culled = spec_cull(s, view, keep_key, s.len() as int);
            assert forall|k1: int, k2: int| 0 <= k1 < k2 < culled.len() implies (
            #[trigger] culled[k1]).key != (#[trigger] culled[k2]).key by {
                lemma_cull_source(s, view, keep_key, s.len() as int, k1);
                lemma_cull_source(s, view, keep_key, s.len() as int, k2);
                let m1 = choose|m: int|
                    0 <= m < s.len() && #[trigger] s[m] == culled[k1] && cull_keep(
                        s[m],
                        view,
                        keep_key,
                    ) && spec_cull(s, view, keep_key, m).len() == k1;
                let m2 = choose|m: int|
                    0 <= m < s.len() && #[trigger] s[m] == culled[k2] && cull_keep(
                        s[m],
                        view,
                        keep_key,
                    ) && spec_cull(s, view, keep_key, m).len() == k2;
                assert(m1 != m2);
            }
            assert forall|k: int| 0 <= k < culled.len() implies (#[trigger] culled[k]).key < old(
                self,
            ).next_key by {
                lemma_cull_source(s, view, keep_key, s.len() as int, k);
            }
        }
    }

    /// Advance the simulation by one tick: accumulate gravity, detect this
    /// tick's contacts, resolve them into clamped movement records, apply
    /// those to the entity positions, and zero vertical velocity on vertical
    /// contact.  The previous tick's contact and movement lists are
    /// discarded first.
    pub fn update(&mut self, dt: i64)
        requires
            gs_wf(*old(self)),
            all_bounded(old(self).entities@, WORLD_LIMIT as int),
            -DT_LIMIT <= dt <= DT_LIMIT,
        ensures
            final(self).entities@ == tick_entities(
                old(self).entities@,
                old(self).gravity as int,
                dt as int,
            ),
            final(self).frame_collisions@ == tick_collisions(
                old(self).entities@,
                old(self).gravity as int,
                dt as int,
            ),
            final(self).frame_movements@ == tick_movements(
                old(self).entities@,
                old(self).gravity as int,
                dt as int,
            ),
            final(self).gravity == old(self).gravity,
            final(self).next_key == old(self).next_key,
            gs_wf(*final(self)),
    {
        let ghost s0 = self.entities@;
        self.frame_collisions.clear();
        self.frame_movements.clear();
        let grav = self.gravity;
        GameState::apply_gravity(&mut self.entities, grav, dt);
        let ghost sg = self.entities@;
        simulate_collisions(&self.entities, &mut self.frame_collisions, dt);
        let ghost cols = self.frame_collisions@;
        proof {
            assert(cols =~= all_events(sg, dt as int));
            assert forall|k: int| 0 <= k < cols.len() implies has_key(
                sg,
                (#[trigger] cols[k]).object,
            ) by {
                lemma_event_live(sg, dt as int, k);
            }
        }
        compute_movement(&self.entities, &self.frame_collisions, &mut self.frame_movements, dt);
        let ghost recs = self.frame_movements@;
        proof {
            assert(recs =~= spec_records(sg, cols, dt as int, sg.len() as int));
            assert forall|i: int, j: int| 0 <= i < j < sg.len() implies (#[trigger] sg[i]).key != (
            #[trigger] sg[j]).key by {
                assert(sg[i].key == s0[i].key);
                assert(sg[j].key == s0[j].key);
            }
            assert(keys_unique(sg));
            lemma_records_keys_distinct(sg, cols, dt as int, sg.len() as int);
            assert forall|k: int| 0 <= k < recs.len() implies has_key(
                sg,
                (#[trigger] recs[k]).0,
            ) by {
                lemma_record_source(sg, cols, dt as int, sg.len() as int, k);
                let m = choose|m: int|
                    0 <= m < sg.len() && #[trigger] sg[m].key == recs[k].0 && spec_moves(
                        sg,
                        cols,
                        sg[m],
                        dt as int,
                    ) && recs[k] == (
                        sg[m].key,
                        spec_dx(sg, cols, sg[m], dt as int) as i64,
                        spec_dy(sg, cols, sg[m], dt as int) as i64,
                    ) && spec_records(sg, cols, dt as int, m).len() == k;
                lemma_has_key(sg, sg[m].key, m);
            }
        }
        GameState::apply_movement(&mut self.entities, &self.frame_movements);
        GameState::cease_falling(&mut self.entities, &self.frame_collisions);
        proof {
            let moved = spec_apply(sg, recs);
            let rested = spec_cease(moved, cols);
            assert(self.entities@ == rested);
            assert forall|i: int| 0 <= i < rested.len() implies (#[trigger] rested[i]).key
                == s0[i].key by {
                assert(moved[i] == apply_one_upto(sg, recs, recs.len() as int, i));
                assert(rested[i] == cease_one(moved[i], cols));
            }
            assert(keys_unique(self.entities@));
            assert forall|i: int| 0 <= i < self.entities@.len() implies (
            #[trigger] self.entities@[i]).key < self.next_key by {
                assert(self.entities@[i].key == s0[i].key);
            }
        }
    }

    /// Accumulate gravity into the vertical velocity of every gravity-bound
    /// entity.
    pub fn apply_gravity(entities: &mut Vec<Entity>, gravity: i64, dt: i64)
        requires
            all_bounded(old(entities)@, WORLD_LIMIT as int),
            -WORLD_LIMIT <= gravity <= WORLD_LIMIT,
            -DT_LIMIT <= dt <= DT_LIMIT,
        ensures
            final(entities)@ == spec_gravity(old(entities)@, gravity as int, dt as int),
            all_bounded(final(entities)@, STEP_LIMIT as int),
    {
        let ghost s = old(entities)@;
        proof {
            lemma_mul_scaled_bound(gravity as int, dt as int, WORLD_LIMIT as int, DT_LIMIT as int);
        }
        let pull = mul_scale(gravity, dt);
        let n = entities.len();
        let mut i: usize = 0;
        while i < n
            invariant
                0 <= i <= n,
                n == s.len(),
                entities@.len() == s.len(),
                all_bounded(s, WORLD_LIMIT as int),
                pull == mul_scaled(gravity as int, dt as int),
                -10_000_000_000_000 <= pull <= 10_000_000_000_000,
                forall|m: int| 0 <= m < i ==> entities@[m] == spec_gravity(s, gravity as int, dt as int)[m],
                forall|m: int| i <= m < s.len() ==> entities@[m] == s[m],
            decreases n - i,
        {
            let e = entities[i];
            proof {
                assert(e == s[i as int]);
                assert(ent_bounded(s[i as int], WORLD_LIMIT as int));
            }
            if e.obeys_gravity {
                let mut upd = e;
                upd.vy = e.vy + pull;
                entities.set(i, upd);
            }
            i = i + 1;
        }
        proof {
            assert(entities@ =~= spec_gravity(s, gravity as int, dt as int));
            assert forall|m: int| 0 <= m < entities@.len() implies ent_bounded(
                #[trigger] entities@[m],
                STEP_LIMIT as int,
            ) by {
                assert(ent_bounded(s[m], WORLD_LIMIT as int));
            }
        }
    }

    /// Add each movement record's displacement to its entity's position.
    /// Entities without a record are stationary this tick.
    pub fn apply_movement(entities: &mut Vec<Entity>, movements: &Vec<(u32, i64, i64)>)
        requires
            all_bounded(old(entities)@, STEP_LIMIT as int),
            forall|k: int|
                0 <= k < movements@.len() ==> has_key(old(entities)@, (#[trigger] movements@[k]).0),
            forall|k: int|
                0 <= k < movements@.len() ==> -DISP_LIMIT <= (#[trigger] movements@[k]).1
                    <= DISP_LIMIT && -DISP_LIMIT <= movements@[k].2 <= DISP_LIMIT,
            forall|k1: int, k2: int|
                0 <= k1 < k2 < movements@.len() ==> (#[trigger] movements@[k1]).0 != (
                #[trigger] movements@[k2]).0,
        ensures
            final(entities)@ == spec_apply(old(entities)@, movements@),
            all_bounded(final(entities)@, STEP_LIMIT as int + DISP_LIMIT as int),
    {
        let ghost s = old(entities)@;
        let ghost ms = movements@;
        let n = movements.len();
        let mut k: usize = 0;
        while k < n
            invariant
                0 <= k <= n,
                n == ms.len(),
                ms == movements@,
                all_bounded(s, STEP_LIMIT as int),
                forall|m: int| 0 <= m < ms.len() ==> has_key(s, (#[trigger] ms[m]).0),
                forall|m: int|
                    0 <= m < ms.len() ==> -DISP_LIMIT <= (#[trigger] ms[m]).1 <= DISP_LIMIT
                        && -DISP_LIMIT <= ms[m].2 <= DISP_LIMIT,
                forall|k1: int, k2: int|
                    0 <= k1 < k2 < ms.len() ==> (#[trigger] ms[k1]).0 != (#[trigger] ms[k2]).0,
                entities@ == spec_apply_upto(s, ms, k as int),
            decreases n - k,
        {
            let m = movements[k];
            proof {
                assert forall|i: int| 0 <= i < s.len() implies (#[trigger] entities@[i]).key
                    == s[i].key by {
                    assert(entities@[i] == apply_one_upto(s, ms, k as int, i));
                }
                lemma_find_from_same_keys(s, entities@, m.0, 0);
                assert(has_key(s, ms[k as int].0));
            }
            let idx: usize = match find_entity(entities, m.0) {
                Some(idx) => idx,
                None => {
                    proof {
                        assert(false);
                    }
                    0
                },
            };
            proof {
                lemma_mov_find(ms, m.0, 0);
                let j0 = mov_find(ms, m.0, 0);
                assert(j0 != -1);
                if j0 < k as int {
                    assert(ms[j0].0 == ms[k as int].0);
                    assert(false);
                }
                assert(j0 == k as int);
                lemma_find_from(s, m.0, 0);
                assert(idx as int == find_from(s, m.0, 0));
                assert(s[idx as int].key == m.0);
                assert(entities@[idx as int] == apply_one_upto(s, ms, k as int, idx as int));
                assert(entities@[idx as int] == s[idx as int]);
                assert(ent_bounded(s[idx as int], STEP_LIMIT as int));
            }
            let e = entities[idx];
            let mut upd = e;
            upd.aabb.x = e.aabb.x + m.1;
            upd.aabb.y = e.aabb.y + m.2;
            entities.set(idx, upd);
            proof {
                assert forall|i: int| 0 <= i < s.len() implies entities@[i] == apply_one_upto(
                    s,
                    ms,
                    k as int + 1,
                    i,
                ) by {
                    if i == idx as int {
                        assert(mov_find(ms, s[i].key, 0) == k as int);
                    } else {
                        let e2 = s[i];
                        let j2 = mov_find(ms, e2.key, 0);
                        lemma_mov_find(ms, e2.key, 0);
                        if j2 == k as int {
                            assert(ms[k as int].0 == e2.key);
                            assert(find_from(s, e2.key, 0) == idx as int);
                            assert(i != find_from(s, e2.key, 0));
                        }
                    }
                }
                assert(entities@ =~= spec_apply_upto(s, ms, k as int + 1));
            }
            k = k + 1;
        }
        proof {
            assert(entities@ == spec_apply_upto(s, ms, n as int));
            assert forall|i: int| 0 <= i < entities@.len() implies ent_bounded(
                #[trigger] entities@[i],
                STEP_LIMIT as int + DISP_LIMIT as int,
            ) by {
                assert(entities@[i] == apply_one_upto(s, ms, n as int, i));
                assert(ent_bounded(s[i], STEP_LIMIT as int));
                let j = mov_find(ms, s[i].key, 0);
                lemma_mov_find(ms, s[i].key, 0);
            }
        }
    }

    /// Zero the vertical velocity of every gravity-bound entity that was the
    /// subject of a vertical contact this tick: resting or head contact
    /// consumes vertical velocity.
    pub fn cease_falling(entities: &mut Vec<Entity>, collisions: &Vec<CollisionEvent>)
        ensures
            final(entities)@ == spec_cease(old(entities)@, collisions@),
    {
        let ghost s = old(entities)@;
        let n = entities.len();
        let mut i: usize = 0;
        while i < n
            invariant
                0 <= i <= n,
                n == s.len(),
                entities@.len() == s.len(),
                forall|m: int| 0 <= m < i ==> entities@[m] == spec_cease(s, collisions@)[m],
                forall|m: int| i <= m < s.len() ==> entities@[m] == s[m],
            decreases n - i,
        {
            let e = entities[i];
            if e.obeys_gravity && has_vertical_contact(collisions, e.key) {
                let mut upd = e;
                upd.vy = 0;
                entities.set(i, upd);
            }
            i = i + 1;
        }
        proof {
            assert(entities@ =~= spec_cease(s, collisions@));
        }
    }
}

} // verus!
