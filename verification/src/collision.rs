//! Collision detection and movement resolution.
//!
//! For every ordered pair of distinct entities, the detector translates the
//! subject's box by one tick's displacement, tests it against the object's
//! current box, and classifies the face of the object being approached.  The
//! resolver then turns the tick's contacts into per-axis clamped
//! displacements, so that an entity stops exactly at contact instead of
//! passing through.

use vstd::prelude::*;

verus! {

use crate::fixed::DISP_LIMIT;
use crate::fixed::DT_LIMIT;
use crate::fixed::STEP_LIMIT;
use crate::fixed::mul_scale;
use crate::fixed::mul_scaled;
use crate::fixed::lemma_mul_scaled_zero;
use crate::rect::Rect;
use crate::rect::rect_bounded;
use crate::rect::rect_bot;
use crate::rect::rect_left;
use crate::rect::rect_right;
use crate::rect::rect_top;
use crate::rect::intervals_overlap;
use crate::rect::rect_intersection;
use crate::entity::Entity;
use crate::entity::all_bounded;
use crate::entity::disp_x;
use crate::entity::disp_y;
use crate::entity::ent_bounded;
use crate::entity::entity_of;
use crate::entity::find_entity;
use crate::entity::has_key;
use crate::entity::lemma_has_key;
use crate::entity::keys_unique;

/// The face of the object that the subject's movement is predicted to cross.
#[derive(Debug, Clone, Copy, PartialEq, Eq, Structural)]
pub enum CollisionDirection {
    Above,
    Left,
    Right,
    Below,
}

/// One predicted contact: the moving `subject` would cross the `dir` face of
/// the `object` this tick.
#[derive(Debug, Clone, Copy, PartialEq, Eq, Structural)]
pub struct CollisionEvent {
    pub subject: u32,
    pub object: u32,
    pub dir: CollisionDirection,
}

/// Which face of `object` the subject crossed, given its box before
/// (`sold`) and after (`snew`) a tentative full move.  The four directional
/// conditions are evaluated in the fixed order Left, Right, Above, Below and
/// the first match wins; where none holds (the boxes already overlapped
/// before any movement, or a degenerate case) the conservative fallback is
/// `Below`.
pub open spec fn spec_collision_direction(sold: Rect, snew: Rect, obj: Rect) -> CollisionDirection {
    if rect_right(sold) <= rect_left(obj) && rect_right(snew) >= rect_left(obj) {
        CollisionDirection::Left
    } else if rect_left(sold) >= rect_right(obj) && rect_left(snew) <= rect_right(obj) {
        CollisionDirection::Right
    } else if rect_bot(sold) <= rect_top(obj) && rect_bot(snew) >= rect_top(obj) {
        CollisionDirection::Above
    } else if rect_top(sold) >= rect_bot(obj) && rect_top(snew) <= rect_bot(obj) {
        CollisionDirection::Below
    } else {
        CollisionDirection::Below
    }
}

/// Classify the face of `object` crossed by a subject moving from
/// `subject_old` to `subject_desired`.
pub fn rect_collision_direction(subject_old: Rect, subject_desired: Rect, object: Rect) -> (d:
    CollisionDirection)
    requires
        rect_bounded(subject_old, 100 * STEP_LIMIT as int),
        rect_bounded(subject_desired, 100 * STEP_LIMIT as int),
        rect_bounded(object, 100 * STEP_LIMIT as int),
    ensures
        d == spec_collision_direction(subject_old, subject_desired, object),
{
    if subject_old.x + subject_old.w <= object.x && subject_desired.x + subject_desired.w
        >= object.x {
        CollisionDirection::Left
    } else if subject_old.x >= object.x + object.w && subject_desired.x <= object.x + object.w {
        CollisionDirection::Right
    } else if subject_old.y + subject_old.h <= object.y && subject_desired.y + subject_desired.h
        >= object.y {
        CollisionDirection::Above
    } else if subject_old.y >= object.y + object.h && subject_desired.y <= object.y + object.h {
        CollisionDirection::Below
    } else {
        CollisionDirection::Below
    }
}

/// The box the subject would occupy after its full-tick displacement
/// overlaps the object's current box.
pub open spec fn spec_pair_collides(sub: Entity, obj: Entity, t: int) -> bool {
    let dx = disp_x(sub, t);
    let dy = disp_y(sub, t);
    &&& intervals_overlap(
        sub.aabb.x + dx,
        sub.aabb.x + dx + sub.aabb.w,
        rect_left(obj.aabb),
        rect_right(obj.aabb),
    )
    &&& intervals_overlap(
        sub.aabb.y + dy,
        sub.aabb.y + dy + sub.aabb.h,
        rect_top(obj.aabb),
        rect_bot(obj.aabb),
    )
}

/// Side classification for the pair: the subject's old box against its box
/// shifted by one tick's displacement.
pub open spec fn spec_pair_direction(sub: Entity, obj: Entity, t: int) -> CollisionDirection {
    let dx = disp_x(sub, t);
    let dy = disp_y(sub, t);
    if rect_right(sub.aabb) <= rect_left(obj.aabb) && rect_right(sub.aabb) + dx >= rect_left(
        obj.aabb,
    ) {
        CollisionDirection::Left
    } else if rect_left(sub.aabb) >= rect_right(obj.aabb) && rect_left(sub.aabb) + dx <= rect_right(
        obj.aabb,
    ) {
        CollisionDirection::Right
    } else if rect_bot(sub.aabb) <= rect_top(obj.aabb) && rect_bot(sub.aabb) + dy >= rect_top(
        obj.aabb,
    ) {
        CollisionDirection::Above
    } else if rect_top(sub.aabb) >= rect_bot(obj.aabb) && rect_top(sub.aabb) + dy <= rect_bot(
        obj.aabb,
    ) {
        CollisionDirection::Below
    } else {
        CollisionDirection::Below
    }
}

/// The contact event recorded for a colliding pair.
pub open spec fn spec_event(sub: Entity, obj: Entity, t: int) -> CollisionEvent {
    CollisionEvent { subject: sub.key, object: obj.key, dir: spec_pair_direction(sub, obj, t) }
}

/// Contacts of subject `i` against objects `0 .. j`, in object order.
pub open spec fn events_row(s: Seq<Entity>, i: int, j: int, t: int) -> Seq<CollisionEvent>
    decreases j,
{
    if j <= 0 {
        Seq::empty()
    } else {
        let rest = events_row(s, i, j - 1, t);
        if i != j - 1 && spec_pair_collides(s[i], s[j - 1], t) {
            rest.push(spec_event(s[i], s[j - 1], t))
        } else {
            rest
        }
    }
}

/// Contacts of subjects `0 .. i`, each against the whole table, in subject
/// order.
pub open spec fn events_upto(s: Seq<Entity>, i: int, t: int) -> Seq<CollisionEvent>
    decreases i,
{
    if i <= 0 {
        Seq::empty()
    } else {
        events_upto(s, i - 1, t) + events_row(s, i - 1, s.len() as int, t)
    }
}

/// All contacts of one tick: every ordered pair of distinct entities whose
/// predicted overlap holds, in subject-major order.
pub open spec fn all_events(s: Seq<Entity>, t: int) -> Seq<CollisionEvent> {
    events_upto(s, s.len() as int, t)
}

/// Predict this tick's contacts and append them to `collisions`: for every
/// ordered pair of distinct entities, the subject's box translated by
/// `velocity * t` is tested against the object's current box, and a hit is
/// classified by the face being approached.
pub fn simulate_collisions(entities: &Vec<Entity>, collisions: &mut Vec<CollisionEvent>, t: i64)
    requires
        all_bounded(entities@, STEP_LIMIT as int),
        -DT_LIMIT <= t <= DT_LIMIT,
    ensures
        final(collisions)@ == old(collisions)@ + all_events(entities@, t as int),
{
    let ghost s = entities@;
    let n = entities.len();
    let mut i: usize = 0;
    while i < n
        invariant
            0 <= i <= n,
            n == s.len(),
            s == entities@,
            all_bounded(s, STEP_LIMIT as int),
            -DT_LIMIT <= t <= DT_LIMIT,
            collisions@ == old(collisions)@ + events_upto(s, i as int, t as int),
        decreases n - i,
    {
        let subject = entities[i];
        let dx = mul_scale(subject.vx, t);
        let dy = mul_scale(subject.vy, t);
        let subject_rect_old = subject.aabb;
        let subject_rect_desired = Rect {
            x: subject_rect_old.x + dx,
            y: subject_rect_old.y + dy,
            w: subject_rect_old.w,
            h: subject_rect_old.h,
        };
        let mut j: usize = 0;
        while j < n
            invariant
                0 <= j <= n,
                0 <= i < n,
                n == s.len(),
                s == entities@,
                all_bounded(s, STEP_LIMIT as int),
                -DT_LIMIT <= t <= DT_LIMIT,
                subject == s[i as int],
                dx == disp_x(subject, t as int),
                dy == disp_y(subject, t as int),
                -DISP_LIMIT <= dx <= DISP_LIMIT,
                -DISP_LIMIT <= dy <= DISP_LIMIT,
                subject_rect_old == subject.aabb,
                subject_rect_desired == (Rect {
                    x: (subject.aabb.x + dx) as i64,
                    y: (subject.aabb.y + dy) as i64,
                    w: subject.aabb.w,
                    h: subject.aabb.h,
                }),
                collisions@ == old(collisions)@ + events_upto(s, i as int, t as int) + events_row(
                    s,
                    i as int,
                    j as int,
                    t as int,
                ),
            decreases n - j,
        {
            if j != i {
                let object = entities[j];
                let object_rect = object.aabb;
                if rect_intersection(subject_rect_desired, object_rect) {
                    let collision_dir = rect_collision_direction(
                        subject_rect_old,
                        subject_rect_desired,
                        object_rect,
                    );
                    proof {
                        assert(spec_pair_collides(s[i as int], s[j as int], t as int));
                        assert(collision_dir == spec_pair_direction(
                            s[i as int],
                            s[j as int],
                            t as int,
                        ));
                    }
                    collisions.push(
                        CollisionEvent { dir: collision_dir, subject: subject.key, object: object.key },
                    );
                } else {
                    proof {
                        assert(!spec_pair_collides(s[i as int], s[j as int], t as int));
                    }
                }
            }
            j = j + 1;
        }
        proof {
            assert(events_upto(s, i as int + 1, t as int) == events_upto(s, i as int, t as int)
                + events_row(s, i as int, n as int, t as int));
        }
        i = i + 1;
    }
    proof {
        assert(collisions@ == old(collisions)@ + all_events(entities@, t as int));
    }
}

/// The displacement along the contact's axis that would bring the subject
/// `e` exactly to the crossed face of the contact's object: for a `Left`
/// contact, the object's left edge minus the subject's right edge, and so
/// on per face.
pub open spec fn spec_gap(s: Seq<Entity>, e: Entity, c: CollisionEvent) -> int {
    let o = entity_of(s, c.object).aabb;
    match c.dir {
        CollisionDirection::Left => rect_left(o) - rect_right(e.aabb),
        CollisionDirection::Above => rect_top(o) - rect_bot(e.aabb),
        CollisionDirection::Right => rect_right(o) - rect_left(e.aabb),
        CollisionDirection::Below => rect_bot(o) - rect_top(e.aabb),
    }
}

/// The tighter of two axis bounds: the smaller for the positive directions
/// (`Left`, `Above`), the larger for the negative ones (`Right`, `Below`).
pub open spec fn tighter(dir: CollisionDirection, g: int, m: int) -> int {
    if dir == CollisionDirection::Left || dir == CollisionDirection::Above {
        if g < m {
            g
        } else {
            m
        }
    } else {
        if g > m {
            g
        } else {
            m
        }
    }
}

/// The tightest axis bound that the first `n` contacts with subject `e` and
/// side `dir` put on `e`'s displacement; `None` where there is no such
/// contact.
pub open spec fn spec_limit(
    s: Seq<Entity>,
    cols: Seq<CollisionEvent>,
    e: Entity,
    dir: CollisionDirection,
    n: int,
) -> Option<int>
    decreases n,
{
    if n <= 0 {
        Option::None
    } else {
        let rest = spec_limit(s, cols, e, dir, n - 1);
        if cols[n - 1].subject == e.key && cols[n - 1].dir == dir {
            let g = spec_gap(s, e, cols[n - 1]);
            match rest {
                Option::None => Option::Some(g),
                Option::Some(m) => Option::Some(tighter(dir, g, m)),
            }
        } else {
            rest
        }
    }
}

/// Clamped horizontal displacement of `e` for one tick: the raw displacement
/// `vx * dt`, clamped to the tightest `Left` bound when moving rightward and
/// to the tightest `Right` bound when moving leftward; zero raw displacement
/// moves nothing.
pub open spec fn spec_dx(s: Seq<Entity>, cols: Seq<CollisionEvent>, e: Entity, dt: int) -> int {
    let raw = mul_scaled(e.vx as int, dt);
    if raw > 0 {
        match spec_limit(s, cols, e, CollisionDirection::Left, cols.len() as int) {
            Option::None => raw,
            Option::Some(b) => if raw < b {
                raw
            } else {
                b
            },
        }
    } else if raw < 0 {
        match spec_limit(s, cols, e, CollisionDirection::Right, cols.len() as int) {
            Option::None => raw,
            Option::Some(b) => if raw > b {
                raw
            } else {
                b
            },
        }
    } else {
        0
    }
}

/// Clamped vertical displacement of `e` for one tick, against the `Above`
/// and `Below` bounds.
pub open spec fn spec_dy(s: Seq<Entity>, cols: Seq<CollisionEvent>, e: Entity, dt: int) -> int {
    let raw = mul_scaled(e.vy as int, dt);
    if raw > 0 {
        match spec_limit(s, cols, e, CollisionDirection::Above, cols.len() as int) {
            Option::None => raw,
            Option::Some(b) => if raw < b {
                raw
            } else {
                b
            },
        }
    } else if raw < 0 {
        match spec_limit(s, cols, e, CollisionDirection::Below, cols.len() as int) {
            Option::None => raw,
            Option::Some(b) => if raw > b {
                raw
            } else {
                b
            },
        }
    } else {
        0
    }
}

/// The entity moves this tick: its clamped displacement is non-zero on at
/// least one axis.
pub open spec fn spec_moves(s: Seq<Entity>, cols: Seq<CollisionEvent>, e: Entity, dt: int) -> bool {
    spec_dx(s, cols, e, dt) != 0 || spec_dy(s, cols, e, dt) != 0
}

/// Movement records of the first `i` entities: one `(key, dx, dy)` per
/// entity whose clamped displacement is non-zero, in table order.
pub open spec fn spec_records(s: Seq<Entity>, cols: Seq<CollisionEvent>, dt: int, i: int) -> Seq<
    (u32, i64, i64),
>
    decreases i,
{
    if i <= 0 {
        Seq::empty()
    } else {
        let rest = spec_records(s, cols, dt, i - 1);
        let e = s[i - 1];
        if spec_moves(s, cols, e, dt) {
            rest.push(
                (e.key, spec_dx(s, cols, e, dt) as i64, spec_dy(s, cols, e, dt) as i64),
            )
        } else {
            rest
        }
    }
}

/// Tightest bound that contacts with subject `e` and side `dir` put on its
/// displacement, over the whole contact list.
fn axis_limit(
    entities: &Vec<Entity>,
    collisions: &Vec<CollisionEvent>,
    e: &Entity,
    dir: CollisionDirection,
) -> (r: Option<i64>)
    requires
        all_bounded(entities@, STEP_LIMIT as int),
        ent_bounded(*e, STEP_LIMIT as int),
        forall|k: int| 0 <= k < collisions@.len() ==> has_key(entities@, collisions@[k].object),
    ensures
        match r {
            Some(v) => spec_limit(entities@, collisions@, *e, dir, collisions@.len() as int)
                == Option::Some(v as int) && -3 * STEP_LIMIT <= v <= 3 * STEP_LIMIT,
            None => spec_limit(entities@, collisions@, *e, dir, collisions@.len() as int)
                == Option::<int>::None,
        },
{
    let ghost s = entities@;
    let ghost cols = collisions@;
    let n = collisions.len();
    let mut acc: Option<i64> = None;
    let mut k: usize = 0;
    while k < n
        invariant
            0 <= k <= n,
            n == cols.len(),
            s == entities@,
            cols == collisions@,
            all_bounded(s, STEP_LIMIT as int),
            ent_bounded(*e, STEP_LIMIT as int),
            forall|m: int| 0 <= m < cols.len() ==> has_key(s, cols[m].object),
            match acc {
                Some(v) => spec_limit(s, cols, *e, dir, k as int) == Option::Some(v as int) && -3
                    * STEP_LIMIT <= v <= 3 * STEP_LIMIT,
                None => spec_limit(s, cols, *e, dir, k as int) == Option::<int>::None,
            },
        decreases n - k,
    {
        let c = collisions[k];
        if c.subject == e.key && c.dir == dir {
            let idx: usize = match find_entity(entities, c.object) {
                Some(idx) => idx,
                None => {
                    proof {
                        assert(has_key(s, c.object));
                        assert(false);
                    }
                    0
                },
            };
            let o = entities[idx];
            proof {
                assert(entity_of(s, c.object) == s[idx as int]);
            }
            let g: i64 = match dir {
                CollisionDirection::Left => o.aabb.x - (e.aabb.x + e.aabb.w),
                CollisionDirection::Above => o.aabb.y - (e.aabb.y + e.aabb.h),
                CollisionDirection::Right => (o.aabb.x + o.aabb.w) - e.aabb.x,
                CollisionDirection::Below => (o.aabb.y + o.aabb.h) - e.aabb.y,
            };
            proof {
                assert(g == spec_gap(s, *e, c));
            }
            acc = match acc {
                None => Some(g),
                Some(m) => if (matches!(dir, CollisionDirection::Left) || matches!(
                    dir,
                    CollisionDirection::Above,
                )) {
                    if g < m {
                        Some(g)
                    } else {
                        Some(m)
                    }
                } else {
                    if g > m {
                        Some(g)
                    } else {
                        Some(m)
                    }
                },
            };
        }
        k = k + 1;
    }
    acc
}

/// Turn this tick's contacts into per-entity clamped displacements and
/// append one `(key, dx, dy)` record for every entity that moves: the raw
/// displacement `velocity * dt` is clamped per axis to the distance to the
/// nearest obstacle edge in the direction of travel.
pub fn compute_movement(
    entities: &Vec<Entity>,
    collisions: &Vec<CollisionEvent>,
    movements: &mut Vec<(u32, i64, i64)>,
    dt: i64,
)
    requires
        all_bounded(entities@, STEP_LIMIT as int),
        -DT_LIMIT <= dt <= DT_LIMIT,
        forall|k: int| 0 <= k < collisions@.len() ==> has_key(entities@, collisions@[k].object),
    ensures
        final(movements)@ == old(movements)@ + spec_records(
            entities@,
            collisions@,
            dt as int,
            entities@.len() as int,
        ),
        forall|k: int|
            old(movements)@.len() <= k < final(movements)@.len()
                ==> -DISP_LIMIT <= #[trigger] final(movements)@[k].1 <= DISP_LIMIT
                && -DISP_LIMIT <= final(movements)@[k].2 <= DISP_LIMIT,
{
    let ghost s = entities@;
    let ghost cols = collisions@;
    let n = entities.len();
    let mut i: usize = 0;
    while i < n
        invariant
            0 <= i <= n,
            n == s.len(),
            s == entities@,
            cols == collisions@,
            all_bounded(s, STEP_LIMIT as int),
            -DT_LIMIT <= dt <= DT_LIMIT,
            forall|m: int| 0 <= m < cols.len() ==> has_key(s, cols[m].object),
            movements@ == old(movements)@ + spec_records(s, cols, dt as int, i as int),
            forall|k: int|
                old(movements)@.len() <= k < movements@.len()
                    ==> -DISP_LIMIT <= #[trigger] movements@[k].1 <= DISP_LIMIT
                    && -DISP_LIMIT <= movements@[k].2 <= DISP_LIMIT,
        decreases n - i,
    {
        let e = entities[i];
        let max_x = axis_limit(entities, collisions, &e, CollisionDirection::Left);
        let max_y = axis_limit(entities, collisions, &e, CollisionDirection::Above);
        let min_x = axis_limit(entities, collisions, &e, CollisionDirection::Right);
        let min_y = axis_limit(entities, collisions, &e, CollisionDirection::Below);

        let raw_x = mul_scale(e.vx, dt);
        let x_movt: i64 = if raw_x > 0 {
            match max_x {
                None => raw_x,
                Some(b) => if raw_x < b {
                    raw_x
                } else {
                    b
                },
            }
        } else if raw_x < 0 {
            match min_x {
                None => raw_x,
                Some(b) => if raw_x > b {
                    raw_x
                } else {
                    b
                },
            }
        } else {
            0
        };

        let raw_y = mul_scale(e.vy, dt);
        let y_movt: i64 = if raw_y > 0 {
            match max_y {
                None => raw_y,
                Some(b) => if raw_y < b {
                    raw_y
                } else {
                    b
                },
            }
        } else if raw_y < 0 {
            match min_y {
                None => raw_y,
                Some(b) => if raw_y > b {
                    raw_y
                } else {
                    b
                },
            }
        } else {
            0
        };

        proof {
            assert(x_movt == spec_dx(s, cols, e, dt as int));
            assert(y_movt == spec_dy(s, cols, e, dt as int));
        }

        if x_movt != 0 || y_movt != 0 {
            movements.push((e.key, x_movt, y_movt));
        }
        i = i + 1;
    }
}

/// The tightest axis bound over `n` contacts is at least as tight as any
/// single contact's gap.
proof fn lemma_limit_tightest(
    s: Seq<Entity>,
    cols: Seq<CollisionEvent>,
    e: Entity,
    dir: CollisionDirection,
    n: int,
    k: int,
)
    requires
        0 <= k < n <= cols.len(),
        cols[k].subject == e.key,
        cols[k].dir == dir,
    ensures
        spec_limit(s, cols, e, dir, n) matches Option::Some(b) && (((dir
            == CollisionDirection::Left || dir == CollisionDirection::Above) ==> b <= spec_gap(
            s,
            e,
            cols[k],
        )) && ((dir == CollisionDirection::Right || dir == CollisionDirection::Below) ==> b
            >= spec_gap(s, e, cols[k]))),
    decreases n,
{
    if k < n - 1 {
        lemma_limit_tightest(s, cols, e, dir, n - 1, k);
    }
}

/// Movement never exceeds the distance to the nearest obstacle edge in its
/// direction of travel: a contact with subject `e` caps `e`'s clamped
/// displacement on the contact's axis at that contact's gap.
pub proof fn lemma_movement_clamped(
    s: Seq<Entity>,
    cols: Seq<CollisionEvent>,
    e: Entity,
    dt: int,
    k: int,
)
    requires
        0 <= k < cols.len(),
        cols[k].subject == e.key,
    ensures
        cols[k].dir == CollisionDirection::Left && mul_scaled(e.vx as int, dt) > 0 ==> spec_dx(
            s,
            cols,
            e,
            dt,
        ) <= spec_gap(s, e, cols[k]),
        cols[k].dir == CollisionDirection::Right && mul_scaled(e.vx as int, dt) < 0 ==> spec_dx(
            s,
            cols,
            e,
            dt,
        ) >= spec_gap(s, e, cols[k]),
        cols[k].dir == CollisionDirection::Above && mul_scaled(e.vy as int, dt) > 0 ==> spec_dy(
            s,
            cols,
            e,
            dt,
        ) <= spec_gap(s, e, cols[k]),
        cols[k].dir == CollisionDirection::Below && mul_scaled(e.vy as int, dt) < 0 ==> spec_dy(
            s,
            cols,
            e,
            dt,
        ) >= spec_gap(s, e, cols[k]),
{
    lemma_limit_tightest(s, cols, e, cols[k].dir, cols.len() as int, k);
}

/// Every contact of subject `i` references the subject's key and the key of
/// a live object.
proof fn lemma_events_row_live(s: Seq<Entity>, i: int, j: int, t: int, k: int)
    requires
        0 <= i < s.len(),
        0 <= j <= s.len(),
        0 <= k < events_row(s, i, j, t).len(),
    ensures
        events_row(s, i, j, t)[k].subject == s[i].key,
        has_key(s, events_row(s, i, j, t)[k].object),
    decreases j,
{
    let rest = events_row(s, i, j - 1, t);
    if k < rest.len() {
        lemma_events_row_live(s, i, j - 1, t, k);
    } else {
        lemma_has_key(s, s[j - 1].key, j - 1);
    }
}

proof fn lemma_events_upto_live(s: Seq<Entity>, i: int, t: int, k: int)
    requires
        0 <= i <= s.len(),
        0 <= k < events_upto(s, i, t).len(),
    ensures
        has_key(s, events_upto(s, i, t)[k].subject),
        has_key(s, events_upto(s, i, t)[k].object),
    decreases i,
{
    let pre = events_upto(s, i - 1, t);
    if k < pre.len() {
        lemma_events_upto_live(s, i - 1, t, k);
    } else {
        lemma_events_row_live(s, i - 1, s.len() as int, t, k - pre.len());
        lemma_has_key(s, s[i - 1].key, i - 1);
    }
}

/// Every contact of a tick references a live subject and a live object.
pub proof fn lemma_event_live(s: Seq<Entity>, t: int, k: int)
    requires
        0 <= k < all_events(s, t).len(),
    ensures
        has_key(s, all_events(s, t)[k].subject),
        has_key(s, all_events(s, t)[k].object),
{
    lemma_events_upto_live(s, s.len() as int, t, k);
}

/// Every movement record comes from exactly one entity of the table: the
/// one whose clamped displacement it holds.
pub proof fn lemma_record_source(s: Seq<Entity>, cols: Seq<CollisionEvent>, dt: int, n: int, k: int)
    requires
        0 <= n <= s.len(),
        0 <= k < spec_records(s, cols, dt, n).len(),
    ensures
        exists|m: int|
            0 <= m < n && #[trigger] s[m].key == spec_records(s, cols, dt, n)[k].0 && spec_moves(
                s,
                cols,
                s[m],
                dt,
            ) && spec_records(s, cols, dt, n)[k] == (
                s[m].key,
                spec_dx(s, cols, s[m], dt) as i64,
                spec_dy(s, cols, s[m], dt) as i64,
            ) && spec_records(s, cols, dt, m).len() == k,
    decreases n,
{
    let rest = spec_records(s, cols, dt, n - 1);
    if k < rest.len() {
        lemma_record_source(s, cols, dt, n - 1, k);
        let m = choose|m: int|
            0 <= m < n - 1 && #[trigger] s[m].key == rest[k].0 && spec_moves(s, cols, s[m], dt)
                && rest[k] == (
                s[m].key,
                spec_dx(s, cols, s[m], dt) as i64,
                spec_dy(s, cols, s[m], dt) as i64,
            ) && spec_records(s, cols, dt, m).len() == k;
        assert(s[m].key == spec_records(s, cols, dt, n)[k].0 && spec_moves(s, cols, s[m], dt)
            && spec_records(s, cols, dt, n)[k] == (
            s[m].key,
            spec_dx(s, cols, s[m], dt) as i64,
            spec_dy(s, cols, s[m], dt) as i64,
        ) && spec_records(s, cols, dt, m).len() == k);
    } else {
        assert(s[n - 1].key == spec_records(s, cols, dt, n)[k].0 && spec_moves(s, cols, s[n - 1], dt)
            && spec_records(s, cols, dt, n)[k] == (
            s[n - 1].key,
            spec_dx(s, cols, s[n - 1], dt) as i64,
            spec_dy(s, cols, s[n - 1], dt) as i64,
        ) && spec_records(s, cols, dt, n - 1).len() == k);
    }
}

/// With pairwise distinct entity keys, no two movement records of a tick
/// carry the same key: each entity is moved at most once.
pub proof fn lemma_records_keys_distinct(s: Seq<Entity>, cols: Seq<CollisionEvent>, dt: int, n: int)
    requires
        keys_unique(s),
        0 <= n <= s.len(),
    ensures
        forall|k1: int, k2: int|
            0 <= k1 < k2 < spec_records(s, cols, dt, n).len() ==> (#[trigger] spec_records(
                s,
                cols,
                dt,
                n,
            )[k1]).0 != (#[trigger] spec_records(s, cols, dt, n)[k2]).0,
{
    let recs = spec_records(s, cols, dt, n);
    assert forall|k1: int, k2: int| 0 <= k1 < k2 < recs.len() implies (#[trigger] recs[k1]).0 != (
    #[trigger] recs[k2]).0 by {
        lemma_record_source(s, cols, dt, n, k1);
        lemma_record_source(s, cols, dt, n, k2);
        let m1 = choose|m: int|
            0 <= m < n && #[trigger] s[m].key == recs[k1].0 && spec_moves(s, cols, s[m], dt)
                && recs[k1] == (
                s[m].key,
                spec_dx(s, cols, s[m], dt) as i64,
                spec_dy(s, cols, s[m], dt) as i64,
            ) && spec_records(s, cols, dt, m).len() == k1;
        let m2 = choose|m: int|
            0 <= m < n && #[trigger] s[m].key == recs[k2].0 && spec_moves(s, cols, s[m], dt)
                && recs[k2] == (
                s[m].key,
                spec_dx(s, cols, s[m], dt) as i64,
                spec_dy(s, cols, s[m], dt) as i64,
            ) && spec_records(s, cols, dt, m).len() == k2;
        assert(m1 != m2);
    }
}

/// An entity with zero net velocity produces no movement record.
pub proof fn lemma_zero_velocity_no_record(
    s: Seq<Entity>,
    cols: Seq<CollisionEvent>,
    dt: int,
    i: int,
)
    requires
        keys_unique(s),
        0 <= i < s.len(),
        s[i].vx == 0,
        s[i].vy == 0,
    ensures
        !spec_moves(s, cols, s[i], dt),
        forall|k: int|
            0 <= k < spec_records(s, cols, dt, s.len() as int).len() ==> (#[trigger] spec_records(
                s,
                cols,
                dt,
                s.len() as int,
            )[k]).0 != s[i].key,
{
    lemma_mul_scaled_zero(dt);
    assert(spec_dx(s, cols, s[i], dt) == 0);
    assert(spec_dy(s, cols, s[i], dt) == 0);
    let n = s.len() as int;
    let recs = spec_records(s, cols, dt, n);
    assert forall|k: int| 0 <= k < recs.len() implies (#[trigger] recs[k]).0 != s[i].key by {
        lemma_record_source(s, cols, dt, n, k);
        let m = choose|m: int|
            0 <= m < n && #[trigger] s[m].key == recs[k].0 && spec_moves(s, cols, s[m], dt)
                && recs[k] == (
                s[m].key,
                spec_dx(s, cols, s[m], dt) as i64,
                spec_dy(s, cols, s[m], dt) as i64,
            ) && spec_records(s, cols, dt, m).len() == k;
        if s[m].key == s[i].key {
            assert(m == i);
        }
    }
}

/// A subject starting at or left of the object's left face and ending at or
/// past it classifies as `Left`.
pub proof fn lemma_classify_left(sold: Rect, snew: Rect, obj: Rect)
    requires
        rect_right(sold) <= rect_left(obj),
        rect_right(snew) >= rect_left(obj),
    ensures
        spec_collision_direction(sold, snew, obj) == CollisionDirection::Left,
{
}

/// A subject starting fully right of the object and crossing its right face
/// leftward classifies as `Right`; the subject must have positive width and
/// the object nonnegative width, so that the leftward case cannot match
/// first.
pub proof fn lemma_classify_right(sold: Rect, snew: Rect, obj: Rect)
    requires
        rect_left(sold) >= rect_right(obj),
        rect_left(snew) <= rect_right(obj),
        sold.w > 0,
        obj.w >= 0,
    ensures
        spec_collision_direction(sold, snew, obj) == CollisionDirection::Right,
{
}

/// A subject falling onto an object directly below it (horizontal overlap
/// in the old position) classifies as `Above`.
pub proof fn lemma_classify_above(sold: Rect, snew: Rect, obj: Rect)
    requires
        rect_bot(sold) <= rect_top(obj),
        rect_bot(snew) >= rect_top(obj),
        rect_left(sold) < rect_right(obj),
        rect_left(obj) < rect_right(sold),
    ensures
        spec_collision_direction(sold, snew, obj) == CollisionDirection::Above,
{
}

/// A subject rising into an object directly above it (horizontal overlap in
/// the old position, object of positive height) classifies as `Below`.
pub proof fn lemma_classify_below(sold: Rect, snew: Rect, obj: Rect)
    requires
        rect_top(sold) >= rect_bot(obj),
        rect_top(snew) <= rect_bot(obj),
        rect_left(sold) < rect_right(obj),
        rect_left(obj) < rect_right(sold),
        sold.h >= 0,
        obj.h > 0,
    ensures
        spec_collision_direction(sold, snew, obj) == CollisionDirection::Below,
{
}

} // verus!
