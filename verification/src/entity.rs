//! Entities of the simulation.
//!
//! An entity is a bounding box, a velocity, two classification flags and a
//! unique integer key.  The simulation's entity table owns its entities;
//! creation policy (what a player or a platform looks like) and destruction
//! policy live with the caller.

use vstd::prelude::*;

verus! {

use crate::rect::Rect;
use crate::rect::rect_bounded;
use crate::fixed::mul_scaled;

/// A dynamic or static body in the world.
#[derive(Clone, Copy, Debug, PartialEq, Eq, Structural)]
pub struct Entity {
    /// Unique key, stable for the entity's lifetime.
    pub key: u32,
    /// Current world-space footprint.
    pub aabb: Rect,
    /// Horizontal velocity, fixed-point units per second.
    pub vx: i64,
    /// Vertical velocity, fixed-point units per second; positive is downward.
    pub vy: i64,
    /// Whether vertical velocity accumulates gravity and is zeroed on
    /// vertical contact.
    pub obeys_gravity: bool,
    /// Classification flag consumed by game rules outside the core.
    pub is_hazard: bool,
}

/// The entity's box and velocity stay within magnitude `m`.
pub open spec fn ent_bounded(e: Entity, m: int) -> bool {
    &&& rect_bounded(e.aabb, m)
    &&& -m <= e.vx <= m
    &&& -m <= e.vy <= m
}

/// Every entity of the table stays within magnitude `m`.
pub open spec fn all_bounded(s: Seq<Entity>, m: int) -> bool {
    forall|i: int| 0 <= i < s.len() ==> ent_bounded(s[i], m)
}

/// Entity keys are pairwise distinct.
pub open spec fn keys_unique(s: Seq<Entity>) -> bool {
    forall|i: int, j: int| 0 <= i < j < s.len() ==> s[i].key != s[j].key
}

/// Horizontal displacement the entity would cover in a tick of `t`.
pub open spec fn disp_x(e: Entity, t: int) -> int {
    mul_scaled(e.vx as int, t)
}

/// Vertical displacement the entity would cover in a tick of `t`.
pub open spec fn disp_y(e: Entity, t: int) -> int {
    mul_scaled(e.vy as int, t)
}

/// Index of the first entity with the given key at or past position `i`,
/// or `-1` where there is none.
pub open spec fn find_from(s: Seq<Entity>, key: u32, i: int) -> int
    decreases s.len() - i,
{
    if i < 0 || i >= s.len() {
        -1
    } else if s[i].key == key {
        i
    } else {
        find_from(s, key, i + 1)
    }
}

/// Some entity of the table carries the key.
pub open spec fn has_key(s: Seq<Entity>, key: u32) -> bool {
    find_from(s, key, 0) >= 0
}

/// The first entity of the table with the given key.
pub open spec fn entity_of(s: Seq<Entity>, key: u32) -> Entity {
    s[find_from(s, key, 0)]
}

/// `find_from` returns a position of the key past `i`, before which the key
/// does not occur; `-1` means the key does not occur at or past `i`.
pub proof fn lemma_find_from(s: Seq<Entity>, key: u32, i: int)
    requires
        0 <= i <= s.len(),
    ensures
        find_from(s, key, i) == -1 || i <= find_from(s, key, i) < s.len(),
        find_from(s, key, i) >= 0 ==> i <= find_from(s, key, i) < s.len()
            && s[find_from(s, key, i)].key == key,
        find_from(s, key, i) == -1 ==> forall|m: int| i <= m < s.len() ==> s[m].key != key,
    decreases s.len() - i,
{
    if i < s.len() && s[i].key != key {
        lemma_find_from(s, key, i + 1);
    }
}

/// A key that occurs in the table is found.
pub proof fn lemma_has_key(s: Seq<Entity>, key: u32, i: int)
    requires
        0 <= i < s.len(),
        s[i].key == key,
    ensures
        has_key(s, key),
{
    lemma_find_from(s, key, 0);
}

/// `find_from` reads only the keys: tables with pointwise equal keys agree
/// on it.
pub proof fn lemma_find_from_same_keys(s: Seq<Entity>, u: Seq<Entity>, key: u32, i: int)
    requires
        s.len() == u.len(),
        forall|m: int| 0 <= m < s.len() ==> s[m].key == u[m].key,
        0 <= i <= s.len(),
    ensures
        find_from(s, key, i) == find_from(u, key, i),
    decreases s.len() - i,
{
    if i < s.len() && s[i].key != key {
        lemma_find_from_same_keys(s, u, key, i + 1);
    }
}

/// First entity of the table carrying the key, or `None` where the key does
/// not occur.
pub fn find_entity(entities: &Vec<Entity>, key: u32) -> (r: Option<usize>)
    ensures
        match r {
            Some(idx) => idx < entities@.len() && find_from(entities@, key, 0) == idx as int,
            None => find_from(entities@, key, 0) == -1,
        },
{
    let n = entities.len();
    let mut i: usize = 0;
    while i < n
        invariant
            0 <= i <= n,
            n == entities@.len(),
            find_from(entities@, key, 0) == find_from(entities@, key, i as int),
        decreases n - i,
    {
        if entities[i].key == key {
            return Some(i);
        }
        i = i + 1;
    }
    None
}

} // verus!
