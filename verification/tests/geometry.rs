//! Geometry behaviour: intersection convention and side classification.
//!
//! Coordinates are fixed-point: 1_000_000 units per world unit.

use platformer_core::collision::rect_collision_direction;
use platformer_core::collision::CollisionDirection;
use platformer_core::fixed::mul_scale;
use platformer_core::rect::rect_intersection;
use platformer_core::rect::Rect;

#[test]
fn test_rcd() {
    {
        let sold = Rect::new(0, 0, 1_000_000, 1_000_000);
        let snew = Rect::new(200_000, 0, 1_000_000, 1_000_000);
        let obj = Rect::new(1_100_000, 0, 1_000_000, 1_000_000);

        assert_eq!(rect_collision_direction(sold, snew, obj), CollisionDirection::Left);
    }
    {
        let sold = Rect::new(0, 0, 1_000_000, 1_000_000);
        let snew = Rect::new(0, 200_000, 1_000_000, 1_000_000);
        let obj = Rect::new(0, 1_100_000, 1_000_000, 1_000_000);

        assert_eq!(rect_collision_direction(sold, snew, obj), CollisionDirection::Above);
    }
    {
        let sold = Rect::new(1_100_000, 0, 1_000_000, 1_000_000);
        let snew = Rect::new(900_000, 0, 1_000_000, 1_000_000);
        let obj = Rect::new(0, 0, 1_000_000, 1_000_000);

        assert_eq!(rect_collision_direction(sold, snew, obj), CollisionDirection::Right);
    }
    {
        let sold = Rect::new(0, 1_100_000, 1_000_000, 1_000_000);
        let snew = Rect::new(900_000, 900_000, 1_000_000, 1_000_000);
        let obj = Rect::new(0, 0, 1_000_000, 1_000_000);

        assert_eq!(rect_collision_direction(sold, snew, obj), CollisionDirection::Below);
    }
}

#[test]
fn intersection_is_symmetric() {
    let a = Rect::new(0, 0, 2_000_000, 1_000_000);
    let b = Rect::new(1_500_000, 500_000, 1_000_000, 1_000_000);
    let c = Rect::new(10_000_000, 0, 1_000_000, 1_000_000);
    assert_eq!(rect_intersection(a, b), rect_intersection(b, a));
    assert!(rect_intersection(a, b));
    assert_eq!(rect_intersection(a, c), rect_intersection(c, a));
    assert!(!rect_intersection(a, c));
}

#[test]
fn non_degenerate_rect_intersects_itself() {
    let r = Rect::new(-3_000_000, 2_000_000, 1_000_000, 500_000);
    assert!(rect_intersection(r, r));
}

#[test]
fn zero_area_rect_intersects_nothing() {
    // Strict (open-interval) convention: a zero-width or zero-height
    // rectangle has no interior, so it never intersects, not even itself.
    let flat = Rect::new(0, 0, 0, 1_000_000);
    let wide = Rect::new(-5_000_000, -5_000_000, 10_000_000, 10_000_000);
    assert!(!rect_intersection(flat, wide));
    assert!(!rect_intersection(wide, flat));
    assert!(!rect_intersection(flat, flat));
}

#[test]
fn separated_rects_never_intersect() {
    // Disjoint on the x axis, at several translations that keep them apart.
    for shift in [-7_000_000i64, 0, 3_000_000, 250_000] {
        let a = Rect::new(shift, shift, 1_000_000, 1_000_000);
        let b = Rect::new(shift + 2_000_000, shift, 1_000_000, 1_000_000);
        assert!(!rect_intersection(a, b));
        assert!(!rect_intersection(b, a));
    }
    // Disjoint on the y axis.
    let a = Rect::new(0, 0, 1_000_000, 1_000_000);
    let b = Rect::new(0, 1_500_000, 1_000_000, 1_000_000);
    assert!(!rect_intersection(a, b));
}

#[test]
fn exactly_touching_edges_do_not_intersect() {
    // Two unit squares sharing an edge: no interior overlap.
    let left = Rect::new(0, 0, 1_000_000, 1_000_000);
    let right = Rect::new(1_000_000, 0, 1_000_000, 1_000_000);
    assert!(!rect_intersection(left, right));
    let below = Rect::new(0, 1_000_000, 1_000_000, 1_000_000);
    assert!(!rect_intersection(left, below));
}

#[test]
fn classification_falls_back_to_below() {
    // Already-overlapping boxes match no directional condition: the
    // conservative fallback is Below.
    let sold = Rect::new(0, 0, 1_000_000, 1_000_000);
    let snew = Rect::new(100_000, 0, 1_000_000, 1_000_000);
    let obj = Rect::new(0, 0, 1_000_000, 1_000_000);
    assert_eq!(rect_collision_direction(sold, snew, obj), CollisionDirection::Below);
}

#[test]
fn scaled_product_truncates_toward_zero() {
    // 3.5 * (1/60), with 1/60 rounded down to 16_666 millionths:
    // 3_500_000 * 16_666 / 1_000_000 = 58_331 exactly.
    assert_eq!(mul_scale(3_500_000, 16_666), 58_331);
    assert_eq!(mul_scale(-3_500_000, 16_666), -58_331);
    assert_eq!(mul_scale(10_000_000, 1_000_000), 10_000_000);
    assert_eq!(mul_scale(0, 9_999_999), 0);
}
