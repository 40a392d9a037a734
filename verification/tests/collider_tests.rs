use physixx::collider::{
    is_close_to_zero, point_aabb_nearest_point, sq_dist_point_aabb, test_aabb_circle,
    test_circle_aabb, Collider, Contact,
};
use physixx::rigid_body::{RigidBody2D, RigidBody2DBuilder};
use physixx::scalar::Scalar;
use physixx::vec2::Vec2;

const ONE: i64 = 1_000_000;

fn s(raw: i64) -> Scalar {
    Scalar::from_raw(raw)
}

fn v(x: i64, y: i64) -> Vec2 {
    Vec2::new(s(x), s(y))
}

fn body_at(x: i64, y: i64) -> RigidBody2D {
    RigidBody2DBuilder::new().with_position(v(x, y)).build()
}

fn circle(radius: i64) -> Collider {
    Collider::Circle { offset: Vec2::zero(), radius: s(radius) }
}

fn floor() -> Collider {
    Collider::AABB { min: v(0, -10 * ONE), max: v(200 * ONE, 0) }
}

fn square() -> Collider {
    Collider::AABB { min: v(0, 0), max: v(2 * ONE, 2 * ONE) }
}

#[test]
fn shapes_are_placed_by_the_body() {
    let pos = v(ONE, 2 * ONE);
    assert_eq!(floor().world_aabb(pos), Some((v(ONE, -8 * ONE), v(201 * ONE, 2 * ONE))));
    assert_eq!(floor().world_circle(pos), None);
    let c = Collider::Circle { offset: v(3, 4), radius: s(ONE) };
    assert_eq!(c.world_circle(pos), Some(v(ONE + 3, 2 * ONE + 4)));
    assert_eq!(c.world_aabb(pos), None);
}

#[test]
fn nearest_point_of_a_box() {
    let b = body_at(0, 0);
    let f = floor();
    assert_eq!(point_aabb_nearest_point(v(5 * ONE, 2 * ONE), &f, &b), v(5 * ONE, 0));
    assert_eq!(point_aabb_nearest_point(v(-ONE, -20 * ONE), &f, &b), v(0, -10 * ONE));
    assert_eq!(point_aabb_nearest_point(v(300 * ONE, -ONE), &f, &b), v(200 * ONE, -ONE));
    assert_eq!(point_aabb_nearest_point(v(7 * ONE, -3 * ONE), &f, &b), v(7 * ONE, -3 * ONE));
    let moved = body_at(-50 * ONE, ONE);
    assert_eq!(point_aabb_nearest_point(v(-60 * ONE, 5 * ONE), &f, &moved), v(-50 * ONE, ONE));
}

#[test]
fn squared_distance_to_a_box() {
    let b = body_at(0, 0);
    let f = floor();
    assert_eq!(sq_dist_point_aabb(v(5 * ONE, 2 * ONE), &f, &b), s(4 * ONE));
    assert_eq!(sq_dist_point_aabb(v(-3 * ONE, 4 * ONE), &f, &b), s(25 * ONE));
    assert_eq!(sq_dist_point_aabb(v(203 * ONE, -14 * ONE), &f, &b), s(25 * ONE));
    assert_eq!(sq_dist_point_aabb(v(7 * ONE, -3 * ONE), &f, &b), Scalar::zero());
}

#[test]
fn squared_distance_is_zero_just_for_the_points_of_the_box() {
    let b = body_at(0, 0);
    let big = Collider::AABB { min: v(0, 0), max: v(10 * ONE, 10 * ONE) };
    // Half a thousandth to the left: the square, a quarter of a millionth,
    // is rounded up.
    assert_eq!(sq_dist_point_aabb(v(-500, 5 * ONE), &big, &b), s(1));
    assert_eq!(sq_dist_point_aabb(v(-1, 5 * ONE), &big, &b), s(1));
    assert_eq!(sq_dist_point_aabb(v(10 * ONE + 1, 10 * ONE + 1), &big, &b), s(1));
    assert_eq!(sq_dist_point_aabb(v(-1_000, 5 * ONE), &big, &b), s(1));
    assert_eq!(sq_dist_point_aabb(v(-1_001, 5 * ONE), &big, &b), s(2));
    for corner in [v(0, 0), v(10 * ONE, 0), v(0, 10 * ONE), v(10 * ONE, 10 * ONE)] {
        assert_eq!(sq_dist_point_aabb(corner, &big, &b), Scalar::zero());
    }
    assert_eq!(sq_dist_point_aabb(v(0, 5 * ONE), &big, &b), Scalar::zero());
    assert_eq!(sq_dist_point_aabb(v(5 * ONE, 5 * ONE), &big, &b), Scalar::zero());
    assert_eq!(sq_dist_point_aabb(v(i64::MIN, i64::MIN), &big, &b), s(i64::MAX));
}

#[test]
fn boxes_side_by_side_are_pushed_apart() {
    let a = body_at(0, 0);
    let right = body_at(1_900_000, 0);
    assert_eq!(square().collides_with(&a, &right, &square(), 0, 1).unwrap().normal, v(ONE, 0));
    let left = body_at(-1_900_000, 0);
    assert_eq!(square().collides_with(&a, &left, &square(), 0, 1).unwrap().normal, v(-ONE, 0));
    let above = body_at(0, 1_900_000);
    assert_eq!(square().collides_with(&a, &above, &square(), 0, 1).unwrap().normal, v(0, ONE));
    let below = body_at(0, -1_900_000);
    assert_eq!(square().collides_with(&a, &below, &square(), 0, 1).unwrap().normal, v(0, -ONE));
}

#[test]
fn only_the_origin_is_close_to_zero() {
    assert!(is_close_to_zero(v(0, 0)));
    assert!(!is_close_to_zero(v(1, 0)));
    assert!(!is_close_to_zero(v(0, -1)));
}

#[test]
fn overlapping_circles_touch() {
    let a = body_at(0, 0);
    let b = body_at(3 * ONE, 4 * ONE);
    let found = circle(3 * ONE).collides_with(&a, &b, &circle(3 * ONE), 4, 9);
    assert_eq!(
        found,
        Some(Contact {
            point: v(1_500_000, 2 * ONE),
            normal: v(600_000, 800_000),
            pen_depth: s(ONE),
            body_a_index: 4,
            body_b_index: 9,
        })
    );
}

#[test]
fn circles_of_different_radii_touch_between_their_surfaces() {
    // Radii 1 and 4, centres 4 apart along the first axis: the surfaces are
    // at 1 and at 0, and the contact lies midway.
    let a = body_at(0, 0);
    let b = body_at(4 * ONE, 0);
    let found = circle(ONE).collides_with(&a, &b, &circle(4 * ONE), 0, 1).unwrap();
    assert_eq!(found.point, v(500_000, 0));
    assert_eq!(found.normal, v(ONE, 0));
    assert_eq!(found.pen_depth, s(ONE));
}

#[test]
fn circle_offsets_count() {
    let a = body_at(0, 0);
    let b = body_at(0, 0);
    let left = Collider::Circle { offset: v(-ONE, 0), radius: s(ONE + 500_000) };
    let right = Collider::Circle { offset: v(ONE, 0), radius: s(ONE + 500_000) };
    let found = left.collides_with(&a, &b, &right, 0, 1).unwrap();
    assert_eq!(found.normal, v(ONE, 0));
    assert_eq!(found.pen_depth, s(ONE));
    assert_eq!(found.point, v(0, 0));
}

#[test]
fn circles_that_only_touch_have_no_contact() {
    let a = body_at(0, 0);
    let b = body_at(5 * ONE, 0);
    assert_eq!(circle(2 * ONE).collides_with(&a, &b, &circle(3 * ONE), 0, 1), None);
    assert_eq!(circle(2 * ONE).collides_with(&a, &b, &circle(2 * ONE), 0, 1), None);
    let nearer = body_at(5 * ONE - 1, 0);
    let found = circle(2 * ONE).collides_with(&a, &nearer, &circle(3 * ONE), 0, 1).unwrap();
    assert_eq!(found.pen_depth, s(1));
}

#[test]
fn concentric_circles_have_no_contact() {
    let a = body_at(ONE, ONE);
    let b = body_at(ONE, ONE);
    assert_eq!(circle(2 * ONE).collides_with(&a, &b, &circle(3 * ONE), 0, 1), None);
}

#[test]
fn circle_above_a_box() {
    let ball = body_at(5 * ONE, 2 * ONE);
    let ground = body_at(0, 0);
    let expected = Contact {
        point: v(5 * ONE, 0),
        normal: v(0, -ONE),
        pen_depth: s(ONE),
        body_a_index: 0,
        body_b_index: 1,
    };
    assert_eq!(circle(3 * ONE).collides_with(&ball, &ground, &floor(), 0, 1), Some(expected));
    assert_eq!(test_circle_aabb(&circle(3 * ONE), &floor(), &ball, &ground, 0, 1), Some(expected));
}

#[test]
fn box_below_a_circle() {
    let ball = body_at(5 * ONE, 2 * ONE);
    let ground = body_at(0, 0);
    let expected = Contact {
        point: v(5 * ONE, 0),
        normal: v(0, ONE),
        pen_depth: s(ONE),
        body_a_index: 7,
        body_b_index: 8,
    };
    assert_eq!(floor().collides_with(&ground, &ball, &circle(3 * ONE), 7, 8), Some(expected));
    assert_eq!(test_aabb_circle(&floor(), &circle(3 * ONE), &ground, &ball, 7, 8), Some(expected));
}

#[test]
fn circle_beside_the_corner_of_a_box() {
    // The corner (0, 0) is nearest; the centre is 5 away from it.
    let ball = body_at(-3 * ONE, 4 * ONE);
    let ground = body_at(0, 0);
    let found = circle(6 * ONE).collides_with(&ball, &ground, &floor(), 0, 1).unwrap();
    assert_eq!(found.point, v(0, 0));
    assert_eq!(found.normal, v(600_000, -800_000));
    assert_eq!(found.pen_depth, s(ONE));
}

#[test]
fn circle_that_only_touches_a_box_has_no_contact() {
    let ball = body_at(5 * ONE, 3 * ONE);
    let ground = body_at(0, 0);
    assert_eq!(circle(3 * ONE).collides_with(&ball, &ground, &floor(), 0, 1), None);
    assert_eq!(floor().collides_with(&ground, &ball, &circle(3 * ONE), 0, 1), None);
    let far = body_at(5 * ONE, 30 * ONE);
    assert_eq!(circle(3 * ONE).collides_with(&far, &ground, &floor(), 0, 1), None);
    assert_eq!(floor().collides_with(&ground, &far, &circle(3 * ONE), 0, 1), None);
}

#[test]
fn circle_with_its_centre_inside_a_box() {
    // Nearest to the top face: 1 below it, 5 from the left, 9 above the bottom.
    let ball = body_at(5 * ONE, -ONE);
    let ground = body_at(0, 0);
    let found = circle(3 * ONE).collides_with(&ball, &ground, &floor(), 0, 1).unwrap();
    assert_eq!(found.point, v(5 * ONE, -ONE));
    assert_eq!(found.normal, v(0, ONE));
    assert_eq!(found.pen_depth, s(3 * ONE));
    let flipped = floor().collides_with(&ground, &ball, &circle(3 * ONE), 0, 1).unwrap();
    assert_eq!(flipped.normal, v(0, -ONE));
    assert_eq!(flipped.pen_depth, s(3 * ONE));
}

#[test]
fn centre_inside_a_box_takes_the_nearest_face() {
    let ground = body_at(0, 0);
    let c = circle(ONE);
    let near_left = body_at(ONE, -5 * ONE);
    assert_eq!(c.collides_with(&near_left, &ground, &floor(), 0, 1).unwrap().normal, v(-ONE, 0));
    let near_right = body_at(199 * ONE, -5 * ONE);
    assert_eq!(c.collides_with(&near_right, &ground, &floor(), 0, 1).unwrap().normal, v(ONE, 0));
    let near_bottom = body_at(50 * ONE, -9 * ONE);
    assert_eq!(c.collides_with(&near_bottom, &ground, &floor(), 0, 1).unwrap().normal, v(0, -ONE));
    let near_top = body_at(50 * ONE, -ONE);
    assert_eq!(c.collides_with(&near_top, &ground, &floor(), 0, 1).unwrap().normal, v(0, ONE));
}

#[test]
fn equally_near_faces_give_the_first_one() {
    let at_origin = body_at(0, 0);
    let c = circle(ONE);
    // The middle of a square: all four faces are equally near, left is first.
    let middle = body_at(ONE, ONE);
    assert_eq!(c.collides_with(&middle, &at_origin, &square(), 0, 1).unwrap().normal, v(-ONE, 0));
    let big = Collider::AABB { min: v(0, 0), max: v(10 * ONE, 10 * ONE) };
    let centre = body_at(5 * ONE, 5 * ONE);
    assert_eq!(c.collides_with(&centre, &at_origin, &big, 0, 1).unwrap().normal, v(-ONE, 0));
    // The middle of a tall box: left and right are equally near.
    let tall = Collider::AABB { min: v(0, 0), max: v(2 * ONE, 8 * ONE) };
    let inside_tall = body_at(ONE, 4 * ONE);
    assert_eq!(c.collides_with(&inside_tall, &at_origin, &tall, 0, 1).unwrap().normal, v(-ONE, 0));
    // The middle of a flat box: bottom and top are equally near.
    let flat = Collider::AABB { min: v(0, 0), max: v(8 * ONE, 2 * ONE) };
    let inside_flat = body_at(4 * ONE, ONE);
    assert_eq!(c.collides_with(&inside_flat, &at_origin, &flat, 0, 1).unwrap().normal, v(0, -ONE));
    // Near the upper right corner: right and top are equally near.
    let wide = Collider::AABB { min: v(0, 0), max: v(8 * ONE, 8 * ONE) };
    let high_right = body_at(7_500_000, 7_500_000);
    assert_eq!(c.collides_with(&high_right, &at_origin, &wide, 0, 1).unwrap().normal, v(ONE, 0));
    // Near the lower right corner: right and bottom are equally near.
    let low_right = body_at(7_500_000, 500_000);
    assert_eq!(c.collides_with(&low_right, &at_origin, &wide, 0, 1).unwrap().normal, v(ONE, 0));
}

#[test]
fn circles_a_millionth_apart_have_a_unit_normal() {
    let a = body_at(0, 0);
    let b = body_at(1, 1);
    let found = circle(ONE).collides_with(&a, &b, &circle(ONE), 0, 1).unwrap();
    assert_eq!(found.normal, v(707_106, 707_106));
    assert_eq!(found.pen_depth, s(2 * ONE - 1));
    let back = circle(ONE).collides_with(&b, &a, &circle(ONE), 1, 0).unwrap();
    assert_eq!(back.normal, v(-707_106, -707_106));
}

#[test]
fn circle_a_millionth_off_a_corner_has_a_unit_normal() {
    let ball = body_at(-1, 1);
    let ground = body_at(0, 0);
    let found = circle(6 * ONE).collides_with(&ball, &ground, &floor(), 0, 1).unwrap();
    assert_eq!(found.point, v(0, 0));
    assert_eq!(found.normal, v(707_106, -707_106));
    assert_eq!(found.pen_depth, s(6 * ONE - 1));
    let flipped = floor().collides_with(&ground, &ball, &circle(6 * ONE), 0, 1).unwrap();
    assert_eq!(flipped.normal, v(-707_106, 707_106));
}

#[test]
fn every_normal_is_a_unit_vector() {
    let one = ONE as i128;
    let ground = body_at(0, 0);
    for dx in [-3i64, -1, 0, 1, 2, 700_000, 1_234_567] {
        for dy in [-2i64, 0, 1, 5, 900_000, 2_000_001] {
            let moved = body_at(dx, dy);
            let pairs = [
                circle(3 * ONE).collides_with(&ground, &moved, &circle(3 * ONE), 0, 1),
                circle(3 * ONE).collides_with(&moved, &ground, &floor(), 0, 1),
                floor().collides_with(&ground, &moved, &circle(3 * ONE), 0, 1),
                square().collides_with(&ground, &moved, &square(), 0, 1),
            ];
            for found in pairs.into_iter().flatten() {
                let (nx, ny) = (found.normal.x.raw as i128, found.normal.y.raw as i128);
                let sq = nx * nx + ny * ny;
                assert!(sq >= one * one - 4 * one - 1 && sq <= one * one + 1);
                assert!(found.pen_depth.raw >= 0);
            }
        }
    }
}

#[test]
fn boxes_overlapping_along_the_first_axis() {
    let a = body_at(0, 0);
    let b = body_at(1_500_000, 500_000);
    let found = square().collides_with(&a, &b, &square(), 2, 5);
    // Overlap 0.5 along the first axis and 1.5 along the second; B lies to
    // the right of A.
    assert_eq!(
        found,
        Some(Contact {
            point: v(1_750_000, 1_250_000),
            normal: v(ONE, 0),
            pen_depth: s(500_000),
            body_a_index: 2,
            body_b_index: 5,
        })
    );
    let back = square().collides_with(&b, &a, &square(), 5, 2).unwrap();
    assert_eq!(back.normal, v(-ONE, 0));
    assert_eq!(back.pen_depth, s(500_000));
    assert_eq!(back.point, v(1_750_000, 1_250_000));
}

#[test]
fn boxes_overlapping_along_the_second_axis() {
    let a = body_at(0, 0);
    let b = body_at(500_000, 1_500_000);
    let found = square().collides_with(&a, &b, &square(), 0, 1).unwrap();
    assert_eq!(found.normal, v(0, ONE));
    assert_eq!(found.pen_depth, s(500_000));
    assert_eq!(found.point, v(1_250_000, 1_750_000));
    let back = square().collides_with(&b, &a, &square(), 1, 0).unwrap();
    assert_eq!(back.normal, v(0, -ONE));
    assert_eq!(back.pen_depth, s(500_000));
}

#[test]
fn boxes_with_equal_overlaps_take_the_first_axis() {
    let a = body_at(0, 0);
    let b = body_at(ONE, ONE);
    let found = square().collides_with(&a, &b, &square(), 0, 1).unwrap();
    assert_eq!(found.pen_depth, s(ONE));
    assert_eq!(found.normal, v(ONE, 0));
}

#[test]
fn boxes_that_share_an_edge_touch_with_no_depth() {
    let a = body_at(0, 0);
    let b = body_at(2 * ONE, 0);
    let found = square().collides_with(&a, &b, &square(), 0, 1).unwrap();
    assert_eq!(found.pen_depth, Scalar::zero());
    assert_eq!(found.point, v(2 * ONE, ONE));
}

#[test]
fn boxes_apart_have_no_contact() {
    let a = body_at(0, 0);
    assert_eq!(square().collides_with(&a, &body_at(2 * ONE + 1, 0), &square(), 0, 1), None);
    assert_eq!(square().collides_with(&a, &body_at(0, 2 * ONE + 1), &square(), 0, 1), None);
    assert_eq!(square().collides_with(&a, &body_at(-2 * ONE - 1, 0), &square(), 0, 1), None);
    assert_eq!(square().collides_with(&a, &body_at(0, -2 * ONE - 1), &square(), 0, 1), None);
    assert_eq!(square().collides_with(&a, &body_at(9 * ONE, 9 * ONE), &square(), 0, 1), None);
}

#[test]
fn boxes_keep_their_axes_whatever_the_angle() {
    let a = body_at(0, 0);
    let mut b = body_at(1_500_000, 500_000);
    let straight = square().collides_with(&a, &b, &square(), 0, 1);
    b.angle = s(785_398);
    assert_eq!(square().collides_with(&a, &b, &square(), 0, 1), straight);
}

#[test]
fn other_pairs_are_no_circle_and_box() {
    let a = body_at(0, 0);
    assert_eq!(test_circle_aabb(&square(), &square(), &a, &a, 0, 1), None);
    assert_eq!(test_circle_aabb(&circle(ONE), &circle(ONE), &a, &a, 0, 1), None);
    assert_eq!(test_circle_aabb(&square(), &circle(ONE), &a, &a, 0, 1), None);
    assert_eq!(test_aabb_circle(&circle(ONE), &square(), &a, &a, 0, 1), None);
}

#[test]
fn box_box_is_symmetric_on_a_grid() {
    // Every placement of a second square on a half-unit grid around the
    // first, but for those that overlap evenly from both sides.
    let a = body_at(0, 0);
    for ix in -6i64..=6 {
        for iy in -6i64..=6 {
            let b = body_at(ix * 500_000, iy * 500_000);
            let forth = square().collides_with(&a, &b, &square(), 0, 1);
            let back = square().collides_with(&b, &a, &square(), 1, 0);
            assert_eq!(forth.is_some(), back.is_some());
            if let (Some(c), Some(d)) = (forth, back) {
                assert_eq!(c.pen_depth, d.pen_depth);
                assert_eq!(c.point, d.point);
                let even = if (2 * ONE - ix.abs() * 500_000) > (2 * ONE - iy.abs() * 500_000) {
                    iy == 0
                } else {
                    ix == 0
                };
                if !even {
                    assert_eq!(c.normal, d.normal.neg());
                }
            }
        }
    }
}
