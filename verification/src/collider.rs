//! Shapes and the narrow phase: the test of one pair of shapes for a contact.

use crate::rigid_body::RigidBody2D;
use crate::scalar::{
    ceil_div, int_sqrt, lemma_ceil_div_bounds, lemma_int_sqrt_bounds, saturate, Scalar, SCALE,
};
use crate::vec2::{
    lemma_axes_nearly_unit, lemma_neg_nearly_unit, lemma_normalize_nearly_unit, nearly_unit,
    points_along, raw_length, raw_sq_norm, Vec2, WORKING_RANGE,
};
use vstd::prelude::*;

verus! {

/// A shape, in the frame of the body that carries it. A box keeps its axes
/// whatever the body's angle.
#[derive(Clone, Copy, Debug, PartialEq, Eq, Structural)]
pub enum Collider {
    Circle { offset: Vec2, radius: Scalar },
    AABB { min: Vec2, max: Vec2 },
}

/// Where and how two bodies touch.
///
/// The solver pushes B along the normal and A against it. Between two
/// circles, between two boxes, and between a box and a circle whose centre
/// lies outside the box, the normal points from A toward B. For a circle
/// whose centre lies inside the box the normal is the outward normal of the
/// nearest face of the box where the circle is A, and the inward one where
/// the box is A.
#[derive(Clone, Copy, Debug, PartialEq, Eq, Structural)]
pub struct Contact {
    pub point: Vec2,
    pub normal: Vec2,
    pub pen_depth: Scalar,
    pub body_a_index: usize,
    pub body_b_index: usize,
}

/// One half.
pub open spec fn spec_half() -> Scalar {
    Scalar { raw: 500_000 }
}

#[verifier::when_used_as_spec(spec_half)]
fn half() -> (r: Scalar)
    ensures
        r == spec_half(),
{
    Scalar::from_raw(500_000)
}

/// The point of the box from `world_min` to `world_max` nearest to `point`:
/// each coordinate of `point` held between those of the two corners.
pub open spec fn nearest_point(point: Vec2, world_min: Vec2, world_max: Vec2) -> Vec2 {
    Vec2 {
        x: point.x.clamp(world_min.x, world_max.x),
        y: point.y.clamp(world_min.y, world_max.y),
    }
}

/// The point of the box `aabb`, carried by `body`, that is nearest to `point`.
pub fn point_aabb_nearest_point(point: Vec2, aabb: &Collider, body: &RigidBody2D) -> (r: Vec2)
    requires
        aabb is AABB,
    ensures
        r == nearest_point(
            point,
            body.position.add(aabb->min),
            body.position.add(aabb->max),
        ),
{
    match aabb {
        Collider::AABB { min, max } => {
            let world_min = body.position.add(*min);
            let world_max = body.position.add(*max);
            Vec2 {
                x: point.x.clamp(world_min.x, world_max.x),
                y: point.y.clamp(world_min.y, world_max.y),
            }
        },
        Collider::Circle { .. } => Vec2::zero(),
    }
}

/// What the coordinate `p` lies outside the stretch from `lo` to `hi`,
/// squared, in raw units: the square of what it lies below `lo`, and the
/// square of what it lies above `hi`.
pub open spec fn sq_gap(p: Scalar, lo: Scalar, hi: Scalar) -> int {
    (if p@ < lo@ {
        lo.sub(p)@ * lo.sub(p)@
    } else {
        0
    }) + (if p@ > hi@ {
        p.sub(hi)@ * p.sub(hi)@
    } else {
        0
    })
}

/// The square of the distance from `point` to the box from `world_min` to
/// `world_max`: the sum over both axes of `sq_gap`, rounded up to a
/// millionth and clamped. It is zero for the points of the box and for no
/// others.
pub open spec fn sq_dist_to_box(point: Vec2, world_min: Vec2, world_max: Vec2) -> Scalar {
    Scalar {
        raw: saturate(
            ceil_div(
                sq_gap(point.x, world_min.x, world_max.x) + sq_gap(
                    point.y,
                    world_min.y,
                    world_max.y,
                ),
                SCALE as int,
            ),
        ) as i64,
    }
}

/// Whether `point` lies in the box from `world_min` to `world_max`, its
/// faces included.
pub open spec fn in_box(point: Vec2, world_min: Vec2, world_max: Vec2) -> bool {
    &&& world_min.x@ <= point.x@ <= world_max.x@
    &&& world_min.y@ <= point.y@ <= world_max.y@
}

fn axis_sq_gap(p: Scalar, lo: Scalar, hi: Scalar) -> (r: u128)
    ensures
        r == sq_gap(p, lo, hi),
        r <= 0x8000_0000_0000_0000_0000_0000_0000_0000,
        r == 0 <==> lo@ <= p@ <= hi@,
{
    let mut sum: u128 = 0;
    if p.raw < lo.raw {
        let g: i128 = lo.sub(p).raw as i128;
        assert(1 <= g * g <= 0x4000_0000_0000_0000_0000_0000_0000_0000) by (nonlinear_arith)
            requires
                1 <= g <= 0x8000_0000_0000_0000,
        ;
        sum = sum + (g * g) as u128;
    }
    if p.raw > hi.raw {
        let g: i128 = p.sub(hi).raw as i128;
        assert(1 <= g * g <= 0x4000_0000_0000_0000_0000_0000_0000_0000) by (nonlinear_arith)
            requires
                1 <= g <= 0x8000_0000_0000_0000,
        ;
        sum = sum + (g * g) as u128;
    }
    sum
}

/// The square of the distance from `point` to the box `aabb` carried by
/// `body`, rounded up to a millionth: zero just for the points of the box.
pub fn sq_dist_point_aabb(point: Vec2, aabb: &Collider, body: &RigidBody2D) -> (r: Scalar)
    requires
        aabb is AABB,
    ensures
        r == sq_dist_to_box(point, body.position.add(aabb->min), body.position.add(aabb->max)),
        r@ >= 0,
        r@ == 0 <==> in_box(point, body.position.add(aabb->min), body.position.add(aabb->max)),
{
    match aabb {
        Collider::AABB { min, max } => {
            let world_min = body.position.add(*min);
            let world_max = body.position.add(*max);
            let along_x = axis_sq_gap(point.x, world_min.x, world_max.x);
            let along_y = axis_sq_gap(point.y, world_min.y, world_max.y);
            proof {
                lemma_ceil_div_bounds(along_x + along_y, SCALE as int);
            }
            assert(SCALE == 1_000_000);
            if along_x > u128::MAX - along_y {
                // Far beyond the largest number.
                assert(ceil_div(along_x + along_y, SCALE as int) * 1_000_000 >= along_x + along_y);
                return Scalar { raw: i64::MAX };
            }
            let sum = along_x + along_y;
            let whole = sum / 1_000_000;
            let rounded_up = if sum % 1_000_000 == 0 {
                whole
            } else {
                whole + 1
            };
            assert(rounded_up == ceil_div(sum as int, SCALE as int)) by {
                lemma_ceil_div_is_rounded_up(sum as int, 1_000_000);
            }
            if rounded_up > i64::MAX as u128 {
                Scalar { raw: i64::MAX }
            } else {
                Scalar { raw: rounded_up as i64 }
            }
        },
        Collider::Circle { .. } => Scalar::zero(),
    }
}

proof fn lemma_ceil_div_is_rounded_up(a: int, b: int)
    requires
        a >= 0,
        b > 0,
    ensures
        ceil_div(a, b) == if a % b == 0 { a / b } else { a / b + 1 },
{
    let q = a / b;
    let rest = a % b;
    vstd::arithmetic::div_mod::lemma_fundamental_div_mod(a, b);
    vstd::arithmetic::div_mod::lemma_mod_bound(a, b);
    lemma_ceil_div_bounds(a, b);
    let c = ceil_div(a, b);
    // c is the least number with a <= c * b.
    let expected = if rest == 0 { q } else { q + 1 };
    assert(expected * b == if rest == 0 { b * q } else { b * q + b }) by (nonlinear_arith)
        requires
            expected == if rest == 0 { q } else { q + 1 },
    ;
    if c < expected {
        assert(c * b <= (expected - 1) * b) by (nonlinear_arith)
            requires
                c <= expected - 1,
                b > 0,
        ;
        assert((expected - 1) * b == expected * b - b) by (nonlinear_arith);
    } else if c > expected {
        assert((c - 1) * b >= expected * b) by (nonlinear_arith)
            requires
                c - 1 >= expected,
                b > 0,
        ;
    }
}

pub open spec fn spec_is_close_to_zero(vector: Vec2) -> bool {
    vector.is_zero()
}

/// Whether `vector` is nearer to the origin than the numbers can tell: the
/// smallest step of a coordinate is a millionth, so only the origin is.
#[verifier::when_used_as_spec(spec_is_close_to_zero)]
pub fn is_close_to_zero(vector: Vec2) -> (r: bool)
    ensures
        r == spec_is_close_to_zero(vector),
{
    vector.is_zero()
}

/// The outward normal of the face of the box from `world_min` to `world_max`
/// that is nearest to `center`. Among equally near faces the one that comes
/// first in the order left, right, bottom, top is taken.
pub open spec fn nearest_face_normal(center: Vec2, world_min: Vec2, world_max: Vec2) -> Vec2 {
    let left = center.x.sub(world_min.x).abs();
    let right = center.x.sub(world_max.x).abs();
    let bottom = center.y.sub(world_min.y).abs();
    let top = center.y.sub(world_max.y).abs();
    let least = left.min(right.min(bottom.min(top)));
    if least == left {
        Vec2::unit_x().neg()
    } else if least == right {
        Vec2::unit_x()
    } else if least == bottom {
        Vec2::unit_y().neg()
    } else {
        Vec2::unit_y()
    }
}

fn face_normal(center: Vec2, world_min: Vec2, world_max: Vec2) -> (r: Vec2)
    ensures
        r == nearest_face_normal(center, world_min, world_max),
{
    let left = center.x.sub(world_min.x).abs();
    let right = center.x.sub(world_max.x).abs();
    let bottom = center.y.sub(world_min.y).abs();
    let top = center.y.sub(world_max.y).abs();
    let least = left.min(right.min(bottom.min(top)));
    if least.raw == left.raw {
        Vec2::unit_x().neg()
    } else if least.raw == right.raw {
        Vec2::unit_x()
    } else if least.raw == bottom.raw {
        Vec2::unit_y().neg()
    } else {
        Vec2::unit_y()
    }
}

/// The contact of the circle with centre `center` and radius `radius`, as
/// body A, with the box from `world_min` to `world_max`, as body B.
///
/// The two touch where the centre is nearer to the box than the radius. The
/// contact lies at the point of the box nearest to the centre and is as deep
/// as the radius exceeds the distance. The normal points from the centre to
/// that point; for a centre inside the box it is the outward normal of the
/// nearest face.
pub open spec fn circle_box_contact(
    center: Vec2,
    radius: Scalar,
    world_min: Vec2,
    world_max: Vec2,
    circle_index: usize,
    aabb_index: usize,
) -> Option<Contact> {
    let nearest = nearest_point(center, world_min, world_max);
    let dist = nearest.distance(center);
    let toward = nearest.sub(center);
    if dist.raw < radius.raw {
        Some(
            Contact {
                point: nearest,
                normal: if is_close_to_zero(toward) {
                    nearest_face_normal(center, world_min, world_max)
                } else {
                    toward.normalize()
                },
                pen_depth: radius.sub(dist),
                body_a_index: circle_index,
                body_b_index: aabb_index,
            },
        )
    } else {
        None
    }
}

/// The contact of two circles, A with centre `pos_a` and B with centre
/// `pos_b`.
///
/// The two touch where their centres are apart, yet nearer than the sum of
/// the radii. The normal is the unit vector from A to B, the depth is what
/// the sum of the radii exceeds the distance, and the point lies midway
/// between the two surfaces along the normal.
pub open spec fn circle_circle_contact(
    pos_a: Vec2,
    radius_a: Scalar,
    pos_b: Vec2,
    radius_b: Scalar,
    body_a_index: usize,
    body_b_index: usize,
) -> Option<Contact> {
    let difference = pos_b.sub(pos_a);
    let dist = difference.length();
    if dist.raw < radius_a.add(radius_b).raw && dist.raw != 0 {
        let normal = difference.normalize();
        let surface_a = pos_a.add(normal.scale(radius_a));
        let surface_b = pos_b.sub(normal.scale(radius_b));
        Some(
            Contact {
                point: surface_a.add(surface_b).scale(spec_half()),
                normal,
                pen_depth: radius_a.add(radius_b).sub(dist),
                body_a_index,
                body_b_index,
            },
        )
    } else {
        None
    }
}

/// By how much the boxes A and B overlap along each axis; negative where
/// they are apart.
pub open spec fn box_overlap(min_a: Vec2, max_a: Vec2, min_b: Vec2, max_b: Vec2) -> Vec2 {
    Vec2 {
        x: max_a.x.min(max_b.x).sub(min_a.x.max(min_b.x)),
        y: max_a.y.min(max_b.y).sub(min_a.y.max(min_b.y)),
    }
}

/// The contact of two boxes.
///
/// The two touch where they overlap, or meet, along both axes. The depth is
/// the smaller overlap, and the normal lies along the axis of the smaller
/// overlap (the first axis where both are equal). Along that axis it points
/// from A toward B, which is the shorter way apart: toward the lower
/// coordinates where B reaches less far beyond the lower face of A than A
/// beyond the lower face of B, else toward the higher ones. The point is the
/// middle of the overlap.
pub open spec fn box_box_contact(
    min_a: Vec2,
    max_a: Vec2,
    min_b: Vec2,
    max_b: Vec2,
    body_a_index: usize,
    body_b_index: usize,
) -> Option<Contact> {
    let overlap = box_overlap(min_a, max_a, min_b, max_b);
    let depth = overlap.x.min(overlap.y);
    if depth.raw < 0 {
        None
    } else {
        let overlap_min = Vec2 { x: min_a.x.max(min_b.x), y: min_a.y.max(min_b.y) };
        let overlap_max = Vec2 { x: max_a.x.min(max_b.x), y: max_a.y.min(max_b.y) };
        Some(
            Contact {
                point: overlap_min.add(overlap_max).scale(spec_half()),
                normal: if overlap.x.raw > overlap.y.raw {
                    if max_b.y.sub(min_a.y).raw < max_a.y.sub(min_b.y).raw {
                        Vec2::unit_y().neg()
                    } else {
                        Vec2::unit_y()
                    }
                } else {
                    if max_b.x.sub(min_a.x).raw < max_a.x.sub(min_b.x).raw {
                        Vec2::unit_x().neg()
                    } else {
                        Vec2::unit_x()
                    }
                },
                pen_depth: depth,
                body_a_index,
                body_b_index,
            },
        )
    }
}

/// The contact with its normal turned round.
pub open spec fn flipped(contact: Option<Contact>) -> Option<Contact> {
    match contact {
        Some(c) => Some(Contact { normal: c.normal.neg(), ..c }),
        None => None,
    }
}

pub open spec fn spec_test_circle_aabb(
    circle: Collider,
    aabb: Collider,
    circle_body: RigidBody2D,
    aabb_body: RigidBody2D,
    circle_index: usize,
    aabb_index: usize,
) -> Option<Contact> {
    match (circle, aabb) {
        (Collider::Circle { offset, radius }, Collider::AABB { min, max }) => circle_box_contact(
            circle_body.position.add(offset),
            radius,
            aabb_body.position.add(min),
            aabb_body.position.add(max),
            circle_index,
            aabb_index,
        ),
        _ => None,
    }
}

/// Tests a circle, as body A, against a box, as body B. Other pairs of
/// shapes give no contact.
pub fn test_circle_aabb(
    circle: &Collider,
    aabb: &Collider,
    circle_body: &RigidBody2D,
    aabb_body: &RigidBody2D,
    circle_index: usize,
    aabb_index: usize,
) -> (r: Option<Contact>)
    ensures
        r == spec_test_circle_aabb(
            *circle,
            *aabb,
            *circle_body,
            *aabb_body,
            circle_index,
            aabb_index,
        ),
{
    match (circle, aabb) {
        (Collider::Circle { offset, radius }, Collider::AABB { min, max }) => {
            let circle_world_pos = circle_body.position.add(*offset);
            let nearest_point_to_center = point_aabb_nearest_point(
                circle_world_pos,
                aabb,
                aabb_body,
            );
            let dist = nearest_point_to_center.distance(circle_world_pos);
            let collision_vector = nearest_point_to_center.sub(circle_world_pos);
            let world_min = aabb_body.position.add(*min);
            let world_max = aabb_body.position.add(*max);
            let normal = if is_close_to_zero(collision_vector) {
                face_normal(circle_world_pos, world_min, world_max)
            } else {
                collision_vector.normalize()
            };
            if dist.raw < radius.raw {
                Some(
                    Contact {
                        point: nearest_point_to_center,
                        pen_depth: radius.sub(dist),
                        normal,
                        body_a_index: circle_index,
                        body_b_index: aabb_index,
                    },
                )
            } else {
                None
            }
        },
        _ => None,
    }
}

pub open spec fn spec_test_aabb_circle(
    aabb: Collider,
    circle: Collider,
    aabb_body: RigidBody2D,
    circle_body: RigidBody2D,
    aabb_index: usize,
    circle_index: usize,
) -> Option<Contact> {
    flipped(spec_test_circle_aabb(circle, aabb, circle_body, aabb_body, aabb_index, circle_index))
}

/// Tests a box, as body A, against a circle, as body B: the contact of the
/// circle with the box, with the normal turned round.
pub fn test_aabb_circle(
    aabb: &Collider,
    circle: &Collider,
    aabb_body: &RigidBody2D,
    circle_body: &RigidBody2D,
    aabb_index: usize,
    circle_index: usize,
) -> (r: Option<Contact>)
    ensures
        r == spec_test_aabb_circle(
            *aabb,
            *circle,
            *aabb_body,
            *circle_body,
            aabb_index,
            circle_index,
        ),
{
    let con = test_circle_aabb(circle, aabb, circle_body, aabb_body, aabb_index, circle_index);
    match con {
        Some(contact) => Some(
            Contact {
                point: contact.point,
                normal: contact.normal.neg(),
                pen_depth: contact.pen_depth,
                body_a_index: contact.body_a_index,
                body_b_index: contact.body_b_index,
            },
        ),
        None => None,
    }
}

impl Collider {
    pub open spec fn spec_world_aabb(&self, body_pos: Vec2) -> Option<(Vec2, Vec2)> {
        match *self {
            Collider::AABB { min, max } => Some((body_pos.add(min), body_pos.add(max))),
            _ => None,
        }
    }

    /// The two corners of a box carried by a body at `body_pos`; nothing for
    /// a circle.
    #[verifier::when_used_as_spec(spec_world_aabb)]
    pub fn world_aabb(&self, body_pos: Vec2) -> (r: Option<(Vec2, Vec2)>)
        ensures
            r == self.spec_world_aabb(body_pos),
    {
        match self {
            Collider::AABB { min, max } => Some((body_pos.add(*min), body_pos.add(*max))),
            _ => None,
        }
    }

    pub open spec fn spec_world_circle(&self, owner_pos: Vec2) -> Option<Vec2> {
        match *self {
            Collider::Circle { offset, radius } => Some(owner_pos.add(offset)),
            _ => None,
        }
    }

    /// The centre of a circle carried by a body at `owner_pos`; nothing for a
    /// box.
    #[verifier::when_used_as_spec(spec_world_circle)]
    pub fn world_circle(&self, owner_pos: Vec2) -> (r: Option<Vec2>)
        ensures
            r == self.spec_world_circle(owner_pos),
    {
        match self {
            Collider::Circle { offset, .. } => Some(owner_pos.add(*offset)),
            _ => None,
        }
    }

    /// The contact of this shape on `body_a` with `collider_b` on `body_b`.
    pub open spec fn spec_collides_with(
        &self,
        body_a: &RigidBody2D,
        body_b: &RigidBody2D,
        collider_b: &Collider,
        body_a_index: usize,
        body_b_index: usize,
    ) -> Option<Contact> {
        match (*self, *collider_b) {
            (
                Collider::Circle { offset: offset_a, radius: radius_a },
                Collider::Circle { offset: offset_b, radius: radius_b },
            ) => circle_circle_contact(
                body_a.position.add(offset_a),
                radius_a,
                body_b.position.add(offset_b),
                radius_b,
                body_a_index,
                body_b_index,
            ),
            (Collider::AABB { .. }, Collider::Circle { .. }) => spec_test_aabb_circle(
                *self,
                *collider_b,
                *body_a,
                *body_b,
                body_a_index,
                body_b_index,
            ),
            (Collider::Circle { .. }, Collider::AABB { .. }) => spec_test_circle_aabb(
                *self,
                *collider_b,
                *body_a,
                *body_b,
                body_a_index,
                body_b_index,
            ),
            (
                Collider::AABB { min: min_a, max: max_a },
                Collider::AABB { min: min_b, max: max_b },
            ) => box_box_contact(
                body_a.position.add(min_a),
                body_a.position.add(max_a),
                body_b.position.add(min_b),
                body_b.position.add(max_b),
                body_a_index,
                body_b_index,
            ),
        }
    }

    /// Tests this shape, carried by `body_a`, against `collider_b`, carried
    /// by `body_b`.
    #[verifier::when_used_as_spec(spec_collides_with)]
    pub fn collides_with(
        &self,
        body_a: &RigidBody2D,
        body_b: &RigidBody2D,
        collider_b: &Collider,
        body_a_index: usize,
        body_b_index: usize,
    ) -> (r: Option<Contact>)
        ensures
            r == self.spec_collides_with(body_a, body_b, collider_b, body_a_index, body_b_index),
            r matches Some(contact) ==> contact.pen_depth@ >= 0 && contact.body_a_index
                == body_a_index && contact.body_b_index == body_b_index,
            r matches Some(contact) ==> nearly_unit(contact.normal),
    {
        proof {
            lemma_contact_normal_nearly_unit(
                *self,
                *body_a,
                *body_b,
                *collider_b,
                body_a_index,
                body_b_index,
            );
        }
        match (self, collider_b) {
            (
                Collider::Circle { offset: offset_a, radius: radius_a },
                Collider::Circle { offset: offset_b, radius: radius_b },
            ) => {
                let pos_a = body_a.position.add(*offset_a);
                let pos_b = body_b.position.add(*offset_b);
                let position_difference = pos_b.sub(pos_a);
                let dist = position_difference.length();
                if dist.raw < radius_a.add(*radius_b).raw && dist.raw != 0 {
                    let normal = position_difference.normalize();
                    let surface_a = pos_a.add(normal.scale(*radius_a));
                    let surface_b = pos_b.sub(normal.scale(*radius_b));
                    let point = surface_a.add(surface_b).scale(half());
                    Some(
                        Contact {
                            point,
                            normal,
                            pen_depth: radius_a.add(*radius_b).sub(dist),
                            body_a_index,
                            body_b_index,
                        },
                    )
                } else {
                    None
                }
            },
            (Collider::AABB { .. }, Collider::Circle { .. }) => test_aabb_circle(
                self,
                collider_b,
                body_a,
                body_b,
                body_a_index,
                body_b_index,
            ),
            (Collider::Circle { .. }, Collider::AABB { .. }) => test_circle_aabb(
                self,
                collider_b,
                body_a,
                body_b,
                body_a_index,
                body_b_index,
            ),
            (
                Collider::AABB { min: local_min_a, max: local_max_a },
                Collider::AABB { min: local_min_b, max: local_max_b },
            ) => {
                let min_a = body_a.position.add(*local_min_a);
                let max_a = body_a.position.add(*local_max_a);
                let min_b = body_b.position.add(*local_min_b);
                let max_b = body_b.position.add(*local_max_b);
                let is_colliding = max_a.x.raw >= min_b.x.raw && max_b.x.raw >= min_a.x.raw
                    && max_a.y.raw >= min_b.y.raw && max_b.y.raw >= min_a.y.raw;
                let overlap_min = Vec2::new(min_a.x.max(min_b.x), min_a.y.max(min_b.y));
                let overlap_max = Vec2::new(max_a.x.min(max_b.x), max_a.y.min(max_b.y));
                let contact_point = overlap_min.add(overlap_max).scale(half());
                if is_colliding {
                    let x_overlap = max_a.x.min(max_b.x).sub(min_a.x.max(min_b.x));
                    let y_overlap = max_a.y.min(max_b.y).sub(min_a.y.max(min_b.y));
                    let depth = x_overlap.min(y_overlap);
                    if depth.raw < 0 {
                        return None;
                    }
                    let normal = if x_overlap.raw > y_overlap.raw {
                        let top_penetration = max_a.y.sub(min_b.y);
                        let bottom_penetration = max_b.y.sub(min_a.y);
                        if bottom_penetration.raw < top_penetration.raw {
                            Vec2::unit_y().neg()
                        } else {
                            Vec2::unit_y()
                        }
                    } else {
                        let right_penetration = max_a.x.sub(min_b.x);
                        let left_penetration = max_b.x.sub(min_a.x);
                        if left_penetration.raw < right_penetration.raw {
                            Vec2::unit_x().neg()
                        } else {
                            Vec2::unit_x()
                        }
                    };
                    return Some(
                        Contact {
                            pen_depth: depth,
                            point: contact_point,
                            normal,
                            body_a_index,
                            body_b_index,
                        },
                    );
                }
                None
            },
        }
    }
}

/// By how much the two shapes overlap, as the narrow phase computes it: for
/// two circles what the sum of the radii exceeds the distance of the
/// centres, for a circle and a box what the radius exceeds the distance from
/// the centre to the box, for two boxes the smaller of the overlaps along
/// the axes.
pub open spec fn computed_overlap(
    collider_a: Collider,
    body_a: RigidBody2D,
    body_b: RigidBody2D,
    collider_b: Collider,
) -> Scalar {
    match (collider_a, collider_b) {
        (
            Collider::Circle { offset: offset_a, radius: radius_a },
            Collider::Circle { offset: offset_b, radius: radius_b },
        ) => radius_a.add(radius_b).sub(
            body_b.position.add(offset_b).sub(body_a.position.add(offset_a)).length(),
        ),
        (Collider::Circle { offset, radius }, Collider::AABB { min, max }) => radius.sub(
            nearest_point(
                body_a.position.add(offset),
                body_b.position.add(min),
                body_b.position.add(max),
            ).distance(body_a.position.add(offset)),
        ),
        (Collider::AABB { min, max }, Collider::Circle { offset, radius }) => radius.sub(
            nearest_point(
                body_b.position.add(offset),
                body_a.position.add(min),
                body_a.position.add(max),
            ).distance(body_b.position.add(offset)),
        ),
        (
            Collider::AABB { min: min_a, max: max_a },
            Collider::AABB { min: min_b, max: max_b },
        ) => {
            let overlap = box_overlap(
                body_a.position.add(min_a),
                body_a.position.add(max_a),
                body_b.position.add(min_b),
                body_b.position.add(max_b),
            );
            overlap.x.min(overlap.y)
        },
    }
}

/// Whether both shapes are circles whose centres fall on one point, so that
/// no direction leads from one to the other.
pub open spec fn concentric(
    collider_a: Collider,
    body_a: RigidBody2D,
    body_b: RigidBody2D,
    collider_b: Collider,
) -> bool {
    match (collider_a, collider_b) {
        (
            Collider::Circle { offset: offset_a, radius: radius_a },
            Collider::Circle { offset: offset_b, radius: radius_b },
        ) => body_b.position.add(offset_b).sub(body_a.position.add(offset_a)).length()@ == 0,
        _ => false,
    }
}

/// The narrow phase finds a contact just where the shapes overlap, and the
/// contact is as deep as they do.
///
/// Shapes with a negative overlap have no contact. With an overlap of zero
/// two boxes have one, of depth zero, and any pair with a circle has none.
/// With a positive overlap there is a contact, unless the shapes are
/// concentric circles.
pub proof fn lemma_contact_iff_overlap(
    collider_a: Collider,
    body_a: RigidBody2D,
    body_b: RigidBody2D,
    collider_b: Collider,
    body_a_index: usize,
    body_b_index: usize,
)
    ensures
        ({
            let found = collider_a.collides_with(
                &body_a,
                &body_b,
                &collider_b,
                body_a_index,
                body_b_index,
            );
            let overlap = computed_overlap(collider_a, body_a, body_b, collider_b);
            &&& overlap@ < 0 ==> found is None
            &&& overlap@ == 0 && (collider_a is Circle || collider_b is Circle) ==> found is None
            &&& overlap@ == 0 && collider_a is AABB && collider_b is AABB ==> found is Some
            &&& overlap@ > 0 && !concentric(collider_a, body_a, body_b, collider_b) ==> found
                is Some
            &&& found matches Some(contact) ==> contact.pen_depth == overlap && overlap@ >= 0
        }),
{
}

/// Two circles whose centres are apart by less than the sum of their radii
/// touch. The contact is as deep as that sum exceeds the distance, and its
/// normal is a unit vector, as far as a millionth can tell, that points from
/// the first centre to the second. Where the length of the difference of
/// the centres does not clamp, the distance is the true one rounded down.
pub proof fn lemma_circle_circle_contact(
    pos_a: Vec2,
    radius_a: Scalar,
    pos_b: Vec2,
    radius_b: Scalar,
    body_a_index: usize,
    body_b_index: usize,
)
    requires
        0 < pos_b.sub(pos_a).length()@ < radius_a.add(radius_b)@,
    ensures
        ({
            let difference = pos_b.sub(pos_a);
            let dist = difference.length();
            let found = circle_circle_contact(
                pos_a,
                radius_a,
                pos_b,
                radius_b,
                body_a_index,
                body_b_index,
            );
            &&& found matches Some(contact)
            &&& contact.pen_depth@ == saturate(radius_a@ + radius_b@) - dist@
            &&& contact.normal == difference.normalize()
            &&& nearly_unit(contact.normal)
            &&& points_along(contact.normal, difference)
            &&& raw_length(difference.x@, difference.y@) <= i64::MAX ==> dist@ * dist@
                <= raw_sq_norm(difference) < (dist@ + 1) * (dist@ + 1)
        }),
{
    let difference = pos_b.sub(pos_a);
    assert(!difference.is_zero()) by {
        if difference.is_zero() {
            assert(0int * 0int + 0int * 0int == 0);
        }
    }
    lemma_normalize_nearly_unit(difference);
    if raw_length(difference.x@, difference.y@) <= i64::MAX {
        let n = raw_sq_norm(difference);
        assert(n >= 0) by (nonlinear_arith)
            requires
                n == difference.x@ * difference.x@ + difference.y@ * difference.y@,
        ;
        lemma_int_sqrt_bounds(n as nat);
        let dist = difference.length();
        assert(dist@ == int_sqrt(n as nat));
    }
}

proof fn lemma_circle_box_normal(
    center: Vec2,
    radius: Scalar,
    world_min: Vec2,
    world_max: Vec2,
    circle_index: usize,
    aabb_index: usize,
)
    ensures
        circle_box_contact(
            center,
            radius,
            world_min,
            world_max,
            circle_index,
            aabb_index,
        ) matches Some(contact) ==> nearly_unit(contact.normal),
{
    let nearest = nearest_point(center, world_min, world_max);
    let toward = nearest.sub(center);
    lemma_axes_nearly_unit();
    if !toward.is_zero() {
        lemma_normalize_nearly_unit(toward);
    }
}

/// The normal of every contact is a unit vector as far as a millionth can
/// tell.
pub proof fn lemma_contact_normal_nearly_unit(
    collider_a: Collider,
    body_a: RigidBody2D,
    body_b: RigidBody2D,
    collider_b: Collider,
    body_a_index: usize,
    body_b_index: usize,
)
    ensures
        collider_a.collides_with(
            &body_a,
            &body_b,
            &collider_b,
            body_a_index,
            body_b_index,
        ) matches Some(contact) ==> nearly_unit(contact.normal),
{
    lemma_axes_nearly_unit();
    match (collider_a, collider_b) {
        (
            Collider::Circle { offset: offset_a, radius: radius_a },
            Collider::Circle { offset: offset_b, radius: radius_b },
        ) => {
            let pos_a = body_a.position.add(offset_a);
            let pos_b = body_b.position.add(offset_b);
            let difference = pos_b.sub(pos_a);
            if difference.is_zero() {
                assert(0int * 0int + 0int * 0int == 0);
                assert(difference.length()@ == 0);
            } else {
                lemma_normalize_nearly_unit(difference);
            }
        },
        (Collider::Circle { offset, radius }, Collider::AABB { min, max }) => {
            lemma_circle_box_normal(
                body_a.position.add(offset),
                radius,
                body_b.position.add(min),
                body_b.position.add(max),
                body_a_index,
                body_b_index,
            );
        },
        (Collider::AABB { min, max }, Collider::Circle { offset, radius }) => {
            lemma_circle_box_normal(
                body_b.position.add(offset),
                radius,
                body_a.position.add(min),
                body_a.position.add(max),
                body_a_index,
                body_b_index,
            );
            let inner = circle_box_contact(
                body_b.position.add(offset),
                radius,
                body_a.position.add(min),
                body_a.position.add(max),
                body_a_index,
                body_b_index,
            );
            if let Some(contact) = inner {
                lemma_neg_nearly_unit(contact.normal);
            }
        },
        (Collider::AABB { .. }, Collider::AABB { .. }) => {},
    }
}

/// The normal between two boxes points from A toward B: along the axis of
/// the contact, the middle of B does not lie on the other side of the middle
/// of A than the normal points to. The corners are taken in order and within
/// the working range.
pub proof fn lemma_box_box_normal_points_apart(
    min_a: Vec2,
    max_a: Vec2,
    min_b: Vec2,
    max_b: Vec2,
    body_a_index: usize,
    body_b_index: usize,
)
    requires
        -WORKING_RANGE <= min_a.x@ <= max_a.x@ <= WORKING_RANGE,
        -WORKING_RANGE <= min_a.y@ <= max_a.y@ <= WORKING_RANGE,
        -WORKING_RANGE <= min_b.x@ <= max_b.x@ <= WORKING_RANGE,
        -WORKING_RANGE <= min_b.y@ <= max_b.y@ <= WORKING_RANGE,
    ensures
        box_box_contact(min_a, max_a, min_b, max_b, body_a_index, body_b_index) matches Some(
            contact,
        ) ==> {
            &&& contact.normal == Vec2::unit_x() ==> min_a.x@ + max_a.x@ <= min_b.x@ + max_b.x@
            &&& contact.normal == Vec2::unit_x().neg() ==> min_a.x@ + max_a.x@ > min_b.x@
                + max_b.x@
            &&& contact.normal == Vec2::unit_y() ==> min_a.y@ + max_a.y@ <= min_b.y@ + max_b.y@
            &&& contact.normal == Vec2::unit_y().neg() ==> min_a.y@ + max_a.y@ > min_b.y@
                + max_b.y@
        },
{
    assert(WORKING_RANGE == 0x2000_0000_0000_0000);
}

/// For a box whose corners are in order, the squared distance is the square
/// of the length of the way from the nearest point of the box to `point`,
/// rounded up by less than a millionth. The coordinates lie within the
/// working range, and the square below the largest number.
pub proof fn lemma_sq_dist_is_rounded_up(point: Vec2, world_min: Vec2, world_max: Vec2)
    requires
        -WORKING_RANGE <= world_min.x@ <= world_max.x@ <= WORKING_RANGE,
        -WORKING_RANGE <= world_min.y@ <= world_max.y@ <= WORKING_RANGE,
        -WORKING_RANGE <= point.x@ <= WORKING_RANGE,
        -WORKING_RANGE <= point.y@ <= WORKING_RANGE,
    ensures
        ({
            let away = point.sub(nearest_point(point, world_min, world_max));
            let found = sq_dist_to_box(point, world_min, world_max);
            &&& raw_sq_norm(away) == sq_gap(point.x, world_min.x, world_max.x) + sq_gap(
                point.y,
                world_min.y,
                world_max.y,
            )
            &&& found@ == saturate(ceil_div(raw_sq_norm(away), SCALE as int))
            &&& raw_sq_norm(away) <= SCALE * i64::MAX ==> (found@ - 1) * SCALE < raw_sq_norm(away)
                <= found@ * SCALE
        }),
{
    assert(WORKING_RANGE == 0x2000_0000_0000_0000);
    let near = nearest_point(point, world_min, world_max);
    let away = point.sub(near);
    let gx = sq_gap(point.x, world_min.x, world_max.x);
    let gy = sq_gap(point.y, world_min.y, world_max.y);
    assert(away.x@ * away.x@ == gx) by {
        lemma_axis_gap(point.x, world_min.x, world_max.x);
    }
    assert(away.y@ * away.y@ == gy) by {
        lemma_axis_gap(point.y, world_min.y, world_max.y);
    }
    let n = raw_sq_norm(away);
    assert(gx >= 0 && gy >= 0) by (nonlinear_arith)
        requires
            gx == away.x@ * away.x@,
            gy == away.y@ * away.y@,
    ;
    lemma_ceil_div_bounds(n, SCALE as int);
    let c = ceil_div(n, SCALE as int);
    if n <= SCALE * i64::MAX {
        assert(c <= i64::MAX) by (nonlinear_arith)
            requires
                (c - 1) * SCALE < n,
                n <= SCALE * i64::MAX,
                SCALE == 1_000_000,
        ;
    }
}

proof fn lemma_axis_gap(p: Scalar, lo: Scalar, hi: Scalar)
    requires
        -WORKING_RANGE <= lo@ <= hi@ <= WORKING_RANGE,
        -WORKING_RANGE <= p@ <= WORKING_RANGE,
    ensures
        p.sub(p.clamp(lo, hi))@ * p.sub(p.clamp(lo, hi))@ == sq_gap(p, lo, hi),
{
    assert(WORKING_RANGE == 0x2000_0000_0000_0000);
    let d = p.sub(p.clamp(lo, hi))@;
    if p@ < lo@ {
        assert(d == -(lo.sub(p)@));
        assert(d * d == lo.sub(p)@ * lo.sub(p)@) by (nonlinear_arith)
            requires
                d == -(lo.sub(p)@),
        ;
    } else if p@ > hi@ {
        assert(d == p.sub(hi)@);
    } else {
        assert(d == 0);
        assert(d * d == 0) by (nonlinear_arith)
            requires
                d == 0,
        ;
    }
}

/// Whether two overlapping boxes reach equally far into each other from both
/// sides along the axis of their contact, so that neither direction along it
/// is the shorter way out.
pub open spec fn evenly_overlapping(min_a: Vec2, max_a: Vec2, min_b: Vec2, max_b: Vec2) -> bool {
    let overlap = box_overlap(min_a, max_a, min_b, max_b);
    if overlap.x@ > overlap.y@ {
        max_a.y.sub(min_b.y) == max_b.y.sub(min_a.y)
    } else {
        max_a.x.sub(min_b.x) == max_b.x.sub(min_a.x)
    }
}

/// Testing two boxes in either order gives a contact or none alike, at the
/// same point and of the same depth. Unless the boxes overlap evenly, the
/// two normals are opposite.
pub proof fn lemma_box_box_symmetric(
    min_a: Vec2,
    max_a: Vec2,
    min_b: Vec2,
    max_b: Vec2,
    body_a_index: usize,
    body_b_index: usize,
)
    ensures
        ({
            let forth = box_box_contact(min_a, max_a, min_b, max_b, body_a_index, body_b_index);
            let back = box_box_contact(min_b, max_b, min_a, max_a, body_b_index, body_a_index);
            &&& forth is Some <==> back is Some
            &&& forth matches Some(c) ==> back matches Some(d) && {
                &&& d.pen_depth == c.pen_depth
                &&& d.point == c.point
                &&& !evenly_overlapping(min_a, max_a, min_b, max_b) ==> d.normal == c.normal.neg()
                    && c.normal == d.normal.neg()
            }
        }),
{
}

} // verus!
