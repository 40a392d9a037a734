use macroquad::color::Color;
use physixx::collider::{Collider, Contact};
use physixx::object::{Object, ObjectBuilder};
use physixx::rigid_body::{RigidBody2D, RigidBody2DBuilder};
use physixx::scalar::Scalar;
use physixx::solver::{
    apply_gravity, bias_factor, bias_velocity, check_collision, friction_impulse, friction_push,
    gravity_acceleration, normal_impulse, normal_push, resolve_interpenetration, resolve_pair,
    restoring_speed, slop, step, velocity_change,
};
use physixx::vec2::Vec2;

const ONE: i64 = 1_000_000;
const FRAME: i64 = 16_667;

fn s(raw: i64) -> Scalar {
    Scalar::from_raw(raw)
}

fn v(x: i64, y: i64) -> Vec2 {
    Vec2::new(s(x), s(y))
}

fn circle(radius: i64) -> Collider {
    Collider::Circle { offset: Vec2::zero(), radius: s(radius) }
}

fn floor_shape() -> Collider {
    Collider::AABB { min: v(0, -10 * ONE), max: v(200 * ONE, 0) }
}

fn object(body: RigidBody2D, collider: Collider) -> Object {
    ObjectBuilder::new()
        .with_body(body)
        .with_collider(collider)
        .with_color(Color::new(1.0, 1.0, 0.0, 1.0))
        .build()
}

fn ball(x: i64, y: i64, vx: i64, vy: i64) -> RigidBody2D {
    RigidBody2DBuilder::new()
        .with_position(v(x, y))
        .with_vel(v(vx, vy))
        .with_restitution(Scalar::one())
        .build()
}

fn floor_body() -> RigidBody2D {
    RigidBody2DBuilder::new().make_static().with_shape(floor_shape()).build()
}

fn head_on(pen_depth: i64) -> Contact {
    Contact {
        point: v(ONE, 0),
        normal: v(ONE, 0),
        pen_depth: s(pen_depth),
        body_a_index: 0,
        body_b_index: 1,
    }
}

#[test]
fn constants_of_the_solver() {
    assert_eq!(slop(), s(10_000));
    assert_eq!(bias_factor(), s(200_000));
    assert_eq!(gravity_acceleration(), v(0, -9_810_000));
}

#[test]
fn bias_velocity_takes_back_a_fifth_of_the_excess() {
    // (0.2 / 0.02) * (0.06 - 0.01) = 0.5
    assert_eq!(bias_velocity(s(60_000), s(20_000)), s(500_000));
    // (0.2 / 0.5) * (1.01 - 0.01) = 0.4
    assert_eq!(bias_velocity(s(1_010_000), s(500_000)), s(400_000));
}

#[test]
fn no_bias_velocity_within_the_slop() {
    for dt in [1, FRAME, ONE, 0, -FRAME] {
        assert_eq!(bias_velocity(s(10_000), s(dt)), Scalar::zero());
        assert_eq!(bias_velocity(s(9_999), s(dt)), Scalar::zero());
        assert_eq!(bias_velocity(s(0), s(dt)), Scalar::zero());
        assert_eq!(bias_velocity(s(-5 * ONE), s(dt)), Scalar::zero());
    }
    assert_eq!(bias_velocity(s(10_001), s(FRAME)), s(11));
}

#[test]
fn approaching_bodies_receive_a_normal_impulse() {
    let a = ball(0, 0, 2 * ONE, 0);
    let b = ball(1_995_000, 0, -2 * ONE, 0);
    // (1 + 1) * (4 + 0) / 2 = 4
    assert_eq!(normal_impulse(a, b, head_on(5_000), s(FRAME)), s(4 * ONE));
    assert_eq!(friction_impulse(a, b, head_on(5_000), s(FRAME)), Scalar::zero());
}

#[test]
fn restitution_is_the_product_of_both() {
    let a = ball(0, 0, 2 * ONE, 0);
    let mut b = ball(1_995_000, 0, -2 * ONE, 0);
    b.restitution = s(500_000);
    // (1 + 0.5) * 4 / 2 = 3
    assert_eq!(normal_impulse(a, b, head_on(5_000), s(FRAME)), s(3 * ONE));
}

#[test]
fn bodies_moving_apart_receive_no_impulse() {
    let a = ball(0, 0, -ONE, 0);
    let b = ball(1_995_000, 0, ONE, 0);
    assert_eq!(normal_impulse(a, b, head_on(5_000), s(FRAME)), Scalar::zero());
    assert_eq!(friction_impulse(a, b, head_on(5_000), s(FRAME)), Scalar::zero());
    assert_eq!(resolve_pair(a, b, head_on(5_000), s(FRAME)), (a, b));
}

#[test]
fn deep_contact_pushes_even_bodies_that_move_apart() {
    let a = ball(0, 0, -ONE, 0);
    let b = ball(1_500_000, 0, ONE, 0);
    // bias (0.2 / 0.01) * (0.5 - 0.01) = 9.8; (1 + 1) * (-2 + 9.8) / 2 = 7.8
    assert_eq!(bias_velocity(s(500_000), s(10_000)), s(9_800_000));
    assert_eq!(normal_impulse(a, b, head_on(500_000), s(10_000)), s(7_800_000));
}

#[test]
fn friction_is_held_within_the_cone() {
    let mut a = ball(0, 0, 2 * ONE, 0);
    let mut b = ball(1_995_000, 0, -2 * ONE, 10 * ONE);
    a.mu = s(500_000);
    b.mu = s(500_000);
    // Normal impulse 4, friction coefficient 0.25: at most 1 along the
    // tangent (0, 1), against the relative velocity of 10.
    assert_eq!(friction_impulse(a, b, head_on(5_000), s(FRAME)), s(-ONE));
    b.vel = v(-2 * ONE, ONE);
    // -1 / 2 lies within the cone.
    assert_eq!(friction_impulse(a, b, head_on(5_000), s(FRAME)), s(-500_000));
    let (after_a, after_b) = resolve_pair(a, b, head_on(5_000), s(FRAME));
    assert_eq!(after_b.vel, v(2 * ONE, 500_000));
    assert_eq!(after_a.vel, v(-2 * ONE, 500_000));
}

#[test]
fn equal_circles_meeting_head_on_exchange_their_velocities() {
    let mut objects = [
        object(ball(0, 0, 2 * ONE, 0), circle(ONE)),
        object(ball(1_995_000, 0, -2 * ONE, 0), circle(ONE)),
    ];
    let contacts = check_collision(&objects);
    assert_eq!(contacts.len(), 1);
    assert_eq!(contacts[0].normal, v(ONE, 0));
    assert_eq!(contacts[0].pen_depth, s(5_000));
    resolve_interpenetration(&mut objects, &contacts[0], s(FRAME));
    assert_eq!(objects[0].body.unwrap().vel, v(-2 * ONE, 0));
    assert_eq!(objects[1].body.unwrap().vel, v(2 * ONE, 0));
    assert_eq!(objects[0].body.unwrap().position, v(0, 0));
    assert_eq!(objects[1].body.unwrap().position, v(1_995_000, 0));
}

#[test]
fn equal_circles_approaching_exchange_their_velocities_within_a_step() {
    let mut objects = [
        object(ball(0, 0, 3 * ONE, 0), circle(ONE)),
        object(ball(2_500_000, 0, -3 * ONE, 0), circle(ONE)),
    ];
    let mut met = false;
    for _ in 0..30 {
        let contacts = step(&mut objects, s(FRAME), 10);
        met = met || !contacts.is_empty();
    }
    assert!(met);
    let a = objects[0].body.unwrap();
    let b = objects[1].body.unwrap();
    // They have parted again, each with about the speed the other came with.
    assert!(b.position.x.raw - a.position.x.raw > 2 * ONE);
    assert!((a.vel.x.raw + 3 * ONE).abs() <= 300_000);
    assert!((b.vel.x.raw - 3 * ONE).abs() <= 300_000);
    assert_eq!(a.vel.x.raw, -b.vel.x.raw);
    assert_eq!(a.vel.y.raw, 0);
    assert_eq!(b.vel.y.raw, 0);
}

#[test]
fn contact_of_a_lighter_with_a_heavier_body() {
    // A of mass 1 runs into B of mass 4 at rest: impulse (1 + 1) * 5 / 1.25 = 8.
    let a = ball(0, 0, 5 * ONE, 0);
    let mut b = ball(1_995_000, 0, 0, 0);
    b.inverse_mass = s(250_000);
    b.mu = Scalar::zero();
    let (after_a, after_b) = resolve_pair(a, b, head_on(5_000), s(FRAME));
    assert_eq!(after_a.vel, v(-3 * ONE, 0));
    assert_eq!(after_b.vel, v(2 * ONE, 0));
}

#[test]
fn very_light_body_bounces_off_a_wall_by_the_product_of_the_restitutions() {
    // Inverse mass a million, restitution 0.5 each, speed 1 into a static
    // wall: it comes back with 0.5 * 0.5 of its speed.
    let mut light = ball(0, 0, ONE, 0);
    light.inverse_mass = s(ONE * ONE);
    light.restitution = s(500_000);
    light.mu = Scalar::zero();
    let mut wall = floor_body();
    wall.restitution = s(500_000);
    let touch = head_on(0);
    assert_eq!(restoring_speed(light, wall, touch, s(FRAME)), s(1_250_000));
    assert_eq!(normal_push(light, wall, touch, s(FRAME), light.inverse_mass), s(1_250_000));
    assert_eq!(normal_push(light, wall, touch, s(FRAME), wall.inverse_mass), Scalar::zero());
    let (after, wall_after) = resolve_pair(light, wall, touch, s(FRAME));
    assert_eq!(after.vel, v(-250_000, 0));
    assert_eq!(wall_after, wall);
}

#[test]
fn closing_speed_comes_back_by_the_product_of_the_restitutions() {
    for (inv_a, inv_b) in [(ONE, ONE), (250_000, 4 * ONE), (ONE * ONE, 1), (3, 7), (ONE, 0)] {
        let mut a = ball(0, 0, 2 * ONE, 0);
        let mut b = ball(1_995_000, 0, -ONE, 0);
        a.inverse_mass = s(inv_a);
        b.inverse_mass = s(inv_b);
        a.restitution = s(800_000);
        b.restitution = s(500_000);
        let (after_a, after_b) = resolve_pair(a, b, head_on(5_000), s(FRAME));
        // They closed at 3 and part at 0.4 * 3, within a few millionths.
        let parting = after_b.vel.x.raw - after_a.vel.x.raw;
        assert!((parting - 1_200_000).abs() <= 4);
        assert!(parting >= -3 * ONE);
    }
}

#[test]
fn shares_of_the_velocity_change_go_by_the_inverse_masses() {
    let a = ball(0, 0, 5 * ONE, 0);
    let mut b = ball(1_995_000, 0, 0, 0);
    b.inverse_mass = s(250_000);
    // Restoring speed 2 * 5; A has the share 1 / 1.25 and B 0.25 / 1.25.
    assert_eq!(restoring_speed(a, b, head_on(5_000), s(FRAME)), s(10 * ONE));
    assert_eq!(normal_push(a, b, head_on(5_000), s(FRAME), a.inverse_mass), s(8 * ONE));
    assert_eq!(normal_push(a, b, head_on(5_000), s(FRAME), b.inverse_mass), s(2 * ONE));
    assert_eq!(friction_push(a, b, head_on(5_000), s(FRAME), a.inverse_mass), Scalar::zero());
    assert_eq!(velocity_change(a, b, head_on(5_000), s(FRAME), b.inverse_mass), v(2 * ONE, 0));
}

#[test]
fn two_bodies_of_infinite_mass_are_left_alone() {
    let mut a = ball(0, 0, 2 * ONE, 0);
    let mut b = ball(1_500_000, 0, -2 * ONE, 0);
    a.inverse_mass = Scalar::zero();
    b.inverse_mass = Scalar::zero();
    assert_eq!(resolve_pair(a, b, head_on(500_000), s(FRAME)), (a, b));
    let floor_a = floor_body();
    let floor_b = floor_body();
    assert_eq!(resolve_pair(floor_a, floor_b, head_on(500_000), s(FRAME)), (floor_a, floor_b));
}

#[test]
fn static_body_takes_no_impulse() {
    let falling = ball(5 * ONE, 2 * ONE, 0, -3 * ONE);
    let ground = floor_body();
    let mut objects = [object(falling, circle(3 * ONE)), object(ground, floor_shape())];
    let contacts = check_collision(&objects);
    assert_eq!(contacts.len(), 1);
    assert_eq!(contacts[0].normal, v(0, -ONE));
    resolve_interpenetration(&mut objects, &contacts[0], s(FRAME));
    assert_eq!(objects[1].body.unwrap(), ground);
    // Depth 1, so the bias is (0.2 / 0.016667) * 0.99 = 11.999760 * 0.99
    // = 11.879762. The restitution is 1 * 0.5, the floor has no inverse
    // mass: the impulse is 1.5 * (3 + 11.879762) / 1 = 22.319643.
    assert_eq!(contacts[0].pen_depth, s(ONE));
    assert_eq!(objects[0].body.unwrap().vel, v(0, 19_319_643));
    assert_eq!(objects[0].body.unwrap().position, v(5 * ONE, 2 * ONE));
}

#[test]
fn contact_may_name_the_later_object_first() {
    let mut objects = [
        object(ball(1_995_000, 0, -2 * ONE, 0), circle(ONE)),
        object(ball(0, 0, 2 * ONE, 0), circle(ONE)),
    ];
    let contact = Contact {
        point: v(ONE, 0),
        normal: v(ONE, 0),
        pen_depth: s(5_000),
        body_a_index: 1,
        body_b_index: 0,
    };
    resolve_interpenetration(&mut objects, &contact, s(FRAME));
    assert_eq!(objects[1].body.unwrap().vel, v(-2 * ONE, 0));
    assert_eq!(objects[0].body.unwrap().vel, v(2 * ONE, 0));
}

#[test]
fn sweep_lists_the_pairs_row_by_row() {
    let objects = [
        object(ball(0, 0, 0, 0), circle(ONE)),
        object(ball(ONE, 0, 0, 0), circle(ONE)),
        object(ball(50 * ONE, 0, 0, 0), circle(ONE)),
        object(ball(0, ONE, 0, 0), circle(ONE)),
    ];
    let contacts = check_collision(&objects);
    let pairs: Vec<(usize, usize)> =
        contacts.iter().map(|c| (c.body_a_index, c.body_b_index)).collect();
    assert_eq!(pairs, vec![(0, 1), (0, 3), (1, 3)]);
}

#[test]
fn sweep_passes_over_objects_without_shape_or_body() {
    let color = Color::new(0.0, 0.0, 0.0, 1.0);
    let bare_body = ObjectBuilder::new().with_body(ball(0, 0, 0, 0)).with_color(color).build();
    let bare_shape = ObjectBuilder::new().with_collider(circle(ONE)).with_color(color).build();
    let objects = [
        bare_body,
        object(ball(0, 0, 0, 0), circle(ONE)),
        bare_shape,
        object(ball(ONE, 0, 0, 0), circle(ONE)),
    ];
    let contacts = check_collision(&objects);
    assert_eq!(contacts.len(), 1);
    assert_eq!((contacts[0].body_a_index, contacts[0].body_b_index), (1, 3));
    assert!(check_collision(&[]).is_empty());
}

#[test]
fn gravity_gives_every_falling_body_its_weight() {
    let color = Color::new(0.0, 0.0, 0.0, 1.0);
    let mut heavy = ball(0, 20 * ONE, 0, 0);
    heavy.inverse_mass = s(500_000);
    let mut objects = [
        object(ball(0, 0, 0, 0), circle(ONE)),
        object(heavy, circle(ONE)),
        object(floor_body(), floor_shape()),
        ObjectBuilder::new().with_body(ball(0, 40 * ONE, 0, 0)).with_color(color).build(),
    ];
    apply_gravity(&mut objects);
    assert_eq!(objects[0].body.unwrap().accum_force, v(0, -9_810_000));
    assert_eq!(objects[1].body.unwrap().accum_force, v(0, -19_620_000));
    assert_eq!(objects[2].body.unwrap(), floor_body());
    assert_eq!(objects[3].body.unwrap().accum_force, v(0, 0));
    apply_gravity(&mut objects);
    assert_eq!(objects[0].body.unwrap().accum_force, v(0, -19_620_000));
}

#[test]
fn step_integrates_every_body() {
    let color = Color::new(0.0, 0.0, 0.0, 1.0);
    let mut objects = [
        object(ball(0, 0, ONE, 0), circle(ONE)),
        ObjectBuilder::new().with_body(ball(0, 40 * ONE, 0, ONE)).with_color(color).build(),
        ObjectBuilder::new().with_collider(circle(ONE)).with_color(color).build(),
    ];
    apply_gravity(&mut objects);
    let contacts = step(&mut objects, s(500_000), 3);
    assert!(contacts.is_empty());
    let first = objects[0].body.unwrap();
    assert_eq!(first.vel, v(ONE, -4_905_000));
    assert_eq!(first.position, v(500_000, -2_452_500));
    assert_eq!(first.accum_force, Vec2::zero());
    let second = objects[1].body.unwrap();
    assert_eq!(second.position, v(0, 40 * ONE + 500_000));
    assert!(objects[2].body.is_none());
}

#[test]
fn step_returns_the_contacts_of_every_pass() {
    let mut objects = [
        object(ball(0, 0, 0, 0), circle(ONE)),
        object(ball(1_995_000, 0, 0, 0), circle(ONE)),
    ];
    let contacts = step(&mut objects, s(FRAME), 4);
    assert_eq!(contacts.len(), 4);
    for contact in contacts {
        assert_eq!((contact.body_a_index, contact.body_b_index), (0, 1));
        assert_eq!(contact.pen_depth, s(5_000));
    }
    assert!(step(&mut objects, s(FRAME), 0).is_empty());
}

#[test]
fn circle_resting_within_the_slop_is_left_alone() {
    let resting = ball(5 * ONE, 2_995_000, 0, 0);
    let mut objects = [object(resting, circle(3 * ONE)), object(floor_body(), floor_shape())];
    for _ in 0..50 {
        let contacts = check_collision(&objects);
        assert_eq!(contacts.len(), 1);
        assert_eq!(contacts[0].pen_depth, s(5_000));
        assert_eq!(bias_velocity(contacts[0].pen_depth, s(FRAME)), Scalar::zero());
        resolve_interpenetration(&mut objects, &contacts[0], s(FRAME));
        assert_eq!(objects[0].body.unwrap(), resting);
    }
}

#[test]
fn circle_falling_on_a_static_floor_comes_to_rest_on_it() {
    let falling = ball(10 * ONE, 10 * ONE, 0, 0);
    let mut objects = [object(falling, circle(3 * ONE)), object(floor_body(), floor_shape())];
    let mut lowest = i64::MAX;
    for _ in 0..900 {
        apply_gravity(&mut objects);
        step(&mut objects, s(FRAME), 10);
        lowest = lowest.min(objects[0].body.unwrap().position.y.raw);
    }
    let rested = objects[0].body.unwrap();
    // The top of the floor is at 0: the centre rests one radius above it.
    assert!((rested.position.y.raw - 3 * ONE).abs() <= 30_000);
    assert!(rested.vel.y.raw.abs() <= 1_000);
    assert_eq!(rested.position.x, s(10 * ONE));
    assert_eq!(rested.vel.x, Scalar::zero());
    assert!(lowest >= 2 * ONE);
    assert_eq!(objects[1].body.unwrap(), floor_body());
}

#[test]
fn floor_listed_first_carries_the_circle_too() {
    let falling = ball(10 * ONE, 10 * ONE, 0, 0);
    let mut objects = [object(floor_body(), floor_shape()), object(falling, circle(3 * ONE))];
    for _ in 0..900 {
        apply_gravity(&mut objects);
        step(&mut objects, s(FRAME), 10);
    }
    let rested = objects[1].body.unwrap();
    assert!((rested.position.y.raw - 3 * ONE).abs() <= 30_000);
    assert!(rested.vel.y.raw.abs() <= 1_000);
    assert_eq!(objects[0].body.unwrap(), floor_body());
}

#[test]
fn static_box_never_moves() {
    let mut anchored = RigidBody2DBuilder::new()
        .with_position(v(-50 * ONE, 0))
        .with_inverse_mass(s(2 * ONE))
        .with_shape(floor_shape())
        .make_static()
        .build();
    let start = anchored;
    anchored.apply_impulse(v(1_000 * ONE, -1_000 * ONE));
    assert_eq!(anchored, start);
    anchored.apply_force(v(1_000 * ONE, -1_000 * ONE));
    anchored.update(s(FRAME));
    assert_eq!(anchored.position, start.position);
    assert_eq!(anchored.vel, start.vel);

    let mut objects = [
        object(start, floor_shape()),
        object(ball(0, 2 * ONE, 30 * ONE, -30 * ONE), circle(3 * ONE)),
        object(ball(20 * ONE, ONE, -30 * ONE, -30 * ONE), circle(3 * ONE)),
    ];
    for _ in 0..200 {
        apply_gravity(&mut objects);
        step(&mut objects, s(FRAME), 10);
        assert_eq!(objects[0].body.unwrap(), start);
    }
}

#[test]
fn step_changes_nothing_but_the_motion_of_bodies() {
    let mut objects = [
        object(ball(0, 2 * ONE, 3 * ONE, -3 * ONE), circle(3 * ONE)),
        object(floor_body(), floor_shape()),
    ];
    let before = objects[0].body.unwrap();
    for _ in 0..20 {
        apply_gravity(&mut objects);
        step(&mut objects, s(FRAME), 5);
    }
    let after = objects[0].body.unwrap();
    assert_eq!(after.inverse_mass, before.inverse_mass);
    assert_eq!(after.inverse_inertia, before.inverse_inertia);
    assert_eq!(after.restitution, before.restitution);
    assert_eq!(after.mu, before.mu);
    assert_eq!(after.is_static, before.is_static);
    assert_eq!(after.accum_force, Vec2::zero());
    assert_eq!(objects[0].collider, Some(circle(3 * ONE)));
    assert_eq!(objects[0].name, "some_object");
    assert_ne!(after.position, before.position);
}
