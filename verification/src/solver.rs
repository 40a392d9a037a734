//! The simulation step: gravity, the sweep over all pairs for contacts, the
//! sequential impulse solver and the integration of every body.

use crate::collider::Contact;
use crate::object::Object;
use crate::rigid_body::RigidBody2D;
use crate::scalar::{
    lemma_div_sign, lemma_mul_div_bounds, lemma_mul_div_zero, lemma_mul_one, lemma_mul_sign,
    lemma_mul_zero, lemma_trunc_div_exact, lemma_trunc_div_remainder, trunc_div, Scalar, SCALE,
};
use crate::vec2::{Vec2, WORKING_RANGE};
use vstd::prelude::*;

verus! {

/// The penetration that the solver leaves alone: one hundredth.
pub open spec fn spec_slop() -> Scalar {
    Scalar { raw: 10_000 }
}

/// The slop.
#[verifier::when_used_as_spec(spec_slop)]
pub fn slop() -> (r: Scalar)
    ensures
        r == spec_slop(),
{
    Scalar::from_raw(10_000)
}

/// The share of the remaining penetration that one step takes back: one
/// fifth.
pub open spec fn spec_bias_factor() -> Scalar {
    Scalar { raw: 200_000 }
}

/// The bias factor.
#[verifier::when_used_as_spec(spec_bias_factor)]
pub fn bias_factor() -> (r: Scalar)
    ensures
        r == spec_bias_factor(),
{
    Scalar::from_raw(200_000)
}

/// The acceleration of free fall.
pub open spec fn spec_gravity_acceleration() -> Vec2 {
    Vec2 { x: Scalar { raw: 0 }, y: Scalar { raw: -9_810_000i64 } }
}

/// The acceleration of free fall: 9.81 downward.
#[verifier::when_used_as_spec(spec_gravity_acceleration)]
pub fn gravity_acceleration() -> (r: Vec2)
    ensures
        r == spec_gravity_acceleration(),
{
    Vec2::new(Scalar::from_raw(0), Scalar::from_raw(-9_810_000))
}

/// The closing speed that takes back, within one step `dt`, the share
/// `bias_factor` of the penetration beyond `slop`.
pub open spec fn spec_bias_velocity(pen_depth: Scalar, dt: Scalar) -> Scalar {
    bias_factor().div(dt).mul(Scalar::zero().max(pen_depth.sub(slop())))
}

/// The bias velocity for a contact of the depth `pen_depth`.
#[verifier::when_used_as_spec(spec_bias_velocity)]
pub fn bias_velocity(pen_depth: Scalar, dt: Scalar) -> (r: Scalar)
    ensures
        r == spec_bias_velocity(pen_depth, dt),
{
    bias_factor().div(dt).mul(Scalar::zero().max(pen_depth.sub(slop())))
}

/// The sum of the inverse masses of the two bodies.
pub open spec fn effective_inverse_mass(a: RigidBody2D, b: RigidBody2D) -> Scalar {
    a.inverse_mass.add(b.inverse_mass)
}

/// The speed at which B moves away from A along the normal of the contact;
/// negative where the two approach.
pub open spec fn normal_velocity(a: RigidBody2D, b: RigidBody2D, contact: Contact) -> Scalar {
    b.vel.sub(a.vel).dot(contact.normal)
}

/// The size of the impulse along the normal:
/// `(1 + e) (bias - v_n) / k_n`, or zero where that is negative. Here `e` is
/// the product of the two restitutions, `v_n` the normal velocity and `k_n`
/// the effective inverse mass.
pub open spec fn spec_normal_impulse(
    a: RigidBody2D,
    b: RigidBody2D,
    contact: Contact,
    dt: Scalar,
) -> Scalar {
    let v_n = normal_velocity(a, b, contact);
    let restitution = a.restitution.mul(b.restitution);
    Scalar::one().add(restitution).mul(
        v_n.neg().add(bias_velocity(contact.pen_depth, dt)),
    ).div(effective_inverse_mass(a, b)).max(Scalar::zero())
}

/// The size of the impulse along the normal of the contact between `a`
/// and `b`. It is never negative: a contact does not pull.
#[verifier::when_used_as_spec(spec_normal_impulse)]
pub fn normal_impulse(a: RigidBody2D, b: RigidBody2D, contact: Contact, dt: Scalar) -> (r: Scalar)
    ensures
        r == spec_normal_impulse(a, b, contact, dt),
        r@ >= 0,
{
    let v_n = b.vel.sub(a.vel).dot(contact.normal);
    let k_n = a.inverse_mass.add(b.inverse_mass);
    let restitution = a.restitution.mul(b.restitution);
    Scalar::one().add(restitution).mul(v_n.neg().add(bias_velocity(contact.pen_depth, dt))).div(
        k_n,
    ).max(Scalar::zero())
}

/// The size of the impulse along the tangent, which is the normal turned by
/// a quarter turn: `-v_t / k_n`, held between `-mu p_n` and `mu p_n`. Here
/// `v_t` is the relative velocity along the tangent, `mu` the product of the
/// two friction coefficients and `p_n` the normal impulse.
pub open spec fn spec_friction_impulse(
    a: RigidBody2D,
    b: RigidBody2D,
    contact: Contact,
    dt: Scalar,
) -> Scalar {
    let v_t = b.vel.sub(a.vel).dot(contact.normal.perp());
    let mu = a.mu.mul(b.mu);
    let p_n = normal_impulse(a, b, contact, dt);
    v_t.neg().div(effective_inverse_mass(a, b)).clamp(mu.neg().mul(p_n), mu.mul(p_n))
}

/// The size of the impulse along the tangent of the contact between `a`
/// and `b`.
#[verifier::when_used_as_spec(spec_friction_impulse)]
pub fn friction_impulse(a: RigidBody2D, b: RigidBody2D, contact: Contact, dt: Scalar) -> (r:
    Scalar)
    ensures
        r == spec_friction_impulse(a, b, contact, dt),
{
    let v_t = b.vel.sub(a.vel).dot(contact.normal.perp());
    let k_t = a.inverse_mass.add(b.inverse_mass);
    let actual_mu = a.mu.mul(b.mu);
    let p_n = normal_impulse(a, b, contact, dt);
    v_t.neg().div(k_t).clamp(actual_mu.neg().mul(p_n), actual_mu.mul(p_n))
}

/// The speed that the contact has to give back along the normal:
/// `(1 + e) (bias - v_n)`, or zero where that is negative.
pub open spec fn spec_restoring_speed(
    a: RigidBody2D,
    b: RigidBody2D,
    contact: Contact,
    dt: Scalar,
) -> Scalar {
    Scalar::one().add(a.restitution.mul(b.restitution)).mul(
        normal_velocity(a, b, contact).neg().add(bias_velocity(contact.pen_depth, dt)),
    ).max(Scalar::zero())
}

/// The speed that the contact between `a` and `b` has to give back along
/// its normal.
#[verifier::when_used_as_spec(spec_restoring_speed)]
pub fn restoring_speed(a: RigidBody2D, b: RigidBody2D, contact: Contact, dt: Scalar) -> (r:
    Scalar)
    ensures
        r == spec_restoring_speed(a, b, contact, dt),
        r@ >= 0,
{
    let v_n = b.vel.sub(a.vel).dot(contact.normal);
    Scalar::one().add(a.restitution.mul(b.restitution)).mul(
        v_n.neg().add(bias_velocity(contact.pen_depth, dt)),
    ).max(Scalar::zero())
}

/// By how much the normal impulse changes, along the normal, the velocity
/// of a body of the inverse mass `inverse_mass`: the share
/// `inverse_mass / k_n` of the restoring speed. This is the normal impulse
/// times the inverse mass, rounded only once.
pub open spec fn spec_normal_push(
    a: RigidBody2D,
    b: RigidBody2D,
    contact: Contact,
    dt: Scalar,
    inverse_mass: Scalar,
) -> Scalar {
    restoring_speed(a, b, contact, dt).mul_div(inverse_mass, effective_inverse_mass(a, b))
}

/// The change of velocity along the normal that the contact between `a`
/// and `b` gives to a body of the inverse mass `inverse_mass`.
#[verifier::when_used_as_spec(spec_normal_push)]
pub fn normal_push(
    a: RigidBody2D,
    b: RigidBody2D,
    contact: Contact,
    dt: Scalar,
    inverse_mass: Scalar,
) -> (r: Scalar)
    ensures
        r == spec_normal_push(a, b, contact, dt, inverse_mass),
{
    restoring_speed(a, b, contact, dt).mul_div(inverse_mass, a.inverse_mass.add(b.inverse_mass))
}

/// By how much the friction impulse changes, along the tangent, the
/// velocity of a body of the inverse mass `inverse_mass`: the share
/// `inverse_mass / k_n` of `-v_t`, held between `-mu` and `mu` times the
/// normal push. This is the friction impulse times the inverse mass,
/// rounded only once.
pub open spec fn spec_friction_push(
    a: RigidBody2D,
    b: RigidBody2D,
    contact: Contact,
    dt: Scalar,
    inverse_mass: Scalar,
) -> Scalar {
    let v_t = b.vel.sub(a.vel).dot(contact.normal.perp());
    let mu = a.mu.mul(b.mu);
    let along = normal_push(a, b, contact, dt, inverse_mass);
    v_t.neg().mul_div(inverse_mass, effective_inverse_mass(a, b)).clamp(
        mu.neg().mul(along),
        mu.mul(along),
    )
}

/// The change of velocity along the tangent that the contact between `a`
/// and `b` gives to a body of the inverse mass `inverse_mass`.
#[verifier::when_used_as_spec(spec_friction_push)]
pub fn friction_push(
    a: RigidBody2D,
    b: RigidBody2D,
    contact: Contact,
    dt: Scalar,
    inverse_mass: Scalar,
) -> (r: Scalar)
    ensures
        r == spec_friction_push(a, b, contact, dt, inverse_mass),
{
    let v_t = b.vel.sub(a.vel).dot(contact.normal.perp());
    let actual_mu = a.mu.mul(b.mu);
    let along = normal_push(a, b, contact, dt, inverse_mass);
    v_t.neg().mul_div(inverse_mass, a.inverse_mass.add(b.inverse_mass)).clamp(
        actual_mu.neg().mul(along),
        actual_mu.mul(along),
    )
}

/// The change of velocity that the contact gives to a body of the inverse
/// mass `inverse_mass` on the side of B; on the side of A it is the
/// opposite.
pub open spec fn spec_velocity_change(
    a: RigidBody2D,
    b: RigidBody2D,
    contact: Contact,
    dt: Scalar,
    inverse_mass: Scalar,
) -> Vec2 {
    contact.normal.scale(normal_push(a, b, contact, dt, inverse_mass)).add(
        contact.normal.perp().scale(friction_push(a, b, contact, dt, inverse_mass)),
    )
}

/// The change of velocity that the contact between `a` and `b` gives to a
/// body of the inverse mass `inverse_mass`.
#[verifier::when_used_as_spec(spec_velocity_change)]
pub fn velocity_change(
    a: RigidBody2D,
    b: RigidBody2D,
    contact: Contact,
    dt: Scalar,
    inverse_mass: Scalar,
) -> (r: Vec2)
    ensures
        r == spec_velocity_change(a, b, contact, dt, inverse_mass),
{
    contact.normal.scale(normal_push(a, b, contact, dt, inverse_mass)).add(
        contact.normal.perp().scale(friction_push(a, b, contact, dt, inverse_mass)),
    )
}

/// The two bodies after the contact between them is resolved.
///
/// Where both have an infinite mass nothing changes. Otherwise the impulse
/// of the contact, the normal impulse along the normal and the friction
/// impulse along the tangent, acts on B and the opposite one on A: the
/// velocity of each changes by the impulse times its own inverse mass,
/// which is its `spec_velocity_change`. A static body takes none.
#[verifier::opaque]
pub open spec fn spec_resolve_pair(a: RigidBody2D, b: RigidBody2D, contact: Contact, dt: Scalar)
    -> (RigidBody2D, RigidBody2D) {
    if effective_inverse_mass(a, b).raw == 0 {
        (a, b)
    } else {
        (
            if a.is_static {
                a
            } else {
                RigidBody2D {
                    vel: a.vel.sub(velocity_change(a, b, contact, dt, a.inverse_mass)),
                    ..a
                }
            },
            if b.is_static {
                b
            } else {
                RigidBody2D {
                    vel: b.vel.add(velocity_change(a, b, contact, dt, b.inverse_mass)),
                    ..b
                }
            },
        )
    }
}

/// Resolves the contact between the bodies `a` and `b`.
#[verifier::when_used_as_spec(spec_resolve_pair)]
pub fn resolve_pair(a: RigidBody2D, b: RigidBody2D, contact: Contact, dt: Scalar) -> (r: (
    RigidBody2D,
    RigidBody2D,
))
    ensures
        r == spec_resolve_pair(a, b, contact, dt),
{
    proof {
        reveal(spec_resolve_pair);
    }
    let k_n = a.inverse_mass.add(b.inverse_mass);
    if k_n.raw == 0 {
        return (a, b);
    }
    let mut body_a = a;
    let mut body_b = b;
    if !a.is_static {
        body_a.vel = a.vel.sub(velocity_change(a, b, contact, dt, a.inverse_mass));
    }
    if !b.is_static {
        body_b.vel = b.vel.add(velocity_change(a, b, contact, dt, b.inverse_mass));
    }
    (body_a, body_b)
}

/// Whether the contact names two different objects of the scene that both
/// have a body.
pub open spec fn contact_fits(objects: Seq<Object>, contact: Contact) -> bool {
    &&& contact.body_a_index != contact.body_b_index
    &&& contact.body_a_index < objects.len()
    &&& contact.body_b_index < objects.len()
    &&& objects[contact.body_a_index as int].body is Some
    &&& objects[contact.body_b_index as int].body is Some
}

/// The object with another body in place of its own.
pub open spec fn with_body(object: Object, body: RigidBody2D) -> Object {
    Object { body: Some(body), ..object }
}

/// The scene after the contact is resolved: the two bodies that the contact
/// names are replaced as `spec_resolve_pair` says, and nothing else changes.
pub open spec fn spec_resolve(objects: Seq<Object>, contact: Contact, dt: Scalar) -> Seq<Object>
    recommends
        contact_fits(objects, contact),
{
    let a = objects[contact.body_a_index as int];
    let b = objects[contact.body_b_index as int];
    let pair = spec_resolve_pair(a.body->0, b.body->0, contact, dt);
    objects.update(contact.body_a_index as int, with_body(a, pair.0)).update(
        contact.body_b_index as int,
        with_body(b, pair.1),
    )
}

/// Resolves one contact in place.
pub fn resolve_interpenetration(objects: &mut [Object], contact: &Contact, dt: Scalar)
    requires
        contact_fits(old(objects)@, *contact),
    ensures
        final(objects)@ == spec_resolve(old(objects)@, *contact, dt),
        same_frame(old(objects)@, final(objects)@),
        forall|i: int|
            0 <= i < old(objects).len() ==> kept_if_immovable(
                #[trigger] old(objects)@[i],
                final(objects)@[i],
            ),
{
    proof {
        lemma_resolve_keeps_frame(objects@, *contact, dt);
    }
    let body_a = objects[contact.body_a_index].body.unwrap();
    let body_b = objects[contact.body_b_index].body.unwrap();
    let pair = resolve_pair(body_a, body_b, *contact, dt);
    objects[contact.body_a_index].body = Some(pair.0);
    objects[contact.body_b_index].body = Some(pair.1);
    assert(objects@ =~= spec_resolve(old(objects)@, *contact, dt));
}

/// The contact between the objects `i` and `j`, where both have a shape and
/// a body and these touch.
pub open spec fn pair_contact(objects: Seq<Object>, i: int, j: int) -> Option<Contact> {
    match (objects[i].collider, objects[i].body, objects[j].collider, objects[j].body) {
        (Some(collider_a), Some(body_a), Some(collider_b), Some(body_b)) => {
            collider_a.collides_with(&body_a, &body_b, &collider_b, i as usize, j as usize)
        },
        _ => None,
    }
}

/// The contacts of the object `i` with the objects after it and before
/// `end`, in the order of the latter.
pub open spec fn contacts_of_row(objects: Seq<Object>, i: int, end: int) -> Seq<Contact>
    decreases end - i,
{
    if end <= i + 1 {
        Seq::empty()
    } else {
        let before = contacts_of_row(objects, i, end - 1);
        match pair_contact(objects, i, end - 1) {
            Some(contact) => before.push(contact),
            None => before,
        }
    }
}

/// The contacts of the first `rows` objects, each with the objects after it.
pub open spec fn contacts_of_rows(objects: Seq<Object>, rows: int) -> Seq<Contact>
    decreases rows,
{
    if rows <= 0 {
        Seq::empty()
    } else {
        contacts_of_rows(objects, rows - 1) + contacts_of_row(
            objects,
            rows - 1,
            objects.len() as int,
        )
    }
}

/// The contacts of all pairs of objects: the pair `(i, j)` with `i < j`
/// comes before `(k, l)` where `i < k`, or `i == k` and `j < l`.
pub open spec fn all_contacts(objects: Seq<Object>) -> Seq<Contact> {
    contacts_of_rows(objects, objects.len() as int)
}

/// Tests every pair of objects and collects the contacts.
#[verifier::rlimit(40)]
pub fn check_collision(objects: &[Object]) -> (contacts: Vec<Contact>)
    ensures
        contacts@ == all_contacts(objects@),
        forall|k: int|
            0 <= k < contacts.len() ==> contact_fits(objects@, #[trigger] contacts[k])
                && contacts[k].body_a_index < contacts[k].body_b_index,
{
    let mut contacts: Vec<Contact> = Vec::new();
    let n = objects.len();
    let mut i: usize = 0;
    while i < n
        invariant
            n == objects.len(),
            i <= n,
            contacts@ == contacts_of_rows(objects@, i as int),
        decreases n - i,
    {
        let mut j: usize = i + 1;
        assert(contacts@ =~= contacts_of_rows(objects@, i as int) + contacts_of_row(
            objects@,
            i as int,
            j as int,
        ));
        while j < n
            invariant
                n == objects.len(),
                i < j <= n,
                contacts@ == contacts_of_rows(objects@, i as int) + contacts_of_row(
                    objects@,
                    i as int,
                    j as int,
                ),
            decreases n - j,
        {
            let ghost before = contacts@;
            let a = &objects[i];
            let b = &objects[j];
            if let (Some(collider_a), Some(body_a)) = (a.collider, a.body) {
                if let (Some(collider_b), Some(body_b)) = (b.collider, b.body) {
                    if let Some(contact) = collider_a.collides_with(
                        &body_a,
                        &body_b,
                        &collider_b,
                        i,
                        j,
                    ) {
                        contacts.push(contact);
                    }
                }
            }
            j = j + 1;
            assert(contacts@ =~= contacts_of_rows(objects@, i as int) + contacts_of_row(
                objects@,
                i as int,
                j as int,
            ));
        }
        i = i + 1;
    }
    proof {
        assert forall|k: int| 0 <= k < contacts.len() implies contact_fits(
            objects@,
            #[trigger] contacts[k],
        ) && contacts[k].body_a_index < contacts[k].body_b_index by {
            lemma_contacts_fit(objects@, objects@.len() as int, k);
        }
    }
    contacts
}

/// The weight of a body: the acceleration of free fall divided by the
/// inverse mass.
pub open spec fn weight(body: RigidBody2D) -> Vec2 {
    gravity_acceleration().div(body.inverse_mass)
}

/// The object after gravity has acted on it: a body that is not static, on
/// an object with a shape, gathers its weight.
pub open spec fn with_gravity(object: Object) -> Object {
    match (object.collider, object.body) {
        (Some(_), Some(body)) => if body.is_static {
            object
        } else {
            with_body(object, body.spec_apply_force(weight(body)))
        },
        _ => object,
    }
}

/// The scene after gravity has acted on every object.
pub open spec fn spec_apply_gravity(objects: Seq<Object>) -> Seq<Object> {
    Seq::new(objects.len(), |i: int| with_gravity(objects[i]))
}

/// Adds to every body that can fall the force of its weight.
pub fn apply_gravity(objects: &mut [Object])
    ensures
        final(objects)@ == spec_apply_gravity(old(objects)@),
        same_frame(old(objects)@, final(objects)@),
{
    proof {
        lemma_gravity_keeps_frame(objects@);
    }
    let n = objects.len();
    let mut i: usize = 0;
    while i < n
        invariant
            n == objects.len(),
            objects.len() == old(objects).len(),
            i <= n,
            forall|k: int| 0 <= k < i ==> objects@[k] == with_gravity(old(objects)@[k]),
            forall|k: int| i <= k < n ==> objects@[k] == old(objects)@[k],
        decreases n - i,
    {
        if let (Some(_), Some(body)) = (objects[i].collider, objects[i].body) {
            if !body.is_static {
                let mut body = body;
                body.apply_force(gravity_acceleration().div(body.inverse_mass));
                objects[i].body = Some(body);
            }
        }
        i = i + 1;
    }
    assert(objects@ =~= spec_apply_gravity(old(objects)@));
}

/// The scene after the first `count` of the contacts are resolved, one
/// after the other.
pub open spec fn resolve_first(
    objects: Seq<Object>,
    contacts: Seq<Contact>,
    count: int,
    dt: Scalar,
) -> Seq<Object>
    decreases count,
{
    if count <= 0 {
        objects
    } else {
        spec_resolve(resolve_first(objects, contacts, count - 1, dt), contacts[count - 1], dt)
    }
}

/// The scene after one pass of the solver: the contacts of the scene as it
/// stands are found, then resolved in order.
pub open spec fn solver_pass(objects: Seq<Object>, dt: Scalar) -> Seq<Object> {
    let contacts = all_contacts(objects);
    resolve_first(objects, contacts, contacts.len() as int, dt)
}

/// The scene after `iterations` passes of the solver.
pub open spec fn solve(objects: Seq<Object>, dt: Scalar, iterations: nat) -> Seq<Object>
    decreases iterations,
{
    if iterations == 0 {
        objects
    } else {
        solver_pass(solve(objects, dt, (iterations - 1) as nat), dt)
    }
}

/// The contacts that `iterations` passes of the solver find, pass after
/// pass.
pub open spec fn solve_contacts(objects: Seq<Object>, dt: Scalar, iterations: nat) -> Seq<
    Contact,
>
    decreases iterations,
{
    if iterations == 0 {
        Seq::empty()
    } else {
        solve_contacts(objects, dt, (iterations - 1) as nat) + all_contacts(
            solve(objects, dt, (iterations - 1) as nat),
        )
    }
}

/// The object after its body, if it has one, is advanced by `dt`.
pub open spec fn integrated(object: Object, dt: Scalar) -> Object {
    match object.body {
        Some(body) => with_body(object, body.spec_update(dt)),
        None => object,
    }
}

/// The scene after every body is advanced by `dt`.
pub open spec fn integrate(objects: Seq<Object>, dt: Scalar) -> Seq<Object> {
    Seq::new(objects.len(), |i: int| integrated(objects[i], dt))
}

/// The scene after one step: the solver makes `iterations` passes, then
/// every body is advanced by `dt`.
pub open spec fn spec_step(objects: Seq<Object>, dt: Scalar, iterations: nat) -> Seq<Object> {
    integrate(solve(objects, dt, iterations), dt)
}

/// Whether `b` is the object `a` but for the motion of its body: shape,
/// colour and name are the same, both have a body or neither has, and the
/// two bodies agree in what a step never changes.
pub open spec fn same_makeup(a: Object, b: Object) -> bool {
    &&& a.collider == b.collider
    &&& a.color == b.color
    &&& a.name == b.name
    &&& match (a.body, b.body) {
        (Some(x), Some(y)) => {
            &&& x.is_static == y.is_static
            &&& x.inverse_mass == y.inverse_mass
            &&& x.inverse_inertia == y.inverse_inertia
            &&& x.restitution == y.restitution
            &&& x.mu == y.mu
        },
        (None, None) => true,
        _ => false,
    }
}

/// Whether the two scenes have the same objects but for the motion of their
/// bodies.
pub open spec fn same_frame(a: Seq<Object>, b: Seq<Object>) -> bool {
    &&& a.len() == b.len()
    &&& forall|i: int| 0 <= i < a.len() ==> same_makeup(#[trigger] a[i], b[i])
}

/// Whether the object `b` is the object `a`, where that holds a body that
/// nothing moves.
pub open spec fn kept_if_immovable(a: Object, b: Object) -> bool {
    a.body matches Some(body) && body.immovable() ==> b == a
}

/// Every contact of a row is the contact of the object of the row with a
/// later one, and both have a body.
pub proof fn lemma_row_contacts_fit(objects: Seq<Object>, i: int, end: int, k: int)
    requires
        objects.len() <= usize::MAX,
        0 <= i < end <= objects.len(),
        0 <= k < contacts_of_row(objects, i, end).len(),
    ensures
        contacts_of_row(objects, i, end)[k].body_a_index == i,
        i < contacts_of_row(objects, i, end)[k].body_b_index < end,
        contact_fits(objects, contacts_of_row(objects, i, end)[k]),
        pair_contact(objects, i, contacts_of_row(objects, i, end)[k].body_b_index as int) == Some(
            contacts_of_row(objects, i, end)[k],
        ),
    decreases end - i,
{
    if end > i + 1 {
        let before = contacts_of_row(objects, i, end - 1);
        if k < before.len() {
            lemma_row_contacts_fit(objects, i, end - 1, k);
        }
    }
}

/// The sweep is sound: every contact that it finds is the contact of two
/// different objects of the scene that both have a body, the first before
/// the second.
pub proof fn lemma_contacts_fit(objects: Seq<Object>, rows: int, k: int)
    requires
        objects.len() <= usize::MAX,
        0 <= rows <= objects.len(),
        0 <= k < contacts_of_rows(objects, rows).len(),
    ensures
        contacts_of_rows(objects, rows)[k].body_a_index < contacts_of_rows(
            objects,
            rows,
        )[k].body_b_index,
        contacts_of_rows(objects, rows)[k].body_a_index < rows,
        contact_fits(objects, contacts_of_rows(objects, rows)[k]),
        pair_contact(
            objects,
            contacts_of_rows(objects, rows)[k].body_a_index as int,
            contacts_of_rows(objects, rows)[k].body_b_index as int,
        ) == Some(contacts_of_rows(objects, rows)[k]),
    decreases rows,
{
    if rows > 0 {
        let before = contacts_of_rows(objects, rows - 1);
        if k < before.len() {
            lemma_contacts_fit(objects, rows - 1, k);
        } else {
            lemma_row_contacts_fit(objects, rows - 1, objects.len() as int, k - before.len());
        }
    }
}

/// The contact of the object of a row with a later one is among the
/// contacts of the row.
pub proof fn lemma_row_holds_contact(objects: Seq<Object>, i: int, end: int, j: int) -> (k: int)
    requires
        0 <= i < j < end <= objects.len(),
        pair_contact(objects, i, j) is Some,
    ensures
        0 <= k < contacts_of_row(objects, i, end).len(),
        Some(contacts_of_row(objects, i, end)[k]) == pair_contact(objects, i, j),
    decreases end - i,
{
    let before = contacts_of_row(objects, i, end - 1);
    if j == end - 1 {
        before.len() as int
    } else {
        lemma_row_holds_contact(objects, i, end - 1, j)
    }
}

/// The sweep is complete: the contact of any two objects of the scene is
/// among the contacts that it finds.
pub proof fn lemma_sweep_holds_contact(objects: Seq<Object>, rows: int, i: int, j: int) -> (k:
    int)
    requires
        0 <= i < rows <= objects.len(),
        i < j < objects.len(),
        pair_contact(objects, i, j) is Some,
    ensures
        0 <= k < contacts_of_rows(objects, rows).len(),
        Some(contacts_of_rows(objects, rows)[k]) == pair_contact(objects, i, j),
    decreases rows,
{
    let before = contacts_of_rows(objects, rows - 1);
    if i == rows - 1 {
        before.len() + lemma_row_holds_contact(objects, i, objects.len() as int, j)
    } else {
        lemma_sweep_holds_contact(objects, rows - 1, i, j)
    }
}

/// Within one slop of penetration the solver asks for no closing speed,
/// whatever the time step.
pub proof fn lemma_no_bias_within_slop(pen_depth: Scalar, dt: Scalar)
    requires
        pen_depth@ <= slop()@,
    ensures
        bias_velocity(pen_depth, dt) == Scalar::zero(),
{
    lemma_mul_zero(bias_factor().div(dt));
}

/// Two bodies that move apart along the normal at least as fast as the bias
/// velocity asks receive no impulse: the contact leaves both as they are.
/// This holds in particular of bodies that move apart, or rest, in a contact
/// no deeper than the slop.
pub proof fn lemma_separating_contact_gives_no_impulse(
    a: RigidBody2D,
    b: RigidBody2D,
    contact: Contact,
    dt: Scalar,
)
    requires
        a.physical(),
        b.physical(),
        bias_velocity(contact.pen_depth, dt)@ <= normal_velocity(a, b, contact)@,
    ensures
        normal_impulse(a, b, contact, dt) == Scalar::zero(),
        friction_impulse(a, b, contact, dt) == Scalar::zero(),
        restoring_speed(a, b, contact, dt) == Scalar::zero(),
        resolve_pair(a, b, contact, dt) == (a, b),
{
    reveal(spec_resolve_pair);
    let v_n = normal_velocity(a, b, contact);
    let closing = v_n.neg().add(bias_velocity(contact.pen_depth, dt));
    assert(closing@ <= 0);
    let restitution = a.restitution.mul(b.restitution);
    lemma_mul_sign(a.restitution, b.restitution);
    let gain = Scalar::one().add(restitution);
    assert(gain@ >= 0);
    lemma_mul_sign(gain, closing);
    let k_n = effective_inverse_mass(a, b);
    assert(k_n@ >= 0);
    lemma_div_sign(gain.mul(closing), k_n);
    assert(normal_impulse(a, b, contact, dt) == Scalar::zero());
    let mu = a.mu.mul(b.mu);
    lemma_mul_zero(mu);
    lemma_mul_zero(mu.neg());
    assert(friction_impulse(a, b, contact, dt) == Scalar::zero());
    assert(restoring_speed(a, b, contact, dt) == Scalar::zero());
    lemma_no_restoring_speed_no_change(a, b, contact, dt, a.inverse_mass);
    lemma_no_restoring_speed_no_change(a, b, contact, dt, b.inverse_mass);
}

/// Where there is no speed to give back, the velocity does not change.
proof fn lemma_no_restoring_speed_no_change(
    a: RigidBody2D,
    b: RigidBody2D,
    contact: Contact,
    dt: Scalar,
    inverse_mass: Scalar,
)
    requires
        restoring_speed(a, b, contact, dt) == Scalar::zero(),
    ensures
        velocity_change(a, b, contact, dt, inverse_mass) == Vec2::zero(),
        a.vel.sub(Vec2::zero()) == a.vel,
        b.vel.add(Vec2::zero()) == b.vel,
{
    let k_n = effective_inverse_mass(a, b);
    lemma_mul_div_zero(inverse_mass, k_n);
    assert(normal_push(a, b, contact, dt, inverse_mass) == Scalar::zero());
    let mu = a.mu.mul(b.mu);
    lemma_mul_zero(mu);
    lemma_mul_zero(mu.neg());
    assert(friction_push(a, b, contact, dt, inverse_mass) == Scalar::zero());
    lemma_mul_zero(contact.normal.x);
    lemma_mul_zero(contact.normal.y);
    lemma_mul_zero(contact.normal.perp().x);
    lemma_mul_zero(contact.normal.perp().y);
}

/// A body of infinite mass takes no change of velocity from a contact.
proof fn lemma_no_inverse_mass_no_change(
    a: RigidBody2D,
    b: RigidBody2D,
    contact: Contact,
    dt: Scalar,
)
    ensures
        velocity_change(a, b, contact, dt, Scalar::zero()) == Vec2::zero(),
        a.vel.sub(Vec2::zero()) == a.vel,
        b.vel.add(Vec2::zero()) == b.vel,
{
    let k_n = effective_inverse_mass(a, b);
    let v_t = b.vel.sub(a.vel).dot(contact.normal.perp());
    lemma_mul_div_zero(restoring_speed(a, b, contact, dt), k_n);
    lemma_mul_div_zero(v_t.neg(), k_n);
    assert(normal_push(a, b, contact, dt, Scalar::zero()) == Scalar::zero());
    let mu = a.mu.mul(b.mu);
    lemma_mul_zero(mu);
    lemma_mul_zero(mu.neg());
    assert(friction_push(a, b, contact, dt, Scalar::zero()) == Scalar::zero());
    lemma_mul_zero(contact.normal.x);
    lemma_mul_zero(contact.normal.y);
    lemma_mul_zero(contact.normal.perp().x);
    lemma_mul_zero(contact.normal.perp().y);
}

/// The change of velocity along the normal is the exact one,
/// `(1 + e) (bias - v_n) inv / k_n`, rounded down by less than two
/// millionths, and it is never negative: a contact does not pull. Here
/// `inv` is the inverse mass of either body, and the product
/// `(1 + e) (bias - v_n)` lies below the largest number.
pub proof fn lemma_normal_push_is_exact(
    a: RigidBody2D,
    b: RigidBody2D,
    contact: Contact,
    dt: Scalar,
    inverse_mass: Scalar,
)
    requires
        a.physical(),
        b.physical(),
        effective_inverse_mass(a, b)@ > 0,
        inverse_mass == a.inverse_mass || inverse_mass == b.inverse_mass,
    ensures
        ({
            let gain = Scalar::one().add(a.restitution.mul(b.restitution));
            let closing = normal_velocity(a, b, contact).neg().add(
                bias_velocity(contact.pen_depth, dt),
            );
            let k_n = effective_inverse_mass(a, b);
            let push = normal_push(a, b, contact, dt, inverse_mass);
            &&& push@ >= 0
            &&& closing@ <= 0 ==> push@ == 0
            &&& closing@ > 0 && gain@ * closing@ < SCALE * i64::MAX ==> push@ * k_n@ * SCALE
                <= gain@ * closing@ * inverse_mass@ < (push@ + 2) * k_n@ * SCALE
        }),
{
    let gain = Scalar::one().add(a.restitution.mul(b.restitution));
    let closing = normal_velocity(a, b, contact).neg().add(bias_velocity(contact.pen_depth, dt));
    let k_n = effective_inverse_mass(a, b);
    let push = normal_push(a, b, contact, dt, inverse_mass);
    let speed = restoring_speed(a, b, contact, dt);
    lemma_mul_sign(a.restitution, b.restitution);
    lemma_mul_sign(gain, closing);
    assert(0 <= inverse_mass@ <= k_n@);
    lemma_mul_div_bounds(speed, inverse_mass, k_n);
    if closing@ <= 0 {
        lemma_mul_div_zero(inverse_mass, k_n);
    } else if gain@ * closing@ < SCALE * i64::MAX {
        let s = SCALE as int;
        let g = gain@;
        let c = closing@;
        let p = g * c;
        let j = speed@;
        let inv = inverse_mass@;
        let k = k_n@;
        let u = push@;
        assert(p >= 0) by (nonlinear_arith)
            requires
                p == g * c,
                g >= 0,
                c > 0,
        ;
        lemma_trunc_div_remainder(p, s);
        let t = trunc_div(p, s);
        assert(t <= i64::MAX) by (nonlinear_arith)
            requires
                t * s <= p,
                p < s * i64::MAX,
                s > 0,
        ;
        assert(t >= 0) by {
            crate::scalar::lemma_trunc_div_sign(p, s);
        }
        assert(j == t);
        // j s <= p < (j + 1) s and u k <= j inv < (u + 1) k.
        assert(u * k * s <= p * inv) by (nonlinear_arith)
            requires
                u * k <= j * inv,
                j * s <= p,
                s > 0,
                inv >= 0,
                u >= 0,
                k > 0,
        ;
        assert(p * inv < (u + 2) * k * s) by (nonlinear_arith)
            requires
                p - j * s < s,
                j * inv < (u + 1) * k,
                0 <= inv <= k,
                s > 0,
                j >= 0,
        ;
        assert(g * c * inv == p * inv);
    }
}

/// The changes of velocity of the two bodies along the normal add up to the
/// restoring speed, short of it by less than two millionths. So bodies that
/// close at the speed `-v_n` in a contact no deeper than the slop part at
/// that speed times the product of their restitutions, as far as the
/// rounding of the numbers and of the normal allows.
pub proof fn lemma_pushes_share_restoring_speed(
    a: RigidBody2D,
    b: RigidBody2D,
    contact: Contact,
    dt: Scalar,
)
    requires
        a.physical(),
        b.physical(),
        effective_inverse_mass(a, b)@ > 0,
        a.inverse_mass@ + b.inverse_mass@ <= i64::MAX,
    ensures
        restoring_speed(a, b, contact, dt)@ - 2 < normal_push(
            a,
            b,
            contact,
            dt,
            a.inverse_mass,
        )@ + normal_push(a, b, contact, dt, b.inverse_mass)@ <= restoring_speed(
            a,
            b,
            contact,
            dt,
        )@,
{
    let j = restoring_speed(a, b, contact, dt);
    let k_n = effective_inverse_mass(a, b);
    lemma_mul_div_bounds(j, a.inverse_mass, k_n);
    lemma_mul_div_bounds(j, b.inverse_mass, k_n);
    let ua = normal_push(a, b, contact, dt, a.inverse_mass)@;
    let ub = normal_push(a, b, contact, dt, b.inverse_mass)@;
    let k = k_n@;
    let ia = a.inverse_mass@;
    let ib = b.inverse_mass@;
    assert(ua + ub <= j@ && j@ < ua + ub + 2) by (nonlinear_arith)
        requires
            ua * k <= j@ * ia < (ua + 1) * k,
            ub * k <= j@ * ib < (ub + 1) * k,
            ia + ib == k,
            k > 0,
    ;
}

/// The friction impulse lies within the cone that the normal impulse
/// opens: between the normal impulse times the friction coefficient and
/// the same times the opposite of the coefficient. The same holds of the
/// change of velocity along the tangent and the change along the normal.
pub proof fn lemma_friction_within_cone(
    a: RigidBody2D,
    b: RigidBody2D,
    contact: Contact,
    dt: Scalar,
    inverse_mass: Scalar,
)
    requires
        a.physical(),
        b.physical(),
        effective_inverse_mass(a, b)@ > 0,
        inverse_mass == a.inverse_mass || inverse_mass == b.inverse_mass,
    ensures
        a.mu.mul(b.mu)@ >= 0,
        a.mu.mul(b.mu).neg().mul(normal_impulse(a, b, contact, dt))@ <= friction_impulse(
            a,
            b,
            contact,
            dt,
        )@ <= a.mu.mul(b.mu).mul(normal_impulse(a, b, contact, dt))@,
        a.mu.mul(b.mu).neg().mul(normal_push(a, b, contact, dt, inverse_mass))@ <= friction_push(
            a,
            b,
            contact,
            dt,
            inverse_mass,
        )@ <= a.mu.mul(b.mu).mul(normal_push(a, b, contact, dt, inverse_mass))@,
{
    let mu = a.mu.mul(b.mu);
    let p_n = normal_impulse(a, b, contact, dt);
    let along = normal_push(a, b, contact, dt, inverse_mass);
    lemma_mul_sign(a.mu, b.mu);
    lemma_mul_sign(mu, p_n);
    lemma_mul_sign(mu.neg(), p_n);
    lemma_normal_push_is_exact(a, b, contact, dt, inverse_mass);
    lemma_mul_sign(mu, along);
    lemma_mul_sign(mu.neg(), along);
}

/// Bodies that move apart in a contact no deeper than the slop receive no
/// impulse.
pub proof fn lemma_bodies_moving_apart(
    a: RigidBody2D,
    b: RigidBody2D,
    contact: Contact,
    dt: Scalar,
)
    requires
        a.physical(),
        b.physical(),
        normal_velocity(a, b, contact)@ > 0,
        contact.pen_depth@ <= slop()@,
    ensures
        normal_impulse(a, b, contact, dt) == Scalar::zero(),
        resolve_pair(a, b, contact, dt) == (a, b),
{
    lemma_no_bias_within_slop(contact.pen_depth, dt);
    lemma_separating_contact_gives_no_impulse(a, b, contact, dt);
}

/// Two bodies of mass one and restitution one that meet head-on along the
/// first axis, with opposite velocities and in a contact no deeper than the
/// slop, exchange their velocities. The speed at which they close lies
/// within the working range.
pub proof fn lemma_head_on_exchange(
    a: RigidBody2D,
    b: RigidBody2D,
    contact: Contact,
    dt: Scalar,
    speed: Scalar,
)
    requires
        a.inverse_mass == Scalar::one(),
        b.inverse_mass == Scalar::one(),
        a.restitution == Scalar::one(),
        b.restitution == Scalar::one(),
        a.mu@ >= 0,
        b.mu@ >= 0,
        !a.is_static,
        !b.is_static,
        0 <= speed@,
        2 * speed@ <= WORKING_RANGE,
        a.vel == (Vec2 { x: speed, y: Scalar::zero() }),
        b.vel == (Vec2 { x: speed.neg(), y: Scalar::zero() }),
        contact.normal == Vec2::unit_x(),
        contact.pen_depth@ <= slop()@,
    ensures
        normal_impulse(a, b, contact, dt)@ == 2 * speed@,
        friction_impulse(a, b, contact, dt) == Scalar::zero(),
        resolve_pair(a, b, contact, dt) == (
            RigidBody2D { vel: b.vel, ..a },
            RigidBody2D { vel: a.vel, ..b },
        ),
{
    reveal(spec_resolve_pair);
    let v = speed@;
    let s = SCALE as int;
    let zero = Scalar::zero();
    let one = Scalar::one();
    assert(WORKING_RANGE == 0x2000_0000_0000_0000);
    let relative = b.vel.sub(a.vel);
    assert(relative.x@ == -2 * v && relative.y@ == 0);
    lemma_mul_one(relative.x);
    lemma_mul_zero(relative.x);
    lemma_mul_zero(zero);
    lemma_mul_one(zero);
    let v_n = normal_velocity(a, b, contact);
    assert(v_n@ == -2 * v);
    lemma_no_bias_within_slop(contact.pen_depth, dt);
    let closing = v_n.neg().add(bias_velocity(contact.pen_depth, dt));
    assert(closing@ == 2 * v);
    lemma_mul_one(one);
    let gain = one.add(a.restitution.mul(b.restitution));
    assert(gain@ == 2 * s);
    assert(gain@ * closing@ == (4 * v) * s) by (nonlinear_arith)
        requires
            gain@ == 2 * s,
            closing@ == 2 * v,
    ;
    lemma_trunc_div_exact(4 * v, s);
    let pushed = gain.mul(closing);
    assert(pushed@ == 4 * v);
    let k_n = effective_inverse_mass(a, b);
    assert(k_n@ == 2 * s);
    assert(pushed@ * s == (2 * v) * (2 * s)) by (nonlinear_arith)
        requires
            pushed@ == 4 * v,
    ;
    lemma_trunc_div_exact(2 * v, 2 * s);
    let p_n = normal_impulse(a, b, contact, dt);
    assert(p_n@ == 2 * v);
    assert(restoring_speed(a, b, contact, dt) == pushed);
    let along = normal_push(a, b, contact, dt, one);
    assert(along@ == 2 * v);
    // Nothing moves along the tangent.
    let tangent = contact.normal.perp();
    assert(tangent == Vec2::unit_y());
    let v_t = relative.dot(tangent);
    assert(v_t == zero);
    assert(trunc_div(0, k_n@) == 0);
    lemma_mul_div_zero(one, k_n);
    let mu = a.mu.mul(b.mu);
    lemma_mul_sign(a.mu, b.mu);
    lemma_mul_sign(mu, p_n);
    lemma_mul_sign(mu.neg(), p_n);
    lemma_mul_sign(mu, along);
    lemma_mul_sign(mu.neg(), along);
    assert(friction_impulse(a, b, contact, dt) == zero);
    assert(friction_push(a, b, contact, dt, one) == zero);
    lemma_mul_one(along);
    lemma_mul_zero(along);
    let change = velocity_change(a, b, contact, dt, one);
    assert(change == Vec2 { x: along, y: zero });
    assert(b.vel.add(change) == a.vel);
    assert(a.vel.sub(change) == b.vel);
}

/// Resolving a contact changes the velocities of the two bodies that it
/// names, and nothing else. A body that nothing moves keeps its velocity
/// too.
pub proof fn lemma_resolve_pair_changes_only_velocities(
    a: RigidBody2D,
    b: RigidBody2D,
    contact: Contact,
    dt: Scalar,
)
    ensures
        resolve_pair(a, b, contact, dt).0 == (RigidBody2D {
            vel: resolve_pair(a, b, contact, dt).0.vel,
            ..a
        }),
        resolve_pair(a, b, contact, dt).1 == (RigidBody2D {
            vel: resolve_pair(a, b, contact, dt).1.vel,
            ..b
        }),
        a.immovable() ==> resolve_pair(a, b, contact, dt).0 == a,
        b.immovable() ==> resolve_pair(a, b, contact, dt).1 == b,
{
    reveal(spec_resolve_pair);
    lemma_no_inverse_mass_no_change(a, b, contact, dt);
}

/// Resolving a contact in a scene leaves every object but the two that the
/// contact names as it is, keeps the frame of the scene, and keeps every
/// body that nothing moves.
pub proof fn lemma_resolve_keeps_frame(objects: Seq<Object>, contact: Contact, dt: Scalar)
    requires
        contact_fits(objects, contact),
    ensures
        same_frame(objects, spec_resolve(objects, contact, dt)),
        forall|i: int|
            0 <= i < objects.len() && i != contact.body_a_index && i != contact.body_b_index
                ==> spec_resolve(objects, contact, dt)[i] == objects[i],
        forall|i: int|
            0 <= i < objects.len() ==> kept_if_immovable(
                #[trigger] objects[i],
                spec_resolve(objects, contact, dt)[i],
            ),
{
    let a = objects[contact.body_a_index as int];
    let b = objects[contact.body_b_index as int];
    lemma_resolve_pair_changes_only_velocities(a.body->0, b.body->0, contact, dt);
    let after = spec_resolve(objects, contact, dt);
    assert forall|i: int| 0 <= i < objects.len() implies same_makeup(
        #[trigger] objects[i],
        after[i],
    ) && kept_if_immovable(objects[i], after[i]) by {
        if i == contact.body_b_index {
            assert(after[i] == with_body(b, resolve_pair(a.body->0, b.body->0, contact, dt).1));
        } else if i == contact.body_a_index {
            assert(after[i] == with_body(a, resolve_pair(a.body->0, b.body->0, contact, dt).0));
        } else {
            assert(after[i] == objects[i]);
        }
    }
}

/// The frame of a scene is the frame of any scene that has its frame.
pub proof fn lemma_same_frame_transitive(a: Seq<Object>, b: Seq<Object>, c: Seq<Object>)
    requires
        same_frame(a, b),
        same_frame(b, c),
    ensures
        same_frame(a, c),
{
    assert forall|i: int| 0 <= i < a.len() implies same_makeup(#[trigger] a[i], c[i]) by {
        assert(same_makeup(a[i], b[i]));
        assert(same_makeup(b[i], c[i]));
    }
}

/// Resolving contacts that fit the scene, one after the other, keeps the
/// frame of the scene and every body that nothing moves.
pub proof fn lemma_resolve_first_keeps_frame(
    objects: Seq<Object>,
    contacts: Seq<Contact>,
    count: int,
    dt: Scalar,
)
    requires
        0 <= count <= contacts.len(),
        forall|k: int| 0 <= k < count ==> contact_fits(objects, #[trigger] contacts[k]),
    ensures
        same_frame(objects, resolve_first(objects, contacts, count, dt)),
        forall|i: int|
            0 <= i < objects.len() ==> kept_if_immovable(
                #[trigger] objects[i],
                resolve_first(objects, contacts, count, dt)[i],
            ),
    decreases count,
{
    if count > 0 {
        lemma_resolve_first_keeps_frame(objects, contacts, count - 1, dt);
        let before = resolve_first(objects, contacts, count - 1, dt);
        let contact = contacts[count - 1];
        assert(contact_fits(objects, contact));
        assert(same_makeup(objects[contact.body_a_index as int], before[contact.body_a_index as int]));
        assert(same_makeup(objects[contact.body_b_index as int], before[contact.body_b_index as int]));
        lemma_resolve_keeps_frame(before, contact, dt);
        let after = spec_resolve(before, contact, dt);
        lemma_same_frame_transitive(objects, before, after);
        assert forall|i: int| 0 <= i < objects.len() implies kept_if_immovable(
            #[trigger] objects[i],
            after[i],
        ) by {
            assert(kept_if_immovable(objects[i], before[i]));
            assert(kept_if_immovable(before[i], after[i]));
        }
    }
}

/// One pass of the solver keeps the frame of the scene and every body that
/// nothing moves.
pub proof fn lemma_pass_keeps_frame(objects: Seq<Object>, dt: Scalar)
    requires
        objects.len() <= usize::MAX,
    ensures
        same_frame(objects, solver_pass(objects, dt)),
        forall|i: int|
            0 <= i < objects.len() ==> kept_if_immovable(
                #[trigger] objects[i],
                solver_pass(objects, dt)[i],
            ),
{
    let contacts = all_contacts(objects);
    assert forall|k: int| 0 <= k < contacts.len() implies contact_fits(
        objects,
        #[trigger] contacts[k],
    ) by {
        lemma_contacts_fit(objects, objects.len() as int, k);
    }
    lemma_resolve_first_keeps_frame(objects, contacts, contacts.len() as int, dt);
}

/// Any number of passes of the solver keeps the frame of the scene and
/// every body that nothing moves.
pub proof fn lemma_solve_keeps_frame(objects: Seq<Object>, dt: Scalar, iterations: nat)
    requires
        objects.len() <= usize::MAX,
    ensures
        same_frame(objects, solve(objects, dt, iterations)),
        forall|i: int|
            0 <= i < objects.len() ==> kept_if_immovable(
                #[trigger] objects[i],
                solve(objects, dt, iterations)[i],
            ),
    decreases iterations,
{
    if iterations > 0 {
        lemma_solve_keeps_frame(objects, dt, (iterations - 1) as nat);
        let before = solve(objects, dt, (iterations - 1) as nat);
        lemma_pass_keeps_frame(before, dt);
        let after = solver_pass(before, dt);
        lemma_same_frame_transitive(objects, before, after);
        assert forall|i: int| 0 <= i < objects.len() implies kept_if_immovable(
            #[trigger] objects[i],
            after[i],
        ) by {
            assert(kept_if_immovable(objects[i], before[i]));
            assert(kept_if_immovable(before[i], after[i]));
        }
    }
}

/// A step keeps the frame of the scene: it changes nothing but the motion
/// of bodies. A body that nothing moves, such as a static one, comes out of
/// the step as it went in, and a body that can move comes out with no force
/// and no torque left over.
pub proof fn lemma_step_keeps_frame(objects: Seq<Object>, dt: Scalar, iterations: nat)
    requires
        objects.len() <= usize::MAX,
    ensures
        same_frame(objects, spec_step(objects, dt, iterations)),
        forall|i: int|
            0 <= i < objects.len() ==> kept_if_immovable(
                #[trigger] objects[i],
                spec_step(objects, dt, iterations)[i],
            ),
        forall|i: int|
            0 <= i < objects.len() ==> (#[trigger] spec_step(
                objects,
                dt,
                iterations,
            )[i].body matches Some(body) ==> body.immovable() || (body.accum_force
                == Vec2::zero() && body.accum_torque == Scalar::zero())),
{
    lemma_solve_keeps_frame(objects, dt, iterations);
    let solved = solve(objects, dt, iterations);
    let after = spec_step(objects, dt, iterations);
    assert forall|i: int| 0 <= i < objects.len() implies same_makeup(
        #[trigger] objects[i],
        after[i],
    ) && kept_if_immovable(objects[i], after[i]) by {
        assert(same_makeup(objects[i], solved[i]));
        assert(kept_if_immovable(objects[i], solved[i]));
        assert(after[i] == integrated(solved[i], dt));
    }
    assert forall|i: int| 0 <= i < objects.len() implies (#[trigger] after[i].body matches Some(
        body,
    ) ==> body.immovable() || (body.accum_force == Vec2::zero() && body.accum_torque
        == Scalar::zero())) by {
        assert(after[i] == integrated(solved[i], dt));
    }
}

/// Gravity leaves static bodies alone, and changes of the others only the
/// accumulated force.
pub proof fn lemma_gravity_keeps_frame(objects: Seq<Object>)
    ensures
        same_frame(objects, spec_apply_gravity(objects)),
        forall|i: int|
            0 <= i < objects.len() ==> (#[trigger] objects[i].body matches Some(body) ==> {
                &&& spec_apply_gravity(objects)[i].body matches Some(after)
                &&& after.position == body.position
                &&& after.vel == body.vel
                &&& body.is_static ==> after == body
            }),
{
}

/// Performs one step of the simulation in place: `iterations` passes of the
/// solver, then the integration of every body. Returns the contacts that
/// the solver resolved, in the order in which it resolved them.
#[verifier::rlimit(40)]
pub fn step(objects: &mut [Object], dt: Scalar, iterations: usize) -> (contacts: Vec<Contact>)
    ensures
        final(objects)@ == spec_step(old(objects)@, dt, iterations as nat),
        contacts@ == solve_contacts(old(objects)@, dt, iterations as nat),
        same_frame(old(objects)@, final(objects)@),
        forall|i: int|
            0 <= i < old(objects).len() ==> kept_if_immovable(
                #[trigger] old(objects)@[i],
                final(objects)@[i],
            ),
{
    let ghost start = objects@;
    let n = objects.len();
    proof {
        lemma_step_keeps_frame(start, dt, iterations as nat);
    }
    let mut found: Vec<Contact> = Vec::new();
    let mut pass: usize = 0;
    while pass < iterations
        invariant
            pass <= iterations,
            n == objects.len(),
            objects@ == solve(start, dt, pass as nat),
            found@ == solve_contacts(start, dt, pass as nat),
        decreases iterations - pass,
    {
        let contacts = check_collision(objects);
        let ghost pass_start = objects@;
        let mut k: usize = 0;
        while k < contacts.len()
            invariant
                k <= contacts.len(),
                contacts@ == all_contacts(pass_start),
                n == pass_start.len(),
                same_frame(pass_start, objects@),
                objects@ == resolve_first(pass_start, contacts@, k as int, dt),
                found@ == solve_contacts(start, dt, pass as nat) + contacts@.take(k as int),
            decreases contacts.len() - k,
        {
            let contact = contacts[k];
            proof {
                lemma_contacts_fit(pass_start, pass_start.len() as int, k as int);
                assert(same_makeup(
                    pass_start[contact.body_a_index as int],
                    objects@[contact.body_a_index as int],
                ));
                assert(same_makeup(
                    pass_start[contact.body_b_index as int],
                    objects@[contact.body_b_index as int],
                ));
                lemma_resolve_keeps_frame(objects@, contact, dt);
                lemma_same_frame_transitive(
                    pass_start,
                    objects@,
                    spec_resolve(objects@, contact, dt),
                );
            }
            resolve_interpenetration(objects, &contact, dt);
            found.push(contact);
            k = k + 1;
            assert(found@ =~= solve_contacts(start, dt, pass as nat) + contacts@.take(k as int));
        }
        assert(contacts@.take(k as int) =~= contacts@);
        pass = pass + 1;
    }
    let ghost solved = objects@;
    let mut i: usize = 0;
    while i < n
        invariant
            n == objects.len(),
            objects.len() == solved.len(),
            i <= n,
            forall|k: int| 0 <= k < i ==> objects@[k] == integrated(solved[k], dt),
            forall|k: int| i <= k < n ==> objects@[k] == solved[k],
        decreases n - i,
    {
        if let Some(body) = objects[i].body {
            let mut body = body;
            body.update(dt);
            objects[i].body = Some(body);
        }
        i = i + 1;
    }
    assert(objects@ =~= integrate(solved, dt));
    found
}

} // verus!
