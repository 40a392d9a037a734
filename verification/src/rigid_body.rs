//! Rigid bodies: their state, their construction and their integration in
//! time.

use crate::collider::Collider;
use crate::scalar::{lemma_div_sign, lemma_mul_sign, lemma_mul_zero, Scalar, SCALE};
use crate::vec2::Vec2;
use vstd::prelude::*;

verus! {

/// The state of one body.
///
/// An inverse mass or an inverse inertia of zero stands for an infinite one:
/// such a body cannot be moved.
#[derive(Clone, Copy, Debug, PartialEq, Eq, Structural)]
pub struct RigidBody2D {
    pub position: Vec2,
    pub angle: Scalar,
    pub angular_vel: Scalar,
    pub vel: Vec2,
    pub accum_force: Vec2,
    pub accum_torque: Scalar,
    pub inverse_mass: Scalar,
    pub inverse_inertia: Scalar,
    pub is_static: bool,
    pub restitution: Scalar,
    pub mu: Scalar,
}

/// The settings from which a body is built.
#[derive(Clone, Copy, Debug, PartialEq, Eq, Structural)]
pub struct RigidBody2DBuilder {
    pub position: Vec2,
    pub angle: Scalar,
    pub angular_vel: Scalar,
    pub vel: Vec2,
    pub accum_force: Vec2,
    pub accum_torque: Scalar,
    pub inverse_mass: Scalar,
    pub inverse_inertia: Scalar,
    pub is_static: bool,
    pub shape: Option<Collider>,
    pub restitution: Scalar,
    pub mu: Scalar,
}

/// The mass that belongs to an inverse mass.
pub open spec fn mass_of(inverse_mass: Scalar) -> Scalar {
    Scalar::one().div(inverse_mass)
}

/// The inverse of the moment of inertia of a body of the given shape about
/// its centre: `12 / (m (w^2 + h^2))` for a box of width `w` and height `h`,
/// `2 / (m r^2)` for a disc of radius `r`, where `m` is the mass.
pub open spec fn inverse_inertia_of(shape: Collider, inverse_mass: Scalar) -> Scalar {
    let m = mass_of(inverse_mass);
    match shape {
        Collider::AABB { min, max } => {
            let h = max.y.sub(min.y).abs();
            let w = max.x.sub(min.x).abs();
            Scalar::from_int(12).div(m.mul(w.mul(w).add(h.mul(h))))
        },
        Collider::Circle { offset, radius } => Scalar::from_int(2).div(m.mul(radius.mul(radius))),
    }
}

fn inverse_inertia(shape: &Collider, inverse_mass: Scalar) -> (r: Scalar)
    ensures
        r == inverse_inertia_of(*shape, inverse_mass),
{
    let m = Scalar::one().div(inverse_mass);
    match shape {
        Collider::AABB { min, max } => {
            let h = max.y.sub(min.y).abs();
            let w = max.x.sub(min.x).abs();
            Scalar::from_int(12).div(m.mul(w.mul(w).add(h.mul(h))))
        },
        Collider::Circle { offset: _, radius } => Scalar::from_int(2).div(
            m.mul(radius.mul(*radius)),
        ),
    }
}

impl RigidBody2DBuilder {
    pub open spec fn spec_new() -> RigidBody2DBuilder {
        RigidBody2DBuilder {
            position: Vec2::zero(),
            angle: Scalar::zero(),
            angular_vel: Scalar::zero(),
            vel: Vec2::zero(),
            accum_force: Vec2::zero(),
            accum_torque: Scalar::zero(),
            inverse_mass: Scalar::one(),
            inverse_inertia: Scalar::one(),
            is_static: false,
            shape: None,
            restitution: Scalar { raw: 500_000 },
            mu: Scalar { raw: 300_000 },
        }
    }

    /// The settings of a movable body of mass one at rest at the origin, with
    /// no shape, a restitution of one half and a friction coefficient of
    /// three tenths.
    #[verifier::when_used_as_spec(spec_new)]
    pub fn new() -> (r: RigidBody2DBuilder)
        ensures
            r == RigidBody2DBuilder::spec_new(),
    {
        RigidBody2DBuilder {
            position: Vec2::zero(),
            angle: Scalar::zero(),
            angular_vel: Scalar::zero(),
            vel: Vec2::zero(),
            accum_force: Vec2::zero(),
            accum_torque: Scalar::zero(),
            inverse_mass: Scalar::one(),
            inverse_inertia: Scalar::one(),
            is_static: false,
            shape: None,
            restitution: Scalar::from_raw(500_000),
            mu: Scalar::from_raw(300_000),
        }
    }

    /// Places the body at `position`.
    pub fn with_position(self, position: Vec2) -> (r: RigidBody2DBuilder)
        ensures
            r == (RigidBody2DBuilder { position, ..self }),
    {
        let mut b = self;
        b.position = position;
        b
    }

    /// Turns the body by `angle`, in radians.
    pub fn with_angle(self, angle: Scalar) -> (r: RigidBody2DBuilder)
        ensures
            r == (RigidBody2DBuilder { angle, ..self }),
    {
        let mut b = self;
        b.angle = angle;
        b
    }

    /// Gives the shape from which `build` derives the inverse inertia.
    pub fn with_shape(self, shape: Collider) -> (r: RigidBody2DBuilder)
        ensures
            r == (RigidBody2DBuilder { shape: Some(shape), ..self }),
    {
        let mut b = self;
        b.shape = Some(shape);
        b
    }

    /// Sets the inverse of the mass; zero stands for an infinite mass.
    pub fn with_inverse_mass(self, inv_mass: Scalar) -> (r: RigidBody2DBuilder)
        ensures
            r == (RigidBody2DBuilder { inverse_mass: inv_mass, ..self }),
    {
        let mut b = self;
        b.inverse_mass = inv_mass;
        b
    }

    /// Sets the angular velocity.
    pub fn with_angular_vel(self, ang_vel: Scalar) -> (r: RigidBody2DBuilder)
        ensures
            r == (RigidBody2DBuilder { angular_vel: ang_vel, ..self }),
    {
        let mut b = self;
        b.angular_vel = ang_vel;
        b
    }

    /// Sets the velocity.
    pub fn with_vel(self, vel: Vec2) -> (r: RigidBody2DBuilder)
        ensures
            r == (RigidBody2DBuilder { vel, ..self }),
    {
        let mut b = self;
        b.vel = vel;
        b
    }

    /// Makes the body static: nothing will move it.
    pub fn make_static(self) -> (r: RigidBody2DBuilder)
        ensures
            r == (RigidBody2DBuilder { is_static: true, ..self }),
    {
        let mut b = self;
        b.is_static = true;
        b
    }

    /// Sets the restitution: the share of the closing speed that a contact
    /// gives back.
    pub fn with_restitution(self, restitution: Scalar) -> (r: RigidBody2DBuilder)
        ensures
            r == (RigidBody2DBuilder { restitution, ..self }),
    {
        let mut b = self;
        b.restitution = restitution;
        b
    }

    /// Sets the coefficient of friction.
    pub fn with_mu(self, mu: Scalar) -> (r: RigidBody2DBuilder)
        ensures
            r == (RigidBody2DBuilder { mu, ..self }),
    {
        let mut b = self;
        b.mu = mu;
        b
    }

    /// Whether a body can be built from these settings: a movable body must
    /// not have a mass that rounds to zero.
    pub open spec fn spec_buildable(&self) -> bool {
        self.is_static || mass_of(self.inverse_mass).raw != 0
    }

    /// Decides `spec_buildable`.
    #[verifier::when_used_as_spec(spec_buildable)]
    pub fn buildable(&self) -> (r: bool)
        ensures
            r == self.spec_buildable(),
    {
        self.is_static || Scalar::one().div(self.inverse_mass).raw != 0
    }

    /// The body that `build` makes.
    ///
    /// A static body has an inverse mass and an inverse inertia of zero,
    /// whatever was set. A movable body with a shape has the inverse inertia
    /// of that shape; without a shape it keeps the inverse inertia that was
    /// set.
    pub open spec fn spec_build(self) -> RigidBody2D {
        RigidBody2D {
            position: self.position,
            angle: self.angle,
            angular_vel: self.angular_vel,
            vel: self.vel,
            accum_force: self.accum_force,
            accum_torque: self.accum_torque,
            inverse_mass: if self.is_static {
                Scalar::zero()
            } else {
                self.inverse_mass
            },
            inverse_inertia: if self.is_static {
                Scalar::zero()
            } else {
                match self.shape {
                    Some(shape) => inverse_inertia_of(shape, self.inverse_mass),
                    None => self.inverse_inertia,
                }
            },
            is_static: self.is_static,
            restitution: self.restitution,
            mu: self.mu,
        }
    }

    /// Builds the body. A body that can move must have a mass that does not
    /// round to zero.
    pub fn build(self) -> (rb: RigidBody2D)
        requires
            self.buildable(),
        ensures
            rb == self.spec_build(),
            rb.well_formed(),
    {
        let mut rb = RigidBody2D {
            position: self.position,
            angle: self.angle,
            angular_vel: self.angular_vel,
            vel: self.vel,
            accum_force: self.accum_force,
            accum_torque: self.accum_torque,
            inverse_mass: self.inverse_mass,
            inverse_inertia: self.inverse_inertia,
            is_static: self.is_static,
            restitution: self.restitution,
            mu: self.mu,
        };
        if rb.is_static {
            rb.inverse_mass = Scalar::zero();
            rb.inverse_inertia = Scalar::zero();
            return rb;
        }
        if let Some(shape) = self.shape {
            rb.inverse_inertia = inverse_inertia(&shape, self.inverse_mass);
        }
        rb
    }
}

impl RigidBody2D {
    /// A static body has neither inverse mass nor inverse inertia.
    pub open spec fn well_formed(self) -> bool {
        self.is_static ==> self.inverse_mass.raw == 0 && self.inverse_inertia.raw == 0
    }

    /// Whether no force and no impulse moves the body.
    pub open spec fn immovable(self) -> bool {
        self.is_static || self.inverse_mass.raw == 0
    }

    /// Whether the parameters lie where physics has them: a restitution
    /// between zero and one, a friction coefficient, an inverse mass and an
    /// inverse inertia that are not negative.
    pub open spec fn physical(self) -> bool {
        &&& 0 <= self.restitution@ <= SCALE
        &&& 0 <= self.mu@
        &&& 0 <= self.inverse_mass@
        &&& 0 <= self.inverse_inertia@
    }

    pub open spec fn spec_apply_force(self, force: Vec2) -> RigidBody2D {
        RigidBody2D { accum_force: self.accum_force.add(force), ..self }
    }

    /// Adds `force` to what has accumulated since the last update.
    pub fn apply_force(&mut self, force: Vec2)
        ensures
            *final(self) == old(self).spec_apply_force(force),
    {
        self.accum_force = self.accum_force.add(force);
    }

    pub open spec fn spec_apply_impulse(self, impulse: Vec2) -> RigidBody2D {
        RigidBody2D { vel: self.vel.add(impulse.scale(self.inverse_mass)), ..self }
    }

    /// Changes the velocity by `impulse` times the inverse mass.
    pub fn apply_impulse(&mut self, impulse: Vec2)
        ensures
            *final(self) == old(self).spec_apply_impulse(impulse),
    {
        self.vel = self.vel.add(impulse.scale(self.inverse_mass));
    }

    /// The body after a time step `dt` of semi-implicit Euler integration.
    ///
    /// The velocity first takes up the accumulated force, then the position
    /// moves by the new velocity; the angle follows the torque in the same
    /// way. The accumulated force and torque are cleared. An immovable body
    /// stays as it is.
    pub open spec fn spec_update(self, dt: Scalar) -> RigidBody2D {
        if self.immovable() {
            self
        } else {
            let vel = self.vel.add(self.accum_force.scale(self.inverse_mass).scale(dt));
            let angular_vel = self.angular_vel.add(
                self.accum_torque.mul(self.inverse_inertia).mul(dt),
            );
            RigidBody2D {
                position: self.position.add(vel.scale(dt)),
                angle: self.angle.add(angular_vel.mul(dt)),
                angular_vel,
                vel,
                accum_force: Vec2::zero(),
                accum_torque: Scalar::zero(),
                ..self
            }
        }
    }

    /// Advances the body by the time step `dt`.
    pub fn update(&mut self, dt: Scalar)
        ensures
            *final(self) == old(self).spec_update(dt),
    {
        if self.inverse_mass.raw == 0 || self.is_static {
            return ;
        }
        let new_vel = self.vel.add(self.accum_force.scale(self.inverse_mass).scale(dt));
        let new_pos = self.position.add(new_vel.scale(dt));
        let new_ang_vel = self.angular_vel.add(
            self.accum_torque.mul(self.inverse_inertia).mul(dt),
        );
        let new_angle = self.angle.add(new_ang_vel.mul(dt));
        self.position = new_pos;
        self.angle = new_angle;
        self.angular_vel = new_ang_vel;
        self.vel = new_vel;
        self.accum_force = Vec2::zero();
        self.accum_torque = Scalar::zero();
    }
}

/// The inverse inertia of a shape is not negative where the inverse mass is
/// not.
pub proof fn lemma_inverse_inertia_not_negative(shape: Collider, inverse_mass: Scalar)
    requires
        inverse_mass@ >= 0,
    ensures
        inverse_inertia_of(shape, inverse_mass)@ >= 0,
{
    let m = mass_of(inverse_mass);
    lemma_div_sign(Scalar::one(), inverse_mass);
    match shape {
        Collider::AABB { min, max } => {
            let h = max.y.sub(min.y).abs();
            let w = max.x.sub(min.x).abs();
            lemma_mul_sign(w, w);
            lemma_mul_sign(h, h);
            lemma_mul_sign(m, w.mul(w).add(h.mul(h)));
            lemma_div_sign(Scalar::from_int(12), m.mul(w.mul(w).add(h.mul(h))));
        },
        Collider::Circle { offset, radius } => {
            lemma_mul_sign(radius, radius);
            lemma_mul_sign(m, radius.mul(radius));
            lemma_div_sign(Scalar::from_int(2), m.mul(radius.mul(radius)));
        },
    }
}

/// Settings that are physical build a body that is physical and
/// well-formed.
pub proof fn lemma_build_is_physical(settings: RigidBody2DBuilder)
    requires
        0 <= settings.restitution@ <= SCALE,
        0 <= settings.mu@,
        0 <= settings.inverse_mass@,
        0 <= settings.inverse_inertia@,
    ensures
        settings.spec_build().physical(),
        settings.spec_build().well_formed(),
{
    if let Some(shape) = settings.shape {
        lemma_inverse_inertia_not_negative(shape, settings.inverse_mass);
    }
}

/// A body of infinite mass takes up no impulse.
pub proof fn lemma_immovable_ignores_impulse(body: RigidBody2D, impulse: Vec2)
    requires
        body.inverse_mass@ == 0,
    ensures
        body.spec_apply_impulse(impulse) == body,
{
    lemma_mul_zero(impulse.x);
    lemma_mul_zero(impulse.y);
}

/// Whatever force or impulse is applied to a well-formed static body, and
/// however long it is integrated, it keeps its position and its velocity.
pub proof fn lemma_static_body_keeps_place(
    body: RigidBody2D,
    force: Vec2,
    impulse: Vec2,
    dt: Scalar,
)
    requires
        body.well_formed(),
        body.is_static,
    ensures
        body.spec_apply_force(force).position == body.position,
        body.spec_apply_force(force).vel == body.vel,
        body.spec_apply_impulse(impulse) == body,
        body.spec_update(dt) == body,
        body.spec_apply_force(force).spec_update(dt).position == body.position,
        body.spec_apply_force(force).spec_update(dt).vel == body.vel,
{
    lemma_immovable_ignores_impulse(body, impulse);
}

/// Integration uses up the accumulated force and torque of a body that can
/// move.
pub proof fn lemma_update_clears_forces(body: RigidBody2D, dt: Scalar)
    requires
        !body.immovable(),
    ensures
        body.spec_update(dt).accum_force == Vec2::zero(),
        body.spec_update(dt).accum_torque == Scalar::zero(),
{
}

} // verus!
