//! Scene objects: a body and a shape with a colour and a name.

use crate::collider::Collider;
use crate::rigid_body::RigidBody2D;
use macroquad::color::Color;
use vstd::prelude::*;

verus! {

/// The colour type of macroquad. The library stores it and hands it back; it
/// never looks inside.
#[verifier::external_type_specification]
#[verifier::external_body]
pub struct ExColor(macroquad::color::Color);

/// One thing of the scene. The physics reads and changes `body` and reads
/// `collider`; `color` and `name` are for whoever draws the scene.
pub struct Object {
    pub body: Option<RigidBody2D>,
    pub collider: Option<Collider>,
    pub color: Color,
    pub name: String,
}

/// The settings from which an object is built.
pub struct ObjectBuilder {
    pub body: Option<RigidBody2D>,
    pub collider: Option<Collider>,
    pub color: Option<Color>,
    pub name: Option<String>,
}

impl ObjectBuilder {
    /// Settings with nothing chosen yet.
    pub fn new() -> (r: ObjectBuilder)
        ensures
            r.body is None,
            r.collider is None,
            r.color is None,
            r.name is None,
    {
        ObjectBuilder { body: None, collider: None, color: None, name: None }
    }

    /// Gives the object a body.
    pub fn with_body(self, body: RigidBody2D) -> (r: ObjectBuilder)
        ensures
            r == (ObjectBuilder { body: Some(body), ..self }),
    {
        let mut b = self;
        b.body = Some(body);
        b
    }

    /// Gives the object a shape.
    pub fn with_collider(self, collider: Collider) -> (r: ObjectBuilder)
        ensures
            r == (ObjectBuilder { collider: Some(collider), ..self }),
    {
        let mut b = self;
        b.collider = Some(collider);
        b
    }

    /// Chooses the colour.
    pub fn with_color(self, color: Color) -> (r: ObjectBuilder)
        ensures
            r == (ObjectBuilder { color: Some(color), ..self }),
    {
        let mut b = self;
        b.color = Some(color);
        b
    }

    /// Chooses the name.
    pub fn with_name(self, name: String) -> (r: ObjectBuilder)
        ensures
            r == (ObjectBuilder { name: Some(name), ..self }),
    {
        let mut b = self;
        b.name = Some(name);
        b
    }

    /// The name that `build` gives: the chosen one, or `some_object`.
    pub open spec fn spec_name(self) -> Seq<char> {
        match self.name {
            Some(name) => name@,
            None => "some_object"@,
        }
    }

    /// Builds the object. A colour must have been chosen.
    pub fn build(self) -> (obj: Object)
        requires
            self.color is Some,
        ensures
            obj.body == self.body,
            obj.collider == self.collider,
            Some(obj.color) == self.color,
            obj.name@ == self.spec_name(),
    {
        let color = self.color.unwrap();
        let name = match self.name {
            Some(name) => name,
            None => "some_object".to_owned(),
        };
        Object { body: self.body, collider: self.collider, color, name }
    }
}

} // verus!
