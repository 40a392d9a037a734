use macroquad::color::Color;
use physixx::collider::Collider;
use physixx::object::ObjectBuilder;
use physixx::rigid_body::RigidBody2DBuilder;
use physixx::scalar::Scalar;
use physixx::vec2::Vec2;

#[test]
fn builder_starts_empty() {
    let builder = ObjectBuilder::new();
    assert!(builder.body.is_none());
    assert!(builder.collider.is_none());
    assert!(builder.color.is_none());
    assert!(builder.name.is_none());
}

#[test]
fn object_without_a_name_is_some_object() {
    let object = ObjectBuilder::new().with_color(Color::new(0.0, 1.0, 0.0, 1.0)).build();
    assert_eq!(object.name, "some_object");
    assert!(object.body.is_none());
    assert!(object.collider.is_none());
    assert_eq!(object.color, Color::new(0.0, 1.0, 0.0, 1.0));
}

#[test]
fn object_keeps_what_it_was_given() {
    let shape = Collider::Circle { offset: Vec2::zero(), radius: Scalar::from_int(3) };
    let body = RigidBody2DBuilder::new().with_shape(shape).build();
    let object = ObjectBuilder::new()
        .with_body(body)
        .with_collider(shape)
        .with_color(Color::new(1.0, 0.0, 0.5, 0.25))
        .with_name("circle".to_string())
        .build();
    assert_eq!(object.name, "circle");
    assert_eq!(object.body, Some(body));
    assert_eq!(object.collider, Some(shape));
    assert_eq!(object.color, Color::new(1.0, 0.0, 0.5, 0.25));
}

#[test]
fn later_settings_replace_earlier_ones() {
    let object = ObjectBuilder::new()
        .with_color(Color::new(0.0, 0.0, 0.0, 1.0))
        .with_name("first".to_string())
        .with_color(Color::new(1.0, 1.0, 1.0, 1.0))
        .with_name("second".to_string())
        .build();
    assert_eq!(object.name, "second");
    assert_eq!(object.color, Color::new(1.0, 1.0, 1.0, 1.0));
}
