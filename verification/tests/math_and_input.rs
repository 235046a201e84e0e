use brick_breaker::input::{Axis, Controller, Input, Key};
use brick_breaker::math::{isqrt, scaled_normalize, Vec2, FP_SCALE};

#[test]
fn isqrt_exact_values() {
    assert_eq!(isqrt(0), 0);
    assert_eq!(isqrt(1), 1);
    assert_eq!(isqrt(15), 3);
    assert_eq!(isqrt(16), 4);
    assert_eq!(isqrt(250_000), 500);
    assert_eq!(isqrt(u64::MAX), 0xFFFF_FFFF);
}

#[test]
fn normalize_three_four_five() {
    let v = Vec2 { x: 300, y: 400 };
    let r = scaled_normalize(v, 1000);
    assert_eq!(r, Vec2 { x: 600, y: 800 });
}

#[test]
fn normalize_negative_component() {
    let v = Vec2 { x: -300, y: 400 };
    let r = scaled_normalize(v, 1000);
    assert_eq!(r, Vec2 { x: -600, y: 800 });
}

#[test]
fn normalize_zero_vector_unchanged() {
    let v = Vec2 { x: 0, y: 0 };
    let r = scaled_normalize(v, 1000);
    assert_eq!(r, Vec2 { x: 0, y: 0 });
}

#[test]
fn axis_digital_press_and_release() {
    let mut a = Axis::default();
    assert_eq!(a.value, 0);
    assert!(!a.new_input);
    a.set_digital(true);
    assert_eq!(a.value, FP_SCALE);
    assert!(a.new_input);
    a.set_digital(false);
    assert_eq!(a.value, 0);
    assert!(!a.new_input);
}

#[test]
fn axis_continuous_set() {
    let mut a = Axis::default();
    a.set(1800);
    assert_eq!(a.value, 1800);
    assert!(a.new_input);
    a.set(0);
    assert!(!a.new_input);
}

#[test]
fn controller_bindings_and_dir() {
    let mut c = Controller::new();
    assert_eq!(c.dir(), 0);
    c.input(&Input::KeyboardInput(Key::D, true));
    assert_eq!(c.dir(), FP_SCALE);
    c.input(&Input::KeyboardInput(Key::A, true));
    assert_eq!(c.dir(), 0);
    c.input(&Input::KeyboardInput(Key::D, false));
    assert_eq!(c.dir(), -FP_SCALE);
    c.input(&Input::KeyboardInput(Key::Left, true));
    assert_eq!(c.dir(), -FP_SCALE);
}

#[test]
fn controller_edges_and_reset() {
    let mut c = Controller::new();
    c.input(&Input::KeyboardInput(Key::Space, true));
    c.input(&Input::KeyboardInput(Key::Escape, true));
    c.input(&Input::KeyboardInput(Key::W, true));
    c.input(&Input::KeyboardInput(Key::S, true));
    assert!(c.fire_just_pressed());
    assert!(c.back_just_pressed());
    assert!(c.up_just_pressed());
    assert!(c.down_just_pressed());
    c.reset();
    // Reset clears the fire/back/left/right edges but not the up/down ones,
    // and keeps held values.
    assert!(!c.fire_just_pressed());
    assert!(!c.back_just_pressed());
    assert!(c.up_just_pressed());
    assert_eq!(c.fire(), FP_SCALE);
}

#[test]
fn controller_ignores_unbound_input() {
    let mut c = Controller::new();
    let before = c;
    c.input(&Input::KeyboardInput(Key::Other, true));
    assert_eq!(c, before);
    c.input(&Input::Button(3, true));
    assert_eq!(c, before);
    c.input(&Input::Button(0, true));
    assert!(c.fire_just_pressed());
}
