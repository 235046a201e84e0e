use brick_breaker::input::{Controller, Input, Key};
use brick_breaker::math::Vec2;
use brick_breaker::state::{Body, State};
use brick_breaker::system::{collide, Message, MovementSystem};

// One world unit in fixed-point sub-units.
const S: i64 = 3600;

fn standard_state() -> State {
    State::new(
        Vec2 { x: 80 * S, y: 80 * S },
        Vec2 { x: 10 * S, y: 3 * S },
        Vec2 { x: 2 * S, y: 2 * S },
        Vec2 { x: 8 * S, y: 4 * S },
    )
}

fn system_with_dir(speed_units: i64, dir_key: Option<Key>, fire: bool) -> MovementSystem {
    let mut controller = Controller::new();
    if let Some(k) = dir_key {
        controller.input(&Input::KeyboardInput(k, true));
    }
    if fire {
        controller.input(&Input::KeyboardInput(Key::Space, true));
    }
    let mut movement = MovementSystem::new(speed_units * S);
    movement.input(&controller);
    movement
}

#[test]
fn setup_lays_out_the_standard_grid() {
    // Arena 80x80, paddle 10x3, ball 2x2, brick 8x4, grid 10x4.
    let mut state = standard_state();
    state.setup(10, 4);

    assert_eq!(state.player.body.pos, Vec2 { x: 35 * S, y: 0 });
    assert_eq!(state.ball.body.pos, Vec2 { x: 39 * S, y: 4 * S });
    assert!(!state.ball.fired);
    assert_eq!(state.ball.vel, Vec2 { x: 0, y: 0 });
    assert!(state.game_just_started);

    assert_eq!(state.bricks.len(), 40);
    for (k, brick) in state.bricks.iter().enumerate() {
        let row = (k / 10) as i64;
        let col = (k % 10) as i64;
        assert_eq!(brick.body.pos.x, col * 8 * S);
        assert_eq!(brick.body.pos.y, (80 - 4 * (row + 1)) * S);
        assert_eq!(brick.body.size, Vec2 { x: 8 * S, y: 4 * S });
        assert_eq!(brick.status, 4);
    }
}

#[test]
fn paddle_advances_a_sixtieth_of_speed() {
    // dir()=1.0, speed=10, dt=1/60: x goes from 35 to 35 + 10/60.
    let mut state = standard_state();
    state.setup(10, 4);
    let movement = system_with_dir(10, Some(Key::D), false);
    let mut messages = Vec::new();
    movement.update(&mut state, 60, &mut messages);
    assert_eq!(state.player.body.pos.x, 35 * S + 600);
    assert_eq!(state.player.vel, Vec2 { x: 10 * S, y: 0 });
}

#[test]
fn paddle_clamps_at_both_walls() {
    let mut state = standard_state();
    state.setup(10, 4);
    let movement = system_with_dir(10_000, Some(Key::D), false);
    let mut messages = Vec::new();
    movement.update(&mut state, 60, &mut messages);
    assert_eq!(state.player.body.pos.x, 70 * S);

    let movement = system_with_dir(10_000, Some(Key::A), false);
    movement.update(&mut state, 60, &mut messages);
    assert_eq!(state.player.body.pos.x, 0);
}

#[test]
fn resting_ball_follows_the_paddle() {
    let mut state = standard_state();
    state.setup(10, 4);
    let movement = system_with_dir(10, Some(Key::D), false);
    let mut messages = Vec::new();
    movement.update(&mut state, 60, &mut messages);
    let px = state.player.body.pos.x;
    assert_eq!(state.ball.body.pos, Vec2 { x: px + 4 * S, y: 4 * S });
    assert!(!state.ball.fired);
    assert!(messages.is_empty());
}

#[test]
fn launch_is_suppressed_on_the_setup_tick() {
    let mut state = standard_state();
    state.setup(10, 4);
    let movement = system_with_dir(10, None, true);
    let mut messages = Vec::new();
    movement.update(&mut state, 60, &mut messages);
    assert!(!state.ball.fired);
    assert!(messages.is_empty());
    assert!(!state.game_just_started);

    // The next tick with the fire edge launches straight up at half speed.
    movement.update(&mut state, 60, &mut messages);
    assert!(state.ball.fired);
    assert_eq!(messages, vec![Message::Fire]);
    assert_eq!(state.ball.vel, Vec2 { x: 0, y: 5 * S });
}

#[test]
fn overlap_is_symmetric_and_open() {
    let a = Body { pos: Vec2 { x: 0, y: 0 }, size: Vec2 { x: 10, y: 10 } };
    let b = Body { pos: Vec2 { x: 5, y: 5 }, size: Vec2 { x: 10, y: 10 } };
    let c = Body { pos: Vec2 { x: 10, y: 0 }, size: Vec2 { x: 10, y: 10 } };
    assert!(collide(&a, &b));
    assert!(collide(&b, &a));
    // Touching edges do not overlap: the intervals are open.
    assert!(!collide(&a, &c));
    assert!(!collide(&c, &a));
    let far = Body { pos: Vec2 { x: 100, y: 100 }, size: Vec2 { x: 10, y: 10 } };
    assert_eq!(collide(&a, &far), collide(&far, &a));
}

#[test]
fn brick_takes_four_hits_then_win() {
    let mut state = standard_state();
    state.setup(1, 1);
    assert_eq!(state.bricks.len(), 1);
    assert_eq!(state.bricks[0].body.pos, Vec2 { x: 36 * S, y: 76 * S });
    let movement = system_with_dir(10, None, false);

    for hit in 1..=4u32 {
        state.ball.fired = true;
        state.ball.body.pos = Vec2 { x: 38 * S, y: 75 * S };
        state.ball.vel = Vec2 { x: 0, y: 100 };
        let mut messages = Vec::new();
        movement.update(&mut state, 60, &mut messages);

        // The ball is snapped below the brick and its vertical velocity
        // flipped.
        assert_eq!(state.ball.body.pos.y, 70 * S);
        assert_eq!(state.ball.vel.y, -100);
        if hit < 4 {
            assert_eq!(state.bricks.len(), 1);
            assert_eq!(state.bricks[0].status, 4 - hit);
            assert_eq!(messages, vec![Message::Bounce]);
        } else {
            // The fourth overlapping tick removes the brick and wins.
            assert_eq!(state.bricks.len(), 0);
            assert_eq!(messages, vec![Message::Win, Message::Bounce]);
        }
    }
}

#[test]
fn drop_resets_the_launch_state() {
    let mut state = standard_state();
    state.setup(10, 4);
    state.ball.fired = true;
    state.ball.body.pos = Vec2 { x: 40 * S, y: 1000 };
    state.ball.vel = Vec2 { x: 0, y: -600_000 };
    let movement = system_with_dir(10, None, false);
    let mut messages = Vec::new();
    movement.update(&mut state, 60, &mut messages);

    assert_eq!(messages, vec![Message::Drop]);
    assert!(!state.ball.fired);
    assert_eq!(state.ball.vel, Vec2 { x: 0, y: 0 });

    // On the following tick the ball is back at the paddle-slaved resting
    // position, not wherever it physically was.
    messages.clear();
    movement.update(&mut state, 60, &mut messages);
    assert_eq!(state.ball.body.pos, Vec2 { x: 39 * S, y: 4 * S });
    assert!(messages.is_empty());
}

#[test]
fn corner_bounce_is_coalesced() {
    let mut state = standard_state();
    state.setup(1, 1);
    state.ball.fired = true;
    state.ball.body.pos = Vec2 { x: 79 * S, y: 79 * S };
    state.ball.vel = Vec2 { x: 6000, y: 6000 };
    let movement = system_with_dir(10, None, false);
    let mut messages = Vec::new();
    movement.update(&mut state, 60, &mut messages);

    // Wall and ceiling both clamp and reflect, and the single coalesced
    // bounce is reported once.
    assert_eq!(state.ball.body.pos, Vec2 { x: 78 * S, y: 78 * S });
    assert_eq!(state.ball.vel, Vec2 { x: -6000, y: -6000 });
    assert_eq!(messages, vec![Message::Bounce]);
}

#[test]
fn ceiling_clamps_and_reflects() {
    let mut state = standard_state();
    state.setup(1, 1);
    state.ball.fired = true;
    state.ball.body.pos = Vec2 { x: 10 * S, y: 79 * S };
    state.ball.vel = Vec2 { x: 0, y: 6000 };
    let movement = system_with_dir(10, None, false);
    let mut messages = Vec::new();
    movement.update(&mut state, 60, &mut messages);
    assert_eq!(state.ball.body.pos.y, 78 * S);
    assert_eq!(state.ball.vel.y, -6000);
    assert_eq!(messages, vec![Message::Bounce]);
}

#[test]
fn centred_paddle_hit_sends_the_ball_straight_up() {
    let mut state = standard_state();
    state.setup(1, 1);
    state.ball.fired = true;
    // Ball centred on the paddle, overlapping it.
    state.ball.body.pos = Vec2 { x: 39 * S, y: 2 * S };
    state.ball.vel = Vec2 { x: 0, y: -60 };
    let movement = system_with_dir(10, None, false);
    let mut messages = Vec::new();
    movement.update(&mut state, 60, &mut messages);
    assert_eq!(state.ball.vel, Vec2 { x: 0, y: 5 * S });
    assert_eq!(messages, vec![Message::Bounce]);
}

#[test]
fn remove_body_shifts_later_bricks() {
    let mut state = standard_state();
    state.setup(3, 1);
    let second = state.bricks[1];
    let third = state.bricks[2];
    state.remove_body(1);
    assert_eq!(state.bricks.len(), 2);
    assert_eq!(state.bricks[1], third);
    assert_ne!(state.bricks[1], second);
}
