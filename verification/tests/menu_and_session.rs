use brick_breaker::input::{Controller, Input, Key};
use brick_breaker::math::Vec2;
use brick_breaker::menu::{Focus, Menu, Message};
use brick_breaker::session::{Mode, Session, Settings};
use brick_breaker::system;

const S: i64 = 3600;

fn press(c: &mut Controller, key: Key) {
    c.input(&Input::KeyboardInput(key, true));
}

fn release(c: &mut Controller, key: Key) {
    c.input(&Input::KeyboardInput(key, false));
}

fn tap(menu: &mut Menu, c: &mut Controller, key: Key) -> Vec<Message> {
    let mut messages = Vec::new();
    press(c, key);
    menu.input(c, &mut messages);
    release(c, key);
    messages
}

#[test]
fn menu_down_cycles_in_three_steps() {
    let mut menu = Menu::new();
    let mut c = Controller::new();
    assert_eq!(menu.focus, Focus::Start);
    tap(&mut menu, &mut c, Key::S);
    assert_eq!(menu.focus, Focus::Exit);
    tap(&mut menu, &mut c, Key::S);
    assert_eq!(menu.focus, Focus::Fullscreen);
    tap(&mut menu, &mut c, Key::S);
    assert_eq!(menu.focus, Focus::Start);
}

#[test]
fn menu_up_inverts_down() {
    let mut menu = Menu::new();
    let mut c = Controller::new();
    tap(&mut menu, &mut c, Key::Down);
    assert_eq!(menu.focus, Focus::Exit);
    tap(&mut menu, &mut c, Key::Up);
    assert_eq!(menu.focus, Focus::Start);
    tap(&mut menu, &mut c, Key::Up);
    assert_eq!(menu.focus, Focus::Fullscreen);
    tap(&mut menu, &mut c, Key::Down);
    assert_eq!(menu.focus, Focus::Start);
}

#[test]
fn menu_reports_focus_changes() {
    let mut menu = Menu::new();
    let mut c = Controller::new();
    let messages = tap(&mut menu, &mut c, Key::S);
    assert_eq!(messages, vec![Message::FocusChanged]);
    // Releasing a key is no edge: nothing moves, nothing is reported.
    let mut messages = Vec::new();
    menu.input(&c, &mut messages);
    assert!(messages.is_empty());
    assert_eq!(menu.focus, Focus::Exit);
}

#[test]
fn menu_selects_the_focused_item() {
    let mut menu = Menu::new();
    let mut c = Controller::new();
    assert_eq!(tap(&mut menu, &mut c, Key::Return), vec![Message::Start]);
    tap(&mut menu, &mut c, Key::S);
    assert_eq!(tap(&mut menu, &mut c, Key::Return), vec![Message::Exit]);
    tap(&mut menu, &mut c, Key::S);
    assert_eq!(tap(&mut menu, &mut c, Key::Space), vec![Message::ToggleFullscreen]);
}

fn standard_session() -> Session {
    Session::new(
        Settings::default(),
        Vec2 { x: 80 * S, y: 80 * S },
        Vec2 { x: 10 * S, y: 3 * S },
        Vec2 { x: 2 * S, y: 2 * S },
        Vec2 { x: 8 * S, y: 4 * S },
        10 * S,
    )
}

#[test]
fn session_starts_a_round_on_start() {
    let mut session = standard_session();
    assert_eq!(session.mode, Mode::Menu);
    assert_eq!(session.game.bricks.len(), 0);

    let mut out = Vec::new();
    session.key_event(&Input::KeyboardInput(Key::Return, true), &mut out);
    assert_eq!(out, vec![Message::Start]);
    assert_eq!(session.mode, Mode::Playing);
    assert_eq!(session.game.bricks.len(), 40);
    assert_eq!(session.game.player.body.pos, Vec2 { x: 35 * S, y: 0 });
    assert!(session.game.game_just_started);
}

#[test]
fn session_back_returns_to_menu() {
    let mut session = standard_session();
    let mut out = Vec::new();
    session.key_event(&Input::KeyboardInput(Key::Return, true), &mut out);
    assert_eq!(session.mode, Mode::Playing);

    // While playing, menu messages stop: a movement key produces none.
    out.clear();
    session.key_event(&Input::KeyboardInput(Key::D, true), &mut out);
    assert!(out.is_empty());
    assert_eq!(session.mode, Mode::Playing);

    session.key_event(&Input::KeyboardInput(Key::Escape, true), &mut out);
    assert_eq!(session.mode, Mode::Menu);
}

#[test]
fn session_frame_ticks_the_simulation() {
    let mut session = standard_session();
    let mut menu_out = Vec::new();
    session.key_event(&Input::KeyboardInput(Key::Return, true), &mut menu_out);
    session.key_event(&Input::KeyboardInput(Key::Return, false), &mut menu_out);
    session.key_event(&Input::KeyboardInput(Key::D, true), &mut menu_out);

    let mut out: Vec<system::Message> = Vec::new();
    session.frame(60, &mut out);
    assert!(out.is_empty());
    assert_eq!(session.game.player.body.pos.x, 35 * S + 600);
    assert!(!session.game.game_just_started);

    // A frame in menu mode changes nothing.
    let mut idle = standard_session();
    let before = idle.game.player.body.pos;
    idle.frame(60, &mut out);
    assert_eq!(idle.game.player.body.pos, before);
    assert!(out.is_empty());
}

#[test]
fn session_fullscreen_toggle_flips_settings() {
    let mut session = standard_session();
    assert!(!session.settings.fullscreen);
    assert!(session.toggle_fullscreen());
    assert!(session.settings.fullscreen);
    assert!(!session.toggle_fullscreen());

    // Selecting the fullscreen item in the menu flips it too and forwards
    // the message to the host.
    let mut out = Vec::new();
    session.key_event(&Input::KeyboardInput(Key::S, true), &mut out);
    session.key_event(&Input::KeyboardInput(Key::S, false), &mut out);
    session.key_event(&Input::KeyboardInput(Key::S, true), &mut out);
    session.key_event(&Input::KeyboardInput(Key::S, false), &mut out);
    assert_eq!(session.menu.focus, Focus::Fullscreen);
    out.clear();
    session.key_event(&Input::KeyboardInput(Key::Space, true), &mut out);
    assert_eq!(out, vec![Message::ToggleFullscreen]);
    assert!(session.settings.fullscreen);
}

#[test]
fn session_resized_remembers_the_window() {
    let mut session = standard_session();
    session.resized(1024, 768);
    assert_eq!(session.settings.width, 1024);
    assert_eq!(session.settings.height, 768);
    assert_eq!(Settings::default().width, 800);
    assert_eq!(Settings::default().height, 600);
}

#[test]
fn session_win_returns_to_menu() {
    let mut session = standard_session();
    let mut menu_out = Vec::new();
    session.key_event(&Input::KeyboardInput(Key::Return, true), &mut menu_out);
    assert_eq!(session.mode, Mode::Playing);

    // Clear the field down to nothing by letting the ball chew through the
    // last brick directly.
    session.game.bricks.clear();
    session.game.bricks = {
        let mut one = standard_session().game;
        one.setup(1, 1);
        one.bricks
    };
    session.game.bricks[0].status = 1;
    session.game.ball.fired = true;
    session.game.ball.body.pos = Vec2 { x: 38 * S, y: 75 * S };
    session.game.ball.vel = Vec2 { x: 0, y: 100 };
    session.key_event(&Input::KeyboardInput(Key::Return, false), &mut menu_out);

    let mut out: Vec<system::Message> = Vec::new();
    session.frame(60, &mut out);
    assert_eq!(out, vec![system::Message::Win, system::Message::Bounce]);
    assert_eq!(session.mode, Mode::Menu);
    assert_eq!(session.game.bricks.len(), 0);
}
