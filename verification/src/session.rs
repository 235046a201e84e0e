//! One run of the program as a state machine: the persisted settings, the
//! menu, the playfield and the movement system, under a mode tag that says
//! whether the menu or the simulation consumes input.  The host loop feeds
//! raw events and ticks in, performs the emitted messages (sound, window,
//! quitting), and renders from the entity state.

use vstd::prelude::*;

use crate::input::{spec_controller_input, Controller, Input};
use crate::math::{Vec2, MAX_DIM};
use crate::menu;
use crate::menu::{spec_menu_input, Menu};
use crate::state::{size_ok, spec_grid, spec_slaved_pos, Ball, Body, Player, State, StateModel};
use crate::system;
use crate::system::{spec_tick, MovementSystem};

verus! {

/// Bricks per row of a fresh round.
pub const GRID_X: u32 = 10;

/// Brick rows of a fresh round.
pub const GRID_Y: u32 = 4;

/// The user's persisted preferences.
#[derive(Clone, Copy, Debug, PartialEq, Eq, Structural)]
pub struct Settings {
    pub fullscreen: bool,
    pub width: u32,
    pub height: u32,
}

impl Default for Settings {
    /// Windowed, 800 by 600.
    fn default() -> (s: Settings)
        ensures
            s == (Settings { fullscreen: false, width: 800u32, height: 600u32 }),
    {
        Settings { fullscreen: false, width: 800, height: 600 }
    }
}

/// Who consumes input: the menu, or the running simulation.
#[derive(Clone, Copy, Debug, PartialEq, Eq, Structural)]
pub enum Mode {
    Menu,
    Playing,
}

/// The playfield a fresh round leaves behind: the brick grid laid out, the
/// paddle recentred, the ball resting on it.
pub open spec fn spec_setup_model(s: StateModel, num_x: int, num_y: int) -> StateModel {
    let player = Player {
        body: Body {
            pos: Vec2 { x: ((s.arena_size.x - s.player.body.size.x) / 2) as i64, y: 0 },
            size: s.player.body.size,
        },
        vel: Vec2 { x: 0, y: 0 },
    };
    StateModel {
        bricks: spec_grid(s.arena_size, s.brick_size, num_x, num_y),
        player,
        ball: Ball {
            body: Body {
                pos: spec_slaved_pos(player, s.ball.body.size),
                size: s.ball.body.size,
            },
            vel: Vec2 { x: 0, y: 0 },
            fired: false,
        },
        arena_size: s.arena_size,
        brick_size: s.brick_size,
        game_just_started: true,
    }
}

/// One run: settings, controller, menu, playfield, movement system and the
/// mode tag.
pub struct Session {
    pub settings: Settings,
    pub controller: Controller,
    pub menu: Menu,
    pub game: State,
    pub movement: MovementSystem,
    pub mode: Mode,
}

impl Session {
    /// Every part is well-formed and the standard grid fits the arena.
    pub open spec fn wf(self) -> bool {
        &&& self.controller.wf()
        &&& self.movement.wf()
        &&& self.game.wf()
        &&& GRID_X * self.game.brick_size.x <= self.game.arena_size.x
        &&& GRID_Y * self.game.brick_size.y <= self.game.arena_size.y
    }

    /// A fresh run: menu up, focus on `Start`, a fresh playfield, the given
    /// settings kept.
    pub fn new(
        settings: Settings,
        arena_size: Vec2,
        player_size: Vec2,
        ball_size: Vec2,
        brick_size: Vec2,
        speed: i64,
    ) -> (s: Session)
        requires
            size_ok(arena_size),
            size_ok(player_size),
            size_ok(ball_size),
            size_ok(brick_size),
            player_size.x <= arena_size.x,
            ball_size.x <= arena_size.x,
            ball_size.y <= arena_size.y,
            GRID_X * brick_size.x <= arena_size.x,
            GRID_Y * brick_size.y <= arena_size.y,
            0 <= speed <= MAX_DIM,
        ensures
            s.wf(),
            s.settings == settings,
            s.controller == (Controller {
                left: crate::input::Axis::spec_default(),
                right: crate::input::Axis::spec_default(),
                up: crate::input::Axis::spec_default(),
                down: crate::input::Axis::spec_default(),
                fire: crate::input::Axis::spec_default(),
                back: crate::input::Axis::spec_default(),
            }),
            s.menu == (Menu { focus: crate::menu::Focus::Start }),
            s.mode == Mode::Menu,
            s.movement == (MovementSystem { speed, dir: 0, fire: false }),
            s.game.arena_size == arena_size,
            s.game.brick_size == brick_size,
            s.game.player.body.size == player_size,
            s.game.ball.body.size == ball_size,
            s.game.bricks@ == Seq::<crate::state::Brick>::empty(),
    {
        Session {
            settings,
            controller: Controller::new(),
            menu: Menu::new(),
            game: State::new(arena_size, player_size, ball_size, brick_size),
            movement: MovementSystem::new(speed),
            mode: Mode::Menu,
        }
    }

    /// Absorb one raw input event.  In menu mode the menu reacts: `Start`
    /// sets up a fresh round and enters play, a fullscreen toggle flips the
    /// setting; every menu message is also appended to `out` for the host
    /// (sound, window, quitting).  In play mode a back edge returns to the
    /// menu.
    pub fn key_event(&mut self, event: &Input, out: &mut Vec<menu::Message>)
        requires
            old(self).wf(),
        ensures
            final(self).wf(),
            final(self).controller == spec_controller_input(old(self).controller, *event),
            final(self).movement == old(self).movement,
            ({
                let c1 = spec_controller_input(old(self).controller, *event);
                match old(self).mode {
                    Mode::Playing => {
                        &&& final(self).menu == old(self).menu
                        &&& final(self).game.model() == old(self).game.model()
                        &&& final(self).settings == old(self).settings
                        &&& final(self).mode == (if c1.back.new_input {
                            Mode::Menu
                        } else {
                            Mode::Playing
                        })
                        &&& final(out)@ == old(out)@
                    },
                    Mode::Menu => {
                        let mi = spec_menu_input(old(self).menu, c1);
                        &&& final(self).menu == mi.0
                        &&& final(self).mode == (if mi.1.contains(menu::Message::Start) {
                            Mode::Playing
                        } else {
                            Mode::Menu
                        })
                        &&& (mi.1.contains(menu::Message::Start) ==> final(self).game.model()
                            == spec_setup_model(
                            old(self).game.model(),
                            GRID_X as int,
                            GRID_Y as int,
                        ))
                        &&& (!mi.1.contains(menu::Message::Start) ==> final(self).game.model()
                            == old(self).game.model())
                        &&& final(self).settings == (Settings {
                            fullscreen: if mi.1.contains(menu::Message::ToggleFullscreen) {
                                !old(self).settings.fullscreen
                            } else {
                                old(self).settings.fullscreen
                            },
                            ..old(self).settings
                        })
                        &&& final(out)@ == old(out)@ + mi.1
                    },
                }
            }),
    {
        self.controller.input(event);
        match self.mode {
            Mode::Menu => {
                let ghost menu0 = self.menu;
                let ghost c1 = self.controller;
                let mut msgs: Vec<menu::Message> = Vec::new();
                self.menu.input(&self.controller, &mut msgs);
                let ghost mi = spec_menu_input(menu0, c1);
                proof {
                    // Selection messages come first and at most once; any
                    // trailing message is the focus-change report.
                    assert(forall|k: int|
                        0 <= k < mi.1.len() && #[trigger] mi.1[k] != menu::Message::FocusChanged
                            ==> k == 0);
                }
                let mut i: usize = 0;
                let ghost game0 = self.game.model();
                let ghost fullscreen0 = self.settings.fullscreen;
                while i < msgs.len()
                    invariant
                        0 <= i <= msgs@.len(),
                        msgs@ == mi.1,
                        forall|k: int|
                            0 <= k < mi.1.len() && #[trigger] mi.1[k]
                                != menu::Message::FocusChanged ==> k == 0,
                        self.wf(),
                        self.controller == c1,
                        self.menu == mi.0,
                        self.movement == old(self).movement,
                        self.game.arena_size == old(self).game.arena_size,
                        self.game.brick_size == old(self).game.brick_size,
                        self.settings.width == old(self).settings.width,
                        self.settings.height == old(self).settings.height,
                        self.mode == (if mi.1.take(i as int).contains(menu::Message::Start) {
                            Mode::Playing
                        } else {
                            Mode::Menu
                        }),
                        mi.1.take(i as int).contains(menu::Message::Start)
                            ==> self.game.model() == spec_setup_model(
                            game0,
                            GRID_X as int,
                            GRID_Y as int,
                        ),
                        !mi.1.take(i as int).contains(menu::Message::Start) ==> self.game.model()
                            == game0,
                        self.settings.fullscreen == (if mi.1.take(i as int).contains(
                            menu::Message::ToggleFullscreen,
                        ) {
                            !fullscreen0
                        } else {
                            fullscreen0
                        }),
                        out@ == old(out)@ + mi.1.take(i as int),
                    decreases msgs@.len() - i,
                {
                    let ghost taken = mi.1.take(i as int);
                    let m = msgs[i];
                    proof {
                        if m != menu::Message::FocusChanged && taken.contains(m) {
                            let k = choose|k: int| 0 <= k < taken.len() && taken[k] == m;
                            assert(mi.1[k] == m && mi.1[i as int] == m);
                            assert(false);
                        }
                    }
                    match m {
                        menu::Message::Start => {
                            self.mode = Mode::Playing;
                            proof {
                                assert(GRID_X * self.game.brick_size.x <= self.game.arena_size.x);
                            }
                            self.game.setup(GRID_X, GRID_Y);
                            proof {
                                assert(self.game.model() =~= spec_setup_model(
                                    game0,
                                    GRID_X as int,
                                    GRID_Y as int,
                                ));
                            }
                        },
                        menu::Message::ToggleFullscreen => {
                            self.settings.fullscreen = !self.settings.fullscreen;
                        },
                        menu::Message::Exit => {},
                        menu::Message::FocusChanged => {},
                    }
                    out.push(m);
                    i = i + 1;
                    proof {
                        assert(mi.1.take(i as int) =~= taken.push(m));
                        assert forall|mm: menu::Message|
                            mi.1.take(i as int).contains(mm) == (taken.contains(mm) || m
                                == mm) by {
                            let cur = mi.1.take(i as int);
                            if taken.contains(mm) {
                                let k = choose|k: int| 0 <= k < taken.len() && taken[k] == mm;
                                assert(cur[k] == mm);
                            }
                            if m == mm {
                                assert(cur[cur.len() - 1] == mm);
                            }
                            if cur.contains(mm) {
                                let k = choose|k: int| 0 <= k < cur.len() && cur[k] == mm;
                                if k < taken.len() {
                                    assert(taken[k] == mm);
                                }
                            }
                        }
                        assert(out@ =~= old(out)@ + mi.1.take(i as int));
                    }
                }
                proof {
                    assert(mi.1.take(i as int) =~= mi.1);
                }
            },
            Mode::Playing => {
                if self.controller.back_just_pressed() {
                    self.mode = Mode::Menu;
                }
            },
        }
    }

    /// One rendered frame while playing: sample the controller, run one tick
    /// of the simulation, append its messages to `out` for the host, and
    /// return to the menu on `Win`.  In menu mode a frame changes nothing.
    pub fn frame(&mut self, dt_inv: i64, out: &mut Vec<system::Message>)
        requires
            old(self).wf(),
            1 <= dt_inv,
        ensures
            final(self).wf(),
            final(self).settings == old(self).settings,
            final(self).menu == old(self).menu,
            final(self).controller == old(self).controller,
            ({
                match old(self).mode {
                    Mode::Menu => {
                        &&& final(self).game.model() == old(self).game.model()
                        &&& final(self).movement == old(self).movement
                        &&& final(self).mode == Mode::Menu
                        &&& final(out)@ == old(out)@
                    },
                    Mode::Playing => {
                        let c = old(self).controller;
                        let mv = MovementSystem {
                            speed: old(self).movement.speed,
                            dir: (c.right.value - c.left.value) as i64,
                            fire: c.fire.new_input,
                        };
                        let t = spec_tick(mv, old(self).game.model(), dt_inv as int);
                        &&& final(self).movement == mv
                        &&& final(self).game.model() == t.0
                        &&& final(out)@ == old(out)@ + t.1
                        &&& final(self).mode == (if t.1.contains(system::Message::Win) {
                            Mode::Menu
                        } else {
                            Mode::Playing
                        })
                    },
                }
            }),
    {
        match self.mode {
            Mode::Menu => {},
            Mode::Playing => {
                self.movement.input(&self.controller);
                let mut msgs: Vec<system::Message> = Vec::new();
                self.movement.update(&mut self.game, dt_inv, &mut msgs);
                let ghost tick_msgs = msgs@;
                let mut won = false;
                let mut i: usize = 0;
                while i < msgs.len()
                    invariant
                        0 <= i <= msgs@.len(),
                        msgs@ == tick_msgs,
                        won == tick_msgs.take(i as int).contains(system::Message::Win),
                        out@ == old(out)@ + tick_msgs.take(i as int),
                    decreases msgs@.len() - i,
                {
                    let ghost taken = tick_msgs.take(i as int);
                    let m = msgs[i];
                    if matches!(m, system::Message::Win) {
                        won = true;
                    }
                    out.push(m);
                    i = i + 1;
                    proof {
                        assert(tick_msgs.take(i as int) =~= taken.push(m));
                        let cur = tick_msgs.take(i as int);
                        if taken.contains(system::Message::Win) {
                            let k = choose|k: int|
                                0 <= k < taken.len() && taken[k] == system::Message::Win;
                            assert(cur[k] == system::Message::Win);
                        }
                        if m == system::Message::Win {
                            assert(cur[cur.len() - 1] == system::Message::Win);
                        }
                        if cur.contains(system::Message::Win) && !taken.contains(
                            system::Message::Win,
                        ) && m != system::Message::Win {
                            let k = choose|k: int|
                                0 <= k < cur.len() && cur[k] == system::Message::Win;
                            assert(taken[k] == system::Message::Win);
                        }
                        assert(out@ =~= old(out)@ + tick_msgs.take(i as int));
                    }
                }
                proof {
                    assert(tick_msgs.take(i as int) =~= tick_msgs);
                }
                if won {
                    self.mode = Mode::Menu;
                }
            },
        }
    }

    /// The window was resized: remember the new size.
    pub fn resized(&mut self, width: u32, height: u32)
        ensures
            *final(self) == (Session {
                settings: Settings {
                    fullscreen: old(self).settings.fullscreen,
                    width,
                    height,
                },
                ..*old(self)
            }),
    {
        self.settings.width = width;
        self.settings.height = height;
    }

    /// Flip the fullscreen preference (the host applies it to the window)
    /// and return the new value.
    pub fn toggle_fullscreen(&mut self) -> (on: bool)
        ensures
            *final(self) == (Session {
                settings: Settings {
                    fullscreen: !old(self).settings.fullscreen,
                    ..old(self).settings
                },
                ..*old(self)
            }),
            on == !old(self).settings.fullscreen,
    {
        self.settings.fullscreen = !self.settings.fullscreen;
        self.settings.fullscreen
    }
}

} // verus!
