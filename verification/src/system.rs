//! The per-tick movement and collision algorithm: paddle steering and
//! clamping, ball launch and paddle-slaved rest, axis-aligned collision
//! resolution against paddle, bricks, walls, floor and ceiling, brick
//! bookkeeping, and the tick's emitted messages.

use vstd::prelude::*;

use crate::input::Controller;
use crate::math::{
    div_trunc, scaled_normalize, spec_div_trunc, spec_scaled_normalize, Vec2, FP_SCALE, MAX_DIM,
};
use crate::state::{
    brick_body_ok, brick_ok, size_ok, spec_slaved_pos, Ball, Body, Brick, Player, State,
    StateModel,
};

verus! {

/// What one tick of the simulation reports to the host loop.
#[derive(Clone, Copy, Debug, PartialEq, Eq, Structural)]
pub enum Message {
    Win,
    Bounce,
    Drop,
    Fire,
}

/// The movement system: the tuning speed and the controller snapshot it
/// steers by.
#[derive(Clone, Copy, Debug, PartialEq, Eq, Structural)]
pub struct MovementSystem {
    pub speed: i64,
    pub dir: i64,
    pub fire: bool,
}

impl MovementSystem {
    /// Speed and direction are bounded.
    pub open spec fn wf(self) -> bool {
        0 <= self.speed <= MAX_DIM && -FP_SCALE <= self.dir <= FP_SCALE
    }

    /// A system with the given speed, not yet steering or firing.
    pub fn new(speed: i64) -> (s: MovementSystem)
        requires
            0 <= speed <= MAX_DIM,
        ensures
            s == (MovementSystem { speed, dir: 0, fire: false }),
            s.wf(),
    {
        MovementSystem { speed, dir: 0, fire: false }
    }

    /// Sample the controller: direction from the held axes, fire from the
    /// press edge.
    pub fn input(&mut self, controller: &Controller)
        requires
            controller.wf(),
        ensures
            *final(self) == (MovementSystem {
                speed: old(self).speed,
                dir: (controller.right.value - controller.left.value) as i64,
                fire: controller.fire.new_input,
            }),
            old(self).wf() ==> final(self).wf(),
    {
        self.dir = controller.dir();
        self.fire = controller.fire_just_pressed();
    }
}

/// Open-interval rectangle overlap on both axes.
pub open spec fn spec_overlap(a: Body, b: Body) -> bool {
    &&& a.pos.x < b.pos.x + b.size.x
    &&& a.pos.x + a.size.x > b.pos.x
    &&& a.pos.y < b.pos.y + b.size.y
    &&& a.pos.y + a.size.y > b.pos.y
}

/// Both rectangles' coordinates are bounded, so the overlap sums stay in
/// machine range.
pub open spec fn body_in_range(a: Body) -> bool {
    &&& -8 * MAX_DIM <= a.pos.x <= 8 * MAX_DIM
    &&& -8 * MAX_DIM <= a.pos.y <= 8 * MAX_DIM
    &&& 0 <= a.size.x <= MAX_DIM
    &&& 0 <= a.size.y <= MAX_DIM
}

/// The axis-aligned overlap test.
pub fn collide(a: &Body, b: &Body) -> (r: bool)
    requires
        body_in_range(*a),
        body_in_range(*b),
    ensures
        r == spec_overlap(*a, *b),
{
    a.pos.x < b.pos.x + b.size.x && a.pos.x + a.size.x > b.pos.x && a.pos.y < b.pos.y + b.size.y
        && a.pos.y + a.size.y > b.pos.y
}

/// Overlap does not depend on the order of its arguments.
pub proof fn lemma_overlap_symmetric(a: Body, b: Body)
    ensures
        spec_overlap(a, b) == spec_overlap(b, a),
{
}

/// The paddle after one tick: horizontal velocity is direction times speed,
/// the position advances by a tick's worth of velocity, and the result is
/// clamped inside the arena.
pub open spec fn spec_player_step(p: Player, arena: Vec2, dir: int, speed: int, dt_inv: int) -> Player {
    let vx = spec_div_trunc(dir * speed, FP_SCALE as int);
    let px = p.body.pos.x + spec_div_trunc(vx, dt_inv);
    let py = p.body.pos.y + spec_div_trunc(p.vel.y as int, dt_inv);
    let cx = if px < 0 {
        0
    } else if px > arena.x - p.body.size.x {
        arena.x - p.body.size.x
    } else {
        px
    };
    Player {
        body: Body { pos: Vec2 { x: cx as i64, y: py as i64 }, size: p.body.size },
        vel: Vec2 { x: vx as i64, y: p.vel.y },
    }
}

/// The ball advanced by a tick's worth of its velocity.
pub open spec fn spec_integrate(b: Ball, dt_inv: int) -> Ball {
    Ball {
        body: Body {
            pos: Vec2 {
                x: (b.body.pos.x + spec_div_trunc(b.vel.x as int, dt_inv)) as i64,
                y: (b.body.pos.y + spec_div_trunc(b.vel.y as int, dt_inv)) as i64,
            },
            size: b.body.size,
        },
        vel: b.vel,
        fired: b.fired,
    }
}

/// The launch velocity: the direction vector `(dir, 1)` scaled to half the
/// speed.
pub open spec fn spec_launch_vel(dir: int, speed: int) -> Vec2 {
    spec_scaled_normalize(Vec2 { x: dir as i64, y: FP_SCALE }, spec_div_trunc(speed, 2))
}

/// The velocity the ball leaves the paddle with: the ball's offset across
/// the paddle maps linearly to a horizontal component in `[-1, 1]` world
/// units, the vertical component is fixed upward, and the vector is scaled
/// to half the speed.  A paddle no wider than the ball centres the exit.
pub open spec fn spec_paddle_vel(ball: Ball, player: Player, speed: int) -> Vec2 {
    let denom = player.body.size.x - ball.body.size.x;
    let rel = ball.body.pos.x - player.body.pos.x;
    let raw = if denom <= 0 {
        0
    } else {
        spec_div_trunc(rel * 2 * FP_SCALE, denom) - FP_SCALE
    };
    let vx = if raw < -FP_SCALE {
        -(FP_SCALE as int)
    } else if raw > FP_SCALE {
        FP_SCALE as int
    } else {
        raw
    };
    spec_scaled_normalize(Vec2 { x: vx as i64, y: (2 * FP_SCALE) as i64 }, spec_div_trunc(speed, 2))
}

/// The brick pass, front to back: every brick overlapping the ball at the
/// moment it is reached snaps the ball below it, flips the ball's vertical
/// velocity and loses one hit point.  Returns the ball, the updated bricks,
/// and whether anything was hit.
pub open spec fn spec_brick_scan(ball: Ball, bricks: Seq<Brick>) -> (Ball, Seq<Brick>, bool)
    decreases bricks.len(),
{
    if bricks.len() == 0 {
        (ball, bricks, false)
    } else {
        let b0 = bricks[0];
        let hit = spec_overlap(ball.body, b0.body);
        let ball1 = if hit {
            Ball {
                body: Body {
                    pos: Vec2 {
                        x: ball.body.pos.x,
                        y: (b0.body.pos.y - b0.body.size.y - ball.body.size.y) as i64,
                    },
                    size: ball.body.size,
                },
                vel: Vec2 { x: ball.vel.x, y: (-ball.vel.y) as i64 },
                fired: ball.fired,
            }
        } else {
            ball
        };
        let nb0 = if hit {
            Brick { body: b0.body, status: (b0.status - 1) as u32 }
        } else {
            b0
        };
        let rest = spec_brick_scan(ball1, bricks.drop_first());
        (rest.0, seq![nb0] + rest.1, hit || rest.2)
    }
}

/// The bricks that survive the pass: those with hit points left, in order.
pub open spec fn spec_alive(bricks: Seq<Brick>) -> Seq<Brick> {
    bricks.filter(|b: Brick| b.status > 0)
}

/// Side-wall resolution: a ball beyond either wall is clamped to it and its
/// horizontal velocity flipped.
pub open spec fn spec_wall_step(b: Ball, arena: Vec2) -> (Ball, bool) {
    if b.body.pos.x < 0 {
        (
            Ball {
                body: Body { pos: Vec2 { x: 0, y: b.body.pos.y }, size: b.body.size },
                vel: Vec2 { x: (-b.vel.x) as i64, y: b.vel.y },
                fired: b.fired,
            },
            true,
        )
    } else if b.body.pos.x + b.body.size.x > arena.x {
        (
            Ball {
                body: Body {
                    pos: Vec2 { x: (arena.x - b.body.size.x) as i64, y: b.body.pos.y },
                    size: b.body.size,
                },
                vel: Vec2 { x: (-b.vel.x) as i64, y: b.vel.y },
                fired: b.fired,
            },
            true,
        )
    } else {
        (b, false)
    }
}

/// Floor and ceiling resolution: a ball below the floor is dropped (back to
/// rest, velocity cleared); otherwise one above the ceiling is clamped to it
/// and its vertical velocity flipped.  Returns the ball, whether it bounced,
/// and whether it dropped.
pub open spec fn spec_floor_ceiling(b: Ball, arena: Vec2) -> (Ball, bool, bool) {
    if b.body.pos.y < 0 {
        (Ball { body: b.body, vel: Vec2 { x: 0, y: 0 }, fired: false }, false, true)
    } else if b.body.pos.y + b.body.size.y > arena.y {
        (
            Ball {
                body: Body {
                    pos: Vec2 { x: b.body.pos.x, y: (arena.y - b.body.size.y) as i64 },
                    size: b.body.size,
                },
                vel: Vec2 { x: b.vel.x, y: (-b.vel.y) as i64 },
                fired: b.fired,
            },
            true,
            false,
        )
    } else {
        (b, false, false)
    }
}

/// A one-message sequence when `cond` holds, else nothing.
pub open spec fn opt_msg(cond: bool, m: Message) -> Seq<Message> {
    if cond {
        seq![m]
    } else {
        Seq::<Message>::empty()
    }
}

/// The launch condition: a fire edge while the ball rests, except on the
/// first tick after setup.
pub open spec fn spec_launches(sys: MovementSystem, s: StateModel) -> bool {
    sys.fire && !s.ball.fired && !s.game_just_started
}

/// One full tick of the simulation: the next state and the messages emitted,
/// in emission order (`Fire`, `Drop`, `Win`, `Bounce`).
pub open spec fn spec_tick(sys: MovementSystem, s: StateModel, dt_inv: int) -> (
    StateModel,
    Seq<Message>,
) {
    let player1 = spec_player_step(s.player, s.arena_size, sys.dir as int, sys.speed as int, dt_inv);
    let launch = spec_launches(sys, s);
    let ball1 = if launch {
        Ball {
            body: s.ball.body,
            vel: spec_launch_vel(sys.dir as int, sys.speed as int),
            fired: true,
        }
    } else if !s.ball.fired {
        Ball {
            body: Body { pos: spec_slaved_pos(player1, s.ball.body.size), size: s.ball.body.size },
            vel: s.ball.vel,
            fired: false,
        }
    } else {
        s.ball
    };
    let ball2 = spec_integrate(ball1, dt_inv);
    let fire_msgs = opt_msg(launch, Message::Fire);
    if !ball2.fired {
        (
            StateModel {
                bricks: s.bricks,
                player: player1,
                ball: ball2,
                arena_size: s.arena_size,
                brick_size: s.brick_size,
                game_just_started: false,
            },
            fire_msgs,
        )
    } else {
        let pcol = spec_overlap(ball2.body, player1.body);
        let ball3 = if pcol {
            Ball {
                body: ball2.body,
                vel: spec_paddle_vel(ball2, player1, sys.speed as int),
                fired: ball2.fired,
            }
        } else {
            ball2
        };
        let scan = spec_brick_scan(ball3, s.bricks);
        let bricks1 = spec_alive(scan.1);
        let wall = spec_wall_step(scan.0, s.arena_size);
        let fc = spec_floor_ceiling(wall.0, s.arena_size);
        let bounced = pcol || scan.2 || wall.1 || fc.1;
        let dropped = fc.2;
        let msgs = fire_msgs + opt_msg(dropped, Message::Drop) + opt_msg(
            bricks1.len() == 0,
            Message::Win,
        ) + opt_msg(bounced && !dropped, Message::Bounce);
        (
            StateModel {
                bricks: bricks1,
                player: player1,
                ball: fc.0,
                arena_size: s.arena_size,
                brick_size: s.brick_size,
                game_just_started: false,
            },
            msgs,
        )
    }
}

/// A truncating quotient is bounded when the dividend is within `bound`
/// multiples of the divisor.
proof fn lemma_div_trunc_bound(a: int, d: int, bound: int)
    requires
        d >= 1,
        0 <= bound,
        -(bound * d) <= a <= bound * d,
    ensures
        -bound <= spec_div_trunc(a, d) <= bound,
{
    if a >= 0 {
        assert(0 <= a / d <= bound) by (nonlinear_arith)
            requires
                d >= 1,
                0 <= a <= bound * d,
                0 <= bound,
        ;
    } else {
        assert(0 <= (-a) / d <= bound) by (nonlinear_arith)
            requires
                d >= 1,
                0 <= -a <= bound * d,
                0 <= bound,
        ;
    }
}

/// What one brick pass does and does not do: bodies and their order are
/// untouched, a brick loses exactly one hit point or none, the ball keeps
/// its size, horizontal position, horizontal velocity and launch flag, its
/// vertical velocity at most flips, and its vertical position either stays
/// or is snapped next to a brick; a pass that hits nothing changes nothing.
pub proof fn lemma_brick_scan_props(ball: Ball, bricks: Seq<Brick>, arena: Vec2)
    requires
        size_ok(arena),
        size_ok(ball.body.size),
        -MAX_DIM <= ball.vel.x <= MAX_DIM,
        -MAX_DIM <= ball.vel.y <= MAX_DIM,
        forall|j: int| 0 <= j < bricks.len() ==> brick_ok(arena, #[trigger] bricks[j]),
    ensures
        ({
            let scan = spec_brick_scan(ball, bricks);
            &&& scan.1.len() == bricks.len()
            &&& forall|j: int|
                0 <= j < bricks.len() ==> (#[trigger] scan.1[j]).body == bricks[j].body
            &&& forall|j: int|
                0 <= j < bricks.len() ==> (#[trigger] scan.1[j]).status == bricks[j].status
                    || scan.1[j].status + 1 == bricks[j].status
            &&& scan.0.body.size == ball.body.size
            &&& scan.0.body.pos.x == ball.body.pos.x
            &&& scan.0.vel.x == ball.vel.x
            &&& (scan.0.vel.y == ball.vel.y || scan.0.vel.y == -ball.vel.y)
            &&& scan.0.fired == ball.fired
            &&& (scan.0.body.pos.y == ball.body.pos.y || -2 * MAX_DIM <= scan.0.body.pos.y
                <= arena.y)
            &&& (!scan.2 ==> scan.1 == bricks && scan.0 == ball)
        }),
    decreases bricks.len(),
{
    let scan = spec_brick_scan(ball, bricks);
    if bricks.len() == 0 {
    } else {
        let b0 = bricks[0];
        let hit = spec_overlap(ball.body, b0.body);
        let ball1 = if hit {
            Ball {
                body: Body {
                    pos: Vec2 {
                        x: ball.body.pos.x,
                        y: (b0.body.pos.y - b0.body.size.y - ball.body.size.y) as i64,
                    },
                    size: ball.body.size,
                },
                vel: Vec2 { x: ball.vel.x, y: (-ball.vel.y) as i64 },
                fired: ball.fired,
            }
        } else {
            ball
        };
        let rest_bricks = bricks.drop_first();
        assert(forall|j: int|
            0 <= j < rest_bricks.len() ==> #[trigger] rest_bricks[j] == bricks[j + 1]);
        lemma_brick_scan_props(ball1, rest_bricks, arena);
        let rest = spec_brick_scan(ball1, rest_bricks);
        assert(scan.1 == seq![if hit {
            Brick { body: b0.body, status: (b0.status - 1) as u32 }
        } else {
            b0
        }] + rest.1);
        assert(forall|j: int| 1 <= j < scan.1.len() ==> #[trigger] scan.1[j] == rest.1[j - 1]);
        if !scan.2 {
            assert(scan.1 =~= bricks);
        }
    }
}

/// Every survivor of [`spec_alive`] is an intact brick inside the arena,
/// provided the pass left only well-placed bodies behind.
pub proof fn lemma_alive_ok(bricks: Seq<Brick>, arena: Vec2)
    requires
        forall|j: int| 0 <= j < bricks.len() ==> brick_body_ok(arena, #[trigger] bricks[j]),
    ensures
        forall|i: int|
            0 <= i < spec_alive(bricks).len() ==> brick_ok(arena, #[trigger] spec_alive(bricks)[i]),
        spec_alive(bricks).len() <= bricks.len(),
    decreases bricks.len(),
{
    reveal(Seq::filter);
    let pred = |b: Brick| b.status > 0;
    if bricks.len() == 0 {
    } else {
        let prefix = bricks.drop_last();
        assert(forall|j: int| 0 <= j < prefix.len() ==> #[trigger] prefix[j] == bricks[j]);
        lemma_alive_ok(prefix, arena);
        let sub = spec_alive(prefix);
        if pred(bricks.last()) {
            assert(spec_alive(bricks) == sub.push(bricks.last()));
            assert(brick_ok(arena, bricks.last()));
            assert(forall|i: int|
                0 <= i < sub.len() ==> #[trigger] spec_alive(bricks)[i] == sub[i]);
        } else {
            assert(spec_alive(bricks) == sub);
        }
    }
}

/// The brick pass: the exec mirror of [`spec_brick_scan`].
fn brick_scan(ball: &mut Ball, bricks: &mut Vec<Brick>, arena: Vec2) -> (hit: bool)
    requires
        size_ok(arena),
        size_ok(old(ball).body.size),
        -6 * MAX_DIM <= old(ball).body.pos.x <= 6 * MAX_DIM,
        -6 * MAX_DIM <= old(ball).body.pos.y <= 6 * MAX_DIM,
        -MAX_DIM <= old(ball).vel.x <= MAX_DIM,
        -MAX_DIM <= old(ball).vel.y <= MAX_DIM,
        forall|j: int|
            0 <= j < old(bricks)@.len() ==> brick_ok(arena, #[trigger] old(bricks)@[j]),
    ensures
        *final(ball) == spec_brick_scan(*old(ball), old(bricks)@).0,
        final(bricks)@ == spec_brick_scan(*old(ball), old(bricks)@).1,
        hit == spec_brick_scan(*old(ball), old(bricks)@).2,
{
    let ghost ball0 = *ball;
    let ghost bricks0 = bricks@;
    let mut hit = false;
    let mut i: usize = 0;
    proof {
        assert(bricks@.skip(0) =~= bricks@);
        assert(bricks@.take(0) + spec_brick_scan(*ball, bricks@.skip(0)).1 =~= spec_brick_scan(
            *ball,
            bricks@,
        ).1);
    }
    while i < bricks.len()
        invariant
            0 <= i <= bricks@.len(),
            bricks@.len() == bricks0.len(),
            size_ok(arena),
            size_ok(ball.body.size),
            ball.body.size == ball0.body.size,
            -6 * MAX_DIM <= ball.body.pos.x <= 6 * MAX_DIM,
            -6 * MAX_DIM <= ball.body.pos.y <= 6 * MAX_DIM,
            -MAX_DIM <= ball.vel.x <= MAX_DIM,
            -MAX_DIM <= ball.vel.y <= MAX_DIM,
            forall|j: int| i <= j < bricks@.len() ==> bricks@[j] == bricks0[j],
            forall|j: int| 0 <= j < bricks0.len() ==> brick_ok(arena, #[trigger] bricks0[j]),
            spec_brick_scan(ball0, bricks0).0 == spec_brick_scan(*ball, bricks@.skip(i as int)).0,
            spec_brick_scan(ball0, bricks0).1 == bricks@.take(i as int) + spec_brick_scan(
                *ball,
                bricks@.skip(i as int),
            ).1,
            spec_brick_scan(ball0, bricks0).2 == (hit || spec_brick_scan(
                *ball,
                bricks@.skip(i as int),
            ).2),
        decreases bricks@.len() - i,
    {
        let ghost pre_ball = *ball;
        let ghost pre_bricks = bricks@;
        let b = bricks[i];
        proof {
            assert(b == bricks0[i as int]);
            assert(brick_ok(arena, bricks0[i as int]));
            assert(pre_bricks.skip(i as int)[0] == b);
        }
        let overlaps = collide(&ball.body, &b.body);
        if overlaps {
            ball.body.pos = Vec2 { x: ball.body.pos.x, y: b.body.pos.y - b.body.size.y
                - ball.body.size.y };
            ball.vel = Vec2 { x: ball.vel.x, y: -ball.vel.y };
            let updated = Brick { body: b.body, status: b.status - 1 };
            bricks[i] = updated;
            hit = true;
        }
        i = i + 1;
        proof {
            assert(bricks@.skip(i as int) =~= pre_bricks.skip(i - 1).drop_first());
            assert(bricks@.take(i as int) =~= pre_bricks.take(i - 1).push(bricks@[i - 1]));
            assert(spec_brick_scan(ball0, bricks0).1 =~= bricks@.take(i as int)
                + spec_brick_scan(*ball, bricks@.skip(i as int)).1);
        }
    }
    proof {
        assert(bricks@.skip(i as int) =~= Seq::<Brick>::empty());
        assert(bricks@.take(i as int) =~= bricks@);
        assert(spec_brick_scan(ball0, bricks0).1 =~= bricks@);
    }
    hit
}

impl MovementSystem {
    /// One tick: steer and clamp the paddle, launch or rest the ball, move
    /// it, resolve collisions in order (paddle, bricks, walls, floor,
    /// ceiling), drop spent bricks, and append this tick's messages.  The
    /// final state and messages are exactly [`spec_tick`] of the old state.
    #[verifier::rlimit(100)]
    pub fn update(&self, state: &mut State, dt_inv: i64, messages: &mut Vec<Message>)
        requires
            self.wf(),
            old(state).wf(),
            1 <= dt_inv,
        ensures
            final(state).model() == spec_tick(*self, old(state).model(), dt_inv as int).0,
            final(messages)@ == old(messages)@ + spec_tick(
                *self,
                old(state).model(),
                dt_inv as int,
            ).1,
            final(state).wf(),
            !final(state).game_just_started,
            0 <= final(state).player.body.pos.x,
            final(state).player.body.pos.x <= final(state).arena_size.x
                - final(state).player.body.size.x,
    {
        let ghost s0 = old(state).model();
        let ghost t = spec_tick(*self, s0, dt_inv as int);
        let arena = state.arena_size;

        // Paddle: velocity from direction, integrate, clamp.
        proof {
            assert(-(self.speed * FP_SCALE) <= self.dir * self.speed <= self.speed * FP_SCALE)
                by (nonlinear_arith)
                requires
                    -FP_SCALE <= self.dir <= FP_SCALE,
                    0 <= self.speed,
            ;
        }
        let vprod: i64 = self.dir * self.speed;
        let vx: i64 = div_trunc(vprod, FP_SCALE);
        proof {
            lemma_div_trunc_bound(vprod as int, FP_SCALE as int, self.speed as int);
        }
        let dx: i64 = div_trunc(vx, dt_inv);
        let dy: i64 = div_trunc(state.player.vel.y, dt_inv);
        state.player.vel = Vec2 { x: vx, y: state.player.vel.y };
        let px0: i64 = state.player.body.pos.x + dx;
        let pw: i64 = state.player.body.size.x;
        let px: i64 = if px0 < 0 {
            0
        } else if px0 > arena.x - pw {
            arena.x - pw
        } else {
            px0
        };
        state.player.body.pos = Vec2 { x: px, y: state.player.body.pos.y + dy };
        proof {
            assert(state.player == spec_player_step(
                s0.player,
                s0.arena_size,
                self.dir as int,
                self.speed as int,
                dt_inv as int,
            ));
        }

        // Launch on a fire edge, or keep the resting ball slaved to the
        // paddle.
        let launch = self.fire && !state.ball.fired && !state.game_just_started;
        if launch {
            let target = div_trunc(self.speed, 2);
            let v = scaled_normalize(Vec2 { x: self.dir, y: FP_SCALE }, target);
            state.ball.vel = v;
            state.ball.fired = true;
            messages.push(Message::Fire);
        } else if !state.ball.fired {
            let sx = state.player.body.pos.x + div_trunc(
                state.player.body.size.x - state.ball.body.size.x,
                2,
            );
            state.ball.body.pos = Vec2 {
                x: sx,
                y: state.player.body.pos.y + FP_SCALE + state.player.body.size.y,
            };
        }
        let ghost ball1 = state.ball;

        // Integrate the ball.
        let bdx: i64 = div_trunc(state.ball.vel.x, dt_inv);
        let bdy: i64 = div_trunc(state.ball.vel.y, dt_inv);
        state.ball.body.pos = Vec2 {
            x: state.ball.body.pos.x + bdx,
            y: state.ball.body.pos.y + bdy,
        };
        let ghost ball2 = state.ball;
        proof {
            assert(ball2 == spec_integrate(ball1, dt_inv as int));
            assert(spec_div_trunc(0, dt_inv as int) == 0) by (nonlinear_arith)
                requires
                    dt_inv >= 1,
            ;
            assert(!ball2.fired ==> ball2.vel == (Vec2 { x: 0, y: 0 }) && ball2.body.pos
                == ball1.body.pos);
            assert(!ball2.fired ==> -4 * MAX_DIM <= ball2.body.pos.x <= 4 * MAX_DIM && -4
                * MAX_DIM <= ball2.body.pos.y <= 4 * MAX_DIM);
            assert(ball2.fired ==> -4 * MAX_DIM <= ball2.body.pos.y);
            assert(-MAX_DIM <= ball2.vel.x <= MAX_DIM && -MAX_DIM <= ball2.vel.y <= MAX_DIM);
        }

        // Collision resolution, only for a launched ball.
        if state.ball.fired {
            let mut bounced = false;
            if collide(&state.ball.body, &state.player.body) {
                let denom = state.player.body.size.x - state.ball.body.size.x;
                let rel = state.ball.body.pos.x - state.player.body.pos.x;
                let mut raw: i64 = 0;
                if denom > 0 {
                    proof {
                        assert(-(0x10_0000_0000_0000i64 as int) <= rel * 2 * FP_SCALE
                            <= 0x10_0000_0000_0000i64 as int) by (nonlinear_arith)
                            requires
                                -(0x8000_0000i64 as int) <= rel <= 0x8000_0000i64 as int,
                                FP_SCALE == 3600i64,
                        ;
                    }
                    raw = div_trunc(rel * 2 * FP_SCALE, denom) - FP_SCALE;
                }
                let vxb: i64 = if raw < -FP_SCALE {
                    -FP_SCALE
                } else if raw > FP_SCALE {
                    FP_SCALE
                } else {
                    raw
                };
                let target = div_trunc(self.speed, 2);
                state.ball.vel = scaled_normalize(Vec2 { x: vxb, y: 2 * FP_SCALE }, target);
                bounced = true;
                proof {
                    assert(state.ball.vel == spec_paddle_vel(ball2, state.player, self.speed as int));
                }
            }

            let ghost ball3 = state.ball;
            proof {
                assert(-MAX_DIM <= ball3.vel.x <= MAX_DIM && -MAX_DIM <= ball3.vel.y <= MAX_DIM);
                assert(forall|j: int|
                    0 <= j < s0.bricks.len() ==> brick_ok(s0.arena_size, #[trigger] s0.bricks[j]));
            }
            let hit = brick_scan(&mut state.ball, &mut state.bricks, arena);
            if hit {
                bounced = true;
            }
            proof {
                lemma_brick_scan_props(ball3, s0.bricks, arena);
                lemma_alive_ok(spec_brick_scan(ball3, s0.bricks).1, arena);
            }
            retain_alive(&mut state.bricks);

            // Side walls.
            if state.ball.body.pos.x < 0 {
                state.ball.body.pos = Vec2 { x: 0, y: state.ball.body.pos.y };
                state.ball.vel = Vec2 { x: -state.ball.vel.x, y: state.ball.vel.y };
                bounced = true;
            } else if state.ball.body.pos.x + state.ball.body.size.x > arena.x {
                state.ball.body.pos = Vec2 {
                    x: arena.x - state.ball.body.size.x,
                    y: state.ball.body.pos.y,
                };
                state.ball.vel = Vec2 { x: -state.ball.vel.x, y: state.ball.vel.y };
                bounced = true;
            }
            // Floor: the ball is dropped, and the drop mutes this tick's
            // bounce.  Ceiling: clamp and reflect.
            if state.ball.body.pos.y < 0 {
                messages.push(Message::Drop);
                bounced = false;
                state.ball.fired = false;
                state.ball.vel = Vec2 { x: 0, y: 0 };
            } else if state.ball.body.pos.y + state.ball.body.size.y > arena.y {
                state.ball.body.pos = Vec2 {
                    x: state.ball.body.pos.x,
                    y: arena.y - state.ball.body.size.y,
                };
                state.ball.vel = Vec2 { x: state.ball.vel.x, y: -state.ball.vel.y };
                bounced = true;
            }

            if state.bricks.len() == 0 {
                messages.push(Message::Win);
            }
            if bounced {
                messages.push(Message::Bounce);
            }
        }

        state.game_just_started = false;

        proof {
            let m = state.model();
            assert(size_ok(m.arena_size));
            assert(size_ok(m.brick_size));
            assert(size_ok(m.player.body.size));
            assert(size_ok(m.ball.body.size));
            assert(m.player.body.size.x <= m.arena_size.x);
            assert(m.ball.body.size.x <= m.arena_size.x);
            assert(m.ball.body.size.y <= m.arena_size.y);
            assert(m.player.body.pos.y == 0);
            assert(m.player.vel.y == 0);
            assert(0 <= m.player.body.pos.x <= m.arena_size.x - m.player.body.size.x);
            assert(-MAX_DIM <= m.player.vel.x <= MAX_DIM);
            assert(-MAX_DIM <= m.ball.vel.x <= MAX_DIM);
            assert(-MAX_DIM <= m.ball.vel.y <= MAX_DIM);
            assert(m.ball.fired ==> 0 <= m.ball.body.pos.x <= m.arena_size.x - m.ball.body.size.x
                && 0 <= m.ball.body.pos.y <= m.arena_size.y - m.ball.body.size.y);
            assert(!m.ball.fired ==> m.ball.vel == (Vec2 { x: 0, y: 0 }) && -4 * MAX_DIM
                <= m.ball.body.pos.x <= 4 * MAX_DIM && -4 * MAX_DIM <= m.ball.body.pos.y <= 4
                * MAX_DIM);
            assert(forall|i: int|
                0 <= i < m.bricks.len() ==> brick_ok(m.arena_size, #[trigger] m.bricks[i]));
            assert(m.wf());
            assert(state.model() =~= t.0);
            assert(messages@ =~= old(messages)@ + t.1);
        }
    }
}

/// Brick destruction, one brick at a time: during a pass, brick `j` loses
/// exactly one hit point if the ball — as it stands when the pass reaches
/// `j` — overlaps it, and is untouched otherwise.  Hit points only ever
/// decrease, so a brick that starts with [`crate::state::BRICK_HP`] hit
/// points is gone after exactly that many overlapping ticks, the moment
/// [`spec_alive`] filters its empty status out.
pub proof fn lemma_brick_destruction(ball: Ball, bricks: Seq<Brick>, arena: Vec2, j: int)
    requires
        size_ok(arena),
        size_ok(ball.body.size),
        -MAX_DIM <= ball.vel.x <= MAX_DIM,
        -MAX_DIM <= ball.vel.y <= MAX_DIM,
        forall|k: int| 0 <= k < bricks.len() ==> brick_ok(arena, #[trigger] bricks[k]),
        0 <= j < bricks.len(),
    ensures
        ({
            let scan = spec_brick_scan(ball, bricks);
            let before = spec_brick_scan(ball, bricks.take(j)).0;
            &&& (spec_overlap(before.body, bricks[j].body) ==> scan.1[j].status + 1
                == bricks[j].status)
            &&& (!spec_overlap(before.body, bricks[j].body) ==> scan.1[j] == bricks[j])
        }),
    decreases bricks.len(),
{
    let scan = spec_brick_scan(ball, bricks);
    let b0 = bricks[0];
    let hit = spec_overlap(ball.body, b0.body);
    let ball1 = if hit {
        Ball {
            body: Body {
                pos: Vec2 {
                    x: ball.body.pos.x,
                    y: (b0.body.pos.y - b0.body.size.y - ball.body.size.y) as i64,
                },
                size: ball.body.size,
            },
            vel: Vec2 { x: ball.vel.x, y: (-ball.vel.y) as i64 },
            fired: ball.fired,
        }
    } else {
        ball
    };
    if j == 0 {
        assert(bricks.take(0) =~= Seq::<Brick>::empty());
        assert(spec_brick_scan(ball, bricks.take(0)).0 == ball);
        let rest = spec_brick_scan(ball1, bricks.drop_first());
        assert(scan.1[0] == if hit {
            Brick { body: b0.body, status: (b0.status - 1) as u32 }
        } else {
            b0
        });
    } else {
        let rest_bricks = bricks.drop_first();
        assert(forall|k: int|
            0 <= k < rest_bricks.len() ==> #[trigger] rest_bricks[k] == bricks[k + 1]);
        lemma_brick_destruction(ball1, rest_bricks, arena, j - 1);
        lemma_brick_scan_props(ball, bricks, arena);
        lemma_brick_scan_props(ball1, rest_bricks, arena);
        let rest = spec_brick_scan(ball1, rest_bricks);
        assert(scan.1 == seq![if hit {
            Brick { body: b0.body, status: (b0.status - 1) as u32 }
        } else {
            b0
        }] + rest.1);
        assert(scan.1[j] == rest.1[j - 1]);
        // The ball that reaches `j` in the full pass is the ball that
        // reaches `j - 1` in the pass over the tail.
        let prefix = bricks.take(j);
        assert(prefix[0] == b0);
        assert(prefix.drop_first() =~= rest_bricks.take(j - 1));
        assert(spec_brick_scan(ball, prefix).0 == spec_brick_scan(
            ball1,
            rest_bricks.take(j - 1),
        ).0);
    }
}

/// How often `m` occurs in `msgs`.
pub open spec fn msg_count(msgs: Seq<Message>, m: Message) -> int {
    msgs.filter(|x: Message| x == m).len() as int
}

/// A sequence sum contains a message exactly when one of its parts does.
proof fn lemma_contains_add(a: Seq<Message>, b: Seq<Message>, m: Message)
    ensures
        (a + b).contains(m) <==> a.contains(m) || b.contains(m),
{
    if a.contains(m) {
        let i = choose|i: int| 0 <= i < a.len() && a[i] == m;
        assert((a + b)[i] == m);
    }
    if b.contains(m) {
        let i = choose|i: int| 0 <= i < b.len() && b[i] == m;
        assert((a + b)[a.len() + i] == m);
    }
    if (a + b).contains(m) {
        let i = choose|i: int| 0 <= i < (a + b).len() && (a + b)[i] == m;
        if i < a.len() {
            assert(a[i] == m);
        } else {
            assert(b[i - a.len()] == m);
        }
    }
}

/// Counting distributes over a sequence sum.
proof fn lemma_count_add(a: Seq<Message>, b: Seq<Message>, m: Message)
    ensures
        msg_count(a + b, m) == msg_count(a, m) + msg_count(b, m),
{
    let pred = |x: Message| x == m;
    Seq::filter_distributes_over_add(a, b, pred);
}

/// What an optional one-message sequence contains and counts.
proof fn lemma_opt_msg_facts(cond: bool, mm: Message, m: Message)
    ensures
        opt_msg(cond, mm).contains(m) <==> (cond && mm == m),
        msg_count(opt_msg(cond, mm), m) == if cond && mm == m {
            1int
        } else {
            0int
        },
{
    reveal_with_fuel(Seq::filter, 2);
    let pred = |x: Message| x == m;
    if cond {
        let s = opt_msg(cond, mm);
        assert(s.len() == 1 && s[0] == mm);
        assert(s.drop_last() =~= Seq::<Message>::empty());
        assert(s.filter(pred) == if pred(mm) {
            Seq::<Message>::empty().filter(pred).push(mm)
        } else {
            Seq::<Message>::empty().filter(pred)
        });
        if mm == m {
            assert(s.contains(m));
        }
    } else {
        assert(opt_msg(cond, mm) =~= Seq::<Message>::empty());
    }
}

/// One tick's messages taken apart: what each message means.  `Win` is
/// emitted if and only if the ball was in flight and the tick left no brick
/// standing, and then exactly once (`P4`); `Drop` means the ball fell below
/// the floor, leaving it unfired with no velocity; `Fire` means this tick
/// launched; `Bounce` is coalesced — at most one per tick, and never
/// together with `Drop`.
pub proof fn lemma_tick_messages(sys: MovementSystem, s: StateModel, dt_inv: int)
    requires
        sys.wf(),
        s.wf(),
        dt_inv >= 1,
    ensures
        ({
            let t = spec_tick(sys, s, dt_inv);
            let in_flight = s.ball.fired || spec_launches(sys, s);
            &&& (t.1.contains(Message::Win) <==> (in_flight && t.0.bricks.len() == 0))
            &&& msg_count(t.1, Message::Win) == if in_flight && t.0.bricks.len() == 0 {
                1int
            } else {
                0int
            }
            &&& (t.1.contains(Message::Drop) ==> !t.0.ball.fired && t.0.ball.vel == (Vec2 {
                x: 0,
                y: 0,
            }))
            &&& (t.1.contains(Message::Fire) <==> spec_launches(sys, s))
            &&& msg_count(t.1, Message::Bounce) <= 1
            &&& (t.1.contains(Message::Drop) ==> !t.1.contains(Message::Bounce))
        }),
{
    let t = spec_tick(sys, s, dt_inv);
    let player1 = spec_player_step(s.player, s.arena_size, sys.dir as int, sys.speed as int, dt_inv);
    let launch = spec_launches(sys, s);
    let fire_msgs = opt_msg(launch, Message::Fire);
    let ball1 = if launch {
        Ball {
            body: s.ball.body,
            vel: spec_launch_vel(sys.dir as int, sys.speed as int),
            fired: true,
        }
    } else if !s.ball.fired {
        Ball {
            body: Body { pos: spec_slaved_pos(player1, s.ball.body.size), size: s.ball.body.size },
            vel: s.ball.vel,
            fired: false,
        }
    } else {
        s.ball
    };
    let ball2 = spec_integrate(ball1, dt_inv);
    lemma_opt_msg_facts(launch, Message::Fire, Message::Win);
    lemma_opt_msg_facts(launch, Message::Fire, Message::Drop);
    lemma_opt_msg_facts(launch, Message::Fire, Message::Fire);
    lemma_opt_msg_facts(launch, Message::Fire, Message::Bounce);
    if !ball2.fired {
        assert(t.1 == fire_msgs);
    } else {
        let pcol = spec_overlap(ball2.body, player1.body);
        let ball3 = if pcol {
            Ball {
                body: ball2.body,
                vel: spec_paddle_vel(ball2, player1, sys.speed as int),
                fired: ball2.fired,
            }
        } else {
            ball2
        };
        let scan = spec_brick_scan(ball3, s.bricks);
        let bricks1 = spec_alive(scan.1);
        let wall = spec_wall_step(scan.0, s.arena_size);
        let fc = spec_floor_ceiling(wall.0, s.arena_size);
        let bounced = pcol || scan.2 || wall.1 || fc.1;
        let dropped = fc.2;
        let dm = opt_msg(dropped, Message::Drop);
        let wm = opt_msg(bricks1.len() == 0, Message::Win);
        let bm = opt_msg(bounced && !dropped, Message::Bounce);
        assert(t.1 == fire_msgs + dm + wm + bm);
        lemma_opt_msg_facts(dropped, Message::Drop, Message::Win);
        lemma_opt_msg_facts(dropped, Message::Drop, Message::Drop);
        lemma_opt_msg_facts(dropped, Message::Drop, Message::Fire);
        lemma_opt_msg_facts(dropped, Message::Drop, Message::Bounce);
        lemma_opt_msg_facts(bricks1.len() == 0, Message::Win, Message::Win);
        lemma_opt_msg_facts(bricks1.len() == 0, Message::Win, Message::Drop);
        lemma_opt_msg_facts(bricks1.len() == 0, Message::Win, Message::Fire);
        lemma_opt_msg_facts(bricks1.len() == 0, Message::Win, Message::Bounce);
        lemma_opt_msg_facts(bounced && !dropped, Message::Bounce, Message::Win);
        lemma_opt_msg_facts(bounced && !dropped, Message::Bounce, Message::Drop);
        lemma_opt_msg_facts(bounced && !dropped, Message::Bounce, Message::Fire);
        lemma_opt_msg_facts(bounced && !dropped, Message::Bounce, Message::Bounce);
        lemma_contains_add(fire_msgs, dm, Message::Win);
        lemma_contains_add(fire_msgs + dm, wm, Message::Win);
        lemma_contains_add(fire_msgs + dm + wm, bm, Message::Win);
        lemma_contains_add(fire_msgs, dm, Message::Drop);
        lemma_contains_add(fire_msgs + dm, wm, Message::Drop);
        lemma_contains_add(fire_msgs + dm + wm, bm, Message::Drop);
        lemma_contains_add(fire_msgs, dm, Message::Fire);
        lemma_contains_add(fire_msgs + dm, wm, Message::Fire);
        lemma_contains_add(fire_msgs + dm + wm, bm, Message::Fire);
        lemma_contains_add(fire_msgs, dm, Message::Bounce);
        lemma_contains_add(fire_msgs + dm, wm, Message::Bounce);
        lemma_contains_add(fire_msgs + dm + wm, bm, Message::Bounce);
        lemma_count_add(fire_msgs, dm, Message::Win);
        lemma_count_add(fire_msgs + dm, wm, Message::Win);
        lemma_count_add(fire_msgs + dm + wm, bm, Message::Win);
        lemma_count_add(fire_msgs, dm, Message::Bounce);
        lemma_count_add(fire_msgs + dm, wm, Message::Bounce);
        lemma_count_add(fire_msgs + dm + wm, bm, Message::Bounce);
    }
}

/// A resting ball follows the paddle: on a tick that does not launch, the
/// ball ends exactly at the slaved position above the moved paddle, still
/// unfired and without velocity — wherever it was before, in particular
/// right after a drop.
pub proof fn lemma_rest_follows_paddle(sys: MovementSystem, s: StateModel, dt_inv: int)
    requires
        sys.wf(),
        s.wf(),
        dt_inv >= 1,
        !s.ball.fired,
        !(sys.fire && !s.game_just_started),
    ensures
        ({
            let t = spec_tick(sys, s, dt_inv);
            &&& !t.0.ball.fired
            &&& t.0.ball.body.pos == spec_slaved_pos(t.0.player, s.ball.body.size)
            &&& t.0.ball.vel == (Vec2 { x: 0, y: 0 })
        }),
{
    let t = spec_tick(sys, s, dt_inv);
    assert(spec_div_trunc(0, dt_inv) == 0) by (nonlinear_arith)
        requires
            dt_inv >= 1,
    ;
    let player1 = spec_player_step(s.player, s.arena_size, sys.dir as int, sys.speed as int, dt_inv);
    assert(0 <= player1.body.pos.x <= s.arena_size.x - s.player.body.size.x);
    assert(t.0.ball.body.pos == spec_slaved_pos(player1, s.ball.body.size));
}

/// Keep only the bricks with hit points left: the exec mirror of
/// [`spec_alive`].
fn retain_alive(bricks: &mut Vec<Brick>)
    ensures
        final(bricks)@ == spec_alive(old(bricks)@),
{
    let ghost bricks0 = bricks@;
    let mut out: Vec<Brick> = Vec::new();
    let mut i: usize = 0;
    while i < bricks.len()
        invariant
            0 <= i <= bricks@.len(),
            bricks@ == bricks0,
            out@ == spec_alive(bricks0.take(i as int)),
        decreases bricks@.len() - i,
    {
        let b = bricks[i];
        if b.status > 0 {
            out.push(b);
        }
        i = i + 1;
        proof {
            let pred = |x: Brick| x.status > 0;
            assert(bricks0.take(i as int) =~= bricks0.take(i - 1).push(b));
            assert(bricks0.take(i as int).drop_last() =~= bricks0.take(i - 1));
            assert(bricks0.take(i as int).last() == b);
            reveal_with_fuel(Seq::filter, 2);
            assert(bricks0.take(i as int).filter(pred) == if pred(b) {
                bricks0.take(i - 1).filter(pred).push(b)
            } else {
                bricks0.take(i - 1).filter(pred)
            });
        }
    }
    proof {
        assert(bricks0.take(i as int) =~= bricks0);
    }
    *bricks = out;
}

} // verus!
