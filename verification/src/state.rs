//! The entity data model: arena, paddle, ball and bricks, with the
//! well-formedness invariant every tick preserves, and the setup routine that
//! lays out the brick grid.

use vstd::prelude::*;

use crate::math::{div_trunc, spec_div_trunc, Vec2, FP_SCALE, MAX_DIM};

verus! {

/// Hit points a brick starts with.
pub const BRICK_HP: u32 = 4;

/// An axis-aligned rectangle: bottom-left corner and size, in sub-units.
#[derive(Clone, Copy, Debug, PartialEq, Eq, Structural)]
pub struct Body {
    pub pos: Vec2,
    pub size: Vec2,
}

/// A brick: a rectangle with remaining hit points.
#[derive(Clone, Copy, Debug, PartialEq, Eq, Structural)]
pub struct Brick {
    pub body: Body,
    pub status: u32,
}

/// The paddle: a rectangle with a velocity.
#[derive(Clone, Copy, Debug, PartialEq, Eq, Structural)]
pub struct Player {
    pub body: Body,
    pub vel: Vec2,
}

/// The ball: a rectangle with a velocity, launched or resting on the paddle.
#[derive(Clone, Copy, Debug, PartialEq, Eq, Structural)]
pub struct Ball {
    pub body: Body,
    pub vel: Vec2,
    pub fired: bool,
}

/// The whole playfield.
pub struct State {
    pub bricks: Vec<Brick>,
    pub player: Player,
    pub ball: Ball,
    pub arena_size: Vec2,
    pub brick_size: Vec2,
    pub game_just_started: bool,
}

/// The mathematical image of a `State`: the brick collection as a sequence.
#[verifier::ext_equal]
pub struct StateModel {
    pub bricks: Seq<Brick>,
    pub player: Player,
    pub ball: Ball,
    pub arena_size: Vec2,
    pub brick_size: Vec2,
    pub game_just_started: bool,
}

/// Positive size, bounded so that all tick arithmetic stays far from i64
/// overflow.
pub open spec fn size_ok(s: Vec2) -> bool {
    0 < s.x <= MAX_DIM && 0 < s.y <= MAX_DIM
}

/// A brick's rectangle is well-sized and lies inside the arena.
pub open spec fn brick_body_ok(arena: Vec2, b: Brick) -> bool {
    &&& size_ok(b.body.size)
    &&& 0 <= b.body.pos.x
    &&& b.body.pos.x + b.body.size.x <= arena.x
    &&& 0 <= b.body.pos.y
    &&& b.body.pos.y + b.body.size.y <= arena.y
}

/// A brick is intact (positive hit points) and lies inside the arena.
pub open spec fn brick_ok(arena: Vec2, b: Brick) -> bool {
    &&& 1 <= b.status
    &&& brick_body_ok(arena, b)
}

/// The resting position of the ball: horizontally centred on the paddle, one
/// world unit above its top edge.
pub open spec fn spec_slaved_pos(player: Player, ball_size: Vec2) -> Vec2 {
    Vec2 {
        x: (player.body.pos.x + spec_div_trunc(
            player.body.size.x - ball_size.x as int,
            2,
        )) as i64,
        y: (player.body.pos.y + FP_SCALE + player.body.size.y) as i64,
    }
}

impl StateModel {
    /// The invariant of the playfield.  Geometry is positive and bounded, the
    /// paddle sits on the floor inside the arena, a launched ball is inside
    /// the arena, a resting ball has no velocity, and every brick is intact
    /// and inside the arena.
    pub open spec fn wf(self) -> bool {
        &&& size_ok(self.arena_size)
        &&& size_ok(self.brick_size)
        &&& size_ok(self.player.body.size)
        &&& size_ok(self.ball.body.size)
        &&& self.player.body.size.x <= self.arena_size.x
        &&& self.ball.body.size.x <= self.arena_size.x
        &&& self.ball.body.size.y <= self.arena_size.y
        &&& self.player.body.pos.y == 0
        &&& self.player.vel.y == 0
        &&& 0 <= self.player.body.pos.x <= self.arena_size.x - self.player.body.size.x
        &&& -MAX_DIM <= self.player.vel.x <= MAX_DIM
        &&& -MAX_DIM <= self.ball.vel.x <= MAX_DIM
        &&& -MAX_DIM <= self.ball.vel.y <= MAX_DIM
        &&& self.ball.fired ==> {
            &&& 0 <= self.ball.body.pos.x <= self.arena_size.x - self.ball.body.size.x
            &&& 0 <= self.ball.body.pos.y <= self.arena_size.y - self.ball.body.size.y
        }
        &&& !self.ball.fired ==> {
            &&& self.ball.vel == (Vec2 { x: 0, y: 0 })
            &&& -4 * MAX_DIM <= self.ball.body.pos.x <= 4 * MAX_DIM
            &&& -4 * MAX_DIM <= self.ball.body.pos.y <= 4 * MAX_DIM
        }
        &&& forall|i: int|
            0 <= i < self.bricks.len() ==> brick_ok(self.arena_size, #[trigger] self.bricks[i])
    }
}

/// Horizontal start of the centred brick grid.
pub open spec fn spec_grid_start_x(arena: Vec2, bsize: Vec2, num_x: int) -> int {
    (arena.x - bsize.x * num_x) / 2
}

/// Brick `k` of the grid, counting left to right inside each row, rows from
/// the top of the arena downward.
pub open spec fn spec_grid_brick(arena: Vec2, bsize: Vec2, num_x: int, k: int) -> Brick {
    let col = k % num_x;
    let row = k / num_x;
    Brick {
        body: Body {
            pos: Vec2 {
                x: (spec_grid_start_x(arena, bsize, num_x) + col * bsize.x) as i64,
                y: (arena.y - row * bsize.y - bsize.y) as i64,
            },
            size: bsize,
        },
        status: BRICK_HP,
    }
}

/// The full grid of `num_x * num_y` bricks.
pub open spec fn spec_grid(arena: Vec2, bsize: Vec2, num_x: int, num_y: int) -> Seq<Brick> {
    Seq::new((num_x * num_y) as nat, |k: int| spec_grid_brick(arena, bsize, num_x, k))
}

impl State {
    /// The mathematical image of this state.
    pub open spec fn model(self) -> StateModel {
        StateModel {
            bricks: self.bricks@,
            player: self.player,
            ball: self.ball,
            arena_size: self.arena_size,
            brick_size: self.brick_size,
            game_just_started: self.game_just_started,
        }
    }

    /// The invariant of the playfield; see [`StateModel::wf`].
    pub open spec fn wf(self) -> bool {
        self.model().wf()
    }

    /// A fresh playfield: no bricks, the paddle centred on the floor, the
    /// ball resting above it, nothing launched yet.
    pub fn new(arena_size: Vec2, player_size: Vec2, ball_size: Vec2, brick_size: Vec2) -> (s:
        State)
        requires
            size_ok(arena_size),
            size_ok(player_size),
            size_ok(ball_size),
            size_ok(brick_size),
            player_size.x <= arena_size.x,
            ball_size.x <= arena_size.x,
            ball_size.y <= arena_size.y,
        ensures
            s.wf(),
            s.bricks@ == Seq::<Brick>::empty(),
            s.arena_size == arena_size,
            s.brick_size == brick_size,
            s.player.body.size == player_size,
            s.player.body.pos == (Vec2 { x: ((arena_size.x - player_size.x) / 2) as i64, y: 0 }),
            s.player.vel == (Vec2 { x: 0, y: 0 }),
            s.ball.body.size == ball_size,
            s.ball.body.pos == (Vec2 {
                x: ((arena_size.x - ball_size.x) / 2) as i64,
                y: (player_size.y + ball_size.y / 2) as i64,
            }),
            s.ball.vel == (Vec2 { x: 0, y: 0 }),
            !s.ball.fired,
            s.game_just_started,
    {
        let player_pos = Vec2 { x: (arena_size.x - player_size.x) / 2, y: 0 };
        let ball_pos = Vec2 {
            x: (arena_size.x - ball_size.x) / 2,
            y: player_size.y + ball_size.y / 2,
        };
        State {
            bricks: Vec::new(),
            player: Player {
                body: Body { pos: player_pos, size: player_size },
                vel: Vec2 { x: 0, y: 0 },
            },
            ball: Ball {
                body: Body { pos: ball_pos, size: ball_size },
                vel: Vec2 { x: 0, y: 0 },
                fired: false,
            },
            arena_size,
            brick_size,
            game_just_started: true,
        }
    }

    /// (Re)start a round: lay out a fresh `num_x` by `num_y` grid of bricks,
    /// horizontally centred, rows stacked downward from the top of the arena;
    /// recentre the paddle; rest the ball on it; suppress launching for the
    /// first tick.
    pub fn setup(&mut self, num_x: u32, num_y: u32)
        requires
            old(self).wf(),
            num_x * old(self).brick_size.x <= old(self).arena_size.x,
            num_y * old(self).brick_size.y <= old(self).arena_size.y,
        ensures
            final(self).wf(),
            final(self).bricks@ == spec_grid(
                final(self).arena_size,
                final(self).brick_size,
                num_x as int,
                num_y as int,
            ),
            final(self).arena_size == old(self).arena_size,
            final(self).brick_size == old(self).brick_size,
            final(self).player.body.size == old(self).player.body.size,
            final(self).player.body.pos == (Vec2 {
                x: ((final(self).arena_size.x - final(self).player.body.size.x) / 2) as i64,
                y: 0,
            }),
            final(self).player.vel == (Vec2 { x: 0, y: 0 }),
            final(self).ball.body.size == old(self).ball.body.size,
            final(self).ball.body.pos == spec_slaved_pos(
                final(self).player,
                final(self).ball.body.size,
            ),
            final(self).ball.vel == (Vec2 { x: 0, y: 0 }),
            !final(self).ball.fired,
            final(self).game_just_started,
    {
        let arena = self.arena_size;
        let bsize = self.brick_size;
        self.bricks.clear();
        self.player.body.pos = Vec2 { x: (arena.x - self.player.body.size.x) / 2, y: 0 };
        self.player.vel = Vec2 { x: 0, y: 0 };
        let slaved_x = self.player.body.pos.x + div_trunc(
            self.player.body.size.x - self.ball.body.size.x,
            2,
        );
        self.ball.body.pos = Vec2 { x: slaved_x, y: self.player.body.size.y + FP_SCALE };
        self.ball.vel = Vec2 { x: 0, y: 0 };
        self.ball.fired = false;
        self.game_just_started = true;

        let ghost snap = *self;
        let nx: i64 = num_x as i64;
        let ny: i64 = num_y as i64;
        proof {
            assert(0 <= nx * bsize.x && 0 <= ny * bsize.y) by (nonlinear_arith)
                requires
                    0 <= nx,
                    0 <= ny,
                    0 < bsize.x,
                    0 < bsize.y,
            ;
        }
        let start_x: i64 = (arena.x - bsize.x * nx) / 2;
        let mut y: u32 = 0;
        while y < num_y
            invariant
                0 <= y <= num_y,
                nx == num_x as int,
                ny == num_y as int,
                start_x == spec_grid_start_x(arena, bsize, nx as int),
                num_x * bsize.x <= arena.x,
                num_y * bsize.y <= arena.y,
                size_ok(arena),
                size_ok(bsize),
                self.arena_size == arena,
                self.brick_size == bsize,
                self.player == snap.player,
                self.ball == snap.ball,
                self.game_just_started == snap.game_just_started,
                self.bricks@.len() == y * num_x,
                forall|k: int|
                    0 <= k < self.bricks@.len() ==> #[trigger] self.bricks@[k] == spec_grid_brick(
                        arena,
                        bsize,
                        nx as int,
                        k,
                    ),
            decreases num_y - y,
        {
            let mut x: u32 = 0;
            proof {
                assert(y * num_x + num_x <= num_y * num_x) by (nonlinear_arith)
                    requires
                        y < num_y,
                        0 <= num_x,
                ;
            }
            while x < num_x
                invariant
                    0 <= x <= num_x,
                    0 <= y < num_y,
                    nx == num_x as int,
                    ny == num_y as int,
                    start_x == spec_grid_start_x(arena, bsize, nx as int),
                    num_x * bsize.x <= arena.x,
                    num_y * bsize.y <= arena.y,
                    size_ok(arena),
                    size_ok(bsize),
                    self.arena_size == arena,
                    self.brick_size == bsize,
                    self.player == snap.player,
                    self.ball == snap.ball,
                    self.game_just_started == snap.game_just_started,
                    self.bricks@.len() == y * num_x + x,
                    forall|k: int|
                        0 <= k < self.bricks@.len() ==> #[trigger] self.bricks@[k]
                            == spec_grid_brick(arena, bsize, nx as int, k),
                decreases num_x - x,
            {
                proof {
                    assert(0 <= x * bsize.x && x * bsize.x + bsize.x <= nx * bsize.x)
                        by (nonlinear_arith)
                        requires
                            0 <= x < nx,
                            0 < bsize.x,
                    ;
                    assert(0 <= y * bsize.y && y * bsize.y + bsize.y <= ny * bsize.y)
                        by (nonlinear_arith)
                        requires
                            0 <= y < ny,
                            0 < bsize.y,
                    ;
                    assert(2 * start_x <= arena.x - bsize.x * nx);
                }
                let px: i64 = start_x + (x as i64) * bsize.x;
                let py: i64 = arena.y - (y as i64) * bsize.y - bsize.y;
                let ghost k: int = y as int * nx as int + x as int;
                self.bricks.push(
                    Brick {
                        body: Body { pos: Vec2 { x: px, y: py }, size: bsize },
                        status: BRICK_HP,
                    },
                );
                proof {
                    vstd::arithmetic::div_mod::lemma_fundamental_div_mod_converse(
                        k,
                        nx as int,
                        y as int,
                        x as int,
                    );
                    assert(self.bricks@[k] == spec_grid_brick(arena, bsize, nx as int, k));
                }
                x = x + 1;
            }
            y = y + 1;
            proof {
                assert(y * num_x == (y - 1) * num_x + num_x) by (nonlinear_arith);
            }
        }
        proof {
            assert(self.bricks@.len() == num_y * num_x);
            assert(self.bricks@ =~= spec_grid(arena, bsize, nx as int, ny as int)) by {
                assert(num_x * num_y == num_y * num_x) by (nonlinear_arith);
            }
            assert forall|i: int| 0 <= i < self.bricks@.len() implies brick_ok(
                self.arena_size,
                #[trigger] self.bricks@[i],
            ) by {
                let col = i % (nx as int);
                let row = i / (nx as int);
                vstd::arithmetic::div_mod::lemma_fundamental_div_mod(i, nx as int);
                vstd::arithmetic::div_mod::lemma_mod_bound(i, nx as int);
                vstd::arithmetic::div_mod::lemma_div_pos_is_pos(i, nx as int);
                assert(row < ny as int) by (nonlinear_arith)
                    requires
                        i == row * (nx as int) + col,
                        0 <= col,
                        i < (nx as int) * (ny as int),
                        0 < nx,
                        0 <= row,
                ;
                assert(0 <= col * bsize.x && col * bsize.x + bsize.x <= nx * bsize.x)
                    by (nonlinear_arith)
                    requires
                        0 <= col < nx,
                        0 < bsize.x,
                ;
                assert(0 <= row * bsize.y && row * bsize.y + bsize.y <= ny * bsize.y)
                    by (nonlinear_arith)
                    requires
                        0 <= row < ny,
                        0 < bsize.y,
                ;
                assert(2 * spec_grid_start_x(arena, bsize, nx as int) <= arena.x - bsize.x * nx);
                assert(0 <= spec_grid_start_x(arena, bsize, nx as int));
            }
        }
    }

    /// Remove the brick at `index`; later bricks shift down by one.
    pub fn remove_body(&mut self, index: usize)
        requires
            old(self).wf(),
            index < old(self).bricks@.len(),
        ensures
            final(self).wf(),
            final(self).bricks@ == old(self).bricks@.remove(index as int),
            final(self).player == old(self).player,
            final(self).ball == old(self).ball,
            final(self).arena_size == old(self).arena_size,
            final(self).brick_size == old(self).brick_size,
            final(self).game_just_started == old(self).game_just_started,
    {
        self.bricks.remove(index);
        proof {
            let m = old(self).model();
            let pre = old(self).bricks@;
            assert(m.bricks == pre);
            assert(self.bricks@ == pre.subrange(0, index as int) + pre.subrange(
                index as int + 1,
                pre.len() as int,
            ));
            assert forall|i: int| 0 <= i < self.bricks@.len() implies brick_ok(
                self.arena_size,
                #[trigger] self.bricks@[i],
            ) by {
                if i < index {
                    assert(self.bricks@[i] == pre.subrange(0, index as int)[i]);
                    assert(self.bricks@[i] == pre[i]);
                    assert(brick_ok(m.arena_size, m.bricks[i]));
                } else {
                    assert(self.bricks@[i] == pre.subrange(index as int + 1, pre.len() as int)[i
                        - index]);
                    assert(self.bricks@[i] == pre[i + 1]);
                    assert(brick_ok(m.arena_size, m.bricks[i + 1]));
                }
            }
        }
    }
}

} // verus!
