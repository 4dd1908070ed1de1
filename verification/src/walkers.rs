use vstd::prelude::*;
use crate::domain::{RolloutGame, SCORE_INF};
use crate::grid_game::{GRID_H, GRID_W, MAX_SIDE, MAX_TURNS};

verus! {

/// One cell of the grid.
#[derive(Clone, Copy, PartialEq, Eq, Structural, Debug)]
pub struct Spot {
    pub x: usize,
    pub y: usize,
}

/// Three independent walkers on the grid.
#[derive(Clone, Copy, PartialEq, Eq, Structural, Debug)]
pub struct Player {
    pub s0: Spot,
    pub s1: Spot,
    pub s2: Spot,
}

impl Player {
    /// Three seeded cells of the default grid.
    pub fn new(seed: u64) -> (r: Player)
        ensures
            r.s0.x < GRID_H && r.s0.y < GRID_W,
            r.s1.x < GRID_H && r.s1.y < GRID_W,
            r.s2.x < GRID_H && r.s2.y < GRID_W,
    {
        let mut rng = crate::rng::rng_from_seed(seed);
        let s0 = Spot {
            x: (crate::rng::next_u64(&mut rng) % (GRID_H as u64)) as usize,
            y: (crate::rng::next_u64(&mut rng) % (GRID_W as u64)) as usize,
        };
        let s1 = Spot {
            x: (crate::rng::next_u64(&mut rng) % (GRID_H as u64)) as usize,
            y: (crate::rng::next_u64(&mut rng) % (GRID_W as u64)) as usize,
        };
        let s2 = Spot {
            x: (crate::rng::next_u64(&mut rng) % (GRID_H as u64)) as usize,
            y: (crate::rng::next_u64(&mut rng) % (GRID_W as u64)) as usize,
        };
        Player { s0, s1, s2 }
    }

    /// Re-rolls one seeded walker onto a seeded cell of the default grid,
    /// leaving the other two in place.
    pub fn transition(&mut self, seed: u64)
        requires
            old(self).s0.x < GRID_H && old(self).s0.y < GRID_W,
            old(self).s1.x < GRID_H && old(self).s1.y < GRID_W,
            old(self).s2.x < GRID_H && old(self).s2.y < GRID_W,
        ensures
            final(self).s0.x < GRID_H && final(self).s0.y < GRID_W,
            final(self).s1.x < GRID_H && final(self).s1.y < GRID_W,
            final(self).s2.x < GRID_H && final(self).s2.y < GRID_W,
            (final(self).s1 == old(self).s1 && final(self).s2 == old(self).s2)
                || (final(self).s0 == old(self).s0 && final(self).s2 == old(self).s2)
                || (final(self).s0 == old(self).s0 && final(self).s1 == old(self).s1),
    {
        let mut rng = crate::rng::rng_from_seed(seed);
        let idx = (crate::rng::next_u64(&mut rng) % 3) as usize;
        let fresh = Spot {
            x: (crate::rng::next_u64(&mut rng) % (GRID_H as u64)) as usize,
            y: (crate::rng::next_u64(&mut rng) % (GRID_W as u64)) as usize,
        };
        if idx == 0 {
            self.s0 = fresh;
        } else if idx == 1 {
            self.s1 = fresh;
        } else {
            self.s2 = fresh;
        }
    }
}

/// The board: a grid of point values between minus nine and nine,
/// row-major.
pub struct Board {
    pub h: usize,
    pub w: usize,
    pub points: Vec<i64>,
}

impl Board {
    pub open spec fn wf(&self) -> bool {
        &&& 1 <= self.h <= MAX_SIDE
        &&& 1 <= self.w <= MAX_SIDE
        &&& self.points@.len() == self.h * self.w
        &&& forall|k: int| 0 <= k < self.points@.len() ==> -9 <= #[trigger] self.points@[k] <= 9
    }

    /// A default-sized board with seeded point values between minus nine
    /// and nine.
    pub fn new(seed: u64) -> (r: Board)
        ensures
            r.wf(),
            r.h == GRID_H,
            r.w == GRID_W,
    {
        let mut rng = crate::rng::rng_from_seed(seed);
        let mut points: Vec<i64> = Vec::new();
        let total = GRID_H * GRID_W;
        let mut k: usize = 0;
        while k < total
            invariant
                k <= total,
                points@.len() == k,
                forall|j: int| 0 <= j < points@.len() ==> -9 <= #[trigger] points@[j] <= 9,
            decreases total - k,
        {
            let v = ((crate::rng::next_u64(&mut rng) % 19) as i64) - 9;
            points.push(v);
            k += 1;
        }
        Board { h: GRID_H, w: GRID_W, points }
    }

    fn clone_board(&self) -> (r: Board)
        ensures
            r.h == self.h,
            r.w == self.w,
            r.points@ == self.points@,
    {
        let mut points: Vec<i64> = Vec::new();
        let n = self.points.len();
        let mut k: usize = 0;
        while k < n
            invariant
                k <= n,
                n == self.points@.len(),
                points@ =~= self.points@.subrange(0, k as int),
            decreases n - k,
        {
            points.push(self.points[k]);
            k += 1;
        }
        proof {
            assert(points@ =~= self.points@);
        }
        Board { h: self.h, w: self.w, points }
    }
}

/// The mathematical model of a walker game: plain values only, so that the
/// rollout can be written as a recursive function.
pub struct WalkView {
    pub h: int,
    pub w: int,
    pub points: Seq<i64>,
    pub s0: (int, int),
    pub s1: (int, int),
    pub s2: (int, int),
    pub turn: int,
    pub end_turn: int,
    pub score: int,
}

pub open spec fn vw_wf(v: WalkView) -> bool {
    &&& 1 <= v.h <= MAX_SIDE
    &&& 1 <= v.w <= MAX_SIDE
    &&& (v.h >= 2 || v.w >= 2)
    &&& v.points.len() == v.h * v.w
    &&& (forall|k: int| 0 <= k < v.points.len() ==> -9 <= #[trigger] v.points[k] <= 9)
    &&& 0 <= v.s0.0 < v.h && 0 <= v.s0.1 < v.w
    &&& 0 <= v.s1.0 < v.h && 0 <= v.s1.1 < v.w
    &&& 0 <= v.s2.0 < v.h && 0 <= v.s2.1 < v.w
    &&& 0 <= v.turn <= v.end_turn
    &&& v.end_turn <= MAX_TURNS
    &&& -27 * v.turn <= v.score <= 27 * v.turn
}

/// The value a walker at `(x, y)` would collect by moving along `(dx, dy)`,
/// or an unreachable low value when that leaves the board.
pub open spec fn cand(v: WalkView, x: int, y: int, dx: int, dy: int) -> int {
    if 0 <= x + dx < v.h && 0 <= y + dy < v.w {
        v.points[(x + dx) * v.w + (y + dy)] as int
    } else {
        -(SCORE_INF as int)
    }
}

/// The cell a walker at `(x, y)` steps to: the first strict maximum of the
/// four neighbors in the order down, up, right, left; a walker with no
/// in-bounds neighbor would default to down.
pub open spec fn pick(v: WalkView, x: int, y: int) -> (int, int) {
    let c_down = cand(v, x, y, 1, 0);
    let c_up = cand(v, x, y, -1, 0);
    let c_right = cand(v, x, y, 0, 1);
    let c_left = cand(v, x, y, 0, -1);
    let v1 = c_down;
    let t1 = (x + 1, y);
    let v2 = if c_up > v1 {
        c_up
    } else {
        v1
    };
    let t2 = if c_up > v1 {
        (x - 1, y)
    } else {
        t1
    };
    let v3 = if c_right > v2 {
        c_right
    } else {
        v2
    };
    let t3 = if c_right > v2 {
        (x, y + 1)
    } else {
        t2
    };
    if c_left > v3 {
        (x, y - 1)
    } else {
        t3
    }
}

/// One turn of the model: every walker independently steps to its best
/// neighbor of the current board; then, in walker order, each collects the
/// points of its new cell and the cell is cleared, so a shared cell pays
/// only its first visitor.
pub open spec fn step_of(v: WalkView) -> WalkView {
    let t0 = pick(v, v.s0.0, v.s0.1);
    let t1 = pick(v, v.s1.0, v.s1.1);
    let t2 = pick(v, v.s2.0, v.s2.1);
    let i0 = t0.0 * v.w + t0.1;
    let i1 = t1.0 * v.w + t1.1;
    let i2 = t2.0 * v.w + t2.1;
    let g0 = v.points[i0] as int;
    let p0 = v.points.update(i0, 0);
    let g1 = p0[i1] as int;
    let p1 = p0.update(i1, 0);
    let g2 = p1[i2] as int;
    let p2 = p1.update(i2, 0);
    WalkView {
        points: p2,
        s0: t0,
        s1: t1,
        s2: t2,
        turn: v.turn + 1,
        score: v.score + g0 + g1 + g2,
        ..v
    }
}

/// The score the model reaches when stepped until its horizon.
pub open spec fn rollout_of(v: WalkView) -> int
    decreases v.end_turn - v.turn,
{
    if v.turn >= v.end_turn {
        v.score
    } else {
        rollout_of(step_of(v))
    }
}

/// The picked cell stays on the board.
proof fn lemma_pick_in_bounds(v: WalkView, x: int, y: int)
    requires
        vw_wf(v),
        0 <= x < v.h,
        0 <= y < v.w,
    ensures
        0 <= pick(v, x, y).0 < v.h,
        0 <= pick(v, x, y).1 < v.w,
{
    let down_ok = x + 1 < v.h;
    let up_ok = x - 1 >= 0;
    let right_ok = y + 1 < v.w;
    let left_ok = y - 1 >= 0;
    if down_ok {
        lemma_idx(v.h, v.w, x + 1, y);
        assert(cand(v, x, y, 1, 0) >= -9);
    }
    if up_ok {
        lemma_idx(v.h, v.w, x - 1, y);
        assert(cand(v, x, y, -1, 0) >= -9);
    }
    if right_ok {
        lemma_idx(v.h, v.w, x, y + 1);
        assert(cand(v, x, y, 0, 1) >= -9);
    }
    if left_ok {
        lemma_idx(v.h, v.w, x, y - 1);
        assert(cand(v, x, y, 0, -1) >= -9);
    }
    if !down_ok && !up_ok && !right_ok && !left_ok {
        assert(v.h == 1 && v.w == 1);
        assert(false);
    }
    assert(-(SCORE_INF as int) < -9);
}

/// A cell index stays inside a row-major grid, which itself stays small.
proof fn lemma_idx(h: int, w: int, x: int, y: int)
    requires
        0 <= x < h,
        0 <= y < w,
        h <= MAX_SIDE,
        w <= MAX_SIDE,
    ensures
        0 <= x * w + y < h * w,
        h * w <= 100_000_000,
{
    assert(x * w + y < h * w) by (nonlinear_arith)
        requires
            0 <= x < h,
            0 <= y < w,
    ;
    assert(0 <= x * w) by (nonlinear_arith)
        requires
            0 <= x,
            0 <= w,
    ;
    assert(h * w <= 10_000 * 10_000) by (nonlinear_arith)
        requires
            0 <= h <= 10_000,
            0 <= w <= 10_000,
    ;
}

/// One step keeps the model well formed.
proof fn lemma_step_wf(v: WalkView)
    requires
        vw_wf(v),
        v.turn < v.end_turn,
    ensures
        vw_wf(step_of(v)),
        step_of(v).turn == v.turn + 1,
        step_of(v).end_turn == v.end_turn,
{
    lemma_pick_in_bounds(v, v.s0.0, v.s0.1);
    lemma_pick_in_bounds(v, v.s1.0, v.s1.1);
    lemma_pick_in_bounds(v, v.s2.0, v.s2.1);
    let t0 = pick(v, v.s0.0, v.s0.1);
    let t1 = pick(v, v.s1.0, v.s1.1);
    let t2 = pick(v, v.s2.0, v.s2.1);
    lemma_idx(v.h, v.w, t0.0, t0.1);
    lemma_idx(v.h, v.w, t1.0, t1.1);
    lemma_idx(v.h, v.w, t2.0, t2.1);
}

/// One full walker game: the committed part is the initial board and the
/// walkers; a rollout greedily walks all three for `end_turn` turns.
pub struct GameState {
    pub board: Board,
    pub initial_board: Board,
    pub turn: usize,
    pub player: Player,
    pub game_score: i64,
    pub end_turn: usize,
}

impl GameState {
    /// The mathematical model of this state.
    pub open spec fn vw(&self) -> WalkView {
        WalkView {
            h: self.board.h as int,
            w: self.board.w as int,
            points: self.board.points@,
            s0: (self.player.s0.x as int, self.player.s0.y as int),
            s1: (self.player.s1.x as int, self.player.s1.y as int),
            s2: (self.player.s2.x as int, self.player.s2.y as int),
            turn: self.turn as int,
            end_turn: self.end_turn as int,
            score: self.game_score as int,
        }
    }

    /// A seeded game over the default board with a ten-turn horizon.
    pub fn new(seed: u64) -> (r: GameState)
        ensures
            r.wf(),
            r.turn == 0,
            r.game_score == 0,
            r.end_turn == 10,
    {
        let mut rng = crate::rng::rng_from_seed(seed);
        let board_seed = crate::rng::next_u64(&mut rng);
        let player_seed = crate::rng::next_u64(&mut rng);
        let board = Board::new(board_seed);
        let initial_board = board.clone_board();
        let player = Player::new(player_seed);
        GameState { board, initial_board, turn: 0, player, game_score: 0, end_turn: 10 }
    }

    /// A game built from explicit components, at turn zero with no score.
    pub fn build(board: Board, player: Player, end_turn: usize) -> (r: GameState)
        requires
            board.wf(),
            board.h >= 2 || board.w >= 2,
            player.s0.x < board.h && player.s0.y < board.w,
            player.s1.x < board.h && player.s1.y < board.w,
            player.s2.x < board.h && player.s2.y < board.w,
            end_turn <= MAX_TURNS,
        ensures
            r.wf(),
            r.turn == 0,
            r.game_score == 0,
            r.end_turn == end_turn,
            r.board == board,
            r.player == player,
            r.initial_board.h == board.h,
            r.initial_board.w == board.w,
            r.initial_board.points@ == board.points@,
    {
        let initial_board = board.clone_board();
        GameState { board, initial_board, turn: 0, player, game_score: 0, end_turn }
    }

    fn is_done(&self) -> (r: bool)
        ensures
            r == (self.turn == self.end_turn),
    {
        self.turn == self.end_turn
    }

    /// The in-bounds neighbor with the strictly greatest points, first of
    /// down, up, right, left on a tie; a walker boxed in on all four sides
    /// cannot occur on a well-formed board.
    fn best_step(&self, x: usize, y: usize) -> (r: (usize, usize))
        requires
            vw_wf(self.vw()),
            x < self.board.h,
            y < self.board.w,
        ensures
            (r.0 as int, r.1 as int) == pick(self.vw(), x as int, y as int),
            r.0 < self.board.h,
            r.1 < self.board.w,
    {
        proof {
            lemma_pick_in_bounds(self.vw(), x as int, y as int);
        }
        let mut bv: i64 = -SCORE_INF;
        let mut bx: usize = x + 1;
        let mut by: usize = y;
        if x + 1 < self.board.h {
            proof {
                lemma_idx(self.board.h as int, self.board.w as int, x + 1, y as int);
            }
            bv = self.board.points[(x + 1) * self.board.w + y];
        }
        if x >= 1 {
            proof {
                lemma_idx(self.board.h as int, self.board.w as int, x - 1, y as int);
            }
            let c = self.board.points[(x - 1) * self.board.w + y];
            if c > bv {
                bv = c;
                bx = x - 1;
                by = y;
            }
        }
        if y + 1 < self.board.w {
            proof {
                lemma_idx(self.board.h as int, self.board.w as int, x as int, y + 1);
            }
            let c = self.board.points[x * self.board.w + (y + 1)];
            if c > bv {
                bv = c;
                bx = x;
                by = y + 1;
            }
        }
        if y >= 1 {
            proof {
                lemma_idx(self.board.h as int, self.board.w as int, x as int, y - 1);
            }
            let c = self.board.points[x * self.board.w + (y - 1)];
            if c > bv {
                bv = c;
                bx = x;
                by = y - 1;
            }
        }
        (bx, by)
    }

    /// One turn: every walker greedily steps to its best neighbor, then
    /// collects its new cell's points, each cell paying only once.
    pub fn advance(&mut self)
        requires
            old(self).wf(),
            old(self).turn < old(self).end_turn,
        ensures
            final(self).wf(),
            final(self).vw() == step_of(old(self).vw()),
            final(self).turn == old(self).turn + 1,
            final(self).end_turn == old(self).end_turn,
            final(self).initial_board.points@ == old(self).initial_board.points@,
            final(self).initial_board.h == old(self).initial_board.h,
            final(self).initial_board.w == old(self).initial_board.w,
    {
        let ghost v = self.vw();
        proof {
            lemma_step_wf(v);
        }
        let t0 = self.best_step(self.player.s0.x, self.player.s0.y);
        let t1 = self.best_step(self.player.s1.x, self.player.s1.y);
        let t2 = self.best_step(self.player.s2.x, self.player.s2.y);
        self.player.s0 = Spot { x: t0.0, y: t0.1 };
        self.player.s1 = Spot { x: t1.0, y: t1.1 };
        self.player.s2 = Spot { x: t2.0, y: t2.1 };
        proof {
            lemma_idx(v.h, v.w, t0.0 as int, t0.1 as int);
            lemma_idx(v.h, v.w, t1.0 as int, t1.1 as int);
            lemma_idx(v.h, v.w, t2.0 as int, t2.1 as int);
        }
        let i0 = t0.0 * self.board.w + t0.1;
        let g0 = self.board.points[i0];
        self.board.points.set(i0, 0);
        let i1 = t1.0 * self.board.w + t1.1;
        let g1 = self.board.points[i1];
        self.board.points.set(i1, 0);
        let i2 = t2.0 * self.board.w + t2.1;
        let g2 = self.board.points[i2];
        self.board.points.set(i2, 0);
        self.game_score = self.game_score + g0 + g1 + g2;
        self.turn = self.turn + 1;
        proof {
            assert(self.vw().points =~= step_of(v).points);
            assert(self.vw() == step_of(v));
        }
    }
}

impl RolloutGame for GameState {
    open spec fn wf(&self) -> bool {
        &&& vw_wf(self.vw())
        &&& self.initial_board.h == self.board.h
        &&& self.initial_board.w == self.board.w
        &&& self.initial_board.points@.len() == self.board.points@.len()
        &&& forall|k: int|
            0 <= k < self.initial_board.points@.len() ==> -9 <= #[trigger] self.initial_board.points@[k]
                <= 9
    }

    open spec fn sp_done(&self) -> bool {
        self.turn == self.end_turn
    }

    open spec fn sp_game_score(&self) -> int {
        self.game_score as int
    }

    open spec fn sp_rollout_score(&self) -> int {
        rollout_of(self.vw())
    }

    fn init(&mut self, rng: &mut rand::rngs::StdRng) {
        let h = self.board.h;
        let w = self.board.w;
        let s0 = Spot {
            x: (crate::rng::next_u64(rng) % (h as u64)) as usize,
            y: (crate::rng::next_u64(rng) % (w as u64)) as usize,
        };
        let s1 = Spot {
            x: (crate::rng::next_u64(rng) % (h as u64)) as usize,
            y: (crate::rng::next_u64(rng) % (w as u64)) as usize,
        };
        let s2 = Spot {
            x: (crate::rng::next_u64(rng) % (h as u64)) as usize,
            y: (crate::rng::next_u64(rng) % (w as u64)) as usize,
        };
        self.player = Player { s0, s1, s2 };
        self.turn = 0;
        self.game_score = 0;
        self.clear_walker_cells();
    }

    fn transition(&mut self, rng: &mut rand::rngs::StdRng) {
        self.board = self.initial_board.clone_board();
        self.turn = 0;
        let seed = crate::rng::next_u64(rng);
        self.player.transition_in(seed, self.board.h, self.board.w);
        self.game_score = 0;
        self.clear_walker_cells();
    }

    fn get_score(&mut self) -> (r: i64) {
        let ghost r0 = rollout_of(self.vw());
        let mut done = self.is_done();
        while !done
            invariant
                self.wf(),
                done == (self.turn == self.end_turn),
                rollout_of(self.vw()) == r0,
            decreases self.end_turn - self.turn + if done {
                0int
            } else {
                1int
            },
        {
            proof {
                lemma_step_wf(self.vw());
            }
            self.advance();
            done = self.is_done();
        }
        proof {
            assert(rollout_of(self.vw()) == self.game_score as int);
            assert(-27 * (MAX_TURNS as int) <= self.game_score as int <= 27 * (MAX_TURNS as int));
        }
        self.game_score
    }

    fn duplicate(&self) -> (r: GameState) {
        GameState {
            board: self.board.clone_board(),
            initial_board: self.initial_board.clone_board(),
            turn: self.turn,
            player: self.player,
            game_score: self.game_score,
            end_turn: self.end_turn,
        }
    }
}

impl GameState {
    /// Clears the cells under the three walkers, as both restarts do.
    fn clear_walker_cells(&mut self)
        requires
            old(self).board.wf(),
            old(self).player.s0.x < old(self).board.h,
            old(self).player.s0.y < old(self).board.w,
            old(self).player.s1.x < old(self).board.h,
            old(self).player.s1.y < old(self).board.w,
            old(self).player.s2.x < old(self).board.h,
            old(self).player.s2.y < old(self).board.w,
        ensures
            final(self).board.wf(),
            final(self).board.h == old(self).board.h,
            final(self).board.w == old(self).board.w,
            final(self).player == old(self).player,
            final(self).turn == old(self).turn,
            final(self).game_score == old(self).game_score,
            final(self).end_turn == old(self).end_turn,
            final(self).initial_board == old(self).initial_board,
    {
        proof {
            lemma_idx(
                self.board.h as int,
                self.board.w as int,
                self.player.s0.x as int,
                self.player.s0.y as int,
            );
            lemma_idx(
                self.board.h as int,
                self.board.w as int,
                self.player.s1.x as int,
                self.player.s1.y as int,
            );
            lemma_idx(
                self.board.h as int,
                self.board.w as int,
                self.player.s2.x as int,
                self.player.s2.y as int,
            );
        }
        let i0 = self.player.s0.x * self.board.w + self.player.s0.y;
        self.board.points.set(i0, 0);
        let i1 = self.player.s1.x * self.board.w + self.player.s1.y;
        self.board.points.set(i1, 0);
        let i2 = self.player.s2.x * self.board.w + self.player.s2.y;
        self.board.points.set(i2, 0);
    }
}

impl Player {
    /// Re-rolls one seeded walker onto a seeded cell of an `h` by `w`
    /// board, leaving the other two in place.
    fn transition_in(&mut self, seed: u64, h: usize, w: usize)
        requires
            1 <= h,
            1 <= w,
        ensures
            (final(self).s0.x < h && final(self).s0.y < w) || final(self).s0 == old(self).s0,
            (final(self).s1.x < h && final(self).s1.y < w) || final(self).s1 == old(self).s1,
            (final(self).s2.x < h && final(self).s2.y < w) || final(self).s2 == old(self).s2,
            (final(self).s1 == old(self).s1 && final(self).s2 == old(self).s2)
                || (final(self).s0 == old(self).s0 && final(self).s2 == old(self).s2)
                || (final(self).s0 == old(self).s0 && final(self).s1 == old(self).s1),
    {
        let mut rng = crate::rng::rng_from_seed(seed);
        let idx = (crate::rng::next_u64(&mut rng) % 3) as usize;
        let fresh = Spot {
            x: (crate::rng::next_u64(&mut rng) % (h as u64)) as usize,
            y: (crate::rng::next_u64(&mut rng) % (w as u64)) as usize,
        };
        if idx == 0 {
            self.s0 = fresh;
        } else if idx == 1 {
            self.s1 = fresh;
        } else {
            self.s2 = fresh;
        }
    }
}

/// One full seeded episode: a five-iteration hill climb over seeded
/// restarts, reporting the climbed rollout score.
pub fn play_game(seed: u64) -> (r: i64)
    ensures
        -SCORE_INF < r < SCORE_INF,
{
    let state = GameState::new(seed);
    let mut rng = crate::rng::rng_from_seed(seed);
    let mut best = crate::local_search::hill_climb(state, 5, &mut rng);
    best.get_score()
}

/// Plays `game_number` independent seeded episodes and reports the mean
/// score, truncated toward zero.
pub fn test_ai_score(game_number: usize, seed: u64) -> (r: i64)
    requires
        game_number >= 1,
    ensures
        -SCORE_INF <= r <= SCORE_INF,
{
    let mut rng = crate::rng::rng_from_seed(seed);
    let mut sum: i128 = 0;
    let mut g: usize = 0;
    while g < game_number
        invariant
            -(g as i128) * 0x3fff_ffff_ffff_ffff <= sum <= (g as i128) * 0x3fff_ffff_ffff_ffff,
            g <= game_number,
        decreases game_number - g,
    {
        let s = play_game(crate::rng::next_u64(&mut rng));
        sum = sum + (s as i128);
        g += 1;
    }
    let avg: i64 = if sum >= 0 {
        proof {
            assert((sum as int) / (game_number as int) <= 0x3fff_ffff_ffff_ffff)
                by (nonlinear_arith)
                requires
                    0 <= (sum as int) <= (game_number as int) * 0x3fff_ffff_ffff_ffff,
                    1 <= game_number as int,
            ;
        }
        let q = (sum as u128) / (game_number as u128);
        q as i64
    } else {
        let mag = (-sum) as u128;
        proof {
            assert((mag as int) / (game_number as int) <= 0x3fff_ffff_ffff_ffff)
                by (nonlinear_arith)
                requires
                    0 <= (mag as int) <= (game_number as int) * 0x3fff_ffff_ffff_ffff,
                    1 <= game_number as int,
            ;
        }
        let q = mag / (game_number as u128);
        -(q as i64)
    };
    avg
}

} // verus!
