use vstd::prelude::*;
use crate::domain::{Game, SCORE_INF};
use crate::tree_search::beam_search_action;

verus! {

/// Grid dimensions used by the seeded constructors.
pub const GRID_H: usize = 30;

pub const GRID_W: usize = 40;

/// Bound on the side of any board, so index arithmetic stays small.
pub const MAX_SIDE: usize = 10_000;

/// Bound on the episode length, so accumulated scores stay far from the
/// sentinel.
pub const MAX_TURNS: usize = 1_000_000;

/// The agent: a cell of the grid.
pub struct Player {
    pub x: usize,
    pub y: usize,
}

impl Player {
    /// A player on a seeded cell of the default grid.
    pub fn new(seed: u64) -> (r: Player)
        ensures
            r.x < GRID_H,
            r.y < GRID_W,
    {
        let mut rng = crate::rng::rng_from_seed(seed);
        let x = (crate::rng::next_u64(&mut rng) % (GRID_H as u64)) as usize;
        let y = (crate::rng::next_u64(&mut rng) % (GRID_W as u64)) as usize;
        Player { x, y }
    }
}

/// The board: a grid of point values, row-major.
pub struct Board {
    pub h: usize,
    pub w: usize,
    pub points: Vec<i64>,
}

impl Board {
    pub open spec fn wf(&self) -> bool {
        &&& 1 <= self.h <= MAX_SIDE
        &&& 1 <= self.w <= MAX_SIDE
        &&& self.points@.len() == self.h * self.w
        &&& forall|k: int| 0 <= k < self.points@.len() ==> 0 <= #[trigger] self.points@[k] <= 9
    }

    /// A default-sized board with seeded point values between 0 and 9.
    pub fn new(seed: u64) -> (r: Board)
        ensures
            r.wf(),
            r.h == GRID_H,
            r.w == GRID_W,
    {
        let mut rng = crate::rng::rng_from_seed(seed);
        let mut points: Vec<i64> = Vec::new();
        let total = GRID_H * GRID_W;
        let mut k: usize = 0;
        while k < total
            invariant
                k <= total,
                points@.len() == k,
                forall|j: int| 0 <= j < points@.len() ==> 0 <= #[trigger] points@[j] <= 9,
            decreases total - k,
        {
            points.push((crate::rng::next_u64(&mut rng) % 10) as i64);
            k += 1;
        }
        Board { h: GRID_H, w: GRID_W, points }
    }
}

/// A cell index stays inside a row-major grid.
proof fn lemma_cell_index(h: int, w: int, x: int, y: int)
    requires
        0 <= x < h,
        0 <= y < w,
    ensures
        0 <= x * w + y < h * w,
{
    assert(x * w + y < h * w) by (nonlinear_arith)
        requires
            0 <= x < h,
            0 <= y < w,
    ;
    assert(0 <= x * w) by (nonlinear_arith)
        requires
            0 <= x,
            0 <= w,
    ;
}

/// The four moves of the agent.
#[derive(Clone, Copy, PartialEq, Eq, Structural, Debug)]
pub enum Action {
    Down,
    Up,
    Right,
    Left,
}

/// One full game: the agent walks the grid for `end_turn` turns, collecting
/// each visited cell's points exactly once.
pub struct GameState {
    pub board: Board,
    pub turn: usize,
    pub player: Player,
    pub game_score: i64,
    pub end_turn: usize,
}

impl GameState {
    /// The row and column the move `a` leads to, as mathematical integers.
    pub open spec fn target(&self, a: Action) -> (int, int) {
        match a {
            Action::Down => (self.player.x + 1, self.player.y as int),
            Action::Up => (self.player.x - 1, self.player.y as int),
            Action::Right => (self.player.x as int, self.player.y + 1),
            Action::Left => (self.player.x as int, self.player.y - 1),
        }
    }

    /// A move is legal when its target stays on the board.
    pub open spec fn action_legal(&self, a: Action) -> bool {
        0 <= self.target(a).0 < self.board.h && 0 <= self.target(a).1 < self.board.w
    }

    /// A seeded game over the default board with a ten-turn horizon; the
    /// starting cell carries no points.
    pub fn new(seed: u64) -> (r: GameState)
        ensures
            r.wf(),
            r.turn == 0,
            r.game_score == 0,
            r.end_turn == 10,
            r.board.h == GRID_H,
            r.board.w == GRID_W,
            r.player.x < GRID_H,
            r.player.y < GRID_W,
            r.board.points@[r.player.x * r.board.w + r.player.y] == 0,
    {
        let mut rng = crate::rng::rng_from_seed(seed);
        let board_seed = crate::rng::next_u64(&mut rng);
        let player_seed = crate::rng::next_u64(&mut rng);
        let mut board = Board::new(board_seed);
        let player = Player::new(player_seed);
        proof {
            lemma_cell_index(board.h as int, board.w as int, player.x as int, player.y as int);
        }
        let idx = player.x * board.w + player.y;
        board.points.set(idx, 0);
        GameState { board, turn: 0, player, game_score: 0, end_turn: 10 }
    }

    /// A game built from explicit components, at turn zero with no score.
    pub fn build(board: Board, player: Player, end_turn: usize) -> (r: GameState)
        requires
            board.wf(),
            player.x < board.h,
            player.y < board.w,
            end_turn <= MAX_TURNS,
        ensures
            r.wf(),
            r.board == board,
            r.player == player,
            r.turn == 0,
            r.game_score == 0,
            r.end_turn == end_turn,
    {
        GameState { board, turn: 0, player, game_score: 0, end_turn }
    }

    /// Applies a legal move: the agent steps to the target cell, collects
    /// its points, the cell is cleared, and the turn advances.
    pub fn apply(&mut self, a: Action)
        requires
            old(self).wf(),
            !old(self).sp_done(),
            old(self).sp_actions().contains(a),
        ensures
            final(self).wf(),
            final(self).turn == old(self).turn + 1,
            final(self).end_turn == old(self).end_turn,
            final(self).board.h == old(self).board.h,
            final(self).board.w == old(self).board.w,
            final(self).player.x as int == old(self).target(a).0,
            final(self).player.y as int == old(self).target(a).1,
            final(self).game_score == old(self).game_score + old(self).board.points@[old(
                self,
            ).target(a).0 * old(self).board.w + old(self).target(a).1],
            final(self).board.points@ == old(self).board.points@.update(
                old(self).target(a).0 * old(self).board.w + old(self).target(a).1,
                0,
            ),
    {
        proof {
            lemma_action_membership(*self);
            assert(self.action_legal(a));
        }
        let (nx, ny): (usize, usize) = match a {
            Action::Down => (self.player.x + 1, self.player.y),
            Action::Up => (self.player.x - 1, self.player.y),
            Action::Right => (self.player.x, self.player.y + 1),
            Action::Left => (self.player.x, self.player.y - 1),
        };
        proof {
            lemma_cell_index(self.board.h as int, self.board.w as int, nx as int, ny as int);
            assert((nx as int) * (self.board.w as int) + (ny as int) < MAX_SIDE * MAX_SIDE)
                by (nonlinear_arith)
                requires
                    0 <= (nx as int) < MAX_SIDE,
                    0 <= (ny as int) < MAX_SIDE,
                    1 <= (self.board.w as int) <= MAX_SIDE,
            ;
        }
        let idx = nx * self.board.w + ny;
        let gain = self.board.points[idx];
        self.player.x = nx;
        self.player.y = ny;
        self.game_score = self.game_score + gain;
        self.board.points.set(idx, 0);
        self.turn = self.turn + 1;
    }

    /// A fully independent copy, field for field.
    pub fn clone_state(&self) -> (r: GameState)
        ensures
            r.board.h == self.board.h,
            r.board.w == self.board.w,
            r.board.points@ == self.board.points@,
            r.turn == self.turn,
            r.player == self.player,
            r.game_score == self.game_score,
            r.end_turn == self.end_turn,
    {
        let mut points: Vec<i64> = Vec::new();
        let n = self.board.points.len();
        let mut k: usize = 0;
        while k < n
            invariant
                k <= n,
                n == self.board.points@.len(),
                points@ =~= self.board.points@.subrange(0, k as int),
            decreases n - k,
        {
            points.push(self.board.points[k]);
            k += 1;
        }
        proof {
            assert(points@ =~= self.board.points@);
        }
        GameState {
            board: Board { h: self.board.h, w: self.board.w, points },
            turn: self.turn,
            player: Player { x: self.player.x, y: self.player.y },
            game_score: self.game_score,
            end_turn: self.end_turn,
        }
    }
}

/// Membership in the enumerated legal actions coincides with legality.
pub proof fn lemma_action_membership(s: GameState)
    ensures
        forall|a: Action| s.sp_actions().contains(a) <==> s.action_legal(a),
{
    let acts = s.sp_actions();
    assert forall|a: Action| acts.contains(a) <==> s.action_legal(a) by {
        if s.action_legal(a) {
            match a {
                Action::Down => {
                    assert(acts[0] == Action::Down);
                },
                Action::Up => {
                    let base: int = if s.action_legal(Action::Down) {
                        1
                    } else {
                        0
                    };
                    assert(acts[base] == Action::Up);
                },
                Action::Right => {
                    let base: int = (if s.action_legal(Action::Down) {
                        1int
                    } else {
                        0int
                    }) + (if s.action_legal(Action::Up) {
                        1int
                    } else {
                        0int
                    });
                    assert(acts[base] == Action::Right);
                },
                Action::Left => {
                    let base: int = (if s.action_legal(Action::Down) {
                        1int
                    } else {
                        0int
                    }) + (if s.action_legal(Action::Up) {
                        1int
                    } else {
                        0int
                    }) + (if s.action_legal(Action::Right) {
                        1int
                    } else {
                        0int
                    });
                    assert(acts[base] == Action::Left);
                },
            }
        }
        if acts.contains(a) {
            let i = choose|i: int| 0 <= i < acts.len() && acts[i] == a;
            assert(acts[i] == a);
        }
    }
}

/// A board with a side of length at least two always offers a move, and a
/// move is only ever offered on such a board: the two-sided form lets a
/// caller carry "no dead end is ever reachable" from the root's own legal
/// actions.
pub proof fn lemma_moves_iff_room(s: GameState)
    requires
        s.wf(),
    ensures
        s.sp_actions().len() > 0 <==> (s.board.h >= 2 || s.board.w >= 2),
{
    if s.board.h >= 2 || s.board.w >= 2 {
        if s.player.x + 1 < s.board.h {
            assert(s.action_legal(Action::Down));
        } else if s.player.x >= 1 {
            assert(s.action_legal(Action::Up));
        } else if s.player.y + 1 < s.board.w {
            assert(s.action_legal(Action::Right));
        } else {
            assert(s.player.y >= 1);
            assert(s.action_legal(Action::Left));
        }
        assert(s.sp_actions().len() > 0);
    }
    if s.sp_actions().len() > 0 {
        assert(s.action_legal(Action::Down) || s.action_legal(Action::Up) || s.action_legal(
            Action::Right,
        ) || s.action_legal(Action::Left));
    }
}

impl Game for GameState {
    type Act = Action;

    open spec fn wf(&self) -> bool {
        &&& self.board.wf()
        &&& self.player.x < self.board.h
        &&& self.player.y < self.board.w
        &&& self.turn <= self.end_turn
        &&& self.end_turn <= MAX_TURNS
        &&& 0 <= self.game_score <= 9 * self.turn
    }

    open spec fn sp_done(&self) -> bool {
        self.turn == self.end_turn
    }

    open spec fn sp_actions(&self) -> Seq<Action> {
        (if self.action_legal(Action::Down) {
            seq![Action::Down]
        } else {
            Seq::empty()
        }) + (if self.action_legal(Action::Up) {
            seq![Action::Up]
        } else {
            Seq::empty()
        }) + (if self.action_legal(Action::Right) {
            seq![Action::Right]
        } else {
            Seq::empty()
        }) + (if self.action_legal(Action::Left) {
            seq![Action::Left]
        } else {
            Seq::empty()
        })
    }

    open spec fn sp_score(&self) -> int {
        self.game_score as int
    }

    open spec fn sp_child_score(&self, a: Action) -> int {
        self.game_score + self.board.points@[self.target(a).0 * self.board.w + self.target(a).1]
    }

    fn is_done(&self) -> (r: bool) {
        self.turn == self.end_turn
    }

    fn legal_actions(&self) -> (r: Vec<Action>) {
        let mut v: Vec<Action> = Vec::new();
        if self.player.x + 1 < self.board.h {
            v.push(Action::Down);
        }
        if self.player.x >= 1 {
            v.push(Action::Up);
        }
        if self.player.y + 1 < self.board.w {
            v.push(Action::Right);
        }
        if self.player.y >= 1 {
            v.push(Action::Left);
        }
        proof {
            assert(v@ =~= self.sp_actions());
        }
        v
    }

    fn advance(&mut self, a: Action) {
        self.apply(a);
    }

    fn evaluate(&self) -> (r: i64) {
        self.game_score
    }

    fn duplicate(&self) -> (r: GameState) {
        self.clone_state()
    }
}

/// Drives one game from the given state with beam search (width two, depth
/// five) until it finishes, and reports the accumulated score; a dead end
/// reports the sentinel `-SCORE_INF` instead.
pub fn play_game_from(state: GameState) -> (r: i64)
    requires
        state.wf(),
    ensures
        !state.sp_done() && state.sp_actions().len() == 0 ==> r == -SCORE_INF,
        state.sp_done() ==> r == state.game_score,
        !state.sp_done() && state.sp_actions().len() > 0 ==> 0 <= r <= 9 * state.end_turn,
        r == -SCORE_INF || (0 <= r <= 9 * state.end_turn),
{
    proof {
        lemma_moves_iff_room(state);
    }
    let mut st = state.clone_state();
    let mut done = st.is_done();
    while !done
        invariant
            st.wf(),
            done == st.sp_done(),
            st.end_turn == state.end_turn,
            st.board.h == state.board.h,
            st.board.w == state.board.w,
            state.sp_done() ==> done,
            state.sp_done() ==> st.game_score == state.game_score,
            !state.sp_done() && state.sp_actions().len() == 0 ==> (!st.sp_done()
                && st.sp_actions().len() == 0),
            state.sp_actions().len() > 0 ==> (state.board.h >= 2 || state.board.w >= 2),
        decreases st.end_turn - st.turn + if done {
            0int
        } else {
            1int
        },
    {
        match beam_search_action(&st, 2, 5) {
            Some(a) => {
                st.apply(a);
            },
            None => {
                proof {
                    if !state.sp_done() && state.sp_actions().len() > 0 {
                        lemma_moves_iff_room(st);
                        assert(false);
                    }
                }
                return -SCORE_INF;
            },
        }
        done = st.is_done();
    }
    st.game_score
}

/// One full seeded episode: dead ends report the sentinel, anything else
/// the accumulated score of the ten-turn game.
pub fn play_game(seed: u64) -> (r: i64)
    ensures
        0 <= r <= 90,
{
    let state = GameState::new(seed);
    proof {
        lemma_moves_iff_room(state);
    }
    play_game_from(state)
}

/// Plays `game_number` independent seeded episodes and reports the mean
/// score, truncated.
pub fn test_ai_score(game_number: usize, seed: u64) -> (r: i64)
    requires
        game_number >= 1,
    ensures
        0 <= r <= 90,
{
    let mut rng = crate::rng::rng_from_seed(seed);
    let mut sum: i128 = 0;
    let mut g: usize = 0;
    while g < game_number
        invariant
            0 <= sum <= (g as i128) * 90,
            g <= game_number,
        decreases game_number - g,
    {
        let s = play_game(crate::rng::next_u64(&mut rng));
        sum = sum + (s as i128);
        g += 1;
    }
    proof {
        assert((sum as int) / (game_number as int) <= 90) by (nonlinear_arith)
            requires
                0 <= (sum as int) <= (game_number as int) * 90,
                1 <= game_number as int,
        ;
    }
    let q = (sum as u128) / (game_number as u128);
    q as i64
}

} // verus!
