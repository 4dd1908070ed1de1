use vstd::prelude::*;
use crate::domain::{RolloutGame, SCORE_INF};
use crate::anneal::{accepts, anneal_temperature};

verus! {

/// The random-restart baseline: randomize the state's mutable component,
/// resetting its rollout, and hand it back, not yet driven to completion.
pub fn random<R: RolloutGame>(state: R, rng: &mut rand::rngs::StdRng) -> (r: R)
    requires
        state.wf(),
    ensures
        r.wf(),
        r.sp_game_score() == 0,
{
    let mut s = state;
    s.init(rng);
    s
}

/// Hill climbing from an already-initialized state.
///
/// Law: the returned state is finished and its score is at least the
/// rollout score of the state it started from — strict-improvement-only
/// acceptance never loses ground against the baseline that just rolls the
/// starting state out.  Stalling in a local optimum is intended behavior.
pub fn climb_from<R: RolloutGame>(state: R, number: usize, rng: &mut rand::rngs::StdRng) -> (r: R)
    requires
        state.wf(),
    ensures
        r.wf(),
        r.sp_done(),
        r.sp_game_score() >= state.sp_rollout_score(),
        number == 0 ==> r.sp_game_score() == state.sp_rollout_score(),
{
    let ghost start = state;
    let mut cur = state;
    let mut best_score = cur.get_score();
    let mut k: usize = 0;
    while k < number
        invariant
            cur.wf(),
            cur.sp_done(),
            cur.sp_game_score() == best_score as int,
            best_score as int >= start.sp_rollout_score(),
            number == 0 ==> best_score as int == start.sp_rollout_score(),
            -SCORE_INF < best_score < SCORE_INF,
        decreases number - k,
    {
        let mut cand = cur.duplicate();
        cand.transition(rng);
        let sc = cand.get_score();
        if sc > best_score {
            best_score = sc;
            cur = cand;
        }
        k += 1;
    }
    cur
}

/// Hill climbing: randomize once, then repeat `number` times — perturb a
/// copy of the incumbent, drive it to completion, and keep it only when its
/// score strictly exceeds the incumbent's.
pub fn hill_climb<R: RolloutGame>(state: R, number: usize, rng: &mut rand::rngs::StdRng) -> (r: R)
    requires
        state.wf(),
    ensures
        r.wf(),
        r.sp_done(),
{
    let mut s = state;
    s.init(rng);
    climb_from(s, number, rng)
}

/// Simulated annealing: the same neighbor generation as hill climbing, but
/// a worsening candidate is accepted with probability `exp(delta / temp)`
/// under a linearly decaying temperature, so early iterations can escape
/// local optima.  Temperatures are in thousandths; a schedule that reaches
/// zero is floored at one thousandth before the exponent is computed.  The
/// acceptance draws come from their own generator, seeded with
/// `accept_seed`, so the neighbor stream matches hill climbing's.
pub fn simulated_annealing<R: RolloutGame>(
    state: R,
    number: usize,
    start_temp_milli: u64,
    end_temp_milli: u64,
    rng: &mut rand::rngs::StdRng,
    accept_seed: u64,
) -> (r: R)
    requires
        state.wf(),
        start_temp_milli <= 1_000_000_000_000,
        end_temp_milli <= 1_000_000_000_000,
    ensures
        r.wf(),
        r.sp_done(),
{
    let mut acc_rng = crate::rng::rng_from_seed(accept_seed);
    let mut cur = state;
    cur.init(rng);
    let mut best_score = cur.get_score();
    let mut k: usize = 0;
    while k < number
        invariant
            cur.wf(),
            cur.sp_done(),
            cur.sp_game_score() == best_score as int,
            -SCORE_INF < best_score < SCORE_INF,
            start_temp_milli <= 1_000_000_000_000,
            end_temp_milli <= 1_000_000_000_000,
            k <= number,
        decreases number - k,
    {
        let mut cand = cur.duplicate();
        cand.transition(rng);
        let sc = cand.get_score();
        let accept = if sc > best_score {
            true
        } else {
            let temp = anneal_temperature(start_temp_milli, end_temp_milli, k, number);
            let draw = (crate::rng::next_u64(&mut acc_rng) % 256) as u8;
            accepts(sc - best_score, temp, draw)
        };
        if accept {
            best_score = sc;
            cur = cand;
        }
        k += 1;
    }
    cur
}

} // verus!
