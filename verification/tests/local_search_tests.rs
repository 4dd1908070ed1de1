use rand::RngCore;
use decision_search::anneal::{accepts, anneal_temperature};
use decision_search::domain::RolloutGame;
use decision_search::local_search::{climb_from, hill_climb, random, simulated_annealing};
use decision_search::time_keeper::TimeKeeper;
use decision_search::walkers::{play_game, test_ai_score, Board, GameState, Player, Spot};

fn seeded_rng(seed: u64) -> rand::rngs::StdRng {
    <rand::rngs::StdRng as rand::SeedableRng>::seed_from_u64(seed)
}

#[test]
fn temperature_interpolates_linearly() {
    // start 2.000, end 1.000 over ten iterations: 2.000, 1.900, ... 1.100.
    assert_eq!(anneal_temperature(2_000, 1_000, 0, 10), 2_000);
    assert_eq!(anneal_temperature(2_000, 1_000, 5, 10), 1_500);
    assert_eq!(anneal_temperature(2_000, 1_000, 9, 10), 1_100);
    // A rising schedule interpolates upward.
    assert_eq!(anneal_temperature(1_000, 3_000, 5, 10), 2_000);
}

#[test]
fn temperature_never_reaches_zero() {
    assert_eq!(anneal_temperature(0, 0, 3, 7), 1);
    assert_eq!(anneal_temperature(10, 0, 9, 10), 1);
}

#[test]
fn acceptance_rule_exact_cases() {
    // A strict improvement is always accepted.
    assert!(accepts(5, 1_000, 255));
    // At the floor temperature a strictly worse candidate is never
    // accepted, whatever the draw.
    assert!(!accepts(-1, 1, 0));
    assert!(!accepts(-1, 1, 255));
    // A tie has acceptance probability one: every draw but the top one
    // accepts.
    assert!(accepts(0, 1, 254));
    assert!(!accepts(0, 1, 255));
    // A mild loss at a warm temperature keeps a high acceptance chance.
    assert!(accepts(-1, 1_000_000, 200));
    // A heavy loss at a cold temperature is hopeless even on the best draw.
    assert!(!accepts(-100, 100, 0));
}

#[test]
fn hill_climb_never_loses_to_its_restart() {
    // The same seeds give hill climbing and the bare random restart the
    // same starting configuration; climbing must end at least as high.
    let mut rng_a = seeded_rng(42);
    let mut restarted = random(GameState::new(7), &mut rng_a);
    let baseline = restarted.get_score();
    let mut rng_b = seeded_rng(42);
    let mut climbed = hill_climb(GameState::new(7), 10, &mut rng_b);
    assert!(climbed.get_score() >= baseline);
}

#[test]
fn climb_from_never_loses_ground() {
    let mut rng_a = seeded_rng(11);
    let mut start = random(GameState::new(3), &mut rng_a);
    let mut probe = start.duplicate();
    let baseline = probe.get_score();
    let mut rng_b = seeded_rng(99);
    let mut climbed = climb_from(start, 8, &mut rng_b);
    assert!(climbed.get_score() >= baseline);
}

#[test]
fn freezing_annealing_behaves_like_hill_climbing() {
    // With both schedule endpoints at zero the temperature is floored for
    // every iteration, worsening candidates are always rejected, and the
    // run retraces hill climbing's exactly.
    let mut rng_a = seeded_rng(21);
    let mut hc = hill_climb(GameState::new(13), 12, &mut rng_a);
    let mut rng_b = seeded_rng(21);
    let mut sa = simulated_annealing(GameState::new(13), 12, 0, 0, &mut rng_b, 5);
    assert_eq!(hc.get_score(), sa.get_score());
}

#[test]
fn annealing_runs_are_reproducible() {
    let mut rng_a = seeded_rng(8);
    let mut one = simulated_annealing(GameState::new(2), 6, 2_000, 10, &mut rng_a, 77);
    let mut rng_b = seeded_rng(8);
    let mut two = simulated_annealing(GameState::new(2), 6, 2_000, 10, &mut rng_b, 77);
    assert_eq!(one.get_score(), two.get_score());
}

#[test]
fn zero_iteration_climb_is_the_bare_restart() {
    let mut rng_a = seeded_rng(6);
    let mut restarted = random(GameState::new(1), &mut rng_a);
    let baseline = restarted.get_score();
    let mut rng_b = seeded_rng(6);
    let mut climbed = hill_climb(GameState::new(1), 0, &mut rng_b);
    assert_eq!(climbed.get_score(), baseline);
    let mut rng_c = seeded_rng(6);
    let mut annealed = simulated_annealing(GameState::new(1), 0, 2_000, 10, &mut rng_c, 3);
    assert_eq!(annealed.get_score(), baseline);
}

#[test]
fn walker_games_are_reproducible() {
    assert_eq!(play_game(5), play_game(5));
}

#[test]
fn walker_mean_score_matches_its_episodes() {
    let mut rng = seeded_rng(4);
    let mut sum: i128 = 0;
    for _ in 0..3 {
        sum += play_game(rng.next_u64()) as i128;
    }
    let expected = (if sum >= 0 { sum / 3 } else { -((-sum) / 3) }) as i64;
    assert_eq!(test_ai_score(3, 4), expected);
}

#[test]
fn built_walker_game_rolls_out_deterministically() {
    // A 2 by 2 board: every walker greedily chases the best neighbor.
    let board = Board {
        h: 2,
        w: 2,
        points: vec![1, 2, 3, 4],
    };
    let player = Player {
        s0: Spot { x: 0, y: 0 },
        s1: Spot { x: 0, y: 0 },
        s2: Spot { x: 1, y: 1 },
    };
    let mut one = GameState::build(board, player, 4);
    let board2 = Board {
        h: 2,
        w: 2,
        points: vec![1, 2, 3, 4],
    };
    let mut two = GameState::build(board2, player, 4);
    assert_eq!(one.get_score(), two.get_score());
}

#[test]
fn zero_threshold_budget_is_always_over() {
    let keeper = TimeKeeper::build(0);
    assert!(keeper.is_time_over());
    let local = TimeKeeper::build_local(0);
    assert!(local.is_time_over());
}

#[test]
fn fresh_generous_budget_is_not_over() {
    let keeper = TimeKeeper::build(600_000);
    assert!(!keeper.is_time_over());
}
