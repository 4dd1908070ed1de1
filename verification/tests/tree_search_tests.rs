use rand::RngCore;
use decision_search::chokudai::{chokudai_search_action, chokudai_search_action_with_time_threshold};
use decision_search::domain::{Game, SCORE_INF};
use decision_search::grid_game::{
    play_game, play_game_from, test_ai_score, Action, Board, GameState, Player,
};
use decision_search::tree_search::{
    beam_search_action, beam_search_action_with_time_threshold, greedy_action, random_action,
};

fn two_by_two() -> GameState {
    // Point values: (0,0) -> 3, (0,1) -> 1, (1,0) -> 0, (1,1) -> 5.
    let board = Board {
        h: 2,
        w: 2,
        points: vec![3, 1, 0, 5],
    };
    let player = Player { x: 0, y: 0 };
    GameState::build(board, player, 2)
}

fn one_by_one() -> GameState {
    let board = Board {
        h: 1,
        w: 1,
        points: vec![4],
    };
    let player = Player { x: 0, y: 0 };
    GameState::build(board, player, 3)
}

#[test]
fn beam_search_two_by_two_scenario() {
    // Depth 1: Right collects 1, Down collects 0.  Depth 2: Right then Down
    // collects 1 + 5 = 6, the best reachable total, so the chosen first
    // action is Right and the driven game totals 6.
    let st = two_by_two();
    assert_eq!(beam_search_action(&st, 2, 2), Some(Action::Right));
    // At depth one the choice is the best immediate successor, which is
    // also Right here (it collects 1, Down collects 0).
    assert_eq!(beam_search_action(&st, 2, 1), Some(Action::Right));
    assert_eq!(play_game_from(st), 6);
}

#[test]
fn beam_search_first_action_is_legal() {
    let st = two_by_two();
    let legal = st.legal_actions();
    let a = beam_search_action(&st, 2, 2).unwrap();
    assert!(legal.contains(&a));
    let b = chokudai_search_action(&st, 2, 2, 2).unwrap();
    assert!(legal.contains(&b));
    let c = greedy_action(&st).unwrap();
    assert!(legal.contains(&c));
}

#[test]
fn beam_search_none_iff_no_legal_action() {
    let stuck = one_by_one();
    assert!(stuck.legal_actions().is_empty());
    assert_eq!(beam_search_action(&stuck, 2, 5), None);
    let open = two_by_two();
    assert!(beam_search_action(&open, 2, 5).is_some());
    // Degenerate budgets never answer, whatever the state.
    assert_eq!(beam_search_action(&open, 0, 5), None);
    assert_eq!(beam_search_action(&open, 2, 0), None);
}

#[test]
fn every_engine_returns_none_on_dead_end() {
    let stuck = one_by_one();
    let mut rng = <rand::rngs::StdRng as rand::SeedableRng>::seed_from_u64(1);
    assert_eq!(random_action(&stuck, &mut rng), None);
    assert_eq!(greedy_action(&stuck), None);
    assert_eq!(beam_search_action(&stuck, 2, 5), None);
    assert_eq!(
        beam_search_action_with_time_threshold(&stuck, 2, 1_000),
        None
    );
    assert_eq!(chokudai_search_action(&stuck, 2, 5, 3), None);
    assert_eq!(
        chokudai_search_action_with_time_threshold(&stuck, 2, 5, 1_000),
        None
    );
}

#[test]
fn dead_end_game_reports_sentinel() {
    let stuck = one_by_one();
    assert_eq!(play_game_from(stuck), -SCORE_INF);
}

#[test]
fn greedy_takes_best_one_ply_and_first_wins_ties() {
    let st = two_by_two();
    // Right collects 1, Down collects 0.
    assert_eq!(greedy_action(&st), Some(Action::Right));
    // On a tie the first-enumerated action (Down) wins.
    let tied = GameState::build(
        Board {
            h: 2,
            w: 2,
            points: vec![0, 2, 2, 0],
        },
        Player { x: 0, y: 0 },
        2,
    );
    assert_eq!(greedy_action(&tied), Some(Action::Down));
}

#[test]
fn random_action_is_always_legal() {
    let st = two_by_two();
    let legal = st.legal_actions();
    let mut rng = <rand::rngs::StdRng as rand::SeedableRng>::seed_from_u64(7);
    for _ in 0..32 {
        let a = random_action(&st, &mut rng).unwrap();
        assert!(legal.contains(&a));
    }
}

fn drive(mut st: GameState, width: usize, depth: usize) -> i64 {
    loop {
        if st.is_done() {
            return st.game_score;
        }
        match beam_search_action(&st, width, depth) {
            Some(a) => st.apply(a),
            None => return -SCORE_INF,
        }
    }
}

#[test]
fn wider_and_deeper_beams_never_score_worse_here() {
    // On this deterministic grid, raising the width or the depth never
    // lowers the driven total.
    let narrow = drive(two_by_two(), 1, 2);
    let wide = drive(two_by_two(), 2, 2);
    assert!(wide >= narrow);
    let shallow = drive(two_by_two(), 2, 1);
    let deep = drive(two_by_two(), 2, 2);
    assert!(deep >= shallow);
    assert_eq!(deep, 6);
}

#[test]
fn generous_deadline_matches_fixed_depth_beam() {
    // With a far-away deadline the anytime beam search runs to the horizon
    // and answers exactly as the fixed-depth search does.
    let st = two_by_two();
    let timed = beam_search_action_with_time_threshold(&st, 2, 10_000);
    let fixed = beam_search_action(&st, 2, 2);
    assert_eq!(timed, fixed);
    assert_eq!(timed, Some(Action::Right));
}

#[test]
fn expired_deadline_answers_with_nothing() {
    let st = two_by_two();
    assert_eq!(beam_search_action_with_time_threshold(&st, 2, 0), None);
}

#[test]
fn chokudai_two_by_two_scenario() {
    let st = two_by_two();
    assert_eq!(chokudai_search_action(&st, 2, 2, 1), Some(Action::Right));
    assert_eq!(chokudai_search_action(&st, 2, 2, 3), Some(Action::Right));
    // A single level: the best immediate successor answers.
    assert_eq!(chokudai_search_action(&st, 2, 1, 2), Some(Action::Right));
    assert_eq!(
        chokudai_search_action_with_time_threshold(&st, 2, 1, 0),
        Some(Action::Right)
    );
}

#[test]
fn chokudai_none_iff_nothing_expandable() {
    let open = two_by_two();
    assert_eq!(chokudai_search_action(&open, 0, 2, 1), None);
    assert_eq!(chokudai_search_action(&open, 2, 0, 1), None);
    assert_eq!(chokudai_search_action(&open, 2, 2, 0), None);
    assert!(chokudai_search_action(&open, 1, 1, 1).is_some());
}

#[test]
fn chokudai_expired_deadline_is_one_round() {
    // A zero budget still runs exactly one round, so it answers as the
    // fixed variant does with a single round.
    let st = two_by_two();
    let timed = chokudai_search_action_with_time_threshold(&st, 2, 2, 0);
    let fixed = chokudai_search_action(&st, 2, 2, 1);
    assert_eq!(timed, fixed);
    assert_eq!(timed, Some(Action::Right));
}

#[test]
fn seeded_games_are_reproducible() {
    let a = play_game(5);
    let b = play_game(5);
    assert_eq!(a, b);
    assert!((0..=90).contains(&a));
}

#[test]
fn mean_score_matches_its_episodes() {
    let mut rng = <rand::rngs::StdRng as rand::SeedableRng>::seed_from_u64(9);
    let mut sum: i128 = 0;
    for _ in 0..3 {
        sum += play_game(rng.next_u64()) as i128;
    }
    let expected = (sum / 3) as i64;
    assert_eq!(test_ai_score(3, 9), expected);
}
