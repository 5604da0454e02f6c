use azul::strategy::ROLLOUT_GAMES;
use azul::{mcts_ply_with, pick_index, ply_weights, play_random_with};
use azul::{
    calculate_reward, choose_action, greedy_action, list_valid_actions, mcts_ply, play_greedy,
    play_mcts, play_random, random_action, refill_tiles, rewards_dist, rollout_search,
    take_action, Action, ActionDisplay, GameState, State, Strategy, Tile,
};

fn single_action_state() -> State {
    let mut s = State::new(2);
    s.center.tiles = [1, 0, 0, 0, 0];
    for r in 0..5 {
        s.players[0].pattern_lines[r] = (Some(Tile::Blue), r + 1);
    }
    s
}

#[test]
fn rewards_dist_clamps_negatives() {
    assert_eq!(rewards_dist(vec![-1, 0, 3]), vec![0, 0, 3]);
    assert_eq!(rewards_dist(vec![5, 2]), vec![5, 2]);
}

#[test]
fn rewards_dist_falls_back_to_uniform() {
    assert_eq!(rewards_dist(vec![-2, 0, -7]), vec![1, 1, 1]);
    assert_eq!(rewards_dist(vec![0]), vec![1]);
    assert_eq!(rewards_dist(Vec::new()), Vec::<usize>::new());
}

#[test]
fn reward_of_completing_a_row() {
    let mut s = State::new(2);
    s.center.tiles = [0, 0, 2, 0, 0];
    let to_row = Action {
        action_display_choice: ActionDisplay::Center,
        color_choice: Tile::Red,
        pattern_line_choice: Some(1),
    };
    let to_floor = Action {
        action_display_choice: ActionDisplay::Center,
        color_choice: Tile::Red,
        pattern_line_choice: None,
    };
    let to_big_row = Action {
        action_display_choice: ActionDisplay::Center,
        color_choice: Tile::Red,
        pattern_line_choice: Some(4),
    };
    assert_eq!(calculate_reward(&s, 0, to_row), 1);
    assert_eq!(calculate_reward(&s, 0, to_big_row), 0);
    assert_eq!(calculate_reward(&s, 0, to_floor), 0);
    s.players[0].score = 10;
    assert_eq!(calculate_reward(&s, 0, to_floor), -2);
}

#[test]
fn greedy_takes_first_best_action() {
    let mut s = State::new(2);
    refill_tiles(&mut s);
    let actions = list_valid_actions(&s, 0);
    let rewards: Vec<i32> = actions.iter().map(|a| calculate_reward(&s, 0, *a)).collect();
    let best = rewards.iter().copied().max().unwrap();
    let first = rewards.iter().position(|r| *r == best).unwrap();
    assert_eq!(greedy_action(&s, 0), actions[first]);
    assert_eq!(choose_action(Strategy::Greedy, &s, 0), actions[first]);
    let mut expected = s.clone();
    take_action(&mut expected, 0, actions[first]);
    play_greedy(&mut s, 0);
    assert_eq!(s.center.tiles, expected.center.tiles);
    assert_eq!(s.factory_displays, expected.factory_displays);
    assert_eq!(s.players[0].pattern_lines, expected.players[0].pattern_lines);
    assert_eq!(s.players[0].floor_line, expected.players[0].floor_line);
}

#[test]
fn greedy_prefers_a_completed_row() {
    let mut s = State::new(2);
    s.center.tiles = [0, 0, 0, 0, 1];
    let a = greedy_action(&s, 0);
    assert_eq!(a.pattern_line_choice, Some(0));
    assert_eq!(a.color_choice, Tile::Yellow);
}

#[test]
fn random_action_is_legal() {
    let mut s = State::new(3);
    refill_tiles(&mut s);
    let actions = list_valid_actions(&s, 2);
    for _ in 0..50 {
        let a = random_action(&s, 2);
        assert!(actions.contains(&a));
        let b = mcts_ply(&s, 2);
        assert!(actions.contains(&b));
    }
    let before: usize = s.factory_displays.iter().flatten().sum::<usize>()
        + s.center.tiles.iter().sum::<usize>();
    play_random(&mut s, 2);
    let after: usize = s.factory_displays.iter().flatten().sum::<usize>()
        + s.center.tiles.iter().sum::<usize>();
    assert!(after < before);
}

#[test]
fn sampling_never_picks_zero_weight() {
    let mut s = State::new(2);
    s.center.tiles = [0, 0, 0, 0, 1];
    let actions = list_valid_actions(&s, 0);
    assert_eq!(actions.len(), 6);
    let mut row_zero = 0;
    for _ in 0..200 {
        if mcts_ply(&s, 0).pattern_line_choice == Some(0) {
            row_zero += 1;
        }
    }
    // Only row 0 has a positive reward; the rest comes from exploration.
    assert!(row_zero >= 150);
}

#[test]
fn rollout_with_single_action_uses_full_budget() {
    let s = single_action_state();
    let actions = list_valid_actions(&s, 0);
    assert_eq!(actions.len(), 1);
    let outcome = rollout_search(&s, 0, ROLLOUT_GAMES);
    assert_eq!(outcome.best, 0);
    assert_eq!(outcome.actions, actions);
    assert_eq!(outcome.candidates.len(), 1);
    assert_eq!(outcome.candidates[0].trials, ROLLOUT_GAMES);
    assert_eq!(outcome.candidates[0].scores.len(), ROLLOUT_GAMES);
    assert!(outcome.candidates[0].wins <= ROLLOUT_GAMES);
    assert!(outcome.candidates[0].scores.iter().all(|x| *x >= 0));
}

#[test]
fn rollout_logs_every_game() {
    let mut s = State::new(2);
    refill_tiles(&mut s);
    let outcome = rollout_search(&s, 1, 12);
    let total: usize = outcome.candidates.iter().map(|c| c.trials).sum();
    assert_eq!(total, 12);
    let best = outcome.best;
    assert!(outcome.candidates[best].trials > 0);
    let value = |c: &azul::CandidateLog| c.scores.iter().copied().max().unwrap_or(-1);
    let top = value(&outcome.candidates[best]);
    for (i, c) in outcome.candidates.iter().enumerate() {
        assert!(value(c) <= top);
        if i < best {
            assert!(value(c) < top);
        }
    }
}

#[test]
fn mcts_plays_the_only_action() {
    let mut s = single_action_state();
    play_mcts(&mut s, 0);
    assert_eq!(s.center.tiles, [0; 5]);
    assert_eq!(s.players[0].floor_line, 1);
    assert!(s.players[0].starting_marker);
    assert!(s.is_round_over());
}

#[test]
fn pick_index_follows_exploration_roll() {
    let weights = vec![0, 3, 1];
    assert_eq!(pick_index(&weights, 2, 0, 1), 0);
    assert_eq!(pick_index(&weights, 4, 2, 1), 2);
    assert_eq!(pick_index(&weights, 5, 0, 1), 1);
    assert_eq!(pick_index(&weights, 99, 0, 2), 2);
}

#[test]
fn ply_with_given_draws() {
    let mut s = State::new(2);
    s.center.tiles = [0, 0, 0, 0, 1];
    let actions = list_valid_actions(&s, 0);
    let weights = ply_weights(&s, 0);
    assert_eq!(weights, vec![1, 0, 0, 0, 0, 0]);
    assert_eq!(mcts_ply_with(&s, 0, &weights, 50, 3, 0), actions[0]);
    assert_eq!(mcts_ply_with(&s, 0, &weights, 1, 3, 0), actions[3]);
    assert_eq!(actions[3].pattern_line_choice, Some(3));
}

#[test]
fn play_random_with_applies_kth_action() {
    let mut s = State::new(2);
    s.center.tiles = [0, 0, 2, 0, 0];
    let actions = list_valid_actions(&s, 1);
    assert_eq!(actions[4].pattern_line_choice, Some(4));
    play_random_with(&mut s, 1, 4);
    assert_eq!(s.players[1].pattern_lines[4], (Some(Tile::Red), 2));
    assert!(s.players[1].starting_marker);
    assert_eq!(s.center.tiles, [0; 5]);
}
