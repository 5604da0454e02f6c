use azul::tile::{wall_color, wall_column};
use azul::{refill_with};
use azul::{
    count_continuous, finish_round, first_player, list_valid_actions, refill_tiles,
    score_placement, stage_tiles, start_round, take_action, take_out_tiles, tile_wall_and_score,
    winner, Action, ActionDisplay, GameError, GameState, PlayerState, State, Tile, Validate,
};

fn pool_total(d: &[usize; 5]) -> usize {
    d.iter().sum()
}

#[test]
fn test_count_continuous() {
    assert_eq!(count_continuous(&[false, true, true, false, false], 0), 2);
    assert_eq!(count_continuous(&[false, true, false, false, false], 2), 1);
    assert_eq!(count_continuous(&[false, false, false, false, false], 2), 0);
    assert_eq!(count_continuous(&[false, true, true, true, false], 4), 3);
    assert_eq!(count_continuous(&[true, true, true, false, false], 3), 3);
}

#[test]
fn count_continuous_counts_both_sides() {
    assert_eq!(count_continuous(&[true, true, false, true, true], 2), 4);
    assert_eq!(count_continuous(&[true, true, true, true, true], 0), 4);
}

#[test]
fn new_game_layout() {
    let s = State::new(3);
    assert_eq!(s.factory_displays.len(), 7);
    assert!(s.factory_displays.iter().all(|d| pool_total(d) == 0));
    assert_eq!(s.center.tiles, [0; 5]);
    assert!(s.center.starting_marker);
    assert_eq!(s.players.len(), 3);
    assert_eq!(s.rounds, 0);
    assert!(s.players.iter().all(|p| p.score == 0 && p.floor_line == 0 && !p.starting_marker));
    assert!(s.is_round_over());
    assert!(!s.is_game_over());
}

#[test]
fn validate_player_count() {
    assert_eq!(State::new(2).validate(), Ok(()));
    assert_eq!(State::new(4).validate(), Ok(()));
    assert_eq!(State::new(1).validate(), Err(GameError::PlayerCount(1)));
    assert_eq!(State::new(5).validate(), Err(GameError::PlayerCount(5)));
}

#[test]
fn refill_adds_four_tiles_per_pool() {
    let mut s = State::new(2);
    s.center.starting_marker = false;
    refill_tiles(&mut s);
    assert_eq!(s.factory_displays.len(), 5);
    for d in &s.factory_displays {
        assert_eq!(pool_total(d), 4);
    }
    assert_eq!(s.center.tiles, [0; 5]);
    assert!(s.center.starting_marker);
    assert!(!s.is_round_over());
}

#[test]
fn round_over_needs_every_source_empty() {
    let mut s = State::new(2);
    s.factory_displays[3][2] = 1;
    assert!(!s.is_round_over());
    s.factory_displays[3][2] = 0;
    s.center.tiles[4] = 2;
    assert!(!s.is_round_over());
    s.center.tiles[4] = 0;
    assert!(s.is_round_over());
}

#[test]
fn game_over_needs_completed_row_and_round_over() {
    let mut s = State::new(2);
    s.players[1].wall[3] = [true; 5];
    assert!(s.players[1].has_completed_row());
    assert!(s.is_game_over());
    s.center.tiles[0] = 1;
    assert!(!s.is_game_over());
}

#[test]
fn legal_actions_exist_while_tiles_remain() {
    let mut s = State::new(2);
    assert!(list_valid_actions(&s, 0).is_empty());
    refill_tiles(&mut s);
    for p in 0..2 {
        assert!(!list_valid_actions(&s, p).is_empty());
    }
}

#[test]
fn legal_actions_enumeration_order() {
    let mut s = State::new(2);
    s.center.tiles[2] = 1;
    let actions = list_valid_actions(&s, 0);
    let lines: Vec<Option<usize>> = actions.iter().map(|a| a.pattern_line_choice).collect();
    assert_eq!(lines, vec![Some(0), Some(1), Some(2), Some(3), Some(4), None]);
    assert!(actions
        .iter()
        .all(|a| a.action_display_choice == ActionDisplay::Center && a.color_choice == Tile::Red));
}

#[test]
fn legal_actions_skip_blocked_rows() {
    let mut s = State::new(2);
    s.factory_displays[1][1] = 1;
    // Row 0 already holds Blue on the wall, row 1 holds another color,
    // row 2 holds Blue with room, row 3 is full of Blue.
    s.players[0].wall[0][wall_column(0, Tile::Blue)] = true;
    s.players[0].pattern_lines[1] = (Some(Tile::Red), 1);
    s.players[0].pattern_lines[2] = (Some(Tile::Blue), 1);
    s.players[0].pattern_lines[3] = (Some(Tile::Blue), 4);
    let actions = list_valid_actions(&s, 0);
    let lines: Vec<Option<usize>> = actions.iter().map(|a| a.pattern_line_choice).collect();
    assert_eq!(lines, vec![Some(2), Some(4), None]);
    assert!(actions.iter().all(|a| a.action_display_choice == ActionDisplay::FactoryDisplay(1)));
}

#[test]
fn legal_actions_keep_bounds() {
    let mut s = State::new(3);
    refill_tiles(&mut s);
    s.players[1].pattern_lines[4] = (Some(Tile::White), 3);
    s.players[1].floor_line = 6;
    for action in list_valid_actions(&s, 1) {
        let mut t = s.clone();
        take_action(&mut t, 1, action);
        for p in &t.players {
            for (i, line) in p.pattern_lines.iter().enumerate() {
                assert!(line.1 <= i + 1);
            }
            assert!(p.floor_line <= 7);
        }
    }
}

#[test]
fn taking_from_pool_moves_the_rest_to_center() {
    let mut s = State::new(2);
    s.factory_displays[0] = [2, 2, 0, 0, 0];
    let taken = take_out_tiles(&mut s, ActionDisplay::FactoryDisplay(0), Tile::Black);
    assert_eq!(taken, 2);
    assert_eq!(s.factory_displays[0], [0; 5]);
    assert_eq!(s.center.tiles, [0, 2, 0, 0, 0]);
}

#[test]
fn taking_from_center_claims_marker_once() {
    let mut s = State::new(2);
    s.center.tiles = [0, 0, 3, 1, 0];
    let first = Action {
        action_display_choice: ActionDisplay::Center,
        color_choice: Tile::Red,
        pattern_line_choice: Some(2),
    };
    take_action(&mut s, 1, first);
    assert!(s.players[1].starting_marker);
    assert!(!s.center.starting_marker);
    assert_eq!(s.center.tiles, [0, 0, 0, 1, 0]);
    assert_eq!(s.players[1].pattern_lines[2], (Some(Tile::Red), 3));
    let second = Action {
        action_display_choice: ActionDisplay::Center,
        color_choice: Tile::White,
        pattern_line_choice: None,
    };
    take_action(&mut s, 0, second);
    assert!(!s.players[0].starting_marker);
    assert_eq!(s.players[0].floor_line, 1);
    assert_eq!(first_player(&s), Some(1));
}

#[test]
fn staging_overflow_goes_to_floor() {
    let mut s = State::new(2);
    stage_tiles(&mut s, 0, Some(1), Tile::Yellow, 4);
    assert_eq!(s.players[0].pattern_lines[1], (Some(Tile::Yellow), 2));
    assert_eq!(s.players[0].floor_line, 2);
    stage_tiles(&mut s, 0, Some(3), Tile::Red, 1);
    stage_tiles(&mut s, 0, Some(3), Tile::Red, 2);
    assert_eq!(s.players[0].pattern_lines[3], (Some(Tile::Red), 3));
    stage_tiles(&mut s, 0, None, Tile::Red, 10);
    assert_eq!(s.players[0].floor_line, 7);
}

#[test]
fn single_tile_scores_one_point() {
    let mut s = State::new(2);
    s.players[0].pattern_lines[0] = (Some(Tile::Blue), 1);
    tile_wall_and_score(&mut s, 0);
    let col = wall_column(0, Tile::Blue);
    assert_eq!(s.players[0].score, 1);
    assert!(s.players[0].wall[0][col]);
    assert_eq!(s.players[0].wall.iter().flatten().filter(|&&x| x).count(), 1);
    assert_eq!(s.players[0].pattern_lines[0], (None, 0));
}

#[test]
fn scoring_tiles_full_rows_only() {
    let mut s = State::new(2);
    s.players[0].pattern_lines[2] = (Some(Tile::Red), 3);
    s.players[0].pattern_lines[3] = (Some(Tile::Black), 2);
    tile_wall_and_score(&mut s, 0);
    let p = &s.players[0];
    assert!(p.wall[2][wall_column(2, Tile::Red)]);
    assert_eq!(p.pattern_lines[2], (None, 0));
    assert_eq!(p.pattern_lines[3], (Some(Tile::Black), 2));
    assert_eq!(p.wall[3], [false; 5]);
    assert_eq!(p.score, 1);
}

#[test]
fn rows_are_tiled_in_order_and_score_adjacency() {
    let mut s = State::new(2);
    // Row 0 places Blue at column 0, row 1 places White at column 0 below it.
    s.players[0].pattern_lines[0] = (Some(Tile::Blue), 1);
    s.players[0].pattern_lines[1] = (Some(Tile::White), 2);
    tile_wall_and_score(&mut s, 0);
    assert_eq!(s.players[0].score, 1 + 1);
}

#[test]
fn floor_penalty_is_subtracted_and_clamped() {
    let mut s = State::new(2);
    s.players[0].score = 10;
    s.players[0].floor_line = 3;
    s.players[1].score = 5;
    s.players[1].floor_line = 7;
    tile_wall_and_score(&mut s, 0);
    tile_wall_and_score(&mut s, 1);
    assert_eq!(s.players[0].score, 6);
    assert_eq!(s.players[0].floor_line, 0);
    assert_eq!(s.players[1].score, 0);
    assert_eq!(s.players[1].floor_line, 0);
}

#[test]
fn placement_scores() {
    let mut wall = [[false; 5]; 5];
    assert_eq!(score_placement(&wall, 0, Tile::Blue), 1);
    wall[0][1] = true;
    assert_eq!(score_placement(&wall, 0, Tile::Blue), 1);
    wall[1][0] = true;
    assert_eq!(score_placement(&wall, 0, Tile::Blue), 2);

    let mut column = [[false; 5]; 5];
    for r in 1..5 {
        column[r][0] = true;
    }
    assert_eq!(score_placement(&column, 0, Tile::Blue), 4 + 7);

    let mut row = [[false; 5]; 5];
    row[0] = [false, true, true, true, true];
    assert_eq!(score_placement(&row, 0, Tile::Blue), 4 + 2);

    let mut color = [[false; 5]; 5];
    for r in 1..5 {
        color[r][wall_column(r, Tile::Blue)] = true;
    }
    assert_eq!(score_placement(&color, 0, Tile::Blue), 1 + 10);
}

#[test]
fn wall_layout() {
    assert_eq!(wall_column(0, Tile::Blue), 0);
    assert_eq!(wall_column(0, Tile::White), 4);
    assert_eq!(wall_column(1, Tile::White), 0);
    assert_eq!(wall_column(4, Tile::Yellow), 0);
    for r in 0..5 {
        for c in 0..5 {
            assert_eq!(wall_column(r, wall_color(r, c)), c);
        }
    }
}

#[test]
fn winner_prefers_lowest_seat_on_tie() {
    let mut s = State::new(3);
    s.players[0].score = 3;
    s.players[1].score = 7;
    s.players[2].score = 7;
    assert_eq!(winner(&s), 1);
    s.players[2].score = 8;
    assert_eq!(winner(&s), 2);
    let t = State::new(4);
    assert_eq!(winner(&t), 0);
}

#[test]
fn first_player_finds_marker() {
    let mut s = State::new(3);
    assert_eq!(first_player(&s), None);
    s.players[2].starting_marker = true;
    assert_eq!(first_player(&s), Some(2));
}

#[test]
fn round_lifecycle() {
    let mut s = State::new(2);
    s.players[1].starting_marker = true;
    let first = start_round(&mut s);
    assert_eq!(first, 1);
    assert!(!s.players[1].starting_marker);
    assert!(s.factory_displays.iter().all(|d| pool_total(d) == 4));
    let none = {
        let mut t = State::new(2);
        start_round(&mut t)
    };
    assert_eq!(none, 0);
    s.players[0].pattern_lines[0] = (Some(Tile::Red), 1);
    finish_round(&mut s);
    assert_eq!(s.rounds, 1);
    assert_eq!(s.players[0].score, 1);
}

#[test]
fn player_state_starts_empty() {
    let p = PlayerState::new();
    assert_eq!(p.score, 0);
    assert_eq!(p.wall, [[false; 5]; 5]);
    assert!(p.pattern_lines.iter().all(|l| *l == (None, 0)));
    assert!(!p.has_completed_row());
}

#[test]
fn refill_with_adds_the_drawn_tiles() {
    let mut s = State::new(2);
    s.center.tiles = [0, 0, 0, 0, 0];
    s.center.starting_marker = false;
    let draws = vec![
        [Tile::Red, Tile::Red, Tile::Blue, Tile::Yellow],
        [Tile::Black; 4],
        [Tile::White, Tile::Blue, Tile::White, Tile::Blue],
        [Tile::Yellow, Tile::Red, Tile::Blue, Tile::Black],
        [Tile::White; 4],
    ];
    refill_with(&mut s, &draws);
    assert_eq!(s.factory_displays[0], [0, 1, 2, 0, 1]);
    assert_eq!(s.factory_displays[1], [4, 0, 0, 0, 0]);
    assert_eq!(s.factory_displays[2], [0, 2, 0, 2, 0]);
    assert_eq!(s.factory_displays[3], [1, 1, 1, 0, 1]);
    assert_eq!(s.factory_displays[4], [0, 0, 0, 4, 0]);
    assert!(s.center.starting_marker);
}
