//! Rules engine and playing strategies for a tile-drafting board game for two
//! to four players.
//!
//! A game is a [`State`]: draw pools, a shared pool with the first-player
//! marker, and one [`PlayerState`] board per seat. The rules engine lists the
//! legal [`Action`]s of a seat, applies them and scores the walls at the end
//! of each round; the strategies choose actions uniformly at random, greedily
//! by immediate reward, or by rollout search. Every rule is proved against
//! the mathematical model in [`model`].
use vstd::prelude::*;

pub mod features;
pub mod laws;
pub mod model;
pub mod random;
pub mod rules;
pub mod state;
pub mod strategy;
pub mod tile;

pub use rules::{
    count_continuous, finish_round, find_empty_lines, first_player, list_valid_actions,
    list_valid_lines, score_placement, stage_tiles, start_round, take_action, take_out_tiles,
    tile_wall_and_score, wall_row_has_color, winner,
};
pub use state::{
    build_empty_display, has_no_tiles, refill_tiles, refill_with, Action, ActionDisplay, CenterState,
    FactoryDisplayState, GameError, GameState, PlayerState, State, Validate,
};
pub use strategy::{
    calculate_reward, choose_action, greedy_action, mcts_action, mcts_ply, mcts_ply_with,
    pick_index, play_greedy, play_mcts, play_random, play_random_with, ply_weights, random_action,
    rewards_dist, rollout_search, CandidateLog, SearchOutcome, Strategy,
};
pub use tile::{Tile, COLORS, FLOOR_PENALTIES};

verus! {

/// A move that was played: the seat and its action.
#[derive(Clone, Copy, Debug)]
pub struct Move {
    pub player: usize,
    pub action: Action,
}

} // verus!
