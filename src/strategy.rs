//! Playing strategies: uniform random, greedy on immediate reward, and
//! rollout search.
use vstd::prelude::*;

use crate::laws::legal_actions_nonempty;
use crate::model::{
    apply_action, first_max_index, game_over, legal_actions, lemma_legal_action_shape,
    lemma_reward_bound, lemma_score_board, reward, round_over, scores, state_wf, tiles_in_play,
    ROUND_GAIN_LIMIT, StateView,
};
use crate::random::{random_below, weighted_index, weights_total};
use crate::rules::{list_valid_actions, take_action, tile_wall_and_score, winner};
use crate::state::{
    lemma_pools_total_nonneg, lemma_pools_total_zero, refill_tiles, Action, GameState, State,
};

verus! {

/// The rewards of player `p`'s legal actions, in enumeration order.
pub open spec fn rewards(v: StateView, p: int) -> Seq<int> {
    legal_actions(v, p).map_values(|a: Action| reward(v, p, a))
}

/// Player `p` can be scored without the score leaving `i32`.
pub open spec fn score_fits(v: StateView, p: int) -> bool {
    v.players[p].score <= i32::MAX - ROUND_GAIN_LIMIT
}

/// Immediate reward of `action` for player `player_idx`: on one copy of the
/// game the player is scored as things stand, on another the action is played
/// and then the player is scored; the reward is the difference of the two
/// scores.
pub fn calculate_reward(state: &State, player_idx: usize, action: Action) -> (r: i32)
    requires
        state_wf(state@),
        player_idx < state@.players.len(),
        legal_actions(state@, player_idx as int).contains(action),
        score_fits(state@, player_idx as int),
    ensures
        r == reward(state@, player_idx as int, action),
{
    let ghost v = state@;
    proof {
        lemma_legal_action_shape(v, player_idx as int, action);
        crate::model::lemma_apply_wf(v, player_idx as int, action);
        lemma_score_board(v.players[player_idx as int]);
        lemma_score_board(apply_action(v, player_idx as int, action).players[player_idx as int]);
    }
    let mut baseline = state.snapshot();
    let mut played = state.snapshot();
    tile_wall_and_score(&mut baseline, player_idx);
    take_action(&mut played, player_idx, action);
    tile_wall_and_score(&mut played, player_idx);
    assert(played.players@[player_idx as int].score == played@.players[player_idx as int].score);
    assert(baseline.players@[player_idx as int].score == baseline@.players[player_idx as int].score);
    played.players[player_idx].score - baseline.players[player_idx].score
}

/// The rewards of every action in `actions`, which are legal for the player.
fn rewards_of(state: &State, player_idx: usize, actions: &Vec<Action>) -> (r: Vec<i32>)
    requires
        state_wf(state@),
        player_idx < state@.players.len(),
        actions@ == legal_actions(state@, player_idx as int),
        score_fits(state@, player_idx as int),
    ensures
        r@.len() == actions@.len(),
        forall|i: int|
            0 <= i < r@.len() ==> #[trigger] r@[i] == reward(state@, player_idx as int, actions@[i]),
        forall|i: int| 0 <= i < r@.len() ==> #[trigger] r@[i] <= ROUND_GAIN_LIMIT + 14,
        reward_ints(r@) == rewards(state@, player_idx as int),
{
    let mut gains: Vec<i32> = Vec::new();
    let mut i: usize = 0;
    while i < actions.len()
        invariant
            i <= actions@.len(),
            state_wf(state@),
            player_idx < state@.players.len(),
            actions@ == legal_actions(state@, player_idx as int),
            score_fits(state@, player_idx as int),
            gains@.len() == i,
            forall|k: int|
                0 <= k < i ==> #[trigger] gains@[k] == reward(
                    state@,
                    player_idx as int,
                    actions@[k],
                ),
            forall|k: int| 0 <= k < i ==> #[trigger] gains@[k] <= ROUND_GAIN_LIMIT + 14,
        decreases actions@.len() - i,
    {
        assert(legal_actions(state@, player_idx as int)[i as int] == actions@[i as int]);
        proof {
            lemma_legal_action_shape(state@, player_idx as int, actions@[i as int]);
            lemma_reward_bound(state@, player_idx as int, actions@[i as int]);
        }
        let r = calculate_reward(state, player_idx, actions[i]);
        gains.push(r);
        i = i + 1;
    }
    assert(reward_ints(gains@) =~= rewards(state@, player_idx as int));
    gains
}

/// The action with the highest immediate reward for player `player_idx`;
/// among equal rewards the first in enumeration order.
pub fn greedy_action(state: &State, player_idx: usize) -> (r: Action)
    requires
        state_wf(state@),
        player_idx < state@.players.len(),
        !round_over(state@),
        score_fits(state@, player_idx as int),
    ensures
        r == legal_actions(state@, player_idx as int)[first_max_index(
            rewards(state@, player_idx as int),
            legal_actions(state@, player_idx as int).len() as int,
        )],
{
    let ghost v = state@;
    let ghost rs = rewards(v, player_idx as int);
    proof {
        legal_actions_nonempty(v, player_idx as int);
    }
    let actions = list_valid_actions(state, player_idx);
    let gains = rewards_of(state, player_idx, &actions);
    let mut best: usize = 0;
    let mut i: usize = 1;
    while i < actions.len()
        invariant
            1 <= i <= actions@.len(),
            actions@ == legal_actions(v, player_idx as int),
            gains@.len() == actions@.len(),
            forall|k: int| 0 <= k < gains@.len() ==> #[trigger] gains@[k] == rs[k],
            rs == rewards(v, player_idx as int),
            best == first_max_index(rs, i as int),
            best < i,
        decreases actions@.len() - i,
    {
        if gains[i] > gains[best] {
            best = i;
        }
        i = i + 1;
    }
    actions[best]
}

/// Player `player_idx` plays the action of highest immediate reward; among
/// equal rewards the first in enumeration order.
pub fn play_greedy(state: &mut State, player_idx: usize)
    requires
        state_wf(old(state)@),
        player_idx < old(state)@.players.len(),
        !round_over(old(state)@),
        score_fits(old(state)@, player_idx as int),
    ensures
        final(state)@ == apply_action(
            old(state)@,
            player_idx as int,
            legal_actions(old(state)@, player_idx as int)[first_max_index(
                rewards(old(state)@, player_idx as int),
                legal_actions(old(state)@, player_idx as int).len() as int,
            )],
        ),
        state_wf(final(state)@),
{
    let action = greedy_action(state, player_idx);
    proof {
        let acts = legal_actions(state@, player_idx as int);
        legal_actions_nonempty(state@, player_idx as int);
        crate::model::lemma_first_max_index(rewards(state@, player_idx as int), acts.len() as int);
        assert(acts.contains(action));
    }
    take_action(state, player_idx, action);
}

/// A uniformly random legal action of player `player_idx`.
pub fn random_action(state: &State, player_idx: usize) -> (r: Action)
    requires
        state_wf(state@),
        player_idx < state@.players.len(),
        !round_over(state@),
    ensures
        legal_actions(state@, player_idx as int).contains(r),
{
    proof {
        legal_actions_nonempty(state@, player_idx as int);
    }
    let actions = list_valid_actions(state, player_idx);
    let i = random_below(actions.len());
    assert(actions@[i as int] == legal_actions(state@, player_idx as int)[i as int]);
    actions[i]
}

/// Player `player_idx` plays the `k`-th legal action in enumeration order.
pub fn play_random_with(state: &mut State, player_idx: usize, k: usize)
    requires
        state_wf(old(state)@),
        player_idx < old(state)@.players.len(),
        k < legal_actions(old(state)@, player_idx as int).len(),
    ensures
        final(state)@ == apply_action(
            old(state)@,
            player_idx as int,
            legal_actions(old(state)@, player_idx as int)[k as int],
        ),
        state_wf(final(state)@),
{
    let actions = list_valid_actions(state, player_idx);
    let action = actions[k];
    assert(legal_actions(state@, player_idx as int).contains(action)) by {
        assert(legal_actions(state@, player_idx as int)[k as int] == action);
    }
    take_action(state, player_idx, action);
}

/// Player `player_idx` plays a uniformly random legal action.
pub fn play_random(state: &mut State, player_idx: usize)
    requires
        state_wf(old(state)@),
        player_idx < old(state)@.players.len(),
        !round_over(old(state)@),
    ensures
        exists|a: Action|
            legal_actions(old(state)@, player_idx as int).contains(a) && final(state)@
                == apply_action(old(state)@, player_idx as int, a),
        state_wf(final(state)@),
{
    proof {
        legal_actions_nonempty(state@, player_idx as int);
    }
    let n = list_valid_actions(state, player_idx).len();
    let k = random_below(n);
    play_random_with(state, player_idx, k);
    assert(legal_actions(old(state)@, player_idx as int).contains(
        legal_actions(old(state)@, player_idx as int)[k as int],
    ));
}

/// Every reward is zero or less.
pub open spec fn all_nonpositive(rewards: Seq<int>) -> bool {
    forall|i: int| 0 <= i < rewards.len() ==> #[trigger] rewards[i] <= 0
}

/// Sampling weights for `rewards`: each reward clamped at zero, or, when no
/// reward is positive, the same weight 1 for every entry.
pub open spec fn reward_weights(rewards: Seq<int>) -> Seq<usize> {
    if all_nonpositive(rewards) {
        Seq::new(rewards.len(), |i: int| 1usize)
    } else {
        Seq::new(rewards.len(), |i: int| if rewards[i] > 0 { rewards[i] as usize } else { 0usize })
    }
}

/// Rewards as integers.
pub open spec fn reward_ints(rewards: Seq<i32>) -> Seq<int> {
    rewards.map_values(|x: i32| x as int)
}

/// The sampling weights of player `p`'s legal actions, in enumeration order.
pub open spec fn action_weights(v: StateView, p: int) -> Seq<usize> {
    reward_weights(rewards(v, p))
}

/// Turns rewards into sampling weights: negative rewards count as zero, and
/// when every weight would be zero all weights are 1 instead.
pub fn rewards_dist(rewards: Vec<i32>) -> (r: Vec<usize>)
    ensures
        r@ == reward_weights(reward_ints(rewards@)),
{
    let ghost rs = reward_ints(rewards@);
    let mut clamped: Vec<usize> = Vec::new();
    let mut all_zero = true;
    let mut i: usize = 0;
    while i < rewards.len()
        invariant
            i <= rewards@.len(),
            rs == reward_ints(rewards@),
            clamped@ =~= Seq::new(
                i as nat,
                |k: int| if rewards@[k] > 0 { rewards@[k] as usize } else { 0usize },
            ),
            all_zero == forall|k: int| 0 <= k < i ==> #[trigger] rewards@[k] <= 0,
        decreases rewards@.len() - i,
    {
        let r = rewards[i];
        if r > 0 {
            clamped.push(r as usize);
            all_zero = false;
        } else {
            clamped.push(0);
        }
        i = i + 1;
    }
    assert(all_zero == all_nonpositive(rs)) by {
        if !all_zero {
            let k = choose|k: int| 0 <= k < rewards@.len() && !(#[trigger] rewards@[k] <= 0);
            assert(!(rs[k] <= 0));
        }
    }
    if all_zero {
        let mut ones: Vec<usize> = Vec::new();
        let mut j: usize = 0;
        while j < rewards.len()
            invariant
                j <= rewards@.len(),
                ones@ =~= Seq::new(j as nat, |k: int| 1usize),
            decreases rewards@.len() - j,
        {
            ones.push(1);
            j = j + 1;
        }
        assert(ones@ =~= reward_weights(rs));
        ones
    } else {
        assert(clamped@ =~= reward_weights(rs));
        clamped
    }
}

proof fn lemma_weights_total_bound(w: Seq<usize>, n: int, bound: int)
    requires
        0 <= n <= w.len(),
        forall|i: int| 0 <= i < n ==> #[trigger] w[i] <= bound,
    ensures
        0 <= weights_total(w, n) <= bound * n,
    decreases n,
{
    if n > 0 {
        lemma_weights_total_bound(w, n - 1, bound);
        assert(bound * n == bound * (n - 1) + bound) by (nonlinear_arith);
    } else {
        assert(bound * n == 0) by (nonlinear_arith)
            requires
                n == 0,
        ;
    }
}

/// The weights of rewards that are at most `ROUND_GAIN_LIMIT + 14` each can
/// be sampled: some weight is positive and their sum fits in `usize`.
proof fn lemma_reward_weights(rewards: Seq<int>, max_len: int)
    requires
        1 <= rewards.len() <= max_len <= 30 * (2 * crate::model::SEAT_LIMIT + 2),
        forall|i: int| 0 <= i < rewards.len() ==> #[trigger] rewards[i] <= ROUND_GAIN_LIMIT + 14,
    ensures
        exists|i: int|
            0 <= i < reward_weights(rewards).len() && #[trigger] reward_weights(rewards)[i] > 0,
        weights_total(reward_weights(rewards), rewards.len() as int) <= usize::MAX,
        reward_weights(rewards).len() == rewards.len(),
{
    let w = reward_weights(rewards);
    if all_nonpositive(rewards) {
        assert(w[0] > 0);
    } else {
        let i = choose|i: int| 0 <= i < rewards.len() && !(#[trigger] rewards[i] <= 0);
        assert(w[i] > 0);
    }
    lemma_weights_total_bound(w, rewards.len() as int, ROUND_GAIN_LIMIT + 14);
    assert((ROUND_GAIN_LIMIT + 14) * rewards.len() <= (ROUND_GAIN_LIMIT + 14) * max_len) by (
    nonlinear_arith)
        requires
            rewards.len() <= max_len,
            ROUND_GAIN_LIMIT + 14 >= 0,
    ;
}

/// The sampling weights of player `player_idx`'s legal actions; at least one
/// is positive and their sum fits in `usize`.
pub fn ply_weights(state: &State, player_idx: usize) -> (r: Vec<usize>)
    requires
        state_wf(state@),
        player_idx < state@.players.len(),
        !round_over(state@),
        score_fits(state@, player_idx as int),
    ensures
        r@ == action_weights(state@, player_idx as int),
        r@.len() == legal_actions(state@, player_idx as int).len(),
        r@.len() > 0,
        exists|i: int| 0 <= i < r@.len() && r@[i] > 0,
        weights_total(r@, r@.len() as int) <= usize::MAX,
{
    proof {
        legal_actions_nonempty(state@, player_idx as int);
        crate::model::lemma_legal_actions_len(state@, player_idx as int);
    }
    let actions = list_valid_actions(state, player_idx);
    let gains = rewards_of(state, player_idx, &actions);
    let ghost rs = rewards(state@, player_idx as int);
    assert(reward_ints(gains@) =~= rs);
    proof {
        lemma_reward_weights(rs, 30 * (state@.pools.len() + 1) as int);
    }
    let weights = rewards_dist(gains);
    proof {
        let i = choose|i: int| 0 <= i < reward_weights(rs).len() && #[trigger] reward_weights(rs)[i]
            > 0;
        assert(weights@[i] > 0);
    }
    weights
}

/// Percentage of draws in which a rollout explores with a uniformly random
/// action instead of sampling by reward.
pub const EXPLORE_PERCENT: usize = 5;

/// The index a rollout takes from its three draws: `uniform` when the
/// exploration roll (out of 100) is below `EXPLORE_PERCENT`, else `weighted`.
pub open spec fn pick(explore_roll: usize, uniform: usize, weighted: usize) -> usize {
    if explore_roll < EXPLORE_PERCENT {
        uniform
    } else {
        weighted
    }
}

/// Chooses between a uniformly drawn index and one drawn by weight, by the
/// exploration roll; an exploiting choice never has weight zero.
pub fn pick_index(weights: &Vec<usize>, explore_roll: usize, uniform: usize, weighted: usize) -> (r:
    usize)
    requires
        uniform < weights@.len(),
        weighted < weights@.len(),
        weights@[weighted as int] > 0,
    ensures
        r == pick(explore_roll, uniform, weighted),
        r < weights@.len(),
        explore_roll >= EXPLORE_PERCENT ==> weights@[r as int] > 0,
{
    if explore_roll < EXPLORE_PERCENT {
        uniform
    } else {
        weighted
    }
}

/// One ply of a rollout for player `player_idx`, given its draws: the
/// exploration roll out of 100, a uniform index and an index drawn by the
/// weights `weights`, which are the ones `ply_weights` gives.
pub fn mcts_ply_with(
    state: &State,
    player_idx: usize,
    weights: &Vec<usize>,
    explore_roll: usize,
    uniform: usize,
    weighted: usize,
) -> (r: Action)
    requires
        state_wf(state@),
        player_idx < state@.players.len(),
        weights@ == action_weights(state@, player_idx as int),
        uniform < weights@.len(),
        weighted < weights@.len(),
        weights@[weighted as int] > 0,
    ensures
        r == legal_actions(state@, player_idx as int)[pick(explore_roll, uniform, weighted) as int],
        explore_roll >= EXPLORE_PERCENT ==> action_weights(state@, player_idx as int)[pick(
            explore_roll,
            uniform,
            weighted,
        ) as int] > 0,
        legal_actions(state@, player_idx as int).contains(r),
{
    let actions = list_valid_actions(state, player_idx);
    let i = pick_index(weights, explore_roll, uniform, weighted);
    assert(actions@[i as int] == legal_actions(state@, player_idx as int)[i as int]);
    actions[i]
}

/// One ply of a rollout for player `player_idx`: a legal action sampled by
/// immediate reward, or with small probability uniformly.
pub fn mcts_ply(state: &State, player_idx: usize) -> (r: Action)
    requires
        state_wf(state@),
        player_idx < state@.players.len(),
        !round_over(state@),
        score_fits(state@, player_idx as int),
    ensures
        legal_actions(state@, player_idx as int).contains(r),
{
    let weights = ply_weights(state, player_idx);
    let explore_roll = random_below(100);
    let uniform = random_below(weights.len());
    let weighted = weighted_index(&weights);
    mcts_ply_with(state, player_idx, &weights, explore_roll, uniform, weighted)
}

/// Number of simulated games that `play_mcts` runs.
pub const ROLLOUT_GAMES: usize = 200;

/// Most rounds a simulated game is continued for after the current one.
pub const ROLLOUT_ROUND_LIMIT: usize = 1000;

/// Largest score a player may hold when a rollout starts; with the round
/// limit it keeps every simulated score within `i32`.
pub const SCORE_LIMIT: i32 = 1_000_000_000;

/// Every player's score is at most `bound`.
pub open spec fn scores_within(v: StateView, bound: int) -> bool {
    forall|q: int| 0 <= q < v.players.len() ==> #[trigger] v.players[q].score <= bound
}

/// The rounds counter leaves room for a whole rollout.
pub open spec fn rounds_fit(v: StateView) -> bool {
    v.rounds + ROLLOUT_ROUND_LIMIT < usize::MAX
}

/// `f` is a state in which a rollout from `v` may end: well formed, with the
/// same seats, at the end of a round, and either over or at the round limit.
pub open spec fn rollout_end(v: StateView, f: StateView) -> bool {
    &&& state_wf(f)
    &&& f.players.len() == v.players.len()
    &&& round_over(f)
    &&& (game_over(f) || f.rounds == v.rounds + ROLLOUT_ROUND_LIMIT + 1)
}

/// `score` and `won` are player `p`'s final score and victory in some state
/// where a rollout from `v` may end.
pub open spec fn rollout_outcome(v: StateView, p: int, score: int, won: bool) -> bool {
    exists|f: StateView|
        #[trigger] rollout_end(v, f) && score == f.players[p].score && won == (first_max_index(
            scores(f),
            f.players.len() as int,
        ) == p)
}

/// `score` is player `p`'s final score in some state where a rollout from
/// `v` may end.
pub open spec fn rollout_score(v: StateView, p: int, score: int) -> bool {
    exists|f: StateView| #[trigger] rollout_end(v, f) && score == f.players[p].score
}

/// Plays out a copy of the game after player `player_idx` plays `first`:
/// seats take turns round-robin with `mcts_ply`, each finished round scores
/// every seat and refills the pools, until the game is over or the round
/// limit is reached. Returns the player's final score and whether the player
/// won.
fn simulate_game(state: &State, player_idx: usize, first: Action) -> (r: (i32, bool))
    requires
        state_wf(state@),
        player_idx < state@.players.len(),
        legal_actions(state@, player_idx as int).contains(first),
        scores_within(state@, SCORE_LIMIT as int),
        rounds_fit(state@),
    ensures
        r.0 >= 0,
        rollout_outcome(state@, player_idx as int, r.0 as int, r.1),
{
    let ghost v = state@;
    let mut future = state.snapshot();
    take_action(&mut future, player_idx, first);
    let n = future.players.len();
    let mut next = player_idx;
    let mut rounds_left: usize = ROLLOUT_ROUND_LIMIT;
    loop
        invariant_except_break
            scores_within(
                future@,
                SCORE_LIMIT + ROUND_GAIN_LIMIT * (ROLLOUT_ROUND_LIMIT - rounds_left),
            ),
            future@.rounds == v.rounds + (ROLLOUT_ROUND_LIMIT - rounds_left),
        invariant
            state_wf(future@),
            n == future@.players.len(),
            n == v.players.len(),
            next < n,
            player_idx < n,
            rounds_left <= ROLLOUT_ROUND_LIMIT,
            rounds_fit(v),
        ensures
            state_wf(future@),
            n == future@.players.len(),
            player_idx < n,
            rollout_end(v, future@),
        decreases rounds_left,
    {
        proof {
            lemma_pools_total_nonneg(future@.pools, future@.pools.len() as int);
        }
        while !future.is_round_over()
            invariant
                state_wf(future@),
                n == future@.players.len(),
                next < n,
                player_idx < n,
                rounds_left <= ROLLOUT_ROUND_LIMIT,
                scores_within(
                    future@,
                    SCORE_LIMIT + ROUND_GAIN_LIMIT * (ROLLOUT_ROUND_LIMIT - rounds_left),
                ),
                tiles_in_play(future@) >= 0,
                rounds_fit(v),
                future@.rounds == v.rounds + (ROLLOUT_ROUND_LIMIT - rounds_left),
            decreases tiles_in_play(future@),
        {
            next = (next + 1) % n;
            let action = mcts_ply(&future, next);
            take_action(&mut future, next, action);
            proof {
                lemma_pools_total_nonneg(future@.pools, future@.pools.len() as int);
            }
        }
        let ghost bound = SCORE_LIMIT + ROUND_GAIN_LIMIT * (ROLLOUT_ROUND_LIMIT - rounds_left);
        future.rounds = future.rounds + 1;
        let ghost rounds_now = future@.rounds;
        assert(rounds_now == v.rounds + (ROLLOUT_ROUND_LIMIT - rounds_left) + 1);
        let mut q: usize = 0;
        while q < n
            invariant
                state_wf(future@),
                n == future@.players.len(),
                q <= n,
                next < n,
                player_idx < n,
                rounds_left <= ROLLOUT_ROUND_LIMIT,
                bound == SCORE_LIMIT + ROUND_GAIN_LIMIT * (ROLLOUT_ROUND_LIMIT - rounds_left),
                round_over(future@),
                future@.rounds == rounds_now,
                forall|k: int|
                    0 <= k < n ==> #[trigger] future@.players[k].score <= bound + if k < q {
                        ROUND_GAIN_LIMIT as int
                    } else {
                        0
                    },
            decreases n - q,
        {
            let ghost before = future@;
            proof {
                lemma_score_board(before.players[q as int]);
            }
            tile_wall_and_score(&mut future, q);
            assert forall|k: int| 0 <= k < n implies #[trigger] future@.players[k].score <= bound
                + if k < q + 1 {
                ROUND_GAIN_LIMIT as int
            } else {
                0
            } by {
                if k != q {
                    assert(future@.players[k] == before.players[k]);
                }
            }
            q = q + 1;
        }
        if future.is_game_over() || rounds_left == 0 {
            break;
        }
        rounds_left = rounds_left - 1;
        proof {
            lemma_pools_total_zero(future@.pools, future@.pools.len() as int);
        }
        refill_tiles(&mut future);
    }
    let score = future.players[player_idx].score;
    assert(score == future@.players[player_idx as int].score);
    let won = winner(&future) == player_idx;
    assert(rollout_end(v, future@));
    (score, won)
}

/// What the rollouts recorded for one candidate first action: the player's
/// final score in each simulated game, the games won and the games played.
pub struct CandidateLog {
    pub scores: Vec<i32>,
    pub wins: usize,
    pub trials: usize,
}

/// Result of a rollout search: the legal actions in enumeration order, the
/// log of each, and the index of the chosen one.
pub struct SearchOutcome {
    pub best: usize,
    pub actions: Vec<Action>,
    pub candidates: Vec<CandidateLog>,
}

/// A consistent log: one score per trial, each non-negative, and no more
/// wins than trials.
pub open spec fn log_ok(c: CandidateLog) -> bool {
    &&& c.trials == c.scores@.len()
    &&& c.wins <= c.trials
    &&& forall|i: int| 0 <= i < c.scores@.len() ==> #[trigger] c.scores@[i] >= 0
}

/// The highest of the scores, or -1 when there is none.
pub open spec fn best_score(s: Seq<i32>) -> int
    decreases s.len(),
{
    if s.len() == 0 {
        -1
    } else {
        let m = best_score(s.drop_last());
        if s.last() > m {
            s.last() as int
        } else {
            m
        }
    }
}

/// Each candidate's highest recorded score.
pub open spec fn candidate_values(c: Seq<CandidateLog>) -> Seq<int> {
    c.map_values(|x: CandidateLog| best_score(x.scores@))
}

/// Trials recorded by the first `n` candidates.
pub open spec fn trials_total(c: Seq<CandidateLog>, n: int) -> int
    decreases n,
{
    if n <= 0 {
        0
    } else {
        trials_total(c, n - 1) + c[n - 1].trials
    }
}

proof fn lemma_trials_total_update(c: Seq<CandidateLog>, i: int, x: CandidateLog, n: int)
    requires
        0 <= i < c.len(),
        0 <= n <= c.len(),
    ensures
        trials_total(c.update(i, x), n) == trials_total(c, n) + if i < n {
            x.trials - c[i].trials
        } else {
            0
        },
    decreases n,
{
    if n > 0 {
        lemma_trials_total_update(c, i, x, n - 1);
    }
}

proof fn lemma_trials_total_bound(c: Seq<CandidateLog>, i: int, n: int)
    requires
        0 <= i < n <= c.len(),
        forall|k: int| 0 <= k < c.len() ==> #[trigger] c[k].trials >= 0,
    ensures
        c[i].trials <= trials_total(c, n),
    decreases n,
{
    lemma_trials_total_nonneg(c, n - 1);
    if i < n - 1 {
        lemma_trials_total_bound(c, i, n - 1);
    }
}

proof fn lemma_trials_total_nonneg(c: Seq<CandidateLog>, n: int)
    requires
        n <= c.len(),
    ensures
        trials_total(c, n) >= 0,
    decreases n,
{
    if n > 0 {
        lemma_trials_total_nonneg(c, n - 1);
    }
}

proof fn lemma_trials_total_zero(c: Seq<CandidateLog>, n: int)
    requires
        n <= c.len(),
        forall|k: int| 0 <= k < n ==> (#[trigger] c[k]).trials == 0,
    ensures
        trials_total(c, n) == 0,
    decreases n,
{
    if n > 0 {
        lemma_trials_total_zero(c, n - 1);
    }
}

proof fn lemma_trials_total_positive(c: Seq<CandidateLog>, n: int)
    requires
        n <= c.len(),
        trials_total(c, n) > 0,
    ensures
        exists|k: int| 0 <= k < n && (#[trigger] c[k]).trials > 0,
    decreases n,
{
    if n > 0 && c[n - 1].trials == 0 {
        lemma_trials_total_positive(c, n - 1);
    }
}

/// Every score is at most the best, and a non-empty list of non-negative
/// scores has a non-negative best.
proof fn lemma_best_score(s: Seq<i32>)
    ensures
        forall|i: int| 0 <= i < s.len() ==> #[trigger] s[i] <= best_score(s),
        best_score(s) >= -1,
        s.len() > 0 && s[0] >= 0 ==> best_score(s) >= 0,
        s.len() == 0 ==> best_score(s) == -1,
    decreases s.len(),
{
    if s.len() > 0 {
        lemma_best_score(s.drop_last());
        assert forall|i: int| 0 <= i < s.len() implies #[trigger] s[i] <= best_score(s) by {
            if i < s.len() - 1 {
                assert(s[i] == s.drop_last()[i]);
            }
        }
    }
}

/// The highest of the scores, or -1 when there is none.
fn max_score(scores: &Vec<i32>) -> (r: i32)
    ensures
        r == best_score(scores@),
{
    let mut best: i32 = -1;
    let mut i: usize = 0;
    while i < scores.len()
        invariant
            i <= scores@.len(),
            best == best_score(scores@.subrange(0, i as int)),
        decreases scores@.len() - i,
    {
        assert(scores@.subrange(0, i + 1).drop_last() =~= scores@.subrange(0, i as int));
        if scores[i] > best {
            best = scores[i];
        }
        i = i + 1;
    }
    assert(scores@.subrange(0, scores@.len() as int) =~= scores@);
    best
}

/// Rollout search for player `player_idx`: runs `n_games` simulated games,
/// each starting with a first action sampled by immediate reward (or, with
/// small probability, uniformly) and continued by `simulate_game`, logs the
/// outcome under that first action, and chooses among the candidates that
/// were tried the one with the highest recorded final score, the first in
/// enumeration order among equals.
pub fn rollout_search(state: &State, player_idx: usize, n_games: usize) -> (r: SearchOutcome)
    requires
        state_wf(state@),
        player_idx < state@.players.len(),
        !round_over(state@),
        scores_within(state@, SCORE_LIMIT as int),
        rounds_fit(state@),
        n_games >= 1,
    ensures
        r.actions@ == legal_actions(state@, player_idx as int),
        r.candidates@.len() == r.actions@.len(),
        forall|j: int| 0 <= j < r.candidates@.len() ==> log_ok(#[trigger] r.candidates@[j]),
        trials_total(r.candidates@, r.candidates@.len() as int) == n_games,
        r.best < r.actions@.len(),
        r.best == first_max_index(candidate_values(r.candidates@), r.candidates@.len() as int),
        r.candidates@[r.best as int].trials > 0,
        r.actions@.len() == 1 ==> r.best == 0 && r.candidates@[0].trials == n_games,
        forall|j: int, i: int|
            0 <= j < r.candidates@.len() && 0 <= i < r.candidates@[j].scores@.len() ==> rollout_score(
                state@,
                player_idx as int,
                #[trigger] r.candidates@[j].scores@[i] as int,
            ),
{
    let ghost v = state@;
    proof {
        legal_actions_nonempty(v, player_idx as int);
        crate::model::lemma_legal_actions_len(v, player_idx as int);
    }
    let actions = list_valid_actions(state, player_idx);
    let weights = ply_weights(state, player_idx);
    let mut candidates: Vec<CandidateLog> = Vec::new();
    let mut j: usize = 0;
    while j < actions.len()
        invariant
            j <= actions@.len(),
            candidates@.len() == j,
            forall|k: int| 0 <= k < j ==> log_ok(#[trigger] candidates@[k]),
            forall|k: int| 0 <= k < j ==> (#[trigger] candidates@[k]).trials == 0,
        decreases actions@.len() - j,
    {
        candidates.push(CandidateLog { scores: Vec::new(), wins: 0, trials: 0 });
        j = j + 1;
    }
    proof {
        lemma_trials_total_zero(candidates@, candidates@.len() as int);
    }
    let mut game: usize = 0;
    while game < n_games
        invariant
            game <= n_games,
            state_wf(state@),
            v == state@,
            player_idx < state@.players.len(),
            scores_within(state@, SCORE_LIMIT as int),
            rounds_fit(state@),
            actions@ == legal_actions(v, player_idx as int),
            weights@.len() == actions@.len(),
            actions@.len() > 0,
            exists|i: int| 0 <= i < weights@.len() && weights@[i] > 0,
            weights_total(weights@, weights@.len() as int) <= usize::MAX,
            candidates@.len() == actions@.len(),
            forall|k: int| 0 <= k < candidates@.len() ==> log_ok(#[trigger] candidates@[k]),
            trials_total(candidates@, candidates@.len() as int) == game,
            forall|k: int, i: int|
                0 <= k < candidates@.len() && 0 <= i < candidates@[k].scores@.len()
                    ==> rollout_score(v, player_idx as int, #[trigger] candidates@[k].scores@[i] as int),
        decreases n_games - game,
    {
        let explore_roll = random_below(100);
        let uniform = random_below(weights.len());
        let weighted = weighted_index(&weights);
        let idx = pick_index(&weights, explore_roll, uniform, weighted);
        assert(actions@[idx as int] == legal_actions(v, player_idx as int)[idx as int]);
        let outcome = simulate_game(state, player_idx, actions[idx]);
        let score = outcome.0;
        let won = outcome.1;
        let ghost before = candidates@;
        proof {
            lemma_trials_total_bound(before, idx as int, before.len() as int);
        }
        let mut entry = candidates.remove(idx);
        assert(entry == before[idx as int]);
        entry.scores.push(score);
        entry.trials = entry.trials + 1;
        if won {
            entry.wins = entry.wins + 1;
        }
        candidates.insert(idx, entry);
        assert(candidates@ =~= before.update(idx as int, entry));
        proof {
            lemma_trials_total_update(before, idx as int, entry, before.len() as int);
            assert forall|i: int| 0 <= i < entry.scores@.len() implies #[trigger] entry.scores@[i]
                >= 0 by {
                if i < entry.scores@.len() - 1 {
                    assert(entry.scores@[i] == before[idx as int].scores@[i]);
                }
            }
            assert forall|k: int| 0 <= k < candidates@.len() implies log_ok(
                #[trigger] candidates@[k],
            ) by {
                if k != idx {
                    assert(candidates@[k] == before[k]);
                }
            }
            let f = choose|f: StateView|
                #[trigger] rollout_end(v, f) && score == f.players[player_idx as int].score && won == (
                first_max_index(scores(f), f.players.len() as int) == player_idx);
            assert(rollout_score(v, player_idx as int, score as int));
            assert forall|k: int, i: int|
                0 <= k < candidates@.len() && 0 <= i < candidates@[k].scores@.len() implies rollout_score(
                v,
                player_idx as int,
                #[trigger] candidates@[k].scores@[i] as int,
            ) by {
                if k != idx {
                    assert(candidates@[k] == before[k]);
                } else if i < candidates@[k].scores@.len() - 1 {
                    assert(candidates@[k].scores@[i] == before[k].scores@[i]);
                }
            }
        }
        game = game + 1;
    }
    let ghost values = candidate_values(candidates@);
    let mut best: usize = 0;
    let mut best_value: i32 = max_score(&candidates[0].scores);
    let mut i: usize = 1;
    while i < candidates.len()
        invariant
            1 <= i <= candidates@.len(),
            values == candidate_values(candidates@),
            best == first_max_index(values, i as int),
            best < i,
            best_value == values[best as int],
        decreases candidates@.len() - i,
    {
        let value = max_score(&candidates[i].scores);
        if value > best_value {
            best = i;
            best_value = value;
        }
        i = i + 1;
    }
    proof {
        crate::model::lemma_first_max_index(values, candidates@.len() as int);
        lemma_trials_total_positive(candidates@, candidates@.len() as int);
        let tried = choose|k: int|
            0 <= k < candidates@.len() && (#[trigger] candidates@[k]).trials > 0;
        lemma_best_score(candidates@[tried].scores@);
        lemma_best_score(candidates@[best as int].scores@);
        assert(values[tried] >= 0);
        assert(trials_total(candidates@, 0) == 0);
        assert(trials_total(candidates@, 1) == candidates@[0].trials);
    }
    SearchOutcome { best, actions, candidates }
}

/// The action that rollout search with `ROLLOUT_GAMES` simulated games
/// chooses for player `player_idx`.
pub fn mcts_action(state: &State, player_idx: usize) -> (r: Action)
    requires
        state_wf(state@),
        player_idx < state@.players.len(),
        !round_over(state@),
        scores_within(state@, SCORE_LIMIT as int),
        rounds_fit(state@),
    ensures
        legal_actions(state@, player_idx as int).contains(r),
        legal_actions(state@, player_idx as int).len() == 1 ==> r == legal_actions(
            state@,
            player_idx as int,
        )[0],
{
    let outcome = rollout_search(state, player_idx, ROLLOUT_GAMES);
    assert(outcome.actions@[outcome.best as int] == legal_actions(state@, player_idx as int)[outcome.best as int]);
    outcome.actions[outcome.best]
}

/// Player `player_idx` plays the action that rollout search chooses.
pub fn play_mcts(state: &mut State, player_idx: usize)
    requires
        state_wf(old(state)@),
        player_idx < old(state)@.players.len(),
        !round_over(old(state)@),
        scores_within(old(state)@, SCORE_LIMIT as int),
        rounds_fit(old(state)@),
    ensures
        exists|a: Action|
            legal_actions(old(state)@, player_idx as int).contains(a) && final(state)@
                == apply_action(old(state)@, player_idx as int, a),
        state_wf(final(state)@),
        legal_actions(old(state)@, player_idx as int).len() == 1 ==> final(state)@ == apply_action(
            old(state)@,
            player_idx as int,
            legal_actions(old(state)@, player_idx as int)[0],
        ),
{
    let action = mcts_action(state, player_idx);
    take_action(state, player_idx, action);
}

/// A playing policy that can be assigned to a seat.
#[derive(Clone, Copy, Debug, PartialEq, Eq, Structural)]
pub enum Strategy {
    Random,
    Greedy,
    Rollout,
}

/// The action that `strategy` chooses for player `player_idx`.
pub fn choose_action(strategy: Strategy, state: &State, player_idx: usize) -> (r: Action)
    requires
        state_wf(state@),
        player_idx < state@.players.len(),
        !round_over(state@),
        scores_within(state@, SCORE_LIMIT as int),
        rounds_fit(state@),
    ensures
        legal_actions(state@, player_idx as int).contains(r),
        strategy == Strategy::Greedy ==> r == legal_actions(state@, player_idx as int)[first_max_index(
            rewards(state@, player_idx as int),
            legal_actions(state@, player_idx as int).len() as int,
        )],
{
    match strategy {
        Strategy::Random => random_action(state, player_idx),
        Strategy::Greedy => {
            let a = greedy_action(state, player_idx);
            proof {
                legal_actions_nonempty(state@, player_idx as int);
                crate::model::lemma_first_max_index(
                    rewards(state@, player_idx as int),
                    legal_actions(state@, player_idx as int).len() as int,
                );
                assert(legal_actions(state@, player_idx as int).contains(a));
            }
            a
        },
        Strategy::Rollout => mcts_action(state, player_idx),
    }
}

} // verus!
