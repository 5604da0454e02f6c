//! Properties of the rules that hold for every game.
use vstd::prelude::*;

use crate::model::{
    apply_action, board_wf, counts_total, first_max_index, legal_actions, lemma_apply_wf,
    lemma_first_max_index, lemma_legal_action_shape, lemma_pool_actions_nonempty, lemma_score_board,
    lemma_source_actions_nonempty, lemma_tile_rows, line_full, round_over, score_board,
    score_player, scores, state_wf, target_column, BoardView, StateView,
};
use crate::features::{
    board_features, decode_board, lemma_decode_board, lemma_state_features_injective,
    lemma_state_features_len, state_features,
};
use crate::state::{Action, ActionDisplay};

verus! {

/// While any tile is left to draft, every player has a legal action.
pub proof fn legal_actions_nonempty(v: StateView, p: int)
    requires
        state_wf(v),
        0 <= p < v.players.len(),
        !round_over(v),
    ensures
        legal_actions(v, p).len() >= 1,
{
    let b = v.players[p];
    if counts_total(v.center) > 0 {
        let c = if v.center[0] > 0 {
            0
        } else if v.center[1] > 0 {
            1
        } else if v.center[2] > 0 {
            2
        } else if v.center[3] > 0 {
            3
        } else {
            4
        };
        lemma_source_actions_nonempty(b, ActionDisplay::Center, v.center, 5, c);
    } else {
        let i = choose|i: int| 0 <= i < v.pools.len() && counts_total(#[trigger] v.pools[i]) != 0;
        lemma_pool_actions_nonempty(v, b, v.pools.len() as int, i);
    }
}

/// Playing a legal action never leaves a staging row over its capacity nor a
/// floor line above seven tiles; the game stays well formed.
pub proof fn legal_action_keeps_bounds(v: StateView, p: int, a: Action)
    requires
        state_wf(v),
        0 <= p < v.players.len(),
        legal_actions(v, p).contains(a),
    ensures
        state_wf(apply_action(v, p, a)),
        forall|q: int, r: int|
            0 <= q < v.players.len() && 0 <= r < 5 ==> (#[trigger] apply_action(
                v,
                p,
                a,
            ).players[q].lines[r]).1 <= r + 1,
        forall|q: int|
            0 <= q < v.players.len() ==> (#[trigger] apply_action(v, p, a).players[q]).floor <= 7,
{
    lemma_legal_action_shape(v, p, a);
    lemma_apply_wf(v, p, a);
    let w = apply_action(v, p, a);
    assert forall|q: int, r: int| 0 <= q < v.players.len() && 0 <= r < 5 implies (
    #[trigger] w.players[q].lines[r]).1 <= r + 1 by {
        assert(board_wf(w.players[q]));
    }
}

/// Scoring a board tiles, for each exactly full staging row, exactly one wall
/// cell that was free (the one of the row's color) and empties that staging
/// row; no other wall cell of the row changes.
pub proof fn scoring_tiles_full_rows(b: BoardView)
    requires
        board_wf(b),
    ensures
        forall|r: int|
            0 <= r < 5 && #[trigger] line_full(b, r) ==> {
                &&& !b.wall[r][target_column(b, r)]
                &&& score_board(b).wall[r][target_column(b, r)]
                &&& score_board(b).lines[r] == (None::<crate::Tile>, 0nat)
                &&& forall|c: int|
                    0 <= c < 5 && c != target_column(b, r) ==> #[trigger] score_board(b).wall[r][c]
                        == b.wall[r][c]
            },
        forall|r: int|
            0 <= r < 5 && !#[trigger] line_full(b, r) ==> score_board(b).wall[r] == b.wall[r]
                && score_board(b).lines[r] == b.lines[r],
{
    lemma_tile_rows(b, 5);
    assert forall|r: int| 0 <= r < 5 && !#[trigger] line_full(b, r) implies score_board(b).wall[r]
        == b.wall[r] && score_board(b).lines[r] == b.lines[r] by {
        assert(score_board(b).wall[r] =~= b.wall[r]);
    }
}

/// Scores are never negative: scoring any player of a well-formed game
/// leaves a well-formed game, whose scores are all at least zero, and so does
/// any legal action. Every state reached by plies and scoring from a
/// well-formed state is therefore well formed with non-negative scores.
pub proof fn scores_stay_nonnegative(v: StateView, p: int, a: Action)
    requires
        state_wf(v),
        0 <= p < v.players.len(),
        legal_actions(v, p).contains(a),
    ensures
        state_wf(score_player(v, p)),
        state_wf(apply_action(v, p, a)),
        forall|q: int| 0 <= q < v.players.len() ==> #[trigger] v.players[q].score >= 0,
        forall|q: int|
            0 <= q < v.players.len() ==> (#[trigger] score_player(v, p).players[q]).score >= 0,
        forall|q: int|
            0 <= q < v.players.len() ==> (#[trigger] apply_action(v, p, a).players[q]).score >= 0,
{
    lemma_score_board(v.players[p]);
    lemma_legal_action_shape(v, p, a);
    lemma_apply_wf(v, p, a);
    let s = score_player(v, p);
    assert forall|q: int| 0 <= q < s.players.len() implies board_wf(#[trigger] s.players[q]) by {
        if q != p {
            assert(s.players[q] == v.players[q]);
        }
    }
    assert forall|q: int| 0 <= q < v.players.len() implies (#[trigger] apply_action(
        v,
        p,
        a,
    ).players[q]).score >= 0 by {
        assert(board_wf(apply_action(v, p, a).players[q]));
    }
}

/// The winner has the highest score, and every lower seat has a lower score:
/// among tied seats the lowest wins.
pub proof fn winner_is_first_highest(v: StateView)
    requires
        v.players.len() >= 1,
    ensures
        0 <= first_max_index(scores(v), v.players.len() as int) < v.players.len(),
        forall|q: int|
            0 <= q < v.players.len() ==> #[trigger] v.players[q].score <= v.players[first_max_index(
                scores(v),
                v.players.len() as int,
            )].score,
        forall|q: int|
            0 <= q < first_max_index(scores(v), v.players.len() as int) ==> #[trigger] v.players[q].score
                < v.players[first_max_index(scores(v), v.players.len() as int)].score,
{
    let s = scores(v);
    let n = v.players.len() as int;
    lemma_first_max_index(s, n);
    let w = first_max_index(s, n);
    assert forall|q: int| 0 <= q < n implies #[trigger] v.players[q].score <= v.players[w].score by {
        assert(s[q] == v.players[q].score);
    }
    assert forall|q: int| 0 <= q < w implies #[trigger] v.players[q].score < v.players[w].score by {
        assert(s[q] == v.players[q].score);
    }
}

/// A board's feature vector drops nothing: decoding it gives back the score,
/// every wall flag, every staging row's color and count, the floor line and
/// the marker.
pub proof fn features_round_trip(b: BoardView)
    requires
        board_wf(b),
    ensures
        decode_board(board_features(b)) == b,
{
    lemma_decode_board(b);
}

/// Two well-formed boards with the same feature vector are the same board.
pub proof fn features_injective(a: BoardView, b: BoardView)
    requires
        board_wf(a),
        board_wf(b),
        board_features(a) == board_features(b),
    ensures
        a == b,
{
    lemma_decode_board(a);
    lemma_decode_board(b);
}

/// A game's feature vector has a fixed length for a given number of seats,
/// and drops nothing: two well-formed games with as many pools and seats and
/// the same feature vector agree on every pool count, the shared pool and its
/// marker, every board and the round counter.
pub proof fn state_features_faithful(a: StateView, b: StateView)
    requires
        state_wf(a),
        state_wf(b),
        a.pools.len() == b.pools.len(),
        a.players.len() == b.players.len(),
    ensures
        state_features(a).len() == 30 * a.pools.len() + 31 + 58 * a.players.len() + 1,
        state_features(a) == state_features(b) ==> a == b,
{
    lemma_state_features_len(a);
    if state_features(a) == state_features(b) {
        lemma_state_features_injective(a, b);
    }
}

} // verus!
