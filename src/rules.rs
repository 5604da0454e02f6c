//! The rules engine: legal actions, applying them, tiling and scoring.
use vstd::prelude::*;

use crate::model::{
    after_take, apply_action, board_wf, clamp_floor, color_actions, color_full_with,
    column_full_with, column_of, continuous, counts_total, first_max_index, legal_actions,
    line_accepts, line_full, open_rows, placement_score, pool_actions, round_over, row_full_with,
    run_after, run_before, score_board, score_player, scores, source_actions, stage, state_wf,
    take_out, taken_count, tile_rows, tiled_full_rows, tiles_in_play, valid_lines, BoardView,
    ROUND_GAIN_LIMIT, StateView,
};
use crate::state::{
    counts_view, lemma_pool_within_total, wall_view, Action, ActionDisplay, PlayerState, State,
};
use crate::tile::{floor_penalty_of, spec_wall_column, tile_at, tile_index, wall_column, Tile};

verus! {

/// The wall cell of `color` in row `row_idx` is tiled.
pub fn wall_row_has_color(wall: &[[bool; 5]; 5], row_idx: usize, color: Tile) -> (r: bool)
    requires
        row_idx < 5,
    ensures
        r == wall_view(*wall)[row_idx as int][spec_wall_column(row_idx as int, color)],
{
    let col = wall_column(row_idx, color);
    wall[row_idx][col]
}

/// The staging rows of player `player_idx` that accept `color`, in
/// increasing order.
pub fn find_empty_lines(state: &State, color: Tile, player_idx: usize) -> (r: Vec<usize>)
    requires
        player_idx < state@.players.len(),
        state_wf(state@),
    ensures
        r@ == open_rows(state@.players[player_idx as int], color, 5),
{
    let ghost b = state@.players[player_idx as int];
    let player = &state.players[player_idx];
    assert(b == player@);
    let mut empty_line_ids: Vec<usize> = Vec::new();
    let mut i: usize = 0;
    while i < 5
        invariant
            i <= 5,
            b == player@,
            empty_line_ids@ == open_rows(b, color, i as int),
        decreases 5 - i,
    {
        let line = player.pattern_lines[i];
        let accepts = match line.0 {
            None => !wall_row_has_color(&player.wall, i, color),
            Some(tile) => tile == color && line.1 < i + 1,
        };
        assert(accepts == line_accepts(b, i as int, color));
        if accepts {
            empty_line_ids.push(i);
        }
        assert(empty_line_ids@ =~= open_rows(b, color, i + 1));
        i = i + 1;
    }
    empty_line_ids
}

/// The destinations open to `color` for player `player_idx`: the accepting
/// staging rows, then the floor line (`None`).
pub fn list_valid_lines(state: &State, player_idx: usize, color: Tile) -> (r: Vec<Option<usize>>)
    requires
        player_idx < state@.players.len(),
        state_wf(state@),
    ensures
        r@ == valid_lines(state@.players[player_idx as int], color),
{
    let empty_lines = find_empty_lines(state, color, player_idx);
    let ghost rows = empty_lines@;
    let mut lines: Vec<Option<usize>> = Vec::new();
    let mut i: usize = 0;
    while i < empty_lines.len()
        invariant
            i <= empty_lines@.len(),
            rows == empty_lines@,
            lines@ == rows.subrange(0, i as int).map_values(|r: usize| Some(r)),
        decreases empty_lines@.len() - i,
    {
        lines.push(Some(empty_lines[i]));
        assert(lines@ =~= rows.subrange(0, i + 1).map_values(|r: usize| Some(r)));
        i = i + 1;
    }
    assert(rows.subrange(0, rows.len() as int) =~= rows);
    lines.push(None);
    lines
}

/// Appends to `actions` every action of player `player_idx` that takes a
/// color from source `src`, which holds `counts`.
fn push_source_actions(
    state: &State,
    player_idx: usize,
    src: ActionDisplay,
    counts: [usize; 5],
    actions: &mut Vec<Action>,
)
    requires
        player_idx < state@.players.len(),
        state_wf(state@),
    ensures
        final(actions)@ == old(actions)@ + source_actions(
            state@.players[player_idx as int],
            src,
            counts_view(counts),
            5,
        ),
{
    let ghost b = state@.players[player_idx as int];
    let ghost start = actions@;
    let mut c: usize = 0;
    while c < 5
        invariant
            c <= 5,
            player_idx < state@.players.len(),
            state_wf(state@),
            b == state@.players[player_idx as int],
            actions@ == start + source_actions(b, src, counts_view(counts), c as int),
        decreases 5 - c,
    {
        if counts[c] > 0 {
            let color = tile_at(c);
            let lines = list_valid_lines(state, player_idx, color);
            let ghost before = actions@;
            let ghost all = color_actions(b, src, color);
            let mut j: usize = 0;
            while j < lines.len()
                invariant
                    j <= lines@.len(),
                    lines@ == valid_lines(b, color),
                    all == color_actions(b, src, color),
                    all.len() == lines@.len(),
                    actions@ == before + all.subrange(0, j as int),
                decreases lines@.len() - j,
            {
                actions.push(
                    Action {
                        action_display_choice: src,
                        color_choice: color,
                        pattern_line_choice: lines[j],
                    },
                );
                assert(actions@ =~= before + all.subrange(0, j + 1));
                j = j + 1;
            }
            assert(all.subrange(0, all.len() as int) =~= all);
        }
        assert(actions@ =~= start + source_actions(b, src, counts_view(counts), c + 1));
        c = c + 1;
    }
}

/// Every legal action of player `player_idx`: for each draw pool, then the
/// shared pool, for each color it holds, every destination open to it.
pub fn list_valid_actions(state: &State, player_idx: usize) -> (r: Vec<Action>)
    requires
        player_idx < state@.players.len(),
        state_wf(state@),
    ensures
        r@ == legal_actions(state@, player_idx as int),
{
    let ghost v = state@;
    let ghost b = v.players[player_idx as int];
    let mut actions: Vec<Action> = Vec::new();
    let mut display_idx: usize = 0;
    while display_idx < state.factory_displays.len()
        invariant
            display_idx <= v.pools.len(),
            v == state@,
            b == v.players[player_idx as int],
            player_idx < state@.players.len(),
            state_wf(state@),
            actions@ == pool_actions(v, b, display_idx as int),
        decreases v.pools.len() - display_idx,
    {
        assert(v.pools[display_idx as int] == counts_view(state.factory_displays@[display_idx as int]));
        push_source_actions(
            state,
            player_idx,
            ActionDisplay::FactoryDisplay(display_idx),
            state.factory_displays[display_idx],
            &mut actions,
        );
        display_idx = display_idx + 1;
    }
    push_source_actions(state, player_idx, ActionDisplay::Center, state.center.tiles, &mut actions);
    actions
}

/// Takes every tile of `color` out of the source `action` and returns how
/// many there were. Taking from a draw pool moves its other tiles to the
/// shared pool and empties it.
pub fn take_out_tiles(state: &mut State, action: ActionDisplay, color: Tile) -> (count: usize)
    requires
        state_wf(old(state)@),
        action matches ActionDisplay::FactoryDisplay(i) ==> i < old(state)@.pools.len(),
    ensures
        count == taken_count(old(state)@, action, color),
        final(state)@ == take_out(old(state)@, action, color),
{
    let ghost v = state@;
    let ci = tile_index(color);
    match action {
        ActionDisplay::Center => {
            let count = state.center.tiles[ci];
            state.center.tiles[ci] = 0;
            assert(state@.center =~= v.center.update(ci as int, 0));
            count
        },
        ActionDisplay::FactoryDisplay(i) => {
            let display = state.factory_displays[i];
            assert(v.pools[i as int] == counts_view(display));
            proof {
                lemma_pool_within_total(v.pools, i as int, v.pools.len() as int);
            }
            let mut tiles = state.center.tiles;
            let mut c: usize = 0;
            while c < 5
                invariant
                    c <= 5,
                    ci < 5,
                    counts_total(v.center) + counts_total(counts_view(display)) <= usize::MAX,
                    v.center == counts_view(state.center.tiles),
                    forall|k: int|
                        0 <= k < 5 ==> #[trigger] tiles[k] as int == if k < c && k != ci {
                            state.center.tiles[k] + display[k]
                        } else {
                            state.center.tiles[k] as int
                        },
                decreases 5 - c,
            {
                if c != ci {
                    assert(v.center[c as int] + counts_view(display)[c as int] <= usize::MAX);
                    tiles[c] = tiles[c] + display[c];
                }
                c = c + 1;
            }
            state.center.tiles = tiles;
            state.factory_displays.set(i, crate::state::build_empty_display());
            assert(state@.center =~= take_out(v, action, color).center);
            assert(state@.pools =~= take_out(v, action, color).pools);
            display[ci]
        },
    }
}

/// `floor + n`, capped at seven.
fn add_to_floor(floor: usize, n: usize) -> (r: usize)
    requires
        floor <= 7,
    ensures
        r == clamp_floor(floor + n),
{
    if n >= 7 - floor {
        7
    } else {
        floor + n
    }
}

impl PlayerState {
    /// Stages `count` tiles of `color`: a staging row is filled up to its
    /// capacity and the rest goes to the floor line; with `None` all go to the
    /// floor line. The floor line keeps at most seven.
    pub fn stage(&mut self, line: Option<usize>, color: Tile, count: usize)
        requires
            board_wf(old(self)@),
            line matches Some(r) ==> r < 5,
        ensures
            final(self)@ == stage(old(self)@, line, color, count as nat),
    {
        let ghost b = self@;
        match line {
            None => {
                self.floor_line = add_to_floor(self.floor_line, count);
            },
            Some(idx) => {
                let fill = self.pattern_lines[idx].1;
                assert(b.lines[idx as int].1 == fill);
                let space = idx + 1 - fill;
                if count <= space {
                    self.pattern_lines[idx] = (Some(color), fill + count);
                    self.floor_line = add_to_floor(self.floor_line, 0);
                } else {
                    self.pattern_lines[idx] = (Some(color), idx + 1);
                    self.floor_line = add_to_floor(self.floor_line, count - space);
                }
                assert(self@.lines =~= stage(b, line, color, count as nat).lines);
            },
        }
        assert(self@.wall =~= b.wall);
    }
}

/// Stages `count` tiles of `color` for player `player_idx`; see
/// `PlayerState::stage`.
pub fn stage_tiles(
    state: &mut State,
    player_idx: usize,
    line: Option<usize>,
    color: Tile,
    count: usize,
)
    requires
        state_wf(old(state)@),
        player_idx < old(state)@.players.len(),
        line matches Some(r) ==> r < 5,
    ensures
        final(state)@ == (StateView {
            players: old(state)@.players.update(
                player_idx as int,
                stage(old(state)@.players[player_idx as int], line, color, count as nat),
            ),
            ..old(state)@
        }),
{
    let ghost v = state@;
    let mut player = state.players[player_idx];
    assert(player@ == v.players[player_idx as int]);
    player.stage(line, color, count);
    state.players.set(player_idx, player);
    assert(state@.players =~= v.players.update(player_idx as int, player@));
}

/// Player `player_idx` plays `action`: its tiles are taken out, the
/// first-player marker moves to the player when taken from the shared pool
/// for the first time in the round, and the tiles are staged.
pub fn take_action(state: &mut State, player_idx: usize, action: Action)
    requires
        state_wf(old(state)@),
        player_idx < old(state)@.players.len(),
        legal_actions(old(state)@, player_idx as int).contains(action),
    ensures
        final(state)@ == apply_action(old(state)@, player_idx as int, action),
        state_wf(final(state)@),
        tiles_in_play(final(state)@) < tiles_in_play(old(state)@),
        forall|q: int|
            0 <= q < old(state)@.players.len() ==> (#[trigger] final(state)@.players[q]).score
                == old(state)@.players[q].score,
{
    let ghost v = state@;
    proof {
        crate::model::lemma_legal_action_shape(v, player_idx as int, action);
        crate::model::lemma_take_out(v, action.action_display_choice, action.color_choice);
        crate::model::lemma_apply_wf(v, player_idx as int, action);
    }
    let count = take_out_tiles(state, action.action_display_choice, action.color_choice);
    if let ActionDisplay::Center = action.action_display_choice {
        if state.center.starting_marker {
            let mut player = state.players[player_idx];
            let ghost before = state@;
            assert(player@ == before.players[player_idx as int]);
            player.starting_marker = true;
            state.players.set(player_idx, player);
            state.center.starting_marker = false;
            assert(player@ =~= BoardView { marker: true, ..before.players[player_idx as int] });
            assert(state@.players =~= before.players.update(player_idx as int, player@));
        }
    }
    assert(state@ == after_take(v, player_idx as int, action));
    stage_tiles(state, player_idx, action.pattern_line_choice, action.color_choice, count);
}

/// Number of unbroken tiled cells directly next to `anchor` on either side,
/// the anchor itself not counted.
pub fn count_continuous(array: &[bool; 5], anchor: usize) -> (r: usize)
    requires
        anchor < 5,
    ensures
        r == continuous(array@, anchor as int),
{
    let ghost a = array@;
    let mut count: usize = 0;
    let mut k: usize = anchor;
    while k > 0 && array[k - 1]
        invariant
            k <= anchor < 5,
            a == array@,
            count + run_before(a, k as int) == run_before(a, anchor as int),
            count <= anchor - k,
        decreases k,
    {
        count = count + 1;
        k = k - 1;
    }
    let mut k: usize = anchor;
    let mut after: usize = 0;
    while k < 4 && array[k + 1]
        invariant
            anchor <= k < 5,
            a == array@,
            after + run_after(a, k as int) == run_after(a, anchor as int),
            after <= k - anchor,
        decreases 5 - k,
    {
        after = after + 1;
        k = k + 1;
    }
    count + after
}

/// Number of wall rows whose cell of `color` is tiled, row `row_idx`
/// counted as tiled; five means the color is complete.
fn count_color_coverage(wall: &[[bool; 5]; 5], row_idx: usize, color: Tile) -> (r: usize)
    requires
        row_idx < 5,
    ensures
        r <= 5,
        r == 5 <==> color_full_with(wall_view(*wall), row_idx as int, color),
{
    let ghost w = wall_view(*wall);
    let mut color_coverage: usize = 0;
    let mut i: usize = 0;
    while i < 5
        invariant
            i <= 5,
            row_idx < 5,
            w == wall_view(*wall),
            color_coverage <= i,
            (color_coverage == i) == (forall|k: int|
                0 <= k < i ==> (k == row_idx || #[trigger] w[k][spec_wall_column(k, color)])),
        decreases 5 - i,
    {
        let tiled = i == row_idx || wall[i][wall_column(i, color)];
        assert(tiled == (i == row_idx || w[i as int][spec_wall_column(i as int, color)]));
        if tiled {
            color_coverage = color_coverage + 1;
        }
        i = i + 1;
    }
    color_coverage
}

/// Tiled cells adjacent to (`row_idx`, `col_idx`) in its row.
fn row_run(wall: &[[bool; 5]; 5], row_idx: usize, col_idx: usize) -> (r: usize)
    requires
        row_idx < 5,
        col_idx < 5,
    ensures
        r == continuous(wall_view(*wall)[row_idx as int], col_idx as int),
        r <= 4,
{
    let row = wall[row_idx];
    assert(row@ =~= wall_view(*wall)[row_idx as int]);
    proof {
        crate::model::lemma_run_bounds(row@, col_idx as int);
    }
    count_continuous(&row, col_idx)
}

/// Tiled cells adjacent to (`row_idx`, `col_idx`) in its column.
fn column_run(wall: &[[bool; 5]; 5], row_idx: usize, col_idx: usize) -> (r: usize)
    requires
        row_idx < 5,
        col_idx < 5,
    ensures
        r == continuous(column_of(wall_view(*wall), col_idx as int), row_idx as int),
        r <= 4,
{
    let column: [bool; 5] = [
        wall[0][col_idx],
        wall[1][col_idx],
        wall[2][col_idx],
        wall[3][col_idx],
        wall[4][col_idx],
    ];
    assert(column@ =~= column_of(wall_view(*wall), col_idx as int));
    proof {
        crate::model::lemma_run_bounds(column@, row_idx as int);
    }
    count_continuous(&column, row_idx)
}

/// Column `col_idx` is complete once cell (`row_idx`, `col_idx`) is tiled.
fn column_completed(wall: &[[bool; 5]; 5], row_idx: usize, col_idx: usize) -> (r: bool)
    requires
        row_idx < 5,
        col_idx < 5,
    ensures
        r == column_full_with(wall_view(*wall), row_idx as int, col_idx as int),
{
    let ghost w = wall_view(*wall);
    let r = (row_idx == 0 || wall[0][col_idx]) && (row_idx == 1 || wall[1][col_idx]) && (row_idx == 2
        || wall[2][col_idx]) && (row_idx == 3 || wall[3][col_idx]) && (row_idx == 4
        || wall[4][col_idx]);
    assert(r ==> column_full_with(w, row_idx as int, col_idx as int));
    assert(column_full_with(w, row_idx as int, col_idx as int) ==> (row_idx == 0 || w[0][col_idx as int])
        && (row_idx == 1 || w[1][col_idx as int]) && (row_idx == 2 || w[2][col_idx as int]) && (row_idx
        == 3 || w[3][col_idx as int]) && (row_idx == 4 || w[4][col_idx as int]));
    r
}

/// Row `row_idx` is complete once cell (`row_idx`, `col_idx`) is tiled.
fn row_completed(wall: &[[bool; 5]; 5], row_idx: usize, col_idx: usize) -> (r: bool)
    requires
        row_idx < 5,
        col_idx < 5,
    ensures
        r == row_full_with(wall_view(*wall), row_idx as int, col_idx as int),
{
    let ghost w = wall_view(*wall);
    let row = wall[row_idx];
    let r = (col_idx == 0 || row[0]) && (col_idx == 1 || row[1]) && (col_idx == 2 || row[2]) && (
    col_idx == 3 || row[3]) && (col_idx == 4 || row[4]);
    assert(r ==> row_full_with(w, row_idx as int, col_idx as int));
    assert(row_full_with(w, row_idx as int, col_idx as int) ==> (col_idx == 0 || w[row_idx as int][0])
        && (col_idx == 1 || w[row_idx as int][1]) && (col_idx == 2 || w[row_idx as int][2]) && (
    col_idx == 3 || w[row_idx as int][3]) && (col_idx == 4 || w[row_idx as int][4]));
    r
}

/// Points for placing `color` on wall row `row_idx`: the adjacent runs in
/// the row and the column (at least one point), plus 7 when the column, 2
/// when the row and 10 when the color becomes complete.
pub fn score_placement(wall: &[[bool; 5]; 5], row_idx: usize, color: Tile) -> (r: i32)
    requires
        row_idx < 5,
    ensures
        r == placement_score(wall_view(*wall), row_idx as int, color),
{
    let col_idx = wall_column(row_idx, color);
    let adjacent = row_run(wall, row_idx, col_idx) + column_run(wall, row_idx, col_idx);
    let mut score: i32 = if adjacent >= 1 {
        adjacent as i32
    } else {
        1
    };
    if column_completed(wall, row_idx, col_idx) {
        score = score + 7;
    }
    if row_completed(wall, row_idx, col_idx) {
        score = score + 2;
    }
    if count_color_coverage(wall, row_idx, color) == 5 {
        score = score + 10;
    }
    score
}

impl PlayerState {
    /// End-of-round scoring: every exactly full staging row, in row order,
    /// scores its placement, tiles its wall cell and is emptied; the floor
    /// penalty is subtracted, the score is clamped at zero and the floor line
    /// cleared.
    pub fn tile_wall_and_score(&mut self)
        requires
            board_wf(old(self)@),
            old(self).score <= i32::MAX - ROUND_GAIN_LIMIT,
        ensures
            final(self)@ == score_board(old(self)@),
            board_wf(final(self)@),
    {
        let ghost b0 = self@;
        proof {
            crate::model::lemma_tile_rows(b0, 5);
        }
        let mut tiling_points: i32 = 0;
        let mut i: usize = 0;
        while i < 5
            invariant
                i <= 5,
                board_wf(b0),
                self@ == tile_rows(b0, i as int).0,
                tiling_points == tile_rows(b0, i as int).1,
            decreases 5 - i,
        {
            proof {
                crate::model::lemma_tile_rows(b0, i as int);
                crate::model::lemma_tile_rows(b0, i + 1);
            }
            let ghost before = self@;
            let line = self.pattern_lines[i];
            if line.1 == i + 1 {
                assert(line_full(before, i as int));
                let color = line.0.unwrap();
                let points = score_placement(&self.wall, i, color);
                let col_idx = wall_column(i, color);
                self.wall[i][col_idx] = true;
                self.pattern_lines[i] = (None, 0);
                tiling_points = tiling_points + points;
                assert(self@.wall =~~= tile_rows(b0, i + 1).0.wall);
                assert(self@.lines =~= tile_rows(b0, i + 1).0.lines);
            }
            i = i + 1;
        }
        let penalties = floor_penalty_of(self.floor_line);
        let total = self.score + tiling_points - penalties;
        self.score = if total < 0 {
            0
        } else {
            total
        };
        self.floor_line = 0;
        assert(self@.wall =~~= score_board(b0).wall);
    }
}

/// End-of-round scoring of player `player_idx`; see
/// `PlayerState::tile_wall_and_score`.
pub fn tile_wall_and_score(state: &mut State, player_idx: usize)
    requires
        state_wf(old(state)@),
        player_idx < old(state)@.players.len(),
        old(state)@.players[player_idx as int].score <= i32::MAX - ROUND_GAIN_LIMIT,
    ensures
        final(state)@ == score_player(old(state)@, player_idx as int),
        state_wf(final(state)@),
        tiled_full_rows(
            old(state)@.players[player_idx as int],
            final(state)@.players[player_idx as int],
        ),
        final(state)@.players[player_idx as int].score >= 0,
        final(state)@.players[player_idx as int].floor == 0,
{
    proof {
        crate::model::lemma_score_board_effect(old(state)@.players[player_idx as int]);
    }
    let ghost v = state@;
    let mut player = state.players[player_idx];
    assert(player@ == v.players[player_idx as int]);
    player.tile_wall_and_score();
    state.players.set(player_idx, player);
    assert(state@.players =~= v.players.update(player_idx as int, player@));
    assert forall|q: int| 0 <= q < state@.players.len() implies crate::model::board_wf(
        #[trigger] state@.players[q],
    ) by {
        if q != player_idx {
            assert(state@.players[q] == v.players[q]);
        }
    }
}

/// The seat of the first player holding the first-player marker, if any.
pub fn first_player(state: &State) -> (r: Option<usize>)
    ensures
        match r {
            Some(i) => {
                &&& i < state@.players.len()
                &&& state@.players[i as int].marker
                &&& forall|k: int| 0 <= k < i ==> !(#[trigger] state@.players[k]).marker
            },
            None => forall|k: int|
                0 <= k < state@.players.len() ==> !(#[trigger] state@.players[k]).marker,
        },
{
    let mut i: usize = 0;
    while i < state.players.len()
        invariant
            i <= state@.players.len(),
            forall|k: int| 0 <= k < i ==> !(#[trigger] state@.players[k]).marker,
        decreases state@.players.len() - i,
    {
        assert(state@.players[i as int] == state.players@[i as int]@);
        if state.players[i].starting_marker {
            return Some(i);
        }
        i = i + 1;
    }
    None
}

/// The seat with the highest score; among equal scores the lowest seat.
pub fn winner(state: &State) -> (r: usize)
    requires
        state@.players.len() >= 1,
    ensures
        r == first_max_index(scores(state@), state@.players.len() as int),
        r < state@.players.len(),
{
    let ghost s = scores(state@);
    proof {
        crate::model::lemma_first_max_index(s, state@.players.len() as int);
    }
    let mut best: usize = 0;
    let mut i: usize = 1;
    while i < state.players.len()
        invariant
            1 <= i <= state@.players.len(),
            s == scores(state@),
            best == first_max_index(s, i as int),
            best < i,
        decreases state@.players.len() - i,
    {
        assert(s[i as int] == state.players@[i as int].score);
        assert(s[best as int] == state.players@[best as int].score);
        if state.players[i].score > state.players[best].score {
            best = i;
        }
        i = i + 1;
    }
    best
}

/// Opens a round: the holder of the first-player marker (seat 0 if nobody
/// holds it) gives the marker back and starts; the pools are refilled.
pub fn start_round(state: &mut State) -> (r: usize)
    requires
        state_wf(old(state)@),
        round_over(old(state)@),
    ensures
        r < old(state)@.players.len(),
        (exists|i: int| 0 <= i < old(state)@.players.len() && (#[trigger] old(state)@.players[i]).marker)
            ==> old(state)@.players[r as int].marker && forall|k: int|
            0 <= k < r ==> !(#[trigger] old(state)@.players[k]).marker,
        (forall|i: int| 0 <= i < old(state)@.players.len() ==> !(#[trigger] old(state)@.players[i]).marker)
            ==> r == 0,
        state_wf(final(state)@),
        !round_over(final(state)@),
        final(state)@.players.len() == old(state)@.players.len(),
        forall|q: int|
            0 <= q < old(state)@.players.len() ==> #[trigger] final(state)@.players[q] == if q == r {
                BoardView { marker: false, ..old(state)@.players[q] }
            } else {
                old(state)@.players[q]
            },
        final(state)@.pools.len() == old(state)@.pools.len(),
        forall|i: int|
            0 <= i < old(state)@.pools.len() ==> counts_total(#[trigger] final(state)@.pools[i]) == 4,
        final(state)@.center == crate::state::empty_counts(),
        final(state)@.center_marker,
        final(state)@.rounds == old(state)@.rounds,
{
    let ghost v = state@;
    let first = match first_player(state) {
        Some(one) => one,
        None => 0,
    };
    let mut player = state.players[first];
    assert(player@ == v.players[first as int]);
    player.starting_marker = false;
    state.players.set(first, player);
    assert(player@ =~= BoardView { marker: false, ..v.players[first as int] });
    assert(state@.players =~= v.players.update(first as int, player@));
    proof {
        crate::state::lemma_pools_total_zero(state@.pools, state@.pools.len() as int);
        assert forall|q: int| 0 <= q < state@.players.len() implies board_wf(
            #[trigger] state@.players[q],
        ) by {
            if q != first {
                assert(state@.players[q] == v.players[q]);
            }
        }
    }
    crate::state::refill_tiles(state);
    assert(!round_over(state@)) by {
        assert(counts_total(state@.pools[0]) == 4);
    }
    first
}

/// Closes a round: counts it and scores every seat in order.
pub fn finish_round(state: &mut State)
    requires
        state_wf(old(state)@),
        old(state).rounds < usize::MAX,
        forall|q: int|
            0 <= q < old(state)@.players.len() ==> #[trigger] old(state)@.players[q].score <= i32::MAX
                - ROUND_GAIN_LIMIT,
    ensures
        state_wf(final(state)@),
        final(state)@.rounds == old(state)@.rounds + 1,
        final(state)@.pools == old(state)@.pools,
        final(state)@.center == old(state)@.center,
        final(state)@.center_marker == old(state)@.center_marker,
        final(state)@.players.len() == old(state)@.players.len(),
        forall|q: int|
            0 <= q < old(state)@.players.len() ==> #[trigger] final(state)@.players[q] == score_board(
                old(state)@.players[q],
            ),
{
    let ghost v = state@;
    state.rounds = state.rounds + 1;
    let ghost v1 = state@;
    let n = state.players.len();
    let mut q: usize = 0;
    while q < n
        invariant
            q <= n,
            n == v.players.len(),
            state_wf(state@),
            state@.rounds == v.rounds + 1,
            state@.pools == v.pools,
            state@.center == v.center,
            state@.center_marker == v.center_marker,
            state@.players.len() == n,
            forall|k: int|
                0 <= k < n ==> #[trigger] state@.players[k] == if k < q {
                    score_board(v.players[k])
                } else {
                    v.players[k]
                },
            forall|k: int| 0 <= k < n ==> #[trigger] v.players[k].score <= i32::MAX - ROUND_GAIN_LIMIT,
        decreases n - q,
    {
        let ghost before = state@;
        tile_wall_and_score(state, q);
        assert forall|k: int| 0 <= k < n implies #[trigger] state@.players[k] == if k < q + 1 {
            score_board(v.players[k])
        } else {
            v.players[k]
        } by {
            if k != q {
                assert(state@.players[k] == before.players[k]);
            }
        }
        q = q + 1;
    }
}

} // verus!
