//! Mathematical model of a game in progress and of the rules acting on it.
//!
//! Counts are natural numbers, the wall is a 5 x 5 sequence of flags and every
//! rule is a function from one such value to the next. The executable engine
//! is proved against these definitions.
use vstd::prelude::*;

use crate::state::{Action, ActionDisplay};
use crate::tile::{
    color_at, color_index, floor_penalty, lemma_floor_penalty_bounds, spec_wall_column, Tile,
};

verus! {

/// Largest number of seats the engine accepts. With it the sum of the
/// sampling weights of a seat's actions (at most 149 for each of up to 30
/// actions per source) fits in a 32-bit `usize`.
pub const SEAT_LIMIT: usize = 100_000;

/// Largest score gain that one round of tiling can bring a player: five
/// placements of at most 8 adjacency points and 19 bonus points each.
pub const ROUND_GAIN_LIMIT: i32 = 135;

/// A player board, as mathematics.
pub struct BoardView {
    pub score: int,
    pub wall: Seq<Seq<bool>>,
    pub lines: Seq<(Option<Tile>, nat)>,
    pub floor: nat,
    pub marker: bool,
}

/// A game in progress, as mathematics.
pub struct StateView {
    pub pools: Seq<Seq<nat>>,
    pub center: Seq<nat>,
    pub center_marker: bool,
    pub players: Seq<BoardView>,
    pub rounds: nat,
}

/// Tiles held by a five-color count.
pub open spec fn counts_total(c: Seq<nat>) -> int {
    (c[0] + c[1] + c[2] + c[3] + c[4]) as int
}

/// Tiles held by the first `k` draw pools.
pub open spec fn pools_total(pools: Seq<Seq<nat>>, k: int) -> int
    decreases k,
{
    if k <= 0 {
        0
    } else {
        pools_total(pools, k - 1) + counts_total(pools[k - 1])
    }
}

/// Tiles resting in the draw pools and the shared pool.
pub open spec fn tiles_in_play(v: StateView) -> int {
    counts_total(v.center) + pools_total(v.pools, v.pools.len() as int)
}

/// Every draw pool and the shared pool is empty.
pub open spec fn round_over(v: StateView) -> bool {
    &&& counts_total(v.center) == 0
    &&& forall|i: int| 0 <= i < v.pools.len() ==> counts_total(#[trigger] v.pools[i]) == 0
}

/// All five cells of wall row `r` are tiled.
pub open spec fn row_complete(b: BoardView, r: int) -> bool {
    forall|c: int| 0 <= c < 5 ==> #[trigger] b.wall[r][c]
}

/// Some wall row of the board is fully tiled.
pub open spec fn has_completed_row(b: BoardView) -> bool {
    exists|r: int| 0 <= r < 5 && #[trigger] row_complete(b, r)
}

/// The round is over and some player has completed a wall row.
pub open spec fn game_over(v: StateView) -> bool {
    &&& round_over(v)
    &&& exists|p: int| 0 <= p < v.players.len() && #[trigger] has_completed_row(v.players[p])
}

/// Well-formed five-color count.
pub open spec fn counts_wf(c: Seq<nat>) -> bool {
    c.len() == 5
}

/// Well-formed player board: score never negative, staging rows within their
/// capacity and holding one color that is not yet on the wall, floor line
/// bounded.
pub open spec fn board_wf(b: BoardView) -> bool {
    &&& b.score >= 0
    &&& b.wall.len() == 5
    &&& forall|r: int| 0 <= r < 5 ==> (#[trigger] b.wall[r]).len() == 5
    &&& b.lines.len() == 5
    &&& forall|r: int| 0 <= r < 5 ==> (#[trigger] b.lines[r]).1 <= r + 1
    &&& forall|r: int| 0 <= r < 5 ==> ((#[trigger] b.lines[r]).0 is None ==> b.lines[r].1 == 0)
    &&& forall|r: int|
        0 <= r < 5 ==> ((#[trigger] b.lines[r]).0 matches Some(t) ==> !b.wall[r][spec_wall_column(
            r,
            t,
        )])
    &&& b.floor <= 7
}

/// Well-formed game state.
pub open spec fn state_wf(v: StateView) -> bool {
    &&& 1 <= v.pools.len() <= 2 * SEAT_LIMIT + 1
    &&& forall|i: int| 0 <= i < v.pools.len() ==> counts_wf(#[trigger] v.pools[i])
    &&& counts_wf(v.center)
    &&& 1 <= v.players.len()
    &&& forall|p: int| 0 <= p < v.players.len() ==> board_wf(#[trigger] v.players[p])
    &&& tiles_in_play(v) <= usize::MAX
}

// ---------------------------------------------------------------------------
// Legal actions
/// Staging row `r` may receive tiles of color `t`: it is empty and the wall
/// cell of `t` in that row is free, or it already holds `t` and has room.
pub open spec fn line_accepts(b: BoardView, r: int, t: Tile) -> bool {
    match b.lines[r].0 {
        None => !b.wall[r][spec_wall_column(r, t)],
        Some(s) => s == t && b.lines[r].1 < r + 1,
    }
}

/// The rows among the first `n` that accept `t`, in increasing order.
pub open spec fn open_rows(b: BoardView, t: Tile, n: int) -> Seq<usize>
    decreases n,
{
    if n <= 0 {
        Seq::empty()
    } else {
        open_rows(b, t, n - 1) + if line_accepts(b, n - 1, t) {
            seq![(n - 1) as usize]
        } else {
            Seq::empty()
        }
    }
}

/// Destinations for tiles of color `t`: the accepting rows, then the floor.
pub open spec fn valid_lines(b: BoardView, t: Tile) -> Seq<Option<usize>> {
    open_rows(b, t, 5).map_values(|r: usize| Some(r)).push(None)
}

/// Actions that take color `t` from `src`.
pub open spec fn color_actions(b: BoardView, src: ActionDisplay, t: Tile) -> Seq<Action> {
    valid_lines(b, t).map_values(
        |l: Option<usize>| Action { action_display_choice: src, color_choice: t, pattern_line_choice: l },
    )
}

/// Actions that take one of the first `n` colors from a source holding `counts`.
pub open spec fn source_actions(b: BoardView, src: ActionDisplay, counts: Seq<nat>, n: int) -> Seq<
    Action,
>
    decreases n,
{
    if n <= 0 {
        Seq::empty()
    } else {
        source_actions(b, src, counts, n - 1) + if counts[n - 1] > 0 {
            color_actions(b, src, color_at(n - 1))
        } else {
            Seq::empty()
        }
    }
}

/// Actions that take from one of the first `k` draw pools.
pub open spec fn pool_actions(v: StateView, b: BoardView, k: int) -> Seq<Action>
    decreases k,
{
    if k <= 0 {
        Seq::empty()
    } else {
        pool_actions(v, b, k - 1) + source_actions(
            b,
            ActionDisplay::FactoryDisplay((k - 1) as usize),
            v.pools[k - 1],
            5,
        )
    }
}

/// Every legal action of player `p`, in enumeration order: draw pools by
/// index, then the shared pool; within a source colors in their fixed order;
/// within a color the accepting rows, then the floor line.
pub open spec fn legal_actions(v: StateView, p: int) -> Seq<Action> {
    pool_actions(v, v.players[p], v.pools.len() as int) + source_actions(
        v.players[p],
        ActionDisplay::Center,
        v.center,
        5,
    )
}

// ---------------------------------------------------------------------------
// Applying an action
/// Number of tiles of color `t` that taking from `src` yields.
pub open spec fn taken_count(v: StateView, src: ActionDisplay, t: Tile) -> nat {
    match src {
        ActionDisplay::Center => v.center[color_index(t)],
        ActionDisplay::FactoryDisplay(i) => v.pools[i as int][color_index(t)],
    }
}

/// The sources after color `t` is taken from `src`: from the shared pool
/// that color is removed; from a draw pool the other colors move to the
/// shared pool and the pool is emptied.
pub open spec fn take_out(v: StateView, src: ActionDisplay, t: Tile) -> StateView {
    let ci = color_index(t);
    match src {
        ActionDisplay::Center => StateView { center: v.center.update(ci, 0), ..v },
        ActionDisplay::FactoryDisplay(i) => StateView {
            center: Seq::new(
                5,
                |k: int|
                    if k == ci {
                        v.center[k]
                    } else {
                        v.center[k] + v.pools[i as int][k]
                    },
            ),
            pools: v.pools.update(i as int, seq![0nat, 0nat, 0nat, 0nat, 0nat]),
            ..v
        },
    }
}

/// The game after player `p`'s action `a` has taken its tiles; taking from
/// the shared pool while it holds the first-player marker moves the marker to
/// the player.
pub open spec fn after_take(v: StateView, p: int, a: Action) -> StateView {
    let w = take_out(v, a.action_display_choice, a.color_choice);
    if a.action_display_choice is Center && v.center_marker {
        StateView {
            center_marker: false,
            players: w.players.update(p, BoardView { marker: true, ..w.players[p] }),
            ..w
        }
    } else {
        w
    }
}

/// A floor line length, capped at seven.
pub open spec fn clamp_floor(n: int) -> nat {
    if n >= 7 {
        7
    } else if n <= 0 {
        0
    } else {
        n as nat
    }
}

/// The board after `n` tiles of color `t` are staged on `line`: a row is
/// filled up to its capacity and the rest goes to the floor line; without a
/// row everything goes to the floor line, which keeps at most seven.
pub open spec fn stage(b: BoardView, line: Option<usize>, t: Tile, n: nat) -> BoardView {
    match line {
        None => BoardView { floor: clamp_floor((b.floor + n) as int), ..b },
        Some(r) => {
            let cap = r + 1;
            let fill = b.lines[r as int].1;
            let nf: nat = if fill + n <= cap {
                (fill + n) as nat
            } else {
                cap as nat
            };
            BoardView {
                lines: b.lines.update(r as int, (Some(t), nf)),
                floor: clamp_floor(b.floor + fill + n - nf),
                ..b
            }
        },
    }
}

/// The game after player `p` plays action `a`.
pub open spec fn apply_action(v: StateView, p: int, a: Action) -> StateView {
    let w = after_take(v, p, a);
    StateView {
        players: w.players.update(
            p,
            stage(
                w.players[p],
                a.pattern_line_choice,
                a.color_choice,
                taken_count(v, a.action_display_choice, a.color_choice),
            ),
        ),
        ..w
    }
}

// ---------------------------------------------------------------------------
// Tiling the wall and scoring
/// Unbroken tiled cells directly before position `k`.
pub open spec fn run_before(row: Seq<bool>, k: int) -> nat
    decreases k,
{
    if k <= 0 || !row[k - 1] {
        0
    } else {
        1 + run_before(row, k - 1)
    }
}

/// Unbroken tiled cells directly after position `k` (of five).
pub open spec fn run_after(row: Seq<bool>, k: int) -> nat
    decreases 5 - k,
{
    if k >= 4 || !row[k + 1] {
        0
    } else {
        1 + run_after(row, k + 1)
    }
}

/// Unbroken tiled cells on both sides of position `k`, the cell itself not
/// counted.
pub open spec fn continuous(row: Seq<bool>, k: int) -> nat {
    run_before(row, k) + run_after(row, k)
}

/// Column `c` of a wall.
pub open spec fn column_of(wall: Seq<Seq<bool>>, c: int) -> Seq<bool> {
    Seq::new(5, |i: int| wall[i][c])
}

/// Column `c` is fully tiled once cell (`r`, `c`) is.
pub open spec fn column_full_with(wall: Seq<Seq<bool>>, r: int, c: int) -> bool {
    forall|i: int| 0 <= i < 5 ==> (i == r || #[trigger] wall[i][c])
}

/// Row `r` is fully tiled once cell (`r`, `c`) is.
pub open spec fn row_full_with(wall: Seq<Seq<bool>>, r: int, c: int) -> bool {
    forall|j: int| 0 <= j < 5 ==> (j == c || #[trigger] wall[r][j])
}

/// All five cells of color `t` are tiled once row `r` holds it.
pub open spec fn color_full_with(wall: Seq<Seq<bool>>, r: int, t: Tile) -> bool {
    forall|i: int| 0 <= i < 5 ==> (i == r || #[trigger] wall[i][spec_wall_column(i, t)])
}

/// Points for placing color `t` on wall row `r`: the adjacent runs in the
/// row and in the column (at least one point), plus 7 for a completed
/// column, 2 for a completed row and 10 for a completed color.
pub open spec fn placement_score(wall: Seq<Seq<bool>>, r: int, t: Tile) -> int {
    let c = spec_wall_column(r, t);
    let adj = continuous(wall[r], c) + continuous(column_of(wall, c), r);
    (if adj >= 1 {
        adj as int
    } else {
        1int
    }) + (if column_full_with(wall, r, c) {
        7int
    } else {
        0int
    }) + (if row_full_with(wall, r, c) {
        2int
    } else {
        0int
    }) + (if color_full_with(wall, r, t) {
        10int
    } else {
        0int
    })
}

/// Staging row `r` is exactly full.
pub open spec fn line_full(b: BoardView, r: int) -> bool {
    b.lines[r].1 == r + 1 && b.lines[r].0 is Some
}

/// Tile row `r` if its staging row is full: the board after and the points.
pub open spec fn tile_row(b: BoardView, r: int) -> (BoardView, int) {
    if line_full(b, r) {
        let t = b.lines[r].0.unwrap();
        let c = spec_wall_column(r, t);
        (
            BoardView {
                wall: b.wall.update(r, b.wall[r].update(c, true)),
                lines: b.lines.update(r, (None, 0nat)),
                ..b
            },
            placement_score(b.wall, r, t),
        )
    } else {
        (b, 0)
    }
}

/// Tile rows `0 .. k` in order: the board after and the points.
pub open spec fn tile_rows(b: BoardView, k: int) -> (BoardView, int)
    decreases k,
{
    if k <= 0 {
        (b, 0)
    } else {
        let prev = tile_rows(b, k - 1);
        let step = tile_row(prev.0, k - 1);
        (step.0, prev.1 + step.1)
    }
}

/// The board after end-of-round scoring: full rows are tiled, the floor
/// penalty is subtracted, the score is clamped at zero and the floor cleared.
pub open spec fn score_board(b: BoardView) -> BoardView {
    let tiled = tile_rows(b, 5);
    let s = b.score + tiled.1 - floor_penalty(b.floor);
    BoardView { score: if s < 0 {
        0
    } else {
        s
    }, floor: 0, ..tiled.0 }
}

/// The game after player `p`'s board is scored.
pub open spec fn score_player(v: StateView, p: int) -> StateView {
    StateView { players: v.players.update(p, score_board(v.players[p])), ..v }
}

/// Immediate reward of action `a` for player `p`: the score the player would
/// have after scoring with the action played, minus the score after scoring
/// without it.
pub open spec fn reward(v: StateView, p: int, a: Action) -> int {
    score_board(apply_action(v, p, a).players[p]).score - score_board(v.players[p]).score
}

/// The players' scores, in seat order.
pub open spec fn scores(v: StateView) -> Seq<int> {
    v.players.map_values(|b: BoardView| b.score)
}

/// Index of the first maximal entry among the first `n` of `s`.
pub open spec fn first_max_index(s: Seq<int>, n: int) -> int
    decreases n,
{
    if n <= 1 {
        0
    } else {
        let k = first_max_index(s, n - 1);
        if s[n - 1] > s[k] {
            n - 1
        } else {
            k
        }
    }
}

// ---------------------------------------------------------------------------
// Facts about the definitions above
/// Destination of `a` is the floor line or a staging row that accepts its
/// color.
pub open spec fn destination_ok(b: BoardView, a: Action) -> bool {
    a.pattern_line_choice matches Some(r) ==> r < 5 && line_accepts(b, r as int, a.color_choice)
}

/// What every legal action of player `p` satisfies: its source exists and
/// holds its color, and its destination accepts that color.
pub open spec fn action_shape(v: StateView, p: int, a: Action) -> bool {
    &&& (a.action_display_choice matches ActionDisplay::FactoryDisplay(i) ==> i < v.pools.len())
    &&& taken_count(v, a.action_display_choice, a.color_choice) > 0
    &&& destination_ok(v.players[p], a)
}

pub proof fn lemma_color_index_at(i: int)
    requires
        0 <= i < 5,
    ensures
        color_index(color_at(i)) == i,
{
}

pub proof fn lemma_open_rows(b: BoardView, t: Tile, n: int)
    requires
        n <= 5,
    ensures
        forall|j: int|
            0 <= j < open_rows(b, t, n).len() ==> #[trigger] open_rows(b, t, n)[j] < n
                && line_accepts(b, open_rows(b, t, n)[j] as int, t),
    decreases n,
{
    if n > 0 {
        lemma_open_rows(b, t, n - 1);
        let prev = open_rows(b, t, n - 1);
        assert forall|j: int| 0 <= j < open_rows(b, t, n).len() implies #[trigger] open_rows(
            b,
            t,
            n,
        )[j] < n && line_accepts(b, open_rows(b, t, n)[j] as int, t) by {
            if j < prev.len() {
                assert(open_rows(b, t, n)[j] == prev[j]);
            }
        }
    }
}

pub proof fn lemma_color_actions(b: BoardView, src: ActionDisplay, t: Tile)
    ensures
        forall|j: int|
            0 <= j < color_actions(b, src, t).len() ==> {
                let a = #[trigger] color_actions(b, src, t)[j];
                &&& a.action_display_choice == src
                &&& a.color_choice == t
                &&& destination_ok(b, a)
            },
{
    lemma_open_rows(b, t, 5);
    let rows = open_rows(b, t, 5);
    assert forall|j: int| 0 <= j < color_actions(b, src, t).len() implies {
        let a = #[trigger] color_actions(b, src, t)[j];
        &&& a.action_display_choice == src
        &&& a.color_choice == t
        &&& destination_ok(b, a)
    } by {
        if j < rows.len() {
            assert(valid_lines(b, t)[j] == Some(rows[j]));
        }
    }
}

pub proof fn lemma_source_actions(b: BoardView, src: ActionDisplay, counts: Seq<nat>, n: int)
    requires
        n <= 5,
    ensures
        forall|j: int|
            0 <= j < source_actions(b, src, counts, n).len() ==> {
                let a = #[trigger] source_actions(b, src, counts, n)[j];
                &&& a.action_display_choice == src
                &&& color_index(a.color_choice) < n
                &&& counts[color_index(a.color_choice)] > 0
                &&& destination_ok(b, a)
            },
    decreases n,
{
    if n > 0 {
        lemma_source_actions(b, src, counts, n - 1);
        lemma_color_actions(b, src, color_at(n - 1));
        lemma_color_index_at(n - 1);
        let prev = source_actions(b, src, counts, n - 1);
        assert forall|j: int| 0 <= j < source_actions(b, src, counts, n).len() implies {
            let a = #[trigger] source_actions(b, src, counts, n)[j];
            &&& a.action_display_choice == src
            &&& color_index(a.color_choice) < n
            &&& counts[color_index(a.color_choice)] > 0
            &&& destination_ok(b, a)
        } by {
            if j < prev.len() {
                assert(source_actions(b, src, counts, n)[j] == prev[j]);
            } else {
                assert(source_actions(b, src, counts, n)[j] == color_actions(
                    b,
                    src,
                    color_at(n - 1),
                )[j - prev.len()]);
            }
        }
    }
}

pub proof fn lemma_pool_actions(v: StateView, b: BoardView, k: int)
    requires
        k <= v.pools.len() <= usize::MAX,
    ensures
        forall|j: int|
            0 <= j < pool_actions(v, b, k).len() ==> {
                let a = #[trigger] pool_actions(v, b, k)[j];
                &&& a.action_display_choice matches ActionDisplay::FactoryDisplay(i)
                &&& a.action_display_choice->FactoryDisplay_0 < k
                &&& v.pools[a.action_display_choice->FactoryDisplay_0 as int][color_index(
                    a.color_choice,
                )] > 0
                &&& destination_ok(b, a)
            },
    decreases k,
{
    if k > 0 {
        lemma_pool_actions(v, b, k - 1);
        let src = ActionDisplay::FactoryDisplay((k - 1) as usize);
        lemma_source_actions(b, src, v.pools[k - 1], 5);
        let prev = pool_actions(v, b, k - 1);
        assert forall|j: int| 0 <= j < pool_actions(v, b, k).len() implies {
            let a = #[trigger] pool_actions(v, b, k)[j];
            &&& a.action_display_choice matches ActionDisplay::FactoryDisplay(i)
            &&& a.action_display_choice->FactoryDisplay_0 < k
            &&& v.pools[a.action_display_choice->FactoryDisplay_0 as int][color_index(
                a.color_choice,
            )] > 0
            &&& destination_ok(b, a)
        } by {
            if j < prev.len() {
                assert(pool_actions(v, b, k)[j] == prev[j]);
            } else {
                assert(pool_actions(v, b, k)[j] == source_actions(b, src, v.pools[k - 1], 5)[j
                    - prev.len()]);
            }
        }
    }
}

/// Every legal action has the shape that applying it needs.
pub proof fn lemma_legal_action_shape(v: StateView, p: int, a: Action)
    requires
        v.pools.len() <= usize::MAX,
        legal_actions(v, p).contains(a),
    ensures
        action_shape(v, p, a),
{
    let b = v.players[p];
    let pools = pool_actions(v, b, v.pools.len() as int);
    let center = source_actions(b, ActionDisplay::Center, v.center, 5);
    lemma_pool_actions(v, b, v.pools.len() as int);
    lemma_source_actions(b, ActionDisplay::Center, v.center, 5);
    let j = choose|j: int| 0 <= j < legal_actions(v, p).len() && legal_actions(v, p)[j] == a;
    if j < pools.len() {
        assert(legal_actions(v, p)[j] == pools[j]);
    } else {
        assert(legal_actions(v, p)[j] == center[j - pools.len()]);
    }
}

/// Taking tiles out removes exactly the taken tiles from play and keeps the
/// sources well formed.
pub proof fn lemma_take_out(v: StateView, src: ActionDisplay, t: Tile)
    requires
        state_wf(v),
        src matches ActionDisplay::FactoryDisplay(i) ==> i < v.pools.len(),
    ensures
        tiles_in_play(take_out(v, src, t)) == tiles_in_play(v) - taken_count(v, src, t),
        state_wf(take_out(v, src, t)),
        take_out(v, src, t).players == v.players,
        take_out(v, src, t).pools.len() == v.pools.len(),
{
    let w = take_out(v, src, t);
    let ci = color_index(t);
    match src {
        ActionDisplay::Center => {
            assert(counts_total(w.center) == counts_total(v.center) - v.center[ci]);
        },
        ActionDisplay::FactoryDisplay(i) => {
            let zero = seq![0nat, 0nat, 0nat, 0nat, 0nat];
            crate::state::lemma_pools_total_update(v.pools, i as int, zero, v.pools.len() as int);
            crate::state::lemma_pool_within_total(v.pools, i as int, v.pools.len() as int);
            assert(counts_total(zero) == 0);
            assert(counts_total(w.center) == counts_total(v.center) + counts_total(v.pools[i as int])
                - v.pools[i as int][ci]);
            assert forall|k: int| 0 <= k < w.pools.len() implies counts_wf(#[trigger] w.pools[k]) by {
                if k != i {
                    assert(w.pools[k] == v.pools[k]);
                }
            }
        },
    }
}

/// Staging tiles on an accepting destination keeps a board well formed.
pub proof fn lemma_stage_wf(b: BoardView, line: Option<usize>, t: Tile, n: nat)
    requires
        board_wf(b),
        line matches Some(r) ==> r < 5 && line_accepts(b, r as int, t),
    ensures
        board_wf(stage(b, line, t, n)),
        stage(b, line, t, n).score == b.score,
        stage(b, line, t, n).wall == b.wall,
{
    let b2 = stage(b, line, t, n);
    match line {
        None => {},
        Some(r) => {
            assert forall|q: int| 0 <= q < 5 implies ((#[trigger] b2.lines[q]).0 matches Some(u)
                ==> !b2.wall[q][spec_wall_column(q, u)]) by {
                if q != r {
                    assert(b2.lines[q] == b.lines[q]);
                }
            }
            assert forall|q: int| 0 <= q < 5 implies (#[trigger] b2.lines[q]).1 <= q + 1 by {
                if q != r {
                    assert(b2.lines[q] == b.lines[q]);
                }
            }
            assert forall|q: int| 0 <= q < 5 && (#[trigger] b2.lines[q]).0 is None implies b2.lines[q].1 == 0 by {
                if q != r {
                    assert(b2.lines[q] == b.lines[q]);
                }
            }
        },
    }
}

/// Applying an action of the shape that legal actions have keeps the game
/// well formed and removes the taken tiles from play.
pub proof fn lemma_apply_wf(v: StateView, p: int, a: Action)
    requires
        state_wf(v),
        0 <= p < v.players.len(),
        action_shape(v, p, a),
    ensures
        state_wf(apply_action(v, p, a)),
        tiles_in_play(apply_action(v, p, a)) == tiles_in_play(v) - taken_count(
            v,
            a.action_display_choice,
            a.color_choice,
        ),
        apply_action(v, p, a).players.len() == v.players.len(),
        apply_action(v, p, a).pools.len() == v.pools.len(),
        forall|q: int|
            0 <= q < v.players.len() ==> (#[trigger] apply_action(v, p, a).players[q]).score
                == v.players[q].score,
{
    let src = a.action_display_choice;
    let t = a.color_choice;
    lemma_take_out(v, src, t);
    let w = after_take(v, p, a);
    assert(board_wf(w.players[p]));
    assert forall|q: int| 0 <= q < w.players.len() implies board_wf(#[trigger] w.players[q]) by {
        assert(board_wf(v.players[q]));
    }
    lemma_stage_wf(w.players[p], a.pattern_line_choice, t, taken_count(v, src, t));
    let r = apply_action(v, p, a);
    assert forall|q: int| 0 <= q < r.players.len() implies board_wf(#[trigger] r.players[q]) by {
        if q != p {
            assert(r.players[q] == w.players[q]);
        }
    }
    assert forall|q: int| 0 <= q < v.players.len() implies (#[trigger] r.players[q]).score
        == v.players[q].score by {
        if q != p {
            assert(r.players[q] == w.players[q]);
        }
    }
}

pub proof fn lemma_run_bounds(row: Seq<bool>, k: int)
    requires
        0 <= k < 5,
    ensures
        run_before(row, k) <= k,
        run_after(row, k) <= 4 - k,
        continuous(row, k) <= 4,
{
    lemma_run_before_bound(row, k);
    lemma_run_after_bound(row, k);
}

proof fn lemma_run_before_bound(row: Seq<bool>, k: int)
    requires
        0 <= k,
    ensures
        run_before(row, k) <= k,
    decreases k,
{
    if k > 0 {
        lemma_run_before_bound(row, k - 1);
    }
}

proof fn lemma_run_after_bound(row: Seq<bool>, k: int)
    requires
        k < 5,
    ensures
        k <= 4 ==> run_after(row, k) <= 4 - k,
    decreases 5 - k,
{
    if k < 4 {
        lemma_run_after_bound(row, k + 1);
    }
}

/// A placement brings between 1 and 27 points.
pub proof fn lemma_placement_bounds(wall: Seq<Seq<bool>>, r: int, t: Tile)
    requires
        0 <= r < 5,
    ensures
        1 <= placement_score(wall, r, t) <= 27,
{
    let c = spec_wall_column(r, t);
    lemma_run_bounds(wall[r], c);
    lemma_run_bounds(column_of(wall, c), r);
}

/// The wall cell that a full staging row `r` moves its color to.
pub open spec fn target_column(b: BoardView, r: int) -> int {
    spec_wall_column(r, b.lines[r].0.unwrap())
}

/// `after` is `before` with each exactly full staging row moved to the wall:
/// that row's free cell of its color becomes tiled and the staging row is
/// emptied; every other wall cell and staging row stays as it was.
pub open spec fn tiled_full_rows(before: BoardView, after: BoardView) -> bool {
    &&& forall|r: int, c: int|
        0 <= r < 5 && 0 <= c < 5 ==> #[trigger] after.wall[r][c] == (before.wall[r][c] || (line_full(
            before,
            r,
        ) && c == target_column(before, r)))
    &&& forall|r: int|
        0 <= r < 5 && #[trigger] line_full(before, r) ==> !before.wall[r][target_column(before, r)]
            && after.lines[r] == (None::<Tile>, 0nat)
    &&& forall|r: int|
        0 <= r < 5 && !#[trigger] line_full(before, r) ==> after.lines[r] == before.lines[r]
}

/// Tiling rows `0 .. k` keeps the board well formed, brings between 0 and
/// 27 points per row, and changes the wall and the staging rows only where a
/// staging row was full: there one wall cell that was free becomes tiled and
/// the staging row is emptied.
pub proof fn lemma_tile_rows(b: BoardView, k: int)
    requires
        board_wf(b),
        0 <= k <= 5,
    ensures
        board_wf(tile_rows(b, k).0),
        0 <= tile_rows(b, k).1 <= 27 * k,
        tile_rows(b, k).0.score == b.score,
        tile_rows(b, k).0.floor == b.floor,
        tile_rows(b, k).0.marker == b.marker,
        tile_rows(b, k).0.wall.len() == 5,
        tile_rows(b, k).0.lines.len() == 5,
        forall|r: int| k <= r < 5 ==> #[trigger] tile_rows(b, k).0.lines[r] == b.lines[r],
        forall|r: int| k <= r < 5 ==> #[trigger] tile_rows(b, k).0.wall[r] == b.wall[r],
        forall|r: int|
            0 <= r < k ==> #[trigger] tile_rows(b, k).0.lines[r] == if line_full(b, r) {
                (None, 0nat)
            } else {
                b.lines[r]
            },
        forall|r: int|
            0 <= r < k && line_full(b, r) ==> !b.wall[r][target_column(b, r)],
        forall|r: int, c: int|
            0 <= r < k && 0 <= c < 5 ==> #[trigger] tile_rows(b, k).0.wall[r][c] == (b.wall[r][c]
                || (line_full(b, r) && c == target_column(b, r))),
    decreases k,
{
    if k > 0 {
        lemma_tile_rows(b, k - 1);
        let prev = tile_rows(b, k - 1).0;
        let i = k - 1;
        let nb = tile_rows(b, k).0;
        if line_full(prev, i) {
            let t = prev.lines[i].0.unwrap();
            lemma_placement_bounds(prev.wall, i, t);
            assert forall|q: int| 0 <= q < 5 implies (#[trigger] nb.wall[q]).len() == 5 by {
                if q != i {
                    assert(nb.wall[q] == prev.wall[q]);
                }
            }
            assert forall|q: int| 0 <= q < 5 implies ((#[trigger] nb.lines[q]).0 matches Some(u)
                ==> !nb.wall[q][spec_wall_column(q, u)]) by {
                if q != i {
                    assert(nb.lines[q] == prev.lines[q]);
                    assert(nb.wall[q] == prev.wall[q]);
                }
            }
            assert forall|q: int| 0 <= q < 5 implies (#[trigger] nb.lines[q]).1 <= q + 1 by {
                if q != i {
                    assert(nb.lines[q] == prev.lines[q]);
                }
            }
            assert forall|q: int| 0 <= q < 5 && (#[trigger] nb.lines[q]).0 is None implies nb.lines[q].1 == 0 by {
                if q != i {
                    assert(nb.lines[q] == prev.lines[q]);
                }
            }
        }
        assert forall|r: int, c: int| 0 <= r < k && 0 <= c < 5 implies #[trigger] nb.wall[r][c] == (
        b.wall[r][c] || (line_full(b, r) && c == target_column(b, r))) by {
            if r < i {
                assert(nb.wall[r] == prev.wall[r]);
            }
        }
        assert forall|r: int| 0 <= r < k implies #[trigger] nb.lines[r] == if line_full(b, r) {
            (None, 0nat)
        } else {
            b.lines[r]
        } by {
            if r < i {
                assert(nb.lines[r] == prev.lines[r]);
            }
        }
    }
}

/// The first maximal entry is maximal, and every earlier entry is smaller.
pub proof fn lemma_first_max_index(s: Seq<int>, n: int)
    requires
        1 <= n <= s.len(),
    ensures
        0 <= first_max_index(s, n) < n,
        forall|j: int| 0 <= j < n ==> #[trigger] s[j] <= s[first_max_index(s, n)],
        forall|j: int| 0 <= j < first_max_index(s, n) ==> #[trigger] s[j] < s[first_max_index(s, n)],
    decreases n,
{
    if n > 1 {
        lemma_first_max_index(s, n - 1);
    }
}

/// A source holding a tile of one of its first `n` colors offers an action.
pub proof fn lemma_source_actions_nonempty(
    b: BoardView,
    src: ActionDisplay,
    counts: Seq<nat>,
    n: int,
    c: int,
)
    requires
        0 <= c < n <= 5,
        counts[c] > 0,
    ensures
        source_actions(b, src, counts, n).len() >= 1,
    decreases n,
{
    if c < n - 1 {
        lemma_source_actions_nonempty(b, src, counts, n - 1, c);
    }
}

/// A draw pool among the first `k` that holds a tile offers an action.
pub proof fn lemma_pool_actions_nonempty(v: StateView, b: BoardView, k: int, i: int)
    requires
        0 <= i < k <= v.pools.len(),
        counts_wf(v.pools[i]),
        counts_total(v.pools[i]) > 0,
    ensures
        pool_actions(v, b, k).len() >= 1,
    decreases k,
{
    if i < k - 1 {
        lemma_pool_actions_nonempty(v, b, k - 1, i);
    } else {
        let c = if v.pools[i][0] > 0 {
            0
        } else if v.pools[i][1] > 0 {
            1
        } else if v.pools[i][2] > 0 {
            2
        } else if v.pools[i][3] > 0 {
            3
        } else {
            4
        };
        lemma_source_actions_nonempty(
            b,
            ActionDisplay::FactoryDisplay((k - 1) as usize),
            v.pools[i],
            5,
            c,
        );
    }
}

pub proof fn lemma_open_rows_len(b: BoardView, t: Tile, n: int)
    requires
        0 <= n,
    ensures
        open_rows(b, t, n).len() <= n,
    decreases n,
{
    if n > 0 {
        lemma_open_rows_len(b, t, n - 1);
    }
}

pub proof fn lemma_source_actions_len(b: BoardView, src: ActionDisplay, counts: Seq<nat>, n: int)
    requires
        0 <= n,
    ensures
        source_actions(b, src, counts, n).len() <= 6 * n,
    decreases n,
{
    if n > 0 {
        lemma_source_actions_len(b, src, counts, n - 1);
        lemma_open_rows_len(b, color_at(n - 1), 5);
    }
}

pub proof fn lemma_pool_actions_len(v: StateView, b: BoardView, k: int)
    requires
        0 <= k,
    ensures
        pool_actions(v, b, k).len() <= 30 * k,
    decreases k,
{
    if k > 0 {
        lemma_pool_actions_len(v, b, k - 1);
        lemma_source_actions_len(b, ActionDisplay::FactoryDisplay((k - 1) as usize), v.pools[k - 1], 5);
    }
}

/// A player has at most thirty actions per source.
pub proof fn lemma_legal_actions_len(v: StateView, p: int)
    ensures
        legal_actions(v, p).len() <= 30 * (v.pools.len() + 1),
{
    lemma_pool_actions_len(v, v.players[p], v.pools.len() as int);
    lemma_source_actions_len(v.players[p], ActionDisplay::Center, v.center, 5);
}

/// Scoring keeps a board well formed and moves its score by at most the
/// largest round gain up and the largest floor penalty down, never below
/// zero.
pub proof fn lemma_score_board(b: BoardView)
    requires
        board_wf(b),
    ensures
        board_wf(score_board(b)),
        0 <= score_board(b).score <= b.score + ROUND_GAIN_LIMIT,
        score_board(b).score >= b.score - 14,
{
    lemma_tile_rows(b, 5);
    lemma_floor_penalty_bounds(b.floor);
}

/// The immediate reward of a legal action is at most 149 points.
pub proof fn lemma_reward_bound(v: StateView, p: int, a: Action)
    requires
        state_wf(v),
        0 <= p < v.players.len(),
        action_shape(v, p, a),
    ensures
        reward(v, p, a) <= ROUND_GAIN_LIMIT + 14,
{
    lemma_apply_wf(v, p, a);
    lemma_score_board(v.players[p]);
    lemma_score_board(apply_action(v, p, a).players[p]);
}

/// Scoring tiles exactly the full staging rows, leaves a score of at least
/// zero and clears the floor line.
pub proof fn lemma_score_board_effect(b: BoardView)
    requires
        board_wf(b),
    ensures
        tiled_full_rows(b, score_board(b)),
        score_board(b).score >= 0,
        score_board(b).floor == 0,
{
    lemma_tile_rows(b, 5);
}

} // verus!
