//! Game state: draw pools, the shared pool, player boards and actions.
use vstd::prelude::*;

use crate::model::{
    counts_total, counts_wf, game_over, has_completed_row, pools_total, round_over, row_complete,
    state_wf, BoardView, SEAT_LIMIT, StateView,
};
use crate::random::random_below;
use crate::tile::{color_index, tile_at, tile_index, Tile};

verus! {

/// Tile counts of a draw pool, indexed by position in the color order.
pub type FactoryDisplayState = [usize; 5];

/// The shared pool: tile counts and whether the first-player marker is
/// still unclaimed.
#[derive(Clone, Copy, Debug)]
pub struct CenterState {
    pub tiles: [usize; 5],
    pub starting_marker: bool,
}

/// One player's board.
#[derive(Clone, Copy, Debug)]
pub struct PlayerState {
    pub score: i32,
    pub wall: [[bool; 5]; 5],
    pub pattern_lines: [(Option<Tile>, usize); 5],
    pub floor_line: usize,
    pub starting_marker: bool,
}

/// A game in progress. The order of `players` is the turn order.
#[derive(Clone, Debug)]
pub struct State {
    pub factory_displays: Vec<FactoryDisplayState>,
    pub center: CenterState,
    pub players: Vec<PlayerState>,
    pub rounds: usize,
}

/// Where an action takes its tiles from.
#[derive(Clone, Copy, Debug, PartialEq, Eq, Structural, Hash)]
pub enum ActionDisplay {
    FactoryDisplay(usize),
    Center,
}

/// A move: a source, a color taken from it and a destination, which is a
/// staging row or, for `None`, the floor line.
#[derive(Clone, Copy, Debug, PartialEq, Eq, Structural, Hash)]
pub struct Action {
    pub action_display_choice: ActionDisplay,
    pub color_choice: Tile,
    pub pattern_line_choice: Option<usize>,
}

/// Why a game configuration was refused.
#[derive(Clone, Copy, Debug, PartialEq, Eq, Structural)]
pub enum GameError {
    /// The number of players lies outside `[2, 4]`.
    PlayerCount(usize),
}

impl GameError {
    /// A human-readable description.
    pub fn message(&self) -> String {
        match self {
            GameError::PlayerCount(_) => "Number of players outside the bound [2, 4]".to_string(),
        }
    }
}

/// A check of a configuration before play.
pub trait Validate {
    spec fn is_valid(&self) -> bool;

    fn validate(&self) -> (r: Result<(), GameError>)
        ensures
            r.is_ok() <==> self.is_valid(),
    ;
}

/// A state of a sequential game for several players, played in rounds of
/// plies.
pub trait GameState: Sized {
    /// `self` is the state of a new game for `n_players`.
    spec fn is_fresh(&self, n_players: usize) -> bool;

    /// No tiles are left to draft in this round.
    spec fn round_done(&self) -> bool;

    /// The game has ended.
    spec fn game_done(&self) -> bool;

    fn new(n_players: usize) -> (r: Self)
        requires
            n_players <= SEAT_LIMIT,
        ensures
            r.is_fresh(n_players),
    ;

    /// A round is over when no tiles are left to draft; the game may go on.
    fn is_round_over(&self) -> (r: bool)
        ensures
            r == self.round_done(),
    ;

    /// The game is over: see `is_round_over`.
    fn is_game_over(&self) -> (r: bool)
        ensures
            r == self.game_done(),
    ;
}

/// A count of each color, as mathematics.
pub open spec fn counts_view(d: [usize; 5]) -> Seq<nat> {
    Seq::new(5, |k: int| d[k] as nat)
}

/// A wall, as mathematics.
pub open spec fn wall_view(w: [[bool; 5]; 5]) -> Seq<Seq<bool>> {
    Seq::new(5, |r: int| Seq::new(5, |c: int| w[r][c]))
}

/// Five zero counts.
pub open spec fn empty_counts() -> Seq<nat> {
    seq![0nat, 0nat, 0nat, 0nat, 0nat]
}

/// A board at the start of a game.
pub open spec fn fresh_board() -> BoardView {
    BoardView {
        score: 0,
        wall: Seq::new(5, |r: int| Seq::new(5, |c: int| false)),
        lines: Seq::new(5, |r: int| (None, 0nat)),
        floor: 0,
        marker: false,
    }
}

impl View for PlayerState {
    type V = BoardView;

    open spec fn view(&self) -> BoardView {
        BoardView {
            score: self.score as int,
            wall: wall_view(self.wall),
            lines: Seq::new(5, |r: int| (self.pattern_lines[r].0, self.pattern_lines[r].1 as nat)),
            floor: self.floor_line as nat,
            marker: self.starting_marker,
        }
    }
}

impl View for State {
    type V = StateView;

    open spec fn view(&self) -> StateView {
        StateView {
            pools: self.factory_displays@.map_values(|d: [usize; 5]| counts_view(d)),
            center: counts_view(self.center.tiles),
            center_marker: self.center.starting_marker,
            players: self.players@.map_values(|p: PlayerState| p@),
            rounds: self.rounds as nat,
        }
    }
}

/// Totals of pools that differ in one pool differ by that pool's difference.
pub proof fn lemma_pools_total_update(pools: Seq<Seq<nat>>, i: int, d: Seq<nat>, k: int)
    requires
        0 <= i < pools.len(),
        0 <= k <= pools.len(),
    ensures
        pools_total(pools.update(i, d), k) == pools_total(pools, k) + if i < k {
            counts_total(d) - counts_total(pools[i])
        } else {
            0
        },
    decreases k,
{
    if k > 0 {
        lemma_pools_total_update(pools, i, d, k - 1);
    }
}

/// One pool's tiles are part of the pools' total.
pub proof fn lemma_pool_within_total(pools: Seq<Seq<nat>>, i: int, k: int)
    requires
        0 <= i < k <= pools.len(),
    ensures
        counts_total(pools[i]) <= pools_total(pools, k),
        pools_total(pools, k) >= 0,
    decreases k,
{
    lemma_pools_total_nonneg(pools, k - 1);
    if i < k - 1 {
        lemma_pool_within_total(pools, i, k - 1);
    }
}

pub proof fn lemma_pools_total_nonneg(pools: Seq<Seq<nat>>, k: int)
    requires
        k <= pools.len(),
    ensures
        pools_total(pools, k) >= 0,
    decreases k,
{
    if k > 0 {
        lemma_pools_total_nonneg(pools, k - 1);
    }
}

/// Pools that are all empty hold no tiles.
pub proof fn lemma_pools_total_zero(pools: Seq<Seq<nat>>, k: int)
    requires
        k <= pools.len(),
        forall|i: int| 0 <= i < k ==> counts_total(#[trigger] pools[i]) == 0,
    ensures
        pools_total(pools, k) == 0,
    decreases k,
{
    if k > 0 {
        lemma_pools_total_zero(pools, k - 1);
    }
}

/// Empty pools, one for each index below `k`.
pub proof fn lemma_empty_pools_total(pools: Seq<Seq<nat>>, k: int)
    requires
        k <= pools.len(),
        forall|i: int| 0 <= i < pools.len() ==> #[trigger] pools[i] == empty_counts(),
    ensures
        pools_total(pools, k) == 0,
    decreases k,
{
    if k > 0 {
        lemma_empty_pools_total(pools, k - 1);
    }
}

impl CenterState {
    /// An empty shared pool holding the first-player marker.
    pub fn new() -> (r: CenterState)
        ensures
            counts_view(r.tiles) == empty_counts(),
            r.starting_marker,
    {
        let r = CenterState { tiles: [0, 0, 0, 0, 0], starting_marker: true };
        assert(counts_view(r.tiles) =~= empty_counts());
        r
    }

    /// The shared pool holds no tile.
    pub fn has_no_tiles(&self) -> (r: bool)
        ensures
            r == (counts_total(counts_view(self.tiles)) == 0),
    {
        has_no_tiles(self.tiles)
    }
}

/// An empty draw pool.
pub fn build_empty_display() -> (r: FactoryDisplayState)
    ensures
        counts_view(r) == empty_counts(),
{
    let r: FactoryDisplayState = [0, 0, 0, 0, 0];
    assert(counts_view(r) =~= empty_counts());
    r
}

/// A draw pool holds no tile.
pub fn has_no_tiles(display: FactoryDisplayState) -> (r: bool)
    ensures
        r == (counts_total(counts_view(display)) == 0),
{
    display[0] == 0 && display[1] == 0 && display[2] == 0 && display[3] == 0 && display[4] == 0
}

impl PlayerState {
    /// A board at the start of a game.
    pub fn new() -> (r: PlayerState)
        ensures
            r@ == fresh_board(),
    {
        let r = PlayerState {
            score: 0,
            wall: [
                [false, false, false, false, false],
                [false, false, false, false, false],
                [false, false, false, false, false],
                [false, false, false, false, false],
                [false, false, false, false, false],
            ],
            pattern_lines: [(None, 0), (None, 0), (None, 0), (None, 0), (None, 0)],
            floor_line: 0,
            starting_marker: false,
        };
        assert(r@.wall =~~= fresh_board().wall);
        assert(r@.lines =~= fresh_board().lines);
        r
    }

    /// Some wall row is fully tiled; the game ends after the round in which
    /// this first happens.
    pub fn has_completed_row(&self) -> (r: bool)
        ensures
            r == has_completed_row(self@),
    {
        let mut i: usize = 0;
        while i < 5
            invariant
                i <= 5,
                forall|k: int| 0 <= k < i ==> !row_complete(self@, k),
            decreases 5 - i,
        {
            let row = self.wall[i];
            if row[0] && row[1] && row[2] && row[3] && row[4] {
                assert(row_complete(self@, i as int));
                return true;
            }
            assert(!self@.wall[i as int][0] || !self@.wall[i as int][1] || !self@.wall[i as int][2]
                || !self@.wall[i as int][3] || !self@.wall[i as int][4]);
            i = i + 1;
        }
        false
    }
}

impl State {
    /// An independent copy of the game, for trying moves out.
    pub fn snapshot(&self) -> (r: State)
        ensures
            r@ == self@,
    {
        let mut factory_displays: Vec<FactoryDisplayState> = Vec::new();
        let mut i: usize = 0;
        while i < self.factory_displays.len()
            invariant
                i <= self.factory_displays@.len(),
                factory_displays@ == self.factory_displays@.subrange(0, i as int),
            decreases self.factory_displays@.len() - i,
        {
            factory_displays.push(self.factory_displays[i]);
            assert(factory_displays@ =~= self.factory_displays@.subrange(0, i + 1));
            i = i + 1;
        }
        let mut players: Vec<PlayerState> = Vec::new();
        let mut j: usize = 0;
        while j < self.players.len()
            invariant
                j <= self.players@.len(),
                players@ == self.players@.subrange(0, j as int),
            decreases self.players@.len() - j,
        {
            players.push(self.players[j]);
            assert(players@ =~= self.players@.subrange(0, j + 1));
            j = j + 1;
        }
        assert(factory_displays@ =~= self.factory_displays@);
        assert(players@ =~= self.players@);
        State { factory_displays, center: self.center, players, rounds: self.rounds }
    }

    /// The number of players.
    pub fn n_players(&self) -> (r: usize)
        ensures
            r == self@.players.len(),
    {
        self.players.len()
    }
}

impl GameState for State {
    /// A game with `2 * n_players + 1` empty draw pools, an empty shared pool
    /// with the marker, fresh boards and round 0.
    open spec fn is_fresh(&self, n_players: usize) -> bool {
        &&& self@.pools.len() == 2 * n_players + 1
        &&& forall|i: int| 0 <= i < self@.pools.len() ==> #[trigger] self@.pools[i] == empty_counts()
        &&& self@.center == empty_counts()
        &&& self@.center_marker
        &&& self@.players.len() == n_players
        &&& forall|p: int| 0 <= p < n_players ==> #[trigger] self@.players[p] == fresh_board()
        &&& self@.rounds == 0
        &&& (n_players >= 1 ==> state_wf(self@))
    }

    open spec fn round_done(&self) -> bool {
        round_over(self@)
    }

    open spec fn game_done(&self) -> bool {
        game_over(self@)
    }

    /// No tile is drawn.
    fn new(n_players: usize) -> (r: State) {
        let n_displays = n_players * 2 + 1;
        let mut factory_displays: Vec<FactoryDisplayState> = Vec::with_capacity(n_displays);
        let mut i: usize = 0;
        while i < n_displays
            invariant
                i <= n_displays,
                factory_displays@.len() == i,
                forall|k: int| 0 <= k < i ==> counts_view(#[trigger] factory_displays@[k]) == empty_counts(),
            decreases n_displays - i,
        {
            factory_displays.push(build_empty_display());
            i = i + 1;
        }
        let mut players: Vec<PlayerState> = Vec::with_capacity(n_players);
        let mut j: usize = 0;
        while j < n_players
            invariant
                j <= n_players,
                players@.len() == j,
                forall|k: int| 0 <= k < j ==> (#[trigger] players@[k])@ == fresh_board(),
            decreases n_players - j,
        {
            players.push(PlayerState::new());
            j = j + 1;
        }
        let r = State { factory_displays, center: CenterState::new(), players, rounds: 0 };
        proof {
            lemma_empty_pools_total(r@.pools, r@.pools.len() as int);
            assert(fresh_board().wall[0].len() == 5);
        }
        r
    }

    fn is_round_over(&self) -> (r: bool) {
        if !self.center.has_no_tiles() {
            return false;
        }
        let mut i: usize = 0;
        while i < self.factory_displays.len()
            invariant
                i <= self.factory_displays@.len(),
                forall|k: int| 0 <= k < i ==> counts_total(#[trigger] self@.pools[k]) == 0,
            decreases self.factory_displays@.len() - i,
        {
            assert(self@.pools[i as int] == counts_view(self.factory_displays@[i as int]));
            if !has_no_tiles(self.factory_displays[i]) {
                return false;
            }
            i = i + 1;
        }
        true
    }

    fn is_game_over(&self) -> (r: bool) {
        let over = self.is_round_over();
        assert(over == self.round_done());
        if !over {
            return false;
        }
        assert(round_over(self@));
        let mut i: usize = 0;
        while i < self.players.len()
            invariant
                round_over(self@),
                i <= self.players@.len(),
                forall|k: int| 0 <= k < i ==> !has_completed_row(#[trigger] self@.players[k]),
            decreases self.players@.len() - i,
        {
            assert(self@.players[i as int] == self.players@[i as int]@);
            if self.players[i].has_completed_row() {
                assert(has_completed_row(self@.players[i as int]));
                return true;
            }
            i = i + 1;
        }
        false
    }
}

impl Validate for State {
    open spec fn is_valid(&self) -> bool {
        2 <= self.players@.len() <= 4
    }

    /// Accepts two to four players; otherwise reports the count.
    fn validate(&self) -> (r: Result<(), GameError>)
        ensures
            r == if 2 <= self.players@.len() <= 4 {
                Ok::<(), GameError>(())
            } else {
                Err(GameError::PlayerCount(self.players@.len() as usize))
            },
    {
        let n_players = self.players.len();
        if n_players < 2 || n_players > 4 {
            return Err(GameError::PlayerCount(n_players));
        }
        Ok(())
    }
}

/// Number of the first `j` of four drawn tiles that have color index `c`.
pub open spec fn drawn_upto(draws: [Tile; 4], j: int, c: int) -> nat
    decreases j,
{
    if j <= 0 {
        0
    } else {
        drawn_upto(draws, j - 1, c) + if color_index(draws[j - 1]) == c {
            1nat
        } else {
            0nat
        }
    }
}

/// Number of four drawn tiles that have color index `c`.
pub open spec fn drawn_count(draws: [Tile; 4], c: int) -> nat {
    drawn_upto(draws, 4, c)
}

/// The counts of a pool after four drawn tiles are added.
pub open spec fn add_draws(d: Seq<nat>, draws: [Tile; 4]) -> Seq<nat> {
    Seq::new(5, |c: int| d[c] + drawn_count(draws, c))
}

/// Adds the four tiles `draws[i]` to draw pool `i`, for every pool, and
/// resets the shared pool to empty with the marker.
pub fn refill_with(state: &mut State, draws: &Vec<[Tile; 4]>)
    requires
        state_wf(old(state)@),
        draws@.len() == old(state)@.pools.len(),
        pools_total(old(state)@.pools, old(state)@.pools.len() as int) + 4 * old(state)@.pools.len()
            <= usize::MAX,
    ensures
        state_wf(final(state)@),
        final(state)@.pools.len() == old(state)@.pools.len(),
        forall|i: int|
            0 <= i < old(state)@.pools.len() ==> #[trigger] final(state)@.pools[i] == add_draws(
                old(state)@.pools[i],
                draws@[i],
            ),
        forall|i: int|
            0 <= i < old(state)@.pools.len() ==> counts_total(#[trigger] final(state)@.pools[i])
                == counts_total(old(state)@.pools[i]) + 4,
        final(state)@.center == empty_counts(),
        final(state)@.center_marker,
        final(state)@.players == old(state)@.players,
        final(state)@.rounds == old(state)@.rounds,
{
    let ghost v0 = state@;
    let n = state.factory_displays.len();
    let mut i: usize = 0;
    while i < n
        invariant
            n == v0.pools.len(),
            draws@.len() == n,
            i <= n,
            state@.pools.len() == n,
            state@.center == v0.center,
            state@.center_marker == v0.center_marker,
            state@.players == v0.players,
            state@.rounds == v0.rounds,
            state_wf(v0),
            pools_total(v0.pools, n as int) + 4 * n <= usize::MAX,
            pools_total(state@.pools, n as int) == pools_total(v0.pools, n as int) + 4 * i,
            forall|k: int| 0 <= k < n ==> counts_wf(#[trigger] state@.pools[k]),
            forall|k: int|
                0 <= k < i ==> #[trigger] state@.pools[k] == add_draws(v0.pools[k], draws@[k]),
            forall|k: int|
                0 <= k < i ==> counts_total(#[trigger] state@.pools[k]) == counts_total(v0.pools[k]) + 4,
            forall|k: int| i <= k < n ==> #[trigger] state@.pools[k] == v0.pools[k],
        decreases n - i,
    {
        let mut display = state.factory_displays[i];
        let ghost d0 = counts_view(display);
        let drawn = draws[i];
        proof {
            lemma_pool_within_total(v0.pools, i as int, n as int);
            assert(state@.pools[i as int] == counts_view(state.factory_displays@[i as int]));
            assert(d0 == v0.pools[i as int]);
        }
        let mut j: usize = 0;
        while j < 4
            invariant
                j <= 4,
                counts_total(d0) <= pools_total(v0.pools, n as int),
                pools_total(v0.pools, n as int) + 4 * n <= usize::MAX,
                n >= 1,
                counts_total(counts_view(display)) == counts_total(d0) + j,
                forall|c: int|
                    0 <= c < 5 ==> #[trigger] counts_view(display)[c] == d0[c] + drawn_upto(
                        drawn,
                        j as int,
                        c,
                    ),
                d0.len() == 5,
            decreases 4 - j,
        {
            let k = tile_index(drawn[j]);
            assert(counts_view(display)[k as int] <= counts_total(counts_view(display)));
            display[k] = display[k] + 1;
            j = j + 1;
        }
        assert(counts_view(display) =~= add_draws(d0, drawn));
        let ghost before = state@.pools;
        state.factory_displays.set(i, display);
        proof {
            assert(state@.pools =~= before.update(i as int, counts_view(display)));
            lemma_pools_total_update(before, i as int, counts_view(display), n as int);
        }
        i = i + 1;
    }
    state.center = CenterState::new();
    proof {
        lemma_pools_total_nonneg(state@.pools, n as int);
    }
}

/// Draws four tiles into every draw pool, each uniformly among the five
/// colors, and resets the shared pool to empty with the marker.
pub fn refill_tiles(state: &mut State)
    requires
        state_wf(old(state)@),
        pools_total(old(state)@.pools, old(state)@.pools.len() as int) + 4 * old(state)@.pools.len()
            <= usize::MAX,
    ensures
        state_wf(final(state)@),
        final(state)@.pools.len() == old(state)@.pools.len(),
        forall|i: int|
            0 <= i < old(state)@.pools.len() ==> counts_total(#[trigger] final(state)@.pools[i])
                == counts_total(old(state)@.pools[i]) + 4,
        forall|i: int, k: int|
            0 <= i < old(state)@.pools.len() && 0 <= k < 5 ==> #[trigger] final(state)@.pools[i][k]
                >= old(state)@.pools[i][k],
        final(state)@.center == empty_counts(),
        final(state)@.center_marker,
        final(state)@.players == old(state)@.players,
        final(state)@.rounds == old(state)@.rounds,
{
    let mut draws: Vec<[Tile; 4]> = Vec::new();
    let mut i: usize = 0;
    while i < state.factory_displays.len()
        invariant
            i <= state@.pools.len(),
            draws@.len() == i,
        decreases state@.pools.len() - i,
    {
        // Each tile's color drawn uniformly among the five.
        draws.push(
            [
                tile_at(random_below(5)),
                tile_at(random_below(5)),
                tile_at(random_below(5)),
                tile_at(random_below(5)),
            ],
        );
        i = i + 1;
    }
    refill_with(state, &draws);
}

} // verus!
