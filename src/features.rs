//! Flat numeric feature vectors of states and actions, for learning and
//! analysis tools. The layout is a wire format and stays fixed.
use vstd::prelude::*;

use crate::model::{board_wf, state_wf, BoardView, StateView};
use crate::state::{Action, ActionDisplay, PlayerState, State};
use crate::tile::{color_at, color_index, lemma_color_roundtrip, tile_index, Tile};

verus! {

/// Length of a board's feature vector: score, 25 wall flags, six values per
/// staging row (color one-hot, then fill count), floor line, marker flag.
pub const BOARD_FEATURES: usize = 58;

/// 1 for true, 0 for false.
pub open spec fn flag(b: bool) -> int {
    if b {
        1
    } else {
        0
    }
}

/// Entry `j` of the one-hot encoding of an optional color (all zero for
/// `None`).
pub open spec fn color_flag(t: Option<Tile>, j: int) -> int {
    match t {
        Some(u) => flag(color_index(u) == j),
        None => 0,
    }
}

/// Entry `j` (of six) of a staging row's features.
pub open spec fn line_feature(l: (Option<Tile>, nat), j: int) -> int {
    if j < 5 {
        color_flag(l.0, j)
    } else {
        l.1 as int
    }
}

/// Entry `k` (of 25) of a wall's features, row after row.
pub open spec fn wall_feature(w: Seq<Seq<bool>>, k: int) -> int {
    if k < 5 {
        flag(w[0][k])
    } else if k < 10 {
        flag(w[1][k - 5])
    } else if k < 15 {
        flag(w[2][k - 10])
    } else if k < 20 {
        flag(w[3][k - 15])
    } else {
        flag(w[4][k - 20])
    }
}

/// Entry `k` (of 30) of the staging rows' features, row after row.
pub open spec fn lines_feature(ls: Seq<(Option<Tile>, nat)>, k: int) -> int {
    if k < 6 {
        line_feature(ls[0], k)
    } else if k < 12 {
        line_feature(ls[1], k - 6)
    } else if k < 18 {
        line_feature(ls[2], k - 12)
    } else if k < 24 {
        line_feature(ls[3], k - 18)
    } else {
        line_feature(ls[4], k - 24)
    }
}

/// Entry `k` of a board's features.
pub open spec fn board_feature(b: BoardView, k: int) -> int {
    if k == 0 {
        b.score
    } else if k < 26 {
        wall_feature(b.wall, k - 1)
    } else if k < 56 {
        lines_feature(b.lines, k - 26)
    } else if k == 56 {
        b.floor as int
    } else {
        flag(b.marker)
    }
}

/// A board's feature vector.
pub open spec fn board_features(b: BoardView) -> Seq<int> {
    Seq::new(BOARD_FEATURES as nat, |k: int| board_feature(b, k))
}

/// The color whose one-hot encoding starts at `base`, if any.
pub open spec fn decode_color(f: Seq<int>, base: int) -> Option<Tile> {
    if f[base] == 1 {
        Some(color_at(0))
    } else if f[base + 1] == 1 {
        Some(color_at(1))
    } else if f[base + 2] == 1 {
        Some(color_at(2))
    } else if f[base + 3] == 1 {
        Some(color_at(3))
    } else if f[base + 4] == 1 {
        Some(color_at(4))
    } else {
        None
    }
}

/// The board that a feature vector describes.
pub open spec fn decode_board(f: Seq<int>) -> BoardView {
    BoardView {
        score: f[0],
        wall: Seq::new(5, |r: int| Seq::new(5, |c: int| f[1 + 5 * r + c] == 1)),
        lines: Seq::new(5, |r: int| (decode_color(f, 26 + 6 * r), f[31 + 6 * r] as nat)),
        floor: f[56] as nat,
        marker: f[57] == 1,
    }
}

/// Decoding a well-formed board's features gives the board back.
pub proof fn lemma_decode_board(b: BoardView)
    requires
        board_wf(b),
    ensures
        decode_board(board_features(b)) == b,
{
    let f = board_features(b);
    let d = decode_board(f);
    assert forall|r: int, c: int| 0 <= r < 5 && 0 <= c < 5 implies d.wall[r][c] == b.wall[r][c] by {
        assert(f[1 + 5 * r + c] == board_feature(b, 1 + 5 * r + c));
    }
    assert forall|r: int| 0 <= r < 5 implies d.wall[r] =~= b.wall[r] by {
        assert forall|c: int| 0 <= c < 5 implies d.wall[r][c] == b.wall[r][c] by {
            assert(f[1 + 5 * r + c] == board_feature(b, 1 + 5 * r + c));
        }
    }
    assert(d.wall =~= b.wall);
    assert forall|r: int| 0 <= r < 5 implies d.lines[r] == b.lines[r] by {
        let base = 26 + 6 * r;
        assert(f[base] == board_feature(b, base));
        assert(f[base + 1] == board_feature(b, base + 1));
        assert(f[base + 2] == board_feature(b, base + 2));
        assert(f[base + 3] == board_feature(b, base + 3));
        assert(f[base + 4] == board_feature(b, base + 4));
        assert(f[base + 5] == board_feature(b, base + 5));
        match b.lines[r].0 {
            Some(t) => {
                lemma_color_roundtrip(t);
            },
            None => {},
        }
    }
    assert(d.lines =~= b.lines);
}

/// Entry `k` of a board's features, computed.
fn board_feature_at(p: &PlayerState, k: usize) -> (r: u64)
    requires
        board_wf(p@),
        k < BOARD_FEATURES,
    ensures
        r as int == board_feature(p@, k as int),
{
    if k == 0 {
        p.score as u64
    } else if k < 26 {
        let i = k - 1;
        let (row, col) = if i < 5 {
            (0, i)
        } else if i < 10 {
            (1, i - 5)
        } else if i < 15 {
            (2, i - 10)
        } else if i < 20 {
            (3, i - 15)
        } else {
            (4, i - 20)
        };
        if p.wall[row][col] {
            1
        } else {
            0
        }
    } else if k < 56 {
        let i = k - 26;
        let (row, j) = if i < 6 {
            (0, i)
        } else if i < 12 {
            (1, i - 6)
        } else if i < 18 {
            (2, i - 12)
        } else if i < 24 {
            (3, i - 18)
        } else {
            (4, i - 24)
        };
        let line = p.pattern_lines[row];
        assert(p@.lines[row as int] == (line.0, line.1 as nat));
        if j < 5 {
            match line.0 {
                Some(t) => if tile_index(t) == j {
                    1
                } else {
                    0
                },
                None => 0,
            }
        } else {
            line.1 as u64
        }
    } else if k == 56 {
        p.floor_line as u64
    } else if p.starting_marker {
        1
    } else {
        0
    }
}

impl PlayerState {
    /// The board's feature vector: score, the wall row after row (1 for a
    /// tiled cell), for each staging row the one-hot color (all zero when
    /// empty) and the fill count, the floor line and the marker flag.
    pub fn features(&self) -> (r: Vec<u64>)
        requires
            board_wf(self@),
        ensures
            r@.len() == BOARD_FEATURES,
            forall|k: int| 0 <= k < BOARD_FEATURES ==> #[trigger] r@[k] as int == board_features(self@)[k],
    {
        let mut out: Vec<u64> = Vec::new();
        let mut k: usize = 0;
        while k < BOARD_FEATURES
            invariant
                k <= BOARD_FEATURES,
                board_wf(self@),
                out@.len() == k,
                forall|i: int| 0 <= i < k ==> #[trigger] out@[i] as int == board_feature(self@, i),
            decreases BOARD_FEATURES - k,
        {
            out.push(board_feature_at(self, k));
            k = k + 1;
        }
        out
    }
}

/// The values of a feature vector, as integers.
pub open spec fn as_ints(s: Seq<u64>) -> Seq<int> {
    s.map_values(|x: u64| x as int)
}

/// Features of the first `n` colors of a five-color count: for each color
/// its one-hot encoding, then its count.
pub open spec fn counts_features(c: Seq<nat>, n: int) -> Seq<int>
    decreases n,
{
    if n <= 0 {
        Seq::empty()
    } else {
        counts_features(c, n - 1) + Seq::new(5, |j: int| flag(j == n - 1)).push(c[n - 1] as int)
    }
}

/// Features of the first `k` draw pools, one after another.
pub open spec fn pools_features(pools: Seq<Seq<nat>>, k: int) -> Seq<int>
    decreases k,
{
    if k <= 0 {
        Seq::empty()
    } else {
        pools_features(pools, k - 1) + counts_features(pools[k - 1], 5)
    }
}

/// Features of the first `k` boards, one after another.
pub open spec fn players_features(players: Seq<BoardView>, k: int) -> Seq<int>
    decreases k,
{
    if k <= 0 {
        Seq::empty()
    } else {
        players_features(players, k - 1) + board_features(players[k - 1])
    }
}

/// A game's feature vector: the draw pools, the shared pool and its marker
/// flag, the boards in seat order, and the round counter.
pub open spec fn state_features(v: StateView) -> Seq<int> {
    pools_features(v.pools, v.pools.len() as int) + counts_features(v.center, 5).push(
        flag(v.center_marker),
    ) + players_features(v.players, v.players.len() as int).push(v.rounds as int)
}

/// An action's feature vector: the draw pool index (-1 for the shared
/// pool), the color's one-hot encoding, the staging row (5 for the floor
/// line).
pub open spec fn action_features(a: Action) -> Seq<int> {
    seq![
        match a.action_display_choice {
            ActionDisplay::FactoryDisplay(i) => i as int,
            ActionDisplay::Center => -1,
        },
    ] + Seq::new(5, |j: int| flag(j == color_index(a.color_choice))) + seq![
        match a.pattern_line_choice {
            Some(r) => r as int,
            None => 5,
        },
    ]
}

proof fn lemma_split_eq<A>(x1: Seq<A>, x2: Seq<A>, y1: Seq<A>, y2: Seq<A>)
    requires
        x1 + x2 == y1 + y2,
        x1.len() == y1.len(),
    ensures
        x1 == y1,
        x2 == y2,
{
    assert(x1 =~= (x1 + x2).subrange(0, x1.len() as int));
    assert(y1 =~= (y1 + y2).subrange(0, y1.len() as int));
    assert(x2 =~= (x1 + x2).subrange(x1.len() as int, (x1 + x2).len() as int));
    assert(y2 =~= (y1 + y2).subrange(y1.len() as int, (y1 + y2).len() as int));
}

proof fn lemma_counts_features(c: Seq<nat>, n: int)
    requires
        0 <= n <= 5,
    ensures
        counts_features(c, n).len() == 6 * n,
        forall|i: int| 0 <= i < n ==> #[trigger] counts_features(c, n)[6 * i + 5] == c[i] as int,
    decreases n,
{
    if n > 0 {
        lemma_counts_features(c, n - 1);
        let prev = counts_features(c, n - 1);
        assert forall|i: int| 0 <= i < n implies #[trigger] counts_features(c, n)[6 * i + 5]
            == c[i] as int by {
            if i < n - 1 {
                assert(counts_features(c, n)[6 * i + 5] == prev[6 * i + 5]);
            }
        }
    }
}

proof fn lemma_counts_features_injective(c: Seq<nat>, d: Seq<nat>)
    requires
        c.len() == 5,
        d.len() == 5,
        counts_features(c, 5) == counts_features(d, 5),
    ensures
        c == d,
{
    lemma_counts_features(c, 5);
    lemma_counts_features(d, 5);
    assert forall|i: int| 0 <= i < 5 implies c[i] == d[i] by {
        assert(counts_features(c, 5)[6 * i + 5] == c[i] as int);
        assert(counts_features(d, 5)[6 * i + 5] == d[i] as int);
    }
    assert(c =~= d);
}

proof fn lemma_pools_features(a: Seq<Seq<nat>>, b: Seq<Seq<nat>>, k: int)
    requires
        0 <= k <= a.len(),
        k <= b.len(),
        forall|i: int| 0 <= i < k ==> (#[trigger] a[i]).len() == 5,
        forall|i: int| 0 <= i < k ==> (#[trigger] b[i]).len() == 5,
    ensures
        pools_features(a, k).len() == 30 * k,
        pools_features(a, k) == pools_features(b, k) ==> forall|i: int|
            0 <= i < k ==> #[trigger] a[i] == b[i],
    decreases k,
{
    if k > 0 {
        lemma_pools_features(a, b, k - 1);
        lemma_pools_features(b, a, k - 1);
        lemma_counts_features(a[k - 1], 5);
        lemma_counts_features(b[k - 1], 5);
        if pools_features(a, k) == pools_features(b, k) {
            lemma_split_eq(
                pools_features(a, k - 1),
                counts_features(a[k - 1], 5),
                pools_features(b, k - 1),
                counts_features(b[k - 1], 5),
            );
            lemma_counts_features_injective(a[k - 1], b[k - 1]);
        }
    }
}

proof fn lemma_players_features(a: Seq<BoardView>, b: Seq<BoardView>, k: int)
    requires
        0 <= k <= a.len(),
        k <= b.len(),
        forall|i: int| 0 <= i < k ==> board_wf(#[trigger] a[i]),
        forall|i: int| 0 <= i < k ==> board_wf(#[trigger] b[i]),
    ensures
        players_features(a, k).len() == 58 * k,
        players_features(a, k) == players_features(b, k) ==> forall|i: int|
            0 <= i < k ==> #[trigger] a[i] == b[i],
    decreases k,
{
    if k > 0 {
        lemma_players_features(a, b, k - 1);
        lemma_players_features(b, a, k - 1);
        if players_features(a, k) == players_features(b, k) {
            lemma_split_eq(
                players_features(a, k - 1),
                board_features(a[k - 1]),
                players_features(b, k - 1),
                board_features(b[k - 1]),
            );
            lemma_decode_board(a[k - 1]);
            lemma_decode_board(b[k - 1]);
        }
    }
}

/// A game's feature vector has 30 entries per draw pool, 31 for the shared
/// pool, 58 per board and one for the round counter.
pub proof fn lemma_state_features_len(v: StateView)
    requires
        state_wf(v),
    ensures
        state_features(v).len() == 30 * v.pools.len() + 31 + 58 * v.players.len() + 1,
{
    lemma_pools_features(v.pools, v.pools, v.pools.len() as int);
    lemma_counts_features(v.center, 5);
    lemma_players_features(v.players, v.players, v.players.len() as int);
}

/// Two well-formed games with as many pools and seats and the same feature
/// vector are the same game.
pub proof fn lemma_state_features_injective(a: StateView, b: StateView)
    requires
        state_wf(a),
        state_wf(b),
        a.pools.len() == b.pools.len(),
        a.players.len() == b.players.len(),
        state_features(a) == state_features(b),
    ensures
        a == b,
{
    lemma_pools_features(a.pools, b.pools, a.pools.len() as int);
    lemma_pools_features(b.pools, a.pools, b.pools.len() as int);
    lemma_counts_features(a.center, 5);
    lemma_counts_features(b.center, 5);
    lemma_players_features(a.players, b.players, a.players.len() as int);
    lemma_players_features(b.players, a.players, b.players.len() as int);
    let pa = pools_features(a.pools, a.pools.len() as int);
    let pb = pools_features(b.pools, b.pools.len() as int);
    let ca = counts_features(a.center, 5).push(flag(a.center_marker));
    let cb = counts_features(b.center, 5).push(flag(b.center_marker));
    let ra = players_features(a.players, a.players.len() as int).push(a.rounds as int);
    let rb = players_features(b.players, b.players.len() as int).push(b.rounds as int);
    lemma_split_eq(pa + ca, ra, pb + cb, rb);
    lemma_split_eq(pa, ca, pb, cb);
    assert(ca.drop_last() =~= counts_features(a.center, 5));
    assert(cb.drop_last() =~= counts_features(b.center, 5));
    lemma_counts_features_injective(a.center, b.center);
    assert(ca.last() == cb.last());
    assert(ra.drop_last() =~= players_features(a.players, a.players.len() as int));
    assert(rb.drop_last() =~= players_features(b.players, b.players.len() as int));
    assert(ra.last() == rb.last());
    assert(a.pools =~= b.pools);
    assert(a.players =~= b.players);
}

/// Appends `x` to `out`.
fn push_feature(out: &mut Vec<u64>, x: u64)
    ensures
        as_ints(final(out)@) == as_ints(old(out)@).push(x as int),
{
    out.push(x);
    assert(as_ints(out@) =~= as_ints(old(out)@).push(x as int));
}

/// Appends the features of a five-color count to `out`.
fn push_counts_features(out: &mut Vec<u64>, counts: [usize; 5])
    ensures
        as_ints(final(out)@) == as_ints(old(out)@) + counts_features(
            crate::state::counts_view(counts),
            5,
        ),
{
    let ghost start = as_ints(out@);
    let ghost c = crate::state::counts_view(counts);
    let mut i: usize = 0;
    while i < 5
        invariant
            i <= 5,
            c == crate::state::counts_view(counts),
            as_ints(out@) == start + counts_features(c, i as int),
        decreases 5 - i,
    {
        let ghost before = as_ints(out@);
        let mut j: usize = 0;
        while j < 5
            invariant
                j <= 5,
                as_ints(out@) == before + Seq::new(j as nat, |m: int| flag(m == i)),
            decreases 5 - j,
        {
            push_feature(out, if j == i { 1 } else { 0 });
            assert(as_ints(out@) =~= before + Seq::new((j + 1) as nat, |m: int| flag(m == i)));
            j = j + 1;
        }
        push_feature(out, counts[i] as u64);
        assert(as_ints(out@) =~= start + counts_features(c, i + 1));
        i = i + 1;
    }
}

impl State {
    /// The game's feature vector: for each draw pool, for each color its
    /// one-hot encoding and count; the same for the shared pool, then its
    /// marker flag; each board's features in seat order; the round counter.
    pub fn features(&self) -> (r: Vec<u64>)
        requires
            state_wf(self@),
        ensures
            as_ints(r@) == state_features(self@),
            r@.len() == 30 * self@.pools.len() + 31 + 58 * self@.players.len() + 1,
    {
        proof {
            lemma_state_features_len(self@);
        }
        let ghost v = self@;
        let mut out: Vec<u64> = Vec::new();
        let mut i: usize = 0;
        while i < self.factory_displays.len()
            invariant
                i <= v.pools.len(),
                v == self@,
                as_ints(out@) == pools_features(v.pools, i as int),
            decreases v.pools.len() - i,
        {
            assert(v.pools[i as int] == crate::state::counts_view(self.factory_displays@[i as int]));
            push_counts_features(&mut out, self.factory_displays[i]);
            i = i + 1;
        }
        let ghost pools_part = as_ints(out@);
        push_counts_features(&mut out, self.center.tiles);
        push_feature(&mut out, if self.center.starting_marker { 1 } else { 0 });
        let ghost center_part = as_ints(out@);
        assert(center_part =~= pools_part + counts_features(v.center, 5).push(flag(v.center_marker)));
        let mut q: usize = 0;
        while q < self.players.len()
            invariant
                q <= v.players.len(),
                v == self@,
                state_wf(v),
                as_ints(out@) == center_part + players_features(v.players, q as int),
            decreases v.players.len() - q,
        {
            assert(v.players[q as int] == self.players@[q as int]@);
            let board = self.players[q].features();
            assert(as_ints(board@) =~= board_features(v.players[q as int]));
            let ghost before = as_ints(out@);
            let mut k: usize = 0;
            while k < board.len()
                invariant
                    k <= board@.len(),
                    as_ints(out@) == before + as_ints(board@).subrange(0, k as int),
                decreases board@.len() - k,
            {
                push_feature(&mut out, board[k]);
                assert(as_ints(out@) =~= before + as_ints(board@).subrange(0, k + 1));
                k = k + 1;
            }
            assert(as_ints(board@).subrange(0, board@.len() as int) =~= as_ints(board@));
            assert(as_ints(out@) =~= center_part + players_features(v.players, q + 1));
            q = q + 1;
        }
        push_feature(&mut out, self.rounds as u64);
        assert(as_ints(out@) =~= state_features(v));
        out
    }
}

impl Action {
    /// The action's feature vector: the draw pool index (-1 for the shared
    /// pool), the color's one-hot encoding, the staging row (5 for the floor
    /// line).
    pub fn features(&self) -> (r: Vec<i64>)
        requires
            self.action_display_choice matches ActionDisplay::FactoryDisplay(i) ==> i <= i64::MAX,
            self.pattern_line_choice matches Some(l) ==> l <= i64::MAX,
        ensures
            r@.map_values(|x: i64| x as int) == action_features(*self),
    {
        let mut out: Vec<i64> = Vec::new();
        match self.action_display_choice {
            ActionDisplay::FactoryDisplay(i) => out.push(i as i64),
            ActionDisplay::Center => out.push(-1),
        }
        let c = tile_index(self.color_choice);
        let mut j: usize = 0;
        while j < 5
            invariant
                j <= 5,
                c == color_index(self.color_choice),
                out@.len() == 1 + j,
                out@[0] as int == action_features(*self)[0],
                forall|m: int| 1 <= m < 1 + j ==> #[trigger] out@[m] as int == flag(m - 1 == c),
            decreases 5 - j,
        {
            out.push(if j == c { 1 } else { 0 });
            j = j + 1;
        }
        match self.pattern_line_choice {
            Some(l) => out.push(l as i64),
            None => out.push(5),
        }
        assert(out@.map_values(|x: i64| x as int) =~= action_features(*self));
        out
    }
}

} // verus!
