//! The simulation core: the tile arena with its exterior sentinel, Moore
//! neighbourhood precomputation, the B3/S23 transition rule, the
//! evaluate/commit tick phases, and seeded or non-deterministic
//! initialization.

use vstd::prelude::*;
use crate::board::{Board, CellPosition};
use crate::board::{lemma_coords_of_index_of, lemma_index_in_range};
use rand::Rng;
use rand::SeedableRng;

verus! {

/// The observable state of one cell.
#[derive(Clone, Copy, PartialEq, Eq, Structural, Debug)]
pub enum TileState {
    Alive,
    Dead,
}

/// One cell: committed state, pending state, and the 8 Moore neighbours as
/// indices into the tile arena (the sentinel's index stands for "off the
/// board").
#[derive(Clone, Copy)]
pub struct Tile {
    pub state: TileState,
    pub next_state: TileState,
    pub neighbours: [usize; 8],
}

/// The x component of the k-th Moore-neighbourhood offset, in the order
/// (-1,-1), (0,-1), (1,-1), (-1,0), (1,0), (-1,1), (0,1), (1,1).
pub open spec fn offset_x(k: int) -> int {
    if k == 0 || k == 3 || k == 5 {
        -1
    } else if k == 1 || k == 6 {
        0
    } else {
        1
    }
}

/// The y component of the k-th Moore-neighbourhood offset.
pub open spec fn offset_y(k: int) -> int {
    if k <= 2 {
        -1
    } else if k <= 4 {
        0
    } else {
        1
    }
}

fn offset(k: usize) -> (r: (i32, i32))
    requires
        k < 8,
    ensures
        r.0 == offset_x(k as int),
        r.1 == offset_y(k as int),
{
    match k {
        0 => (-1, -1),
        1 => (0, -1),
        2 => (1, -1),
        3 => (-1, 0),
        4 => (1, 0),
        5 => (-1, 1),
        6 => (0, 1),
        _ => (1, 1),
    }
}

/// The arena index of cell `i`'s neighbour in direction `k`: the neighbour's
/// own cell index when the offset coordinate lies on the board, the sentinel
/// index `b.cell_count()` otherwise.
pub open spec fn nbr_of(b: Board, i: int, k: int) -> int {
    let x = b.spec_x_of(i) + offset_x(k);
    let y = b.spec_y_of(i) + offset_y(k);
    if b.in_bounds(x, y) {
        b.spec_index_of(x, y)
    } else {
        b.cell_count()
    }
}

/// Every neighbour index lies in the arena: a real cell or the sentinel.
pub proof fn lemma_nbr_in_range(b: Board, i: int, k: int)
    requires
        b.wf(),
        0 <= i < b.cell_count(),
    ensures
        0 <= nbr_of(b, i, k) <= b.cell_count(),
{
    vstd::arithmetic::mul::lemma_mul_strictly_positive(b.width as int, b.height as int);
    let x = b.spec_x_of(i) + offset_x(k);
    let y = b.spec_y_of(i) + offset_y(k);
    if b.in_bounds(x, y) {
        lemma_index_in_range(b, x, y);
    }
}

/// Precomputes the 8 Moore neighbours of `index`, substituting the sentinel
/// index after an explicit per-axis bounds check for every offset coordinate
/// that falls off the board.
pub fn neighbours(board: &Board, index: i32) -> (r: [usize; 8])
    requires
        board.wf(),
        0 <= index < board.cell_count(),
    ensures
        forall|k: int| 0 <= k < 8 ==> #[trigger] r@[k] == nbr_of(*board, index as int, k),
{
    let sentinel = board.length() as usize;
    let position = board.idx2vec(index);
    let mut out: [usize; 8] = [
        sentinel,
        sentinel,
        sentinel,
        sentinel,
        sentinel,
        sentinel,
        sentinel,
        sentinel,
    ];
    let mut k: usize = 0;
    while k < 8
        invariant
            k <= 8,
            board.wf(),
            0 <= index < board.cell_count(),
            sentinel == board.cell_count(),
            position.x == board.spec_x_of(index as int),
            position.y == board.spec_y_of(index as int),
            board.in_bounds(position.x as int, position.y as int),
            forall|j: int| 0 <= j < k ==> #[trigger] out@[j] == nbr_of(*board, index as int, j),
            forall|j: int| k <= j < 8 ==> #[trigger] out@[j] == board.cell_count(),
        decreases 8 - k,
    {
        let (dx, dy) = offset(k);
        let pos = position.add(CellPosition::from((dx, dy)));
        if pos.x >= 0 && pos.x < board.width && pos.y >= 0 && pos.y < board.height {
            out[k] = board.vec2idx(pos) as usize;
        }
        k = k + 1;
    }
    out
}

/// The B3/S23 transition rule: a live cell survives on 2 or 3 live
/// neighbours, a dead cell is born on exactly 3; everything else dies or
/// stays dead.
pub open spec fn rule(state: TileState, alive: int) -> TileState {
    match state {
        TileState::Alive => if alive < 2 || alive > 3 {
            TileState::Dead
        } else {
            TileState::Alive
        },
        TileState::Dead => if alive == 3 {
            TileState::Alive
        } else {
            TileState::Dead
        },
    }
}

/// Computes a cell's next state from its current state and the number of
/// alive neighbours, exactly as `rule` states.
pub fn next_state(state: TileState, alive: usize) -> (r: TileState)
    ensures
        r == rule(state, alive as int),
{
    match state {
        TileState::Alive => {
            if alive > 3 || alive < 2 {
                TileState::Dead
            } else {
                TileState::Alive
            }
        },
        TileState::Dead => {
            if alive == 3 {
                TileState::Alive
            } else {
                TileState::Dead
            }
        },
    }
}

/// Whether the tile at arena index `n` is alive.
pub open spec fn alive_at(tiles: Seq<Tile>, n: int) -> bool {
    tiles[n].state == TileState::Alive
}

/// The number of alive tiles among cell `i`'s first `k` neighbours.
pub open spec fn alive_among(tiles: Seq<Tile>, b: Board, i: int, k: int) -> int
    decreases k,
{
    if k <= 0 {
        0
    } else {
        alive_among(tiles, b, i, k - 1) + if alive_at(tiles, nbr_of(b, i, k - 1)) {
            1int
        } else {
            0int
        }
    }
}

/// The number of alive tiles among cell `i`'s 8 neighbours (in a well-formed
/// simulation the sentinel is dead and contributes 0).
pub open spec fn alive_count(tiles: Seq<Tile>, b: Board, i: int) -> int {
    alive_among(tiles, b, i, 8)
}

/// Two tile arenas with the same committed states have the same alive
/// counts.
proof fn lemma_alive_among_same_states(a: Seq<Tile>, c: Seq<Tile>, b: Board, i: int, k: int)
    requires
        a.len() == c.len(),
        a.len() == b.cell_count() + 1,
        forall|j: int| 0 <= j < a.len() ==> #[trigger] a[j].state == c[j].state,
        b.wf(),
        0 <= i < b.cell_count(),
        0 <= k <= 8,
    ensures
        alive_among(a, b, i, k) == alive_among(c, b, i, k),
    decreases k,
{
    if k > 0 {
        lemma_alive_among_same_states(a, c, b, i, k - 1);
        lemma_nbr_in_range(b, i, k - 1);
    }
}

/// The whole simulation: the board and one tile per cell, plus the shared
/// exterior sentinel tile stored at arena index `cell_count`.
pub struct Life {
    pub board: Board,
    pub tiles: Vec<Tile>,
}

/// The evaluate phase's effect: geometry, committed states and topology are
/// unchanged, the sentinel's pending state is untouched, and every real
/// cell's pending state is the rule applied to its old state and its
/// neighbours' old states.
pub open spec fn evaluated(pre: Life, post: Life) -> bool {
    &&& post.board == pre.board
    &&& post.tiles@.len() == pre.tiles@.len()
    &&& forall|j: int|
        0 <= j < pre.tiles@.len() ==> #[trigger] post.tiles@[j].state == pre.tiles@[j].state
    &&& forall|j: int|
        0 <= j < pre.tiles@.len() ==> #[trigger] post.tiles@[j].neighbours
            == pre.tiles@[j].neighbours
    &&& forall|i: int|
        0 <= i < pre.cell_count() ==> #[trigger] post.tiles@[i].next_state == rule(
            pre.tiles@[i].state,
            alive_count(pre.tiles@, pre.board, i),
        )
    &&& post.tiles@[pre.cell_count()].next_state == pre.tiles@[pre.cell_count()].next_state
}

/// The commit phase's effect: every real cell's committed state becomes its
/// pending state; pending states, topology, geometry and the sentinel are
/// unchanged.
pub open spec fn committed(pre: Life, post: Life) -> bool {
    &&& post.board == pre.board
    &&& post.tiles@.len() == pre.tiles@.len()
    &&& forall|i: int|
        0 <= i < pre.cell_count() ==> #[trigger] post.tiles@[i].state == pre.tiles@[i].next_state
    &&& forall|i: int|
        0 <= i < pre.tiles@.len() ==> #[trigger] post.tiles@[i].next_state
            == pre.tiles@[i].next_state
    &&& forall|i: int|
        0 <= i < pre.tiles@.len() ==> #[trigger] post.tiles@[i].neighbours
            == pre.tiles@[i].neighbours
    &&& post.tiles@[pre.cell_count()].state == pre.tiles@[pre.cell_count()].state
}

impl Life {
    /// The number of real cells.
    pub open spec fn cell_count(self) -> int {
        self.board.cell_count()
    }

    /// The arena index of the exterior sentinel tile.
    pub open spec fn sentinel(self) -> int {
        self.board.cell_count()
    }

    /// Well-formed: positive geometry, one tile per cell plus the sentinel,
    /// the sentinel permanently dead with only itself as neighbour, and
    /// every real cell's neighbour list equal to the precomputed topology.
    pub open spec fn wf(self) -> bool {
        &&& self.board.wf()
        &&& self.tiles@.len() == self.cell_count() + 1
        &&& self.tiles@[self.sentinel()].state == TileState::Dead
        &&& self.tiles@[self.sentinel()].next_state == TileState::Dead
        &&& forall|k: int|
            0 <= k < 8 ==> #[trigger] self.tiles@[self.sentinel()].neighbours@[k]
                == self.sentinel()
        &&& forall|i: int, k: int|
            0 <= i < self.cell_count() && 0 <= k < 8 ==> #[trigger] self.tiles@[i].neighbours@[k]
                == nbr_of(self.board, i, k)
    }

    /// Builds the arena once, before any tick: one tile per cell, all dead,
    /// with the precomputed neighbour topology, plus the sentinel tile.
    pub fn new(board: Board) -> (r: Life)
        requires
            board.wf(),
        ensures
            r.wf(),
            r.board == board,
            forall|i: int|
                0 <= i < r.cell_count() ==> #[trigger] r.tiles@[i].state == TileState::Dead
                    && r.tiles@[i].next_state == TileState::Dead,
    {
        let cc = board.length();
        let n = cc as usize;
        let mut tiles: Vec<Tile> = Vec::new();
        let mut i: usize = 0;
        while i < n
            invariant
                board.wf(),
                i <= n,
                n == board.cell_count(),
                tiles@.len() == i,
                forall|j: int|
                    0 <= j < i ==> #[trigger] tiles@[j].state == TileState::Dead
                        && tiles@[j].next_state == TileState::Dead,
                forall|j: int, k: int|
                    0 <= j < i && 0 <= k < 8 ==> #[trigger] tiles@[j].neighbours@[k] == nbr_of(
                        board,
                        j,
                        k,
                    ),
            decreases n - i,
        {
            let nbrs = neighbours(&board, i as i32);
            tiles.push(Tile { state: TileState::Dead, next_state: TileState::Dead, neighbours: nbrs });
            i = i + 1;
        }
        let s = n;
        tiles.push(
            Tile {
                state: TileState::Dead,
                next_state: TileState::Dead,
                neighbours: [s, s, s, s, s, s, s, s],
            },
        );
        Life { board, tiles }
    }

    /// Counts the alive tiles among cell `index`'s 8 neighbours, reading
    /// only committed states.
    fn count_alive(&self, index: usize) -> (r: usize)
        requires
            self.wf(),
            index < self.cell_count(),
        ensures
            r == alive_count(self.tiles@, self.board, index as int),
            r <= 8,
    {
        let t = self.tiles[index];
        let mut alive: usize = 0;
        let mut k: usize = 0;
        while k < 8
            invariant
                self.wf(),
                index < self.cell_count(),
                t == self.tiles@[index as int],
                k <= 8,
                alive <= k,
                alive == alive_among(self.tiles@, self.board, index as int, k as int),
            decreases 8 - k,
        {
            let nb = t.neighbours[k];
            proof {
                lemma_nbr_in_range(self.board, index as int, k as int);
            }
            if self.tiles[nb].state == TileState::Alive {
                alive = alive + 1;
            }
            k = k + 1;
        }
        alive
    }

    /// Evaluate phase: computes every real cell's pending state from the
    /// committed states per the B3/S23 rule; touches nothing else. Because
    /// it reads only committed states, the outcome is the same in whatever
    /// order the cells are visited.
    pub fn rules(&mut self)
        requires
            old(self).wf(),
        ensures
            final(self).wf(),
            evaluated(*old(self), *final(self)),
    {
        let cc = self.board.length();
        let n = cc as usize;
        let mut i: usize = 0;
        while i < n
            invariant
                old(self).wf(),
                self.wf(),
                self.board == old(self).board,
                self.tiles@.len() == old(self).tiles@.len(),
                n == old(self).cell_count(),
                i <= n,
                forall|j: int|
                    0 <= j < self.tiles@.len() ==> #[trigger] self.tiles@[j].state
                        == old(self).tiles@[j].state,
                forall|j: int|
                    0 <= j < self.tiles@.len() ==> #[trigger] self.tiles@[j].neighbours
                        == old(self).tiles@[j].neighbours,
                forall|j: int|
                    i <= j < self.tiles@.len() ==> #[trigger] self.tiles@[j].next_state
                        == old(self).tiles@[j].next_state,
                forall|j: int|
                    0 <= j < i ==> #[trigger] self.tiles@[j].next_state == rule(
                        old(self).tiles@[j].state,
                        alive_count(old(self).tiles@, old(self).board, j),
                    ),
            decreases n - i,
        {
            let alive = self.count_alive(i);
            proof {
                lemma_alive_among_same_states(
                    self.tiles@,
                    old(self).tiles@,
                    self.board,
                    i as int,
                    8,
                );
            }
            let t = self.tiles[i];
            let ns = next_state(t.state, alive);
            let mut t2 = t;
            t2.next_state = ns;
            self.tiles[i] = t2;
            i = i + 1;
        }
    }

    /// Commit phase: copies every real cell's pending state into its
    /// committed state, exposing it to readers; must run only between
    /// complete evaluate phases.
    pub fn update_tiles(&mut self)
        requires
            old(self).wf(),
        ensures
            final(self).wf(),
            committed(*old(self), *final(self)),
    {
        let cc = self.board.length();
        let n = cc as usize;
        let mut i: usize = 0;
        while i < n
            invariant
                old(self).wf(),
                self.board == old(self).board,
                self.tiles@.len() == old(self).tiles@.len(),
                n == old(self).cell_count(),
                i <= n,
                forall|j: int|
                    0 <= j < i ==> #[trigger] self.tiles@[j].state
                        == old(self).tiles@[j].next_state,
                forall|j: int|
                    i <= j < self.tiles@.len() ==> #[trigger] self.tiles@[j].state
                        == old(self).tiles@[j].state,
                forall|j: int|
                    0 <= j < self.tiles@.len() ==> #[trigger] self.tiles@[j].next_state
                        == old(self).tiles@[j].next_state,
                forall|j: int|
                    0 <= j < self.tiles@.len() ==> #[trigger] self.tiles@[j].neighbours
                        == old(self).tiles@[j].neighbours,
            decreases n - i,
        {
            let mut t = self.tiles[i];
            t.state = t.next_state;
            self.tiles[i] = t;
            i = i + 1;
        }
    }
}

/// rand's seedable standard generator, opaque to the verifier.
#[verifier::external_type_specification]
#[verifier::external_body]
pub struct ExStdRng(rand::rngs::StdRng);

/// The draw-th fair-coin flip (counting from 0) of rand's standard generator
/// seeded with `seed`. The generator is a deterministic function of its
/// seed, so the flip sequence depends on the seed and the draw index alone.
pub uninterp spec fn coin_of(seed: u64, draw: int) -> bool;

/// Relies on rand::SeedableRng::seed_from_u64 for StdRng: builds the
/// deterministic generator for `seed`; nothing is assumed of the value.
#[verifier::external_body]
fn seed_rng(seed: u64) -> rand::rngs::StdRng {
    rand::rngs::StdRng::seed_from_u64(seed)
}

/// Relies on rand::thread_rng and rand::Rng::gen::<bool>: a fair coin from
/// the thread-local generator; nothing is assumed about the value.
#[verifier::external_body]
fn flip_random() -> bool {
    rand::thread_rng().gen::<bool>()
}

/// A fair coin drawn from rand's deterministic seeded generator, tracking in
/// ghost state the seed and the number of draws made so far.
pub(crate) struct SeededCoin {
    rng: rand::rngs::StdRng,
    seed: Ghost<u64>,
    drawn: Ghost<int>,
}

impl SeededCoin {
    /// The seed this coin was built from.
    pub(crate) closed spec fn seed(self) -> u64 {
        self.seed@
    }

    /// The number of flips drawn so far.
    pub(crate) closed spec fn drawn(self) -> int {
        self.drawn@
    }

    /// Builds the coin for `seed`; no flips have been drawn yet.
    pub(crate) fn new(seed: u64) -> (r: SeededCoin)
        ensures
            r.seed() == seed,
            r.drawn() == 0,
    {
        SeededCoin { rng: seed_rng(seed), seed: Ghost(seed), drawn: Ghost(0int) }
    }

    /// Relies on rand::Rng::gen::<bool> on a StdRng built from `seed()`: a
    /// fair coin whose flip sequence is a function of the seed alone; this
    /// call returns the `drawn()`-th flip of that sequence.
    #[verifier::external_body]
    pub(crate) fn flip(&mut self) -> (r: bool)
        ensures
            final(self).seed() == old(self).seed(),
            final(self).drawn() == old(self).drawn() + 1,
            r == coin_of(old(self).seed(), old(self).drawn()),
    {
        self.rng.gen::<bool>()
    }
}

/// The state a coin flip assigns: alive on true, dead on false.
pub open spec fn coin_state(c: bool) -> TileState {
    if c {
        TileState::Alive
    } else {
        TileState::Dead
    }
}

/// A seeded initialization's effect: every real cell's committed and
/// pending state is that cell's own coin flip, drawn from `seed` in
/// increasing index order, one draw per cell; topology, geometry and the
/// sentinel are unchanged.
pub open spec fn seeded(pre: Life, post: Life, seed: u64) -> bool {
    &&& post.board == pre.board
    &&& post.tiles@.len() == pre.tiles@.len()
    &&& forall|i: int|
        0 <= i < pre.cell_count() ==> #[trigger] post.tiles@[i].state == coin_state(
            coin_of(seed, i),
        )
    &&& forall|i: int|
        0 <= i < pre.cell_count() ==> #[trigger] post.tiles@[i].next_state
            == post.tiles@[i].state
    &&& forall|i: int|
        0 <= i < pre.tiles@.len() ==> #[trigger] post.tiles@[i].neighbours
            == pre.tiles@[i].neighbours
    &&& post.tiles@[pre.cell_count()] == pre.tiles@[pre.cell_count()]
}

impl Life {
    /// Initializer, deterministic mode: assigns every real cell an
    /// independent fair coin flip drawn from `seed`, one draw per cell in
    /// increasing index order; pending states are set to match.
    pub fn init_seeded(&mut self, seed: u64)
        requires
            old(self).wf(),
        ensures
            final(self).wf(),
            seeded(*old(self), *final(self), seed),
    {
        let mut coin = SeededCoin::new(seed);
        let cc = self.board.length();
        let n = cc as usize;
        let mut i: usize = 0;
        while i < n
            invariant
                old(self).wf(),
                self.board == old(self).board,
                self.tiles@.len() == old(self).tiles@.len(),
                n == old(self).cell_count(),
                i <= n,
                coin.seed() == seed,
                coin.drawn() == i,
                forall|j: int|
                    0 <= j < i ==> #[trigger] self.tiles@[j].state == coin_state(coin_of(seed, j)),
                forall|j: int|
                    0 <= j < i ==> #[trigger] self.tiles@[j].next_state == self.tiles@[j].state,
                forall|j: int|
                    i <= j < self.tiles@.len() ==> #[trigger] self.tiles@[j]
                        == old(self).tiles@[j],
                forall|j: int|
                    0 <= j < self.tiles@.len() ==> #[trigger] self.tiles@[j].neighbours
                        == old(self).tiles@[j].neighbours,
            decreases n - i,
        {
            let c = coin.flip();
            let st = if c {
                TileState::Alive
            } else {
                TileState::Dead
            };
            let mut t = self.tiles[i];
            t.state = st;
            t.next_state = st;
            self.tiles[i] = t;
            i = i + 1;
        }
    }

    /// Initializer, non-deterministic mode: assigns every real cell a state
    /// from the thread-local generator. Nothing is promised of which states
    /// came out, beyond pending matching committed and everything else
    /// being untouched.
    pub fn init_random(&mut self)
        requires
            old(self).wf(),
        ensures
            final(self).wf(),
            final(self).board == old(self).board,
            final(self).tiles@.len() == old(self).tiles@.len(),
            forall|i: int|
                0 <= i < old(self).cell_count() ==> #[trigger] final(self).tiles@[i].next_state
                    == final(self).tiles@[i].state,
            forall|i: int|
                0 <= i < old(self).tiles@.len() ==> #[trigger] final(self).tiles@[i].neighbours
                    == old(self).tiles@[i].neighbours,
            final(self).tiles@[old(self).cell_count()] == old(self).tiles@[old(self).cell_count()],
    {
        let cc = self.board.length();
        let n = cc as usize;
        let mut i: usize = 0;
        while i < n
            invariant
                old(self).wf(),
                self.board == old(self).board,
                self.tiles@.len() == old(self).tiles@.len(),
                n == old(self).cell_count(),
                i <= n,
                forall|j: int|
                    0 <= j < i ==> #[trigger] self.tiles@[j].next_state == self.tiles@[j].state,
                forall|j: int|
                    i <= j < self.tiles@.len() ==> #[trigger] self.tiles@[j]
                        == old(self).tiles@[j],
                forall|j: int|
                    0 <= j < self.tiles@.len() ==> #[trigger] self.tiles@[j].neighbours
                        == old(self).tiles@[j].neighbours,
            decreases n - i,
        {
            let c = flip_random();
            let st = if c {
                TileState::Alive
            } else {
                TileState::Dead
            };
            let mut t = self.tiles[i];
            t.state = st;
            t.next_state = st;
            self.tiles[i] = t;
            i = i + 1;
        }
    }
}

/// An interior cell - one not on the grid boundary - has a neighbour list
/// of exactly 8 entries, pairwise distinct, all real cells on the grid.
pub proof fn lemma_interior_neighbours(l: Life, i: int)
    requires
        l.wf(),
        0 <= i < l.cell_count(),
        1 <= l.board.spec_x_of(i) <= l.board.width - 2,
        1 <= l.board.spec_y_of(i) <= l.board.height - 2,
    ensures
        l.tiles@[i].neighbours@.len() == 8,
        forall|k: int|
            0 <= k < 8 ==> 0 <= #[trigger] l.tiles@[i].neighbours@[k] < l.cell_count(),
        forall|k1: int, k2: int|
            0 <= k1 < 8 && 0 <= k2 < 8 && k1 != k2 ==> #[trigger] l.tiles@[i].neighbours@[k1]
                != #[trigger] l.tiles@[i].neighbours@[k2],
{
    let b = l.board;
    let x = b.spec_x_of(i);
    let y = b.spec_y_of(i);
    assert forall|k: int| 0 <= k < 8 implies 0 <= #[trigger] nbr_of(b, i, k) < b.cell_count()
        && b.spec_x_of(nbr_of(b, i, k)) == x + offset_x(k)
        && b.spec_y_of(nbr_of(b, i, k)) == y + offset_y(k) by {
        assert(b.in_bounds(x + offset_x(k), y + offset_y(k)));
        lemma_coords_of_index_of(b, x + offset_x(k), y + offset_y(k));
    }
    assert forall|k1: int, k2: int|
        0 <= k1 < 8 && 0 <= k2 < 8 && k1 != k2 implies nbr_of(b, i, k1) != nbr_of(b, i, k2) by {
        if nbr_of(b, i, k1) == nbr_of(b, i, k2) {
            assert(offset_x(k1) == offset_x(k2));
            assert(offset_y(k1) == offset_y(k2));
        }
    }
    assert forall|k1: int, k2: int|
        0 <= k1 < 8 && 0 <= k2 < 8 && k1 != k2 implies #[trigger] l.tiles@[i].neighbours@[k1]
        != #[trigger] l.tiles@[i].neighbours@[k2] by {
        assert(nbr_of(b, i, k1) != nbr_of(b, i, k2));
    }
}

/// A whole tick: after a complete evaluate phase and the commit that
/// follows it, every cell's committed state is the rule applied to its
/// pre-tick state and the pre-tick states of its 8 neighbours.
pub proof fn lemma_tick(pre: Life, mid: Life, post: Life)
    requires
        pre.wf(),
        evaluated(pre, mid),
        committed(mid, post),
    ensures
        forall|i: int|
            0 <= i < pre.cell_count() ==> #[trigger] post.tiles@[i].state == rule(
                pre.tiles@[i].state,
                alive_count(pre.tiles@, pre.board, i),
            ),
{
}

/// A boundary check, cell by cell: a neighbour entry is the sentinel exactly
/// when its offset coordinate falls off the board; and in a well-formed
/// simulation the sentinel is dead.
pub proof fn lemma_boundary_neighbours(l: Life, i: int, k: int)
    requires
        l.wf(),
        0 <= i < l.cell_count(),
        0 <= k < 8,
    ensures
        l.tiles@[i].neighbours@[k] == l.sentinel() <==> !l.board.in_bounds(
            l.board.spec_x_of(i) + offset_x(k),
            l.board.spec_y_of(i) + offset_y(k),
        ),
        l.tiles@[l.sentinel()].state == TileState::Dead,
{
    let x = l.board.spec_x_of(i) + offset_x(k);
    let y = l.board.spec_y_of(i) + offset_y(k);
    if l.board.in_bounds(x, y) {
        lemma_index_in_range(l.board, x, y);
    }
}

/// Order independence: any two evaluate outcomes from the same starting
/// simulation, each followed by a commit, agree on every cell's committed
/// state - so the order in which the evaluate phase visited the cells
/// cannot influence the post-commit board.
pub proof fn lemma_order_independence(pre: Life, e1: Life, e2: Life, c1: Life, c2: Life)
    requires
        pre.wf(),
        evaluated(pre, e1),
        evaluated(pre, e2),
        committed(e1, c1),
        committed(e2, c2),
    ensures
        forall|i: int|
            0 <= i < pre.cell_count() ==> #[trigger] c1.tiles@[i].state == c2.tiles@[i].state,
{
    assert forall|i: int|
        0 <= i < pre.cell_count() implies #[trigger] c1.tiles@[i].state
        == c2.tiles@[i].state by {
        assert(c1.tiles@[i].state == e1.tiles@[i].next_state);
        assert(c2.tiles@[i].state == e2.tiles@[i].next_state);
    }
}

/// Determinism: two seeded initializations with the same seed produce the
/// same board, cell by cell, whatever simulations they started from.
pub proof fn lemma_seeded_deterministic(pre1: Life, post1: Life, pre2: Life, post2: Life, seed: u64)
    requires
        pre1.board == pre2.board,
        seeded(pre1, post1, seed),
        seeded(pre2, post2, seed),
    ensures
        forall|i: int|
            0 <= i < pre1.cell_count() ==> #[trigger] post1.tiles@[i].state
                == post2.tiles@[i].state,
{
}

} // verus!

