//! Conway's Game of Life on a fixed 32 x 32 grid whose cells are packed as
//! bits, 64 to a word, in row-major order.
use vstd::prelude::*;

verus! {

pub const GRID_WIDTH: usize = 32;

pub const GRID_HEIGHT: usize = 32;

pub const GRID_SIZE: usize = GRID_WIDTH * GRID_HEIGHT;

/// Words needed for one bit per cell.
pub const GRID_WORDS: usize = (GRID_SIZE + 63) / 64;

/// Multiplier of the generator that `randomize` fills words from.
pub const LCG_MULTIPLIER: u64 = 6364136223846793005;

/// Marker type naming the grid application.
pub struct GameOfLifeAbi;

/// A cell of the grid.
#[derive(Clone, Copy, Debug, PartialEq, Eq, Structural)]
pub struct Position {
    pub x: u32,
    pub y: u32,
}

/// The reply to a grid operation.
#[derive(Clone, Debug)]
pub enum OperationResult {
    Done { generation: u64, live_count: u32 },
    Error(String),
}

/// Predefined patterns that can be stamped onto the grid.
#[derive(Clone, Copy, Debug, PartialEq, Eq, Structural)]
pub enum Pattern {
    /// A 2 x 2 still life.
    Block,
    /// A period-two oscillator.
    Blinker,
    /// The smallest spaceship.
    Glider,
    /// The lightweight spaceship.
    Lwss,
    /// Gosper's glider gun.
    GliderGun,
    /// A random soup, which has no fixed cells.
    Random,
}

/// The live cells of a pattern as `(dx, dy)` offsets from its corner.
pub open spec fn pattern_cells(p: Pattern) -> Seq<(i32, i32)> {
    match p {
        Pattern::Block => seq![(0i32, 0i32), (1i32, 0i32), (0i32, 1i32), (1i32, 1i32)],
        Pattern::Blinker => seq![(0i32, 0i32), (1i32, 0i32), (2i32, 0i32)],
        Pattern::Glider => seq![(1i32, 0i32), (2i32, 1i32), (0i32, 2i32), (1i32, 2i32), (2i32, 2i32)],
        Pattern::Lwss => seq![(1i32, 0i32), (4i32, 0i32), (0i32, 1i32), (0i32, 2i32), (4i32, 2i32), (0i32, 3i32), (1i32, 3i32), (2i32, 3i32), (3i32, 3i32)],
        Pattern::GliderGun => seq![(0i32, 4i32), (0i32, 5i32), (1i32, 4i32), (1i32, 5i32), (10i32, 4i32), (10i32, 5i32), (10i32, 6i32), (11i32, 3i32), (11i32, 7i32), (12i32, 2i32), (12i32, 8i32), (13i32, 2i32), (13i32, 8i32), (14i32, 5i32), (15i32, 3i32), (15i32, 7i32), (16i32, 4i32), (16i32, 5i32), (16i32, 6i32), (17i32, 5i32), (20i32, 2i32), (20i32, 3i32), (20i32, 4i32), (21i32, 2i32), (21i32, 3i32), (21i32, 4i32), (22i32, 1i32), (22i32, 5i32), (24i32, 0i32), (24i32, 1i32), (24i32, 5i32), (24i32, 6i32), (34i32, 2i32), (34i32, 3i32), (35i32, 2i32), (35i32, 3i32)],
        Pattern::Random => Seq::empty(),
    }
}

impl Pattern {
    /// The live cells of this pattern as `(dx, dy)` offsets.
    pub fn cells(&self) -> (r: Vec<(i32, i32)>)
        ensures
            r@ == pattern_cells(*self),
    {
        let r = match self {
            Pattern::Block => vec![(0i32, 0i32), (1i32, 0i32), (0i32, 1i32), (1i32, 1i32)],
            Pattern::Blinker => vec![(0i32, 0i32), (1i32, 0i32), (2i32, 0i32)],
            Pattern::Glider => vec![(1i32, 0i32), (2i32, 1i32), (0i32, 2i32), (1i32, 2i32), (2i32, 2i32)],
            Pattern::Lwss => vec![(1i32, 0i32), (4i32, 0i32), (0i32, 1i32), (0i32, 2i32), (4i32, 2i32), (0i32, 3i32), (1i32, 3i32), (2i32, 3i32), (3i32, 3i32)],
            Pattern::GliderGun => vec![(0i32, 4i32), (0i32, 5i32), (1i32, 4i32), (1i32, 5i32), (10i32, 4i32), (10i32, 5i32), (10i32, 6i32), (11i32, 3i32), (11i32, 7i32), (12i32, 2i32), (12i32, 8i32), (13i32, 2i32), (13i32, 8i32), (14i32, 5i32), (15i32, 3i32), (15i32, 7i32), (16i32, 4i32), (16i32, 5i32), (16i32, 6i32), (17i32, 5i32), (20i32, 2i32), (20i32, 3i32), (20i32, 4i32), (21i32, 2i32), (21i32, 3i32), (21i32, 4i32), (22i32, 1i32), (22i32, 5i32), (24i32, 0i32), (24i32, 1i32), (24i32, 5i32), (24i32, 6i32), (34i32, 2i32), (34i32, 3i32), (35i32, 2i32), (35i32, 3i32)],
            Pattern::Random => Vec::new(),
        };
        assert(r@ =~= pattern_cells(*self));
        r
    }
}

/// Bit `j` of `w`.
pub open spec fn word_bit(w: u64, j: u64) -> bool {
    (w >> j) & 1u64 == 1u64
}

proof fn lemma_word_bits(w: u64, i: u64, j: u64)
    requires
        i < 64,
        j < 64,
    ensures
        word_bit(w | (1u64 << i), j) <==> (j == i || word_bit(w, j)),
        word_bit(w & !(1u64 << i), j) <==> (j != i && word_bit(w, j)),
        !word_bit(0u64, j),
{
    assert(word_bit(w | (1u64 << i), j) <==> (j == i || word_bit(w, j))) by (bit_vector)
        requires
            i < 64,
            j < 64,
    ;
    assert(word_bit(w & !(1u64 << i), j) <==> (j != i && word_bit(w, j))) by (bit_vector)
        requires
            i < 64,
            j < 64,
    ;
    assert(!word_bit(0u64, j)) by (bit_vector);
}

/// The next state of a cell: a live cell with two or three live neighbours
/// survives, a dead cell with exactly three comes alive.
pub open spec fn life_rule(alive: bool, neighbors: int) -> bool {
    if alive {
        neighbors == 2 || neighbors == 3
    } else {
        neighbors == 3
    }
}

/// One step of the generator: `r * LCG_MULTIPLIER + 1`, wrapping.
#[verifier::opaque]
pub open spec fn lcg_next(r: u64) -> u64 {
    vstd::wrapping::u64_specs::wrapping_add(
        vstd::wrapping::u64_specs::wrapping_mul(r, LCG_MULTIPLIER),
        1,
    )
}

/// The generator's value after `n` steps from `seed`.
pub open spec fn lcg_iter(seed: u64, n: nat) -> u64
    decreases n,
{
    if n == 0 {
        seed
    } else {
        lcg_next(lcg_iter(seed, (n - 1) as nat))
    }
}

/// Set bits of `w` below bit `n`.
pub open spec fn ones_below(w: u64, n: nat) -> nat
    decreases n,
{
    if n == 0 {
        0
    } else {
        ones_below(w, (n - 1) as nat) + if word_bit(w, (n - 1) as u64) {
            1nat
        } else {
            0nat
        }
    }
}

/// Set bits of the first `n` words.
pub open spec fn ones_in_words(words: Seq<u64>, n: nat) -> nat
    decreases n,
{
    if n == 0 {
        0
    } else {
        ones_in_words(words, (n - 1) as nat) + ones_below(words[n - 1], 64)
    }
}

/// The words' bytes, least significant byte of each word first.
pub open spec fn words_le_bytes(words: Seq<u64>) -> Seq<u8> {
    Seq::new(
        8 * words.len(),
        |b: int| ((words[b / 8] >> ((8 * (b % 8)) as u64)) & 0xffu64) as u8,
    )
}

/// The grid.
#[derive(Clone, Debug)]
pub struct GridState {
    /// One bit per cell, row-major.
    pub cells: Vec<u64>,
    /// Generations stepped since the last clear or randomize.
    pub generation: u64,
    /// Whether the simulation is marked as running.
    pub running: bool,
}

impl GridState {
    pub open spec fn wf(&self) -> bool {
        self.cells@.len() == GRID_WORDS
    }

    /// Whether the cell at `(x, y)` is alive; cells off the grid are dead.
    pub open spec fn alive(&self, x: int, y: int) -> bool {
        &&& 0 <= x < GRID_WIDTH
        &&& 0 <= y < GRID_HEIGHT
        &&& word_bit(self.cells@[(y * 32 + x) / 64], ((y * 32 + x) % 64) as u64)
    }

    pub open spec fn live(&self, x: int, y: int) -> int {
        if self.alive(x, y) {
            1
        } else {
            0
        }
    }

    /// Live cells among the eight around `(x, y)`.
    pub open spec fn neighbor_count(&self, x: int, y: int) -> int {
        self.live(x - 1, y - 1) + self.live(x, y - 1) + self.live(x + 1, y - 1) + self.live(
            x - 1,
            y,
        ) + self.live(x + 1, y) + self.live(x - 1, y + 1) + self.live(x, y + 1) + self.live(
            x + 1,
            y + 1,
        )
    }

    /// The live cells among the first `k` in row-major order, as `(x, y)`.
    pub open spec fn live_prefix(&self, k: nat) -> Seq<(u32, u32)>
        decreases k,
    {
        if k == 0 {
            Seq::empty()
        } else {
            let i = k - 1;
            let x = i % 32;
            let y = i / 32;
            if self.alive(x, y) {
                self.live_prefix((k - 1) as nat).push((x as u32, y as u32))
            } else {
                self.live_prefix((k - 1) as nat)
            }
        }
    }

    /// An empty grid at generation zero, not running.
    pub fn new() -> (g: GridState)
        ensures
            g.wf(),
            g.generation == 0,
            !g.running,
            forall|x: int, y: int| !g.alive(x, y),
    {
        let g = GridState { cells: vec![0u64; GRID_WORDS], generation: 0, running: false };
        proof {
            assert forall|x: int, y: int| !g.alive(x, y) by {
                if 0 <= x < 32 && 0 <= y < 32 {
                    lemma_word_bits(0, 0, ((y * 32 + x) % 64) as u64);
                }
            }
        }
        g
    }

    /// Whether the cell at `(x, y)` is alive.
    pub fn get(&self, x: usize, y: usize) -> (r: bool)
        requires
            self.wf(),
        ensures
            r == self.alive(x as int, y as int),
    {
        if x >= GRID_WIDTH || y >= GRID_HEIGHT {
            return false;
        }
        let idx: usize = y * GRID_WIDTH + x;
        let word_idx: usize = idx / 64;
        let bit_idx: u64 = (idx % 64) as u64;
        (self.cells[word_idx] >> bit_idx) & 1 == 1
    }

    /// Makes the cell at `(x, y)` alive or dead; cells off the grid are
    /// left alone.
    pub fn set(&mut self, x: usize, y: usize, alive: bool)
        requires
            old(self).wf(),
        ensures
            final(self).wf(),
            final(self).generation == old(self).generation,
            final(self).running == old(self).running,
            forall|a: int, b: int|
                #[trigger] final(self).alive(a, b) == if a == x && b == y && x < GRID_WIDTH && y
                    < GRID_HEIGHT {
                    alive
                } else {
                    old(self).alive(a, b)
                },
    {
        if x >= GRID_WIDTH || y >= GRID_HEIGHT {
            return;
        }
        let idx: usize = y * GRID_WIDTH + x;
        let word_idx: usize = idx / 64;
        let bit_idx: u64 = (idx % 64) as u64;
        let w = self.cells[word_idx];
        let nw = if alive {
            w | (1u64 << bit_idx)
        } else {
            w & !(1u64 << bit_idx)
        };
        let ghost before = *self;
        self.cells.set(word_idx, nw);
        proof {
            assert forall|a: int, b: int| #[trigger]
                self.alive(a, b) == if a == x && b == y {
                    alive
                } else {
                    before.alive(a, b)
                } by {
                if 0 <= a < 32 && 0 <= b < 32 {
                    let j = b * 32 + a;
                    lemma_word_bits(w, bit_idx, (j % 64) as u64);
                    if j / 64 == word_idx as int && j % 64 == bit_idx as int {
                        assert(j == idx);
                    }
                }
            }
        }
    }

    /// Flips the cell at `(x, y)`.
    pub fn toggle(&mut self, x: usize, y: usize)
        requires
            old(self).wf(),
        ensures
            final(self).wf(),
            final(self).generation == old(self).generation,
            final(self).running == old(self).running,
            forall|a: int, b: int|
                #[trigger] final(self).alive(a, b) == if a == x && b == y && x < GRID_WIDTH && y
                    < GRID_HEIGHT {
                    !old(self).alive(a, b)
                } else {
                    old(self).alive(a, b)
                },
    {
        let current = self.get(x, y);
        self.set(x, y, !current);
    }

    /// Live cells among the eight around `(x, y)`.
    pub fn count_neighbors(&self, x: usize, y: usize) -> (r: u8)
        requires
            self.wf(),
        ensures
            r as int == self.neighbor_count(x as int, y as int),
    {
        if x > GRID_WIDTH || y > GRID_HEIGHT {
            return 0;
        }
        let mut count: u8 = 0;
        if x >= 1 && y >= 1 && self.get(x - 1, y - 1) {
            count = count + 1;
        }
        if y >= 1 && self.get(x, y - 1) {
            count = count + 1;
        }
        if y >= 1 && self.get(x + 1, y - 1) {
            count = count + 1;
        }
        if x >= 1 && self.get(x - 1, y) {
            count = count + 1;
        }
        if self.get(x + 1, y) {
            count = count + 1;
        }
        if x >= 1 && self.get(x - 1, y + 1) {
            count = count + 1;
        }
        if self.get(x, y + 1) {
            count = count + 1;
        }
        if self.get(x + 1, y + 1) {
            count = count + 1;
        }
        count
    }

    /// Advances the grid by one generation under the rule of `life_rule`.
    pub fn step(&mut self)
        requires
            old(self).wf(),
        ensures
            final(self).wf(),
            final(self).generation == vstd::wrapping::u64_specs::wrapping_add(
                old(self).generation,
                1,
            ),
            final(self).running == old(self).running,
            forall|a: int, b: int|
                0 <= a < GRID_WIDTH && 0 <= b < GRID_HEIGHT ==> #[trigger] final(self).alive(a, b)
                    == life_rule(old(self).alive(a, b), old(self).neighbor_count(a, b)),
    {
        let fresh = GridState::new();
        let mut next = GridState {
            cells: fresh.cells,
            generation: self.generation.wrapping_add(1),
            running: self.running,
        };
        assert forall|a: int, b: int| !next.alive(a, b) by {
            assert(!fresh.alive(a, b));
        }
        let mut y: usize = 0;
        while y < GRID_HEIGHT
            invariant
                self.wf(),
                next.wf(),
                y <= GRID_HEIGHT,
                next.generation == vstd::wrapping::u64_specs::wrapping_add(self.generation, 1),
                next.running == self.running,
                forall|a: int, b: int|
                    0 <= a < GRID_WIDTH && 0 <= b < GRID_HEIGHT ==> #[trigger] next.alive(a, b)
                        == if b < y {
                        life_rule(self.alive(a, b), self.neighbor_count(a, b))
                    } else {
                        false
                    },
            decreases GRID_HEIGHT - y,
        {
            let mut x: usize = 0;
            while x < GRID_WIDTH
                invariant
                    self.wf(),
                    next.wf(),
                    y < GRID_HEIGHT,
                    x <= GRID_WIDTH,
                    next.generation == vstd::wrapping::u64_specs::wrapping_add(self.generation, 1),
                    next.running == self.running,
                    forall|a: int, b: int|
                        0 <= a < GRID_WIDTH && 0 <= b < GRID_HEIGHT ==> #[trigger] next.alive(a, b)
                            == if b < y || (b == y && a < x) {
                            life_rule(self.alive(a, b), self.neighbor_count(a, b))
                        } else {
                            false
                        },
                decreases GRID_WIDTH - x,
            {
                let alive = self.get(x, y);
                let neighbors = self.count_neighbors(x, y);
                let next_alive = if alive {
                    neighbors == 2 || neighbors == 3
                } else {
                    neighbors == 3
                };
                next.set(x, y, next_alive);
                x = x + 1;
            }
            y = y + 1;
        }
        *self = next;
    }

    /// Kills every cell and resets the generation and the running flag.
    pub fn clear(&mut self)
        requires
            old(self).wf(),
        ensures
            final(self).wf(),
            final(self).generation == 0,
            !final(self).running,
            forall|x: int, y: int| !final(self).alive(x, y),
    {
        let mut i: usize = 0;
        while i < self.cells.len()
            invariant
                self.cells@.len() == GRID_WORDS,
                i <= self.cells@.len(),
                forall|j: int| 0 <= j < i ==> self.cells@[j] == 0u64,
            decreases self.cells@.len() - i,
        {
            self.cells.set(i, 0);
            i = i + 1;
        }
        self.generation = 0;
        self.running = false;
        proof {
            assert forall|x: int, y: int| !self.alive(x, y) by {
                if 0 <= x < 32 && 0 <= y < 32 {
                    lemma_word_bits(0, 0, ((y * 32 + x) % 64) as u64);
                }
            }
        }
    }

    /// Fills word `i` with the generator's value after `i + 1` steps from
    /// `seed`, and resets the generation.
    pub fn randomize(&mut self, seed: u64)
        ensures
            final(self).cells@.len() == old(self).cells@.len(),
            forall|i: int|
                0 <= i < final(self).cells@.len() ==> #[trigger] final(self).cells@[i] == lcg_iter(
                    seed,
                    (i + 1) as nat,
                ),
            final(self).generation == 0,
            final(self).running == old(self).running,
    {
        let mut rng: u64 = seed;
        let mut i: usize = 0;
        let ghost len = self.cells@.len();
        let ghost was_running = self.running;
        while i < self.cells.len()
            invariant
                self.cells@.len() == len,
                self.running == was_running,
                i <= len,
                rng == lcg_iter(seed, i as nat),
                forall|j: int| 0 <= j < i ==> #[trigger] self.cells@[j] == lcg_iter(
                    seed,
                    (j + 1) as nat,
                ),
            decreases len - i,
        {
            rng = lcg_step(rng);
            assert(rng == lcg_iter(seed, (i + 1) as nat));
            self.cells.set(i, rng);
            i = i + 1;
        }
        self.generation = 0;
    }

    /// Number of live cells.
    pub fn live_count(&self) -> (r: u32)
        requires
            self.wf(),
        ensures
            r == ones_in_words(self.cells@, GRID_WORDS as nat),
    {
        let mut total: u32 = 0;
        let mut i: usize = 0;
        while i < self.cells.len()
            invariant
                self.wf(),
                i <= GRID_WORDS,
                total == ones_in_words(self.cells@, i as nat),
                total <= 64 * i,
            decreases GRID_WORDS - i,
        {
            let n = word_ones(self.cells[i]);
            total = total + n;
            i = i + 1;
        }
        total
    }

    /// The cell words as bytes, least significant byte of each word first.
    pub fn cells_bytes(&self) -> (r: Vec<u8>)
        requires
            self.wf(),
        ensures
            r@ == words_le_bytes(self.cells@),
    {
        let mut r: Vec<u8> = Vec::new();
        let mut i: usize = 0;
        while i < self.cells.len()
            invariant
                self.wf(),
                i <= GRID_WORDS,
                r@.len() == 8 * i,
                forall|b: int|
                    0 <= b < 8 * i ==> #[trigger] r@[b] == ((self.cells@[b / 8] >> ((8 * (b
                        % 8)) as u64)) & 0xffu64) as u8,
            decreases GRID_WORDS - i,
        {
            let w = self.cells[i];
            let mut j: u64 = 0;
            while j < 8
                invariant
                    self.wf(),
                    i < GRID_WORDS,
                    w == self.cells@[i as int],
                    j <= 8,
                    r@.len() == 8 * i + j,
                    forall|b: int|
                        0 <= b < 8 * i + j ==> #[trigger] r@[b] == ((self.cells@[b / 8] >> ((8 * (b
                            % 8)) as u64)) & 0xffu64) as u8,
                decreases 8 - j,
            {
                let ghost b = 8 * i + j;
                assert(b / 8 == i && b % 8 == j);
                r.push(((w >> (8 * j)) & 0xff) as u8);
                j = j + 1;
            }
            i = i + 1;
        }
        assert(r@ =~= words_le_bytes(self.cells@));
        r
    }

    /// The cell words as base64 text of their bytes.
    pub fn cells_raw(&self) -> (r: String)
        requires
            self.wf(),
        ensures
            r@ == crate::encoding::base64_of(words_le_bytes(self.cells@)),
    {
        let bytes = self.cells_bytes();
        crate::encoding::base64_encode(bytes.as_slice())
    }

    /// The live cells in row-major order, as `(x, y)`.
    pub fn live_cells(&self) -> (r: Vec<(u32, u32)>)
        requires
            self.wf(),
        ensures
            r@ == self.live_prefix(GRID_SIZE as nat),
    {
        let mut result: Vec<(u32, u32)> = Vec::new();
        let mut y: usize = 0;
        while y < GRID_HEIGHT
            invariant
                self.wf(),
                y <= GRID_HEIGHT,
                result@ == self.live_prefix((y * 32) as nat),
            decreases GRID_HEIGHT - y,
        {
            let mut x: usize = 0;
            while x < GRID_WIDTH
                invariant
                    self.wf(),
                    y < GRID_HEIGHT,
                    x <= GRID_WIDTH,
                    result@ == self.live_prefix((y * 32 + x) as nat),
                decreases GRID_WIDTH - x,
            {
                proof {
                    let k = (y * 32 + x) as nat;
                    assert(k % 32 == x && k / 32 == y);
                    assert(self.live_prefix(k + 1) == if self.alive(x as int, y as int) {
                        self.live_prefix(k).push((x as u32, y as u32))
                    } else {
                        self.live_prefix(k)
                    });
                }
                if self.get(x, y) {
                    result.push((x as u32, y as u32));
                }
                x = x + 1;
            }
            y = y + 1;
        }
        result
    }
}

/// The generator's next value after `r`.
pub(crate) fn lcg_step(r: u64) -> (n: u64)
    ensures
        n == lcg_next(r),
{
    proof {
        reveal(lcg_next);
    }
    r.wrapping_mul(LCG_MULTIPLIER).wrapping_add(1)
}

/// Number of set bits in `w`.
fn word_ones(w: u64) -> (r: u32)
    ensures
        r == ones_below(w, 64),
        r <= 64,
{
    let mut count: u32 = 0;
    let mut i: u64 = 0;
    while i < 64
        invariant
            i <= 64,
            count == ones_below(w, i as nat),
            count <= i,
        decreases 64 - i,
    {
        if (w >> i) & 1 == 1 {
            count = count + 1;
        }
        i = i + 1;
    }
    count
}

} // verus!
