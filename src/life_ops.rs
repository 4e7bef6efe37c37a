//! The requests that the grid takes, each applied to the grid in place.
use vstd::prelude::*;
use crate::life::{
    lcg_iter, lcg_step, life_rule, ones_in_words, pattern_cells, GridState, OperationResult,
    Pattern, Position, GRID_HEIGHT, GRID_WIDTH, GRID_WORDS,
};

verus! {

/// Most generations that one multi-step request advances.
pub const MAX_STEPS: u32 = 100;

/// Side of the square that a random pattern fills.
pub const PATCH_SIDE: usize = 8;

/// Multiplier that mixes a random pattern's row into its seed.
pub const ROW_MIX: u64 = 12345;

/// A request to the grid.
pub enum Operation {
    /// Flip one cell.
    Toggle { x: u32, y: u32 },
    /// Make the listed cells alive or dead.
    SetCells { positions: Vec<Position>, alive: bool },
    /// Advance one generation.
    Step,
    /// Advance `count` generations, at most `MAX_STEPS`.
    StepMultiple { count: u32 },
    /// Mark the simulation as running.
    Start,
    /// Mark the simulation as stopped.
    Stop,
    /// Kill every cell.
    Clear,
    /// Refill the grid from a seed.
    Randomize { seed: u64 },
    /// Stamp a pattern with its corner at `(x, y)`.
    LoadPattern { pattern: Pattern, x: u32, y: u32 },
}

/// Whether `(x, y)` lies on the grid.
pub open spec fn on_grid(x: int, y: int) -> bool {
    0 <= x < GRID_WIDTH && 0 <= y < GRID_HEIGHT
}

/// Whether cell `(x, y)` is alive after `n` generations from `g`.
pub open spec fn evolve(g: GridState, n: nat, x: int, y: int) -> bool
    decreases n, 0int,
{
    if n == 0 {
        g.alive(x, y)
    } else {
        on_grid(x, y) && life_rule(evolve(g, (n - 1) as nat, x, y), evolve_neighbors(g, (n - 1) as nat, x, y))
    }
}

/// Live neighbours of `(x, y)` after `n` generations from `g`.
pub open spec fn evolve_neighbors(g: GridState, n: nat, x: int, y: int) -> int
    decreases n, 1int,
{
    lit(evolve(g, n, x - 1, y - 1)) + lit(evolve(g, n, x, y - 1)) + lit(evolve(g, n, x + 1, y - 1))
        + lit(evolve(g, n, x - 1, y)) + lit(evolve(g, n, x + 1, y)) + lit(
        evolve(g, n, x - 1, y + 1),
    ) + lit(evolve(g, n, x, y + 1)) + lit(evolve(g, n, x + 1, y + 1))
}

pub open spec fn lit(b: bool) -> int {
    if b {
        1
    } else {
        0
    }
}

/// The generation counter after `n` wrapping increments.
pub open spec fn generation_after(start: u64, n: nat) -> u64
    decreases n,
{
    if n == 0 {
        start
    } else {
        vstd::wrapping::u64_specs::wrapping_add(generation_after(start, (n - 1) as nat), 1)
    }
}

/// Whether some listed position is `(x, y)`.
pub open spec fn listed(positions: Seq<Position>, x: int, y: int) -> bool {
    exists|i: int| 0 <= i < positions.len() && positions[i].x == x && positions[i].y == y
}

/// Whether a cell of `p`, with the pattern's corner at `(x, y)`, lands on `(a, b)`.
pub open spec fn stamped(p: Pattern, x: int, y: int, a: int, b: int) -> bool {
    exists|i: int|
        0 <= i < pattern_cells(p).len() && x + pattern_cells(p)[i].0 == a && y
            + pattern_cells(p)[i].1 == b
}

/// The seed of a random pattern at `(x, y)` at time `now`.
pub open spec fn patch_seed(x: u32, y: u32, now: u64) -> u64 {
    (x as u64 ^ ((y as u64 * ROW_MIX) as u64)) ^ now
}

/// Whether the random pattern seeded with `seed` makes the cell at offset
/// `(dx, dy)` alive: bit 32 of the generator after `8 * dy + dx + 1` steps.
pub open spec fn patch_alive(seed: u64, dx: int, dy: int) -> bool {
    (lcg_iter(seed, (dy * 8 + dx + 1) as nat) >> 32u64) & 1u64 == 1u64
}

/// The reply that reports the grid's generation and live cells.
pub open spec fn done(g: GridState) -> OperationResult {
    OperationResult::Done {
        generation: g.generation,
        live_count: ones_in_words(g.cells@, GRID_WORDS as nat) as u32,
    }
}

impl GridState {
    /// Makes every listed cell on the grid alive or dead.
    pub fn set_cells(&mut self, positions: &Vec<Position>, alive: bool)
        requires
            old(self).wf(),
        ensures
            final(self).wf(),
            final(self).generation == old(self).generation,
            final(self).running == old(self).running,
            forall|a: int, b: int|
                #[trigger] final(self).alive(a, b) == if on_grid(a, b) && listed(positions@, a, b) {
                    alive
                } else {
                    old(self).alive(a, b)
                },
    {
        let ghost start = *self;
        let mut i: usize = 0;
        while i < positions.len()
            invariant
                self.wf(),
                i <= positions@.len(),
                self.generation == start.generation,
                self.running == start.running,
                forall|a: int, b: int|
                    #[trigger] self.alive(a, b) == if on_grid(a, b) && listed(
                        positions@.subrange(0, i as int),
                        a,
                        b,
                    ) {
                        alive
                    } else {
                        start.alive(a, b)
                    },
            decreases positions@.len() - i,
        {
            let p = positions[i];
            let ghost before = *self;
            self.set(p.x as usize, p.y as usize, alive);
            proof {
                assert forall|a: int, b: int| #[trigger]
                    self.alive(a, b) == if on_grid(a, b) && listed(
                        positions@.subrange(0, i + 1),
                        a,
                        b,
                    ) {
                        alive
                    } else {
                        start.alive(a, b)
                    } by {
                    let s0 = positions@.subrange(0, i as int);
                    let s1 = positions@.subrange(0, i + 1);
                    if listed(s0, a, b) {
                        let j = choose|j: int| 0 <= j < s0.len() && s0[j].x == a && s0[j].y == b;
                        assert(s1[j] == s0[j]);
                    }
                    if listed(s1, a, b) && !(p.x == a && p.y == b) {
                        let j = choose|j: int| 0 <= j < s1.len() && s1[j].x == a && s1[j].y == b;
                        assert(j != i);
                        assert(s0[j] == s1[j]);
                    }
                    if p.x == a && p.y == b {
                        assert(s1[i as int] == p);
                    }
                }
            }
            i = i + 1;
        }
        proof {
            assert(positions@.subrange(0, positions@.len() as int) =~= positions@);
        }
    }

    /// Advances `min(count, MAX_STEPS)` generations.
    pub fn step_multiple(&mut self, count: u32)
        requires
            old(self).wf(),
        ensures
            final(self).wf(),
            ({
                let n = if count < MAX_STEPS {
                    count
                } else {
                    MAX_STEPS
                };
                &&& final(self).generation == generation_after(old(self).generation, n as nat)
                &&& final(self).running == old(self).running
                &&& forall|a: int, b: int|
                    #[trigger] final(self).alive(a, b) == evolve(*old(self), n as nat, a, b)
            }),
    {
        let n: u32 = if count < MAX_STEPS {
            count
        } else {
            MAX_STEPS
        };
        let ghost start = *self;
        let mut k: u32 = 0;
        while k < n
            invariant
                self.wf(),
                k <= n,
                self.generation == generation_after(start.generation, k as nat),
                self.running == start.running,
                forall|a: int, b: int| #[trigger] self.alive(a, b) == evolve(start, k as nat, a, b),
            decreases n - k,
        {
            let ghost before = *self;
            self.step();
            proof {
                assert forall|a: int, b: int| #[trigger]
                    self.alive(a, b) == evolve(start, (k + 1) as nat, a, b) by {
                    if on_grid(a, b) {
                        assert(before.alive(a, b) == evolve(start, k as nat, a, b));
                        assert(before.neighbor_count(a, b) == evolve_neighbors(
                            start,
                            k as nat,
                            a,
                            b,
                        )) by {
                            assert(before.alive(a - 1, b - 1) == evolve(start, k as nat, a - 1, b - 1));
                            assert(before.alive(a, b - 1) == evolve(start, k as nat, a, b - 1));
                            assert(before.alive(a + 1, b - 1) == evolve(start, k as nat, a + 1, b - 1));
                            assert(before.alive(a - 1, b) == evolve(start, k as nat, a - 1, b));
                            assert(before.alive(a + 1, b) == evolve(start, k as nat, a + 1, b));
                            assert(before.alive(a - 1, b + 1) == evolve(start, k as nat, a - 1, b + 1));
                            assert(before.alive(a, b + 1) == evolve(start, k as nat, a, b + 1));
                            assert(before.alive(a + 1, b + 1) == evolve(start, k as nat, a + 1, b + 1));
                        }
                    }
                }
            }
            k = k + 1;
        }
    }

    /// Stamps `pattern` with its corner at `(x, y)`, making its cells that
    /// land on the grid alive. The random pattern is stamped by
    /// `load_random_patch` instead and leaves the grid as it is here.
    pub fn load_pattern(&mut self, pattern: Pattern, x: u32, y: u32)
        requires
            old(self).wf(),
        ensures
            final(self).wf(),
            final(self).generation == old(self).generation,
            final(self).running == old(self).running,
            forall|a: int, b: int|
                #[trigger] final(self).alive(a, b) == (old(self).alive(a, b) || (on_grid(a, b)
                    && stamped(pattern, x as int, y as int, a, b))),
    {
        let cells = pattern.cells();
        let ghost start = *self;
        let mut i: usize = 0;
        while i < cells.len()
            invariant
                self.wf(),
                cells@ == pattern_cells(pattern),
                i <= cells@.len(),
                self.generation == start.generation,
                self.running == start.running,
                forall|a: int, b: int|
                    #[trigger] self.alive(a, b) == (start.alive(a, b) || (on_grid(a, b) && exists|
                        j: int,
                    |
                        0 <= j < i && x + cells@[j].0 == a && y + cells@[j].1 == b)),
            decreases cells@.len() - i,
        {
            let (dx, dy) = cells[i];
            let nx: i64 = x as i64 + dx as i64;
            let ny: i64 = y as i64 + dy as i64;
            let ghost before = *self;
            if nx >= 0 && nx < GRID_WIDTH as i64 && ny >= 0 && ny < GRID_HEIGHT as i64 {
                self.set(nx as usize, ny as usize, true);
            }
            proof {
                assert forall|a: int, b: int| #[trigger]
                    self.alive(a, b) == (start.alive(a, b) || (on_grid(a, b) && exists|j: int|
                        0 <= j < i + 1 && x + cells@[j].0 == a && y + cells@[j].1 == b)) by {
                    if on_grid(a, b) && x + dx == a && y + dy == b {
                        assert(0 <= i < i + 1 && x + cells@[i as int].0 == a && y + cells@[i as int].1 == b);
                    }
                    if exists|j: int| 0 <= j < i && x + cells@[j].0 == a && y + cells@[j].1 == b {
                        let j = choose|j: int| 0 <= j < i && x + cells@[j].0 == a && y + cells@[j].1 == b;
                        assert(0 <= j < i + 1);
                    }
                }
            }
            i = i + 1;
        }
    }

    /// Fills the 8 x 8 square with its corner at `(x, y)` from the
    /// generator seeded with `seed`, row by row; cells off the grid are
    /// skipped.
    pub fn load_random_patch(&mut self, x: u32, y: u32, seed: u64)
        requires
            old(self).wf(),
        ensures
            final(self).wf(),
            final(self).generation == old(self).generation,
            final(self).running == old(self).running,
            forall|a: int, b: int|
                #[trigger] final(self).alive(a, b) == if on_grid(a, b) && x <= a < x + 8 && y <= b
                    < y + 8 {
                    patch_alive(seed, a - x, b - y)
                } else {
                    old(self).alive(a, b)
                },
    {
        let ghost start = *self;
        let mut rng: u64 = seed;
        let mut dy: usize = 0;
        while dy < PATCH_SIDE
            invariant
                self.wf(),
                dy <= 8,
                rng == lcg_iter(seed, (dy * 8) as nat),
                self.generation == start.generation,
                self.running == start.running,
                forall|a: int, b: int|
                    #[trigger] self.alive(a, b) == if on_grid(a, b) && x <= a < x + 8 && y <= b
                        < y + dy {
                        patch_alive(seed, a - x, b - y)
                    } else {
                        start.alive(a, b)
                    },
            decreases 8 - dy,
        {
            let mut dx: usize = 0;
            while dx < PATCH_SIDE
                invariant
                    self.wf(),
                    dy < 8,
                    dx <= 8,
                    rng == lcg_iter(seed, (dy * 8 + dx) as nat),
                    self.generation == start.generation,
                    self.running == start.running,
                    forall|a: int, b: int|
                        #[trigger] self.alive(a, b) == if on_grid(a, b) && ((x <= a < x + 8 && y
                            <= b < y + dy) || (x <= a < x + dx && b == y + dy)) {
                            patch_alive(seed, a - x, b - y)
                        } else {
                            start.alive(a, b)
                        },
                decreases 8 - dx,
            {
                rng = lcg_step(rng);
                let alive = (rng >> 32u64) & 1 == 1;
                let nx: u64 = x as u64 + dx as u64;
                let ny: u64 = y as u64 + dy as u64;
                proof {
                    assert(rng == lcg_iter(seed, (dy * 8 + dx + 1) as nat));
                }
                if nx < GRID_WIDTH as u64 && ny < GRID_HEIGHT as u64 {
                    self.set(nx as usize, ny as usize, alive);
                }
                dx = dx + 1;
            }
            dy = dy + 1;
        }
    }

    /// Runs `operation` on the grid. `now` is the current time, which
    /// seeds the random requests together with their own values.
    pub fn execute_operation(&mut self, operation: Operation, now: u64) -> (r: OperationResult)
        requires
            old(self).wf(),
        ensures
            final(self).wf(),
            match operation {
                Operation::Toggle { x, y } => if x >= GRID_WIDTH || y >= GRID_HEIGHT {
                    r is Error && *final(self) == *old(self)
                } else {
                    r == done(*final(self)) && forall|a: int, b: int|
                        #[trigger] final(self).alive(a, b) == if a == x && b == y {
                            !old(self).alive(a, b)
                        } else {
                            old(self).alive(a, b)
                        }
                },
                _ => true,
            },
            match operation {
                Operation::Start => r == done(*final(self)) && final(self).running && final(self).cells@ == old(self).cells@ && final(self).generation == old(self).generation,
                _ => true,
            },
            match operation {
                Operation::Stop => r == done(*final(self)) && !final(self).running && final(self).cells@ == old(self).cells@ && final(self).generation == old(self).generation,
                _ => true,
            },
            match operation {
                Operation::Clear => r == done(*final(self)) && !final(self).running
                    && final(self).generation == 0 && forall|a: int, b: int|
                    !#[trigger] final(self).alive(a, b),
                _ => true,
            },
            match operation {
                Operation::Randomize { seed } => r == done(*final(self)) && final(self).generation
                    == 0 && final(self).running == old(self).running && forall|i: int|
                    0 <= i < GRID_WORDS ==> #[trigger] final(self).cells@[i] == lcg_iter(
                        seed ^ now,
                        (i + 1) as nat,
                    ),
                _ => true,
            },
            match operation {
                Operation::SetCells { positions, alive } => r == done(*final(self))
                    && final(self).generation == old(self).generation && final(self).running
                    == old(self).running && forall|a: int, b: int|
                    #[trigger] final(self).alive(a, b) == if on_grid(a, b) && listed(
                        positions@,
                        a,
                        b,
                    ) {
                        alive
                    } else {
                        old(self).alive(a, b)
                    },
                _ => true,
            },
            match operation {
                Operation::Step => r == done(*final(self)) && final(self).generation
                    == generation_after(old(self).generation, 1) && final(self).running == old(
                    self).running && forall|a: int, b: int|
                    #[trigger] final(self).alive(a, b) == evolve(*old(self), 1, a, b),
                _ => true,
            },
            match operation {
                Operation::StepMultiple { count } => r == done(*final(self)) && final(
                    self).running == old(self).running && ({
                    let n = if count < MAX_STEPS {
                        count
                    } else {
                        MAX_STEPS
                    };
                    &&& final(self).generation == generation_after(old(self).generation, n as nat)
                    &&& forall|a: int, b: int|
                        #[trigger] final(self).alive(a, b) == evolve(*old(self), n as nat, a, b)
                }),
                _ => true,
            },
            match operation {
                Operation::LoadPattern { pattern, x, y } => r == done(*final(self)) && final(
                    self).generation == old(self).generation && final(self).running == old(
                    self).running && if pattern == Pattern::Random {
                    forall|a: int, b: int|
                        #[trigger] final(self).alive(a, b) == if on_grid(a, b) && x <= a < x + 8
                            && y <= b < y + 8 {
                            patch_alive(patch_seed(x, y, now), a - x, b - y)
                        } else {
                            old(self).alive(a, b)
                        }
                } else {
                    forall|a: int, b: int|
                        #[trigger] final(self).alive(a, b) == (old(self).alive(a, b) || (on_grid(
                            a,
                            b,
                        ) && stamped(pattern, x as int, y as int, a, b)))
                },
                _ => true,
            },
    {
        match operation {
            Operation::Toggle { x, y } => {
                if x as usize >= GRID_WIDTH || y as usize >= GRID_HEIGHT {
                    return OperationResult::Error(String::from_str("Position out of bounds"));
                }
                self.toggle(x as usize, y as usize);
            },
            Operation::SetCells { positions, alive } => {
                self.set_cells(&positions, alive);
            },
            Operation::Step => {
                let ghost before = *self;
                self.step();
                proof {
                    assert forall|a: int, b: int| #[trigger]
                        self.alive(a, b) == evolve(before, 1, a, b) by {
                        if on_grid(a, b) {
                            assert(before.neighbor_count(a, b) == evolve_neighbors(before, 0, a, b))
                                by {
                                assert(before.alive(a - 1, b - 1) == evolve(before, 0, a - 1, b - 1));
                                assert(before.alive(a, b - 1) == evolve(before, 0, a, b - 1));
                                assert(before.alive(a + 1, b - 1) == evolve(before, 0, a + 1, b - 1));
                                assert(before.alive(a - 1, b) == evolve(before, 0, a - 1, b));
                                assert(before.alive(a + 1, b) == evolve(before, 0, a + 1, b));
                                assert(before.alive(a - 1, b + 1) == evolve(before, 0, a - 1, b + 1));
                                assert(before.alive(a, b + 1) == evolve(before, 0, a, b + 1));
                                assert(before.alive(a + 1, b + 1) == evolve(before, 0, a + 1, b + 1));
                            }
                            assert(before.alive(a, b) == evolve(before, 0, a, b));
                        }
                    }
                    assert(generation_after(before.generation, 0) == before.generation);
                    assert(generation_after(before.generation, 1) == self.generation);
                }
            },
            Operation::StepMultiple { count } => {
                self.step_multiple(count);
            },
            Operation::Start => {
                self.running = true;
            },
            Operation::Stop => {
                self.running = false;
            },
            Operation::Clear => {
                self.clear();
            },
            Operation::Randomize { seed } => {
                self.randomize(seed ^ now);
            },
            Operation::LoadPattern { pattern, x, y } => {
                match pattern {
                    Pattern::Random => {
                        let seed = (x as u64 ^ (y as u64 * ROW_MIX)) ^ now;
                        self.load_random_patch(x, y, seed);
                    },
                    _ => {
                        self.load_pattern(pattern, x, y);
                    },
                }
            },
        }
        OperationResult::Done { generation: self.generation, live_count: self.live_count() }
    }
}

} // verus!
