use vstd::prelude::*;

verus! {

/// A `w x h` grid of 0/1 cells.
pub open spec fn cave_grid(g: Seq<Vec<u8>>, w: int, h: int) -> bool {
    &&& g.len() == w
    &&& forall|x: int| 0 <= x < w ==> (#[trigger] g[x])@.len() == h
    &&& forall|x: int, y: int| 0 <= x < w && 0 <= y < h ==> (#[trigger] g[x]@[y]) <= 1
}

/// The cell is part of the fixed two-cell rim that the automaton never
/// rewrites.
pub open spec fn cave_border(w: int, h: int, x: int, y: int) -> bool {
    x < 2 || y < 2 || x > w - 2 || y > h - 2
}

/// The number of filled cells among the eight neighbours of (x, y).
pub open spec fn neighbour_sum(g: Seq<Vec<u8>>, x: int, y: int) -> int {
    g[x - 1]@[y - 1] + g[x]@[y - 1] + g[x + 1]@[y - 1]
        + g[x - 1]@[y] + g[x + 1]@[y]
        + g[x - 1]@[y + 1] + g[x]@[y + 1] + g[x + 1]@[y + 1]
}

/// One automaton step for an interior cell: a wall survives with four or
/// more wall neighbours, open floor becomes wall with five or more.
pub open spec fn step_value(g: Seq<Vec<u8>>, x: int, y: int) -> u8 {
    if g[x]@[y] == 0 {
        if neighbour_sum(g, x, y) >= 5 {
            1u8
        } else {
            0u8
        }
    } else {
        if neighbour_sum(g, x, y) >= 4 {
            1u8
        } else {
            0u8
        }
    }
}

/// Copies a grid cell for cell.
fn copy_grid(g: &Vec<Vec<u8>>) -> (r: Vec<Vec<u8>>)
    ensures
        r@.len() == g@.len(),
        forall|x: int| 0 <= x < g@.len() ==> (#[trigger] r@[x])@.len() == g@[x]@.len(),
        forall|x: int, y: int| 0 <= x < g@.len() && 0 <= y < g@[x]@.len()
            ==> #[trigger] r@[x]@[y] == g@[x]@[y],
{
    let mut r: Vec<Vec<u8>> = Vec::new();
    let mut x: usize = 0;
    while x < g.len()
        invariant
            x <= g@.len(),
            r@.len() == x,
            forall|i: int| 0 <= i < x ==> (#[trigger] r@[i])@.len() == g@[i]@.len(),
            forall|i: int, j: int| 0 <= i < x && 0 <= j < g@[i]@.len()
                ==> #[trigger] r@[i]@[j] == g@[i]@[j],
        decreases g@.len() - x,
    {
        let src = &g[x];
        let mut col: Vec<u8> = Vec::new();
        let mut y: usize = 0;
        while y < src.len()
            invariant
                x < g@.len(),
                src == g@[x as int],
                y <= src@.len(),
                col@.len() == y,
                forall|j: int| 0 <= j < y ==> #[trigger] col@[j] == g@[x as int]@[j],
            decreases src@.len() - y,
        {
            col.push(src[y]);
            y = y + 1;
        }
        r.push(col);
        x = x + 1;
    }
    r
}

/// Whether two same-shaped grids agree everywhere.
fn grids_equal(a: &Vec<Vec<u8>>, b: &Vec<Vec<u8>>, w: usize, h: usize) -> (r: bool)
    requires
        cave_grid(a@, w as int, h as int),
        cave_grid(b@, w as int, h as int),
    ensures
        r == forall|x: int, y: int| 0 <= x < w && 0 <= y < h
            ==> #[trigger] a@[x]@[y] == b@[x]@[y],
{
    let mut x: usize = 0;
    while x < w
        invariant
            cave_grid(a@, w as int, h as int),
            cave_grid(b@, w as int, h as int),
            x <= w,
            forall|i: int, j: int| 0 <= i < x && 0 <= j < h
                ==> #[trigger] a@[i]@[j] == b@[i]@[j],
        decreases w - x,
    {
        let mut y: usize = 0;
        while y < h
            invariant
                cave_grid(a@, w as int, h as int),
                cave_grid(b@, w as int, h as int),
                x < w,
                y <= h,
                forall|i: int, j: int| 0 <= i < x && 0 <= j < h
                    ==> #[trigger] a@[i]@[j] == b@[i]@[j],
                forall|j: int| 0 <= j < y ==> #[trigger] a@[x as int]@[j] == b@[x as int]@[j],
            decreases h - y,
        {
            if a[x][y] != b[x][y] {
                return false;
            }
            y = y + 1;
        }
        x = x + 1;
    }
    true
}

/// Cave-like map generation by cellular automaton: a random fill is smoothed
/// a few steps until walls clump into cave shapes.
#[derive(Debug)]
pub struct CaveMapGenerator {
    pub last_generation: Vec<Vec<u8>>,
    pub current_generation: Vec<Vec<u8>>,
    pub dimensions: (usize, usize),
}

impl CaveMapGenerator {
    pub open spec fn wf(self) -> bool {
        &&& cave_grid(self.last_generation@, self.dimensions.0 as int, self.dimensions.1 as int)
        &&& cave_grid(self.current_generation@, self.dimensions.0 as int,
                self.dimensions.1 as int)
    }

    /// Two all-open generations of the given size.
    pub fn new(dimensions: (u16, u16)) -> (r: CaveMapGenerator)
        ensures
            r.wf(),
            r.dimensions == (dimensions.0 as usize, dimensions.1 as usize),
            forall|x: int, y: int| 0 <= x < dimensions.0 && 0 <= y < dimensions.1
                ==> #[trigger] r.current_generation@[x]@[y] == 0,
            forall|x: int, y: int| 0 <= x < dimensions.0 && 0 <= y < dimensions.1
                ==> #[trigger] r.last_generation@[x]@[y] == 0,
    {
        let w: usize = dimensions.0 as usize;
        let h: usize = dimensions.1 as usize;
        let mut grid: Vec<Vec<u8>> = Vec::new();
        let mut x: usize = 0;
        while x < w
            invariant
                x <= w,
                grid@.len() == x,
                forall|i: int| 0 <= i < x ==> (#[trigger] grid@[i])@.len() == h,
                forall|i: int, j: int| 0 <= i < x && 0 <= j < h
                    ==> #[trigger] grid@[i]@[j] == 0,
            decreases w - x,
        {
            let mut col: Vec<u8> = Vec::new();
            let mut y: usize = 0;
            while y < h
                invariant
                    y <= h,
                    col@.len() == y,
                    forall|j: int| 0 <= j < y ==> #[trigger] col@[j] == 0,
                decreases h - y,
            {
                col.push(0);
                y = y + 1;
            }
            grid.push(col);
            x = x + 1;
        }
        let second = copy_grid(&grid);

        CaveMapGenerator {
            last_generation: grid,
            current_generation: second,
            dimensions: (w, h),
        }
    }

    /// Fills the marked cells and the two-cell rim with walls, leaving the
    /// remaining cells as they were. The mask is drawn by the caller, one
    /// flag per cell.
    pub fn randomize(&mut self, filled: &Vec<Vec<bool>>)
        requires
            old(self).wf(),
            old(self).dimensions.0 >= 2,
            old(self).dimensions.1 >= 2,
            filled@.len() == old(self).dimensions.0,
            forall|x: int| 0 <= x < filled@.len()
                ==> (#[trigger] filled@[x])@.len() == old(self).dimensions.1,
        ensures
            final(self).wf(),
            final(self).dimensions == old(self).dimensions,
            final(self).last_generation == old(self).last_generation,
            forall|x: int, y: int|
                0 <= x < old(self).dimensions.0 && 0 <= y < old(self).dimensions.1
                    ==> #[trigger] final(self).current_generation@[x]@[y]
                        == (if filled@[x]@[y]
                            || cave_border(old(self).dimensions.0 as int,
                                old(self).dimensions.1 as int, x, y) {
                            1u8
                        } else {
                            old(self).current_generation@[x]@[y]
                        }),
    {
        let w = self.dimensions.0;
        let h = self.dimensions.1;
        let ghost orig = self.current_generation@;

        let mut x: usize = 0;
        while x < w
            invariant
                w == self.dimensions.0,
                h == self.dimensions.1,
                w >= 2,
                h >= 2,
                self.dimensions == old(self).dimensions,
                self.last_generation == old(self).last_generation,
                cave_grid(self.last_generation@, w as int, h as int),
                filled@.len() == w,
                forall|i: int| 0 <= i < w ==> (#[trigger] filled@[i])@.len() == h,
                x <= w,
                self.current_generation@.len() == w,
                forall|i: int| 0 <= i < w
                    ==> (#[trigger] self.current_generation@[i])@.len() == h,
                forall|i: int, j: int| 0 <= i < w && 0 <= j < h
                    ==> (#[trigger] self.current_generation@[i]@[j]) <= 1,
                forall|i: int, j: int| 0 <= i < x && 0 <= j < h
                    ==> #[trigger] self.current_generation@[i]@[j]
                        == (if filled@[i]@[j] || cave_border(w as int, h as int, i, j) {
                            1u8
                        } else {
                            orig[i]@[j]
                        }),
                forall|i: int, j: int| x <= i < w && 0 <= j < h
                    ==> #[trigger] self.current_generation@[i]@[j] == orig[i]@[j],
            decreases w - x,
        {
            let mut y: usize = 0;
            while y < h
                invariant
                    w == self.dimensions.0,
                    h == self.dimensions.1,
                    w >= 2,
                    h >= 2,
                    self.dimensions == old(self).dimensions,
                    self.last_generation == old(self).last_generation,
                    cave_grid(self.last_generation@, w as int, h as int),
                    filled@.len() == w,
                    forall|i: int| 0 <= i < w ==> (#[trigger] filled@[i])@.len() == h,
                    x < w,
                    y <= h,
                    self.current_generation@.len() == w,
                    forall|i: int| 0 <= i < w
                        ==> (#[trigger] self.current_generation@[i])@.len() == h,
                    forall|i: int, j: int| 0 <= i < w && 0 <= j < h
                        ==> (#[trigger] self.current_generation@[i]@[j]) <= 1,
                    forall|i: int, j: int| 0 <= i < x && 0 <= j < h
                        ==> #[trigger] self.current_generation@[i]@[j]
                            == (if filled@[i]@[j] || cave_border(w as int, h as int, i, j) {
                                1u8
                            } else {
                                orig[i]@[j]
                            }),
                    forall|j: int| 0 <= j < y
                        ==> #[trigger] self.current_generation@[x as int]@[j]
                            == (if filled@[x as int]@[j]
                                || cave_border(w as int, h as int, x as int, j) {
                                1u8
                            } else {
                                orig[x as int]@[j]
                            }),
                    forall|j: int| y <= j < h
                        ==> #[trigger] self.current_generation@[x as int]@[j]
                            == orig[x as int]@[j],
                    forall|i: int, j: int| x < i < w && 0 <= j < h
                        ==> #[trigger] self.current_generation@[i]@[j] == orig[i]@[j],
                decreases h - y,
            {
                let mark = filled[x][y] || x < 2 || y < 2 || x > w - 2 || y > h - 2;
                if mark {
                    let col = &mut self.current_generation[x];
                    let col_len: usize = col.len();
                    assert(y < col_len);
                    col.set(y, 1);
                }
                y = y + 1;
            }
            x = x + 1;
        }
    }

    /// The count of wall neighbours of an interior cell of the previous
    /// generation; `None` for rim cells, which must stay as they are.
    pub fn get_border_count(&self, location: (usize, usize)) -> (r: Option<u8>)
        requires
            self.wf(),
            self.dimensions.0 >= 2,
            self.dimensions.1 >= 2,
            location.0 < self.dimensions.0,
            location.1 < self.dimensions.1,
        ensures
            r is None <==> cave_border(self.dimensions.0 as int, self.dimensions.1 as int,
                location.0 as int, location.1 as int),
            r matches Some(c) ==> c == neighbour_sum(self.last_generation@,
                location.0 as int, location.1 as int),
    {
        let (x, y) = (location.0, location.1);
        let w = self.dimensions.0;
        let h = self.dimensions.1;
        if x < 2 || y < 2 || x > w - 2 || y > h - 2 {
            return None;
        }

        let g = &self.last_generation;
        let count: u8 = g[x - 1][y - 1] + g[x][y - 1] + g[x + 1][y - 1]
            + g[x - 1][y] + g[x + 1][y]
            + g[x - 1][y + 1] + g[x][y + 1] + g[x + 1][y + 1];

        Some(count)
    }

    /// One automaton step: the previous generation is replaced by the
    /// current one, and every interior cell of the new current generation is
    /// recomputed from its eight previous neighbours.
    pub fn run_generation(&mut self)
        requires
            old(self).wf(),
            old(self).dimensions.0 >= 2,
            old(self).dimensions.1 >= 2,
        ensures
            final(self).wf(),
            final(self).dimensions == old(self).dimensions,
            forall|x: int, y: int|
                0 <= x < old(self).dimensions.0 && 0 <= y < old(self).dimensions.1
                    ==> #[trigger] final(self).last_generation@[x]@[y]
                        == old(self).current_generation@[x]@[y],
            forall|x: int, y: int|
                0 <= x < old(self).dimensions.0 && 0 <= y < old(self).dimensions.1
                    ==> #[trigger] final(self).current_generation@[x]@[y]
                        == (if cave_border(old(self).dimensions.0 as int,
                            old(self).dimensions.1 as int, x, y) {
                            old(self).current_generation@[x]@[y]
                        } else {
                            step_value(old(self).current_generation@, x, y)
                        }),
    {
        let w = self.dimensions.0;
        let h = self.dimensions.1;

        self.last_generation = copy_grid(&self.current_generation);
        let ghost prev = self.last_generation@;

        let mut x: usize = 0;
        while x < w
            invariant
                w == self.dimensions.0,
                h == self.dimensions.1,
                w >= 2,
                h >= 2,
                self.dimensions == old(self).dimensions,
                cave_grid(self.last_generation@, w as int, h as int),
                self.last_generation@ == prev,
                x <= w,
                self.current_generation@.len() == w,
                forall|i: int| 0 <= i < w
                    ==> (#[trigger] self.current_generation@[i])@.len() == h,
                forall|i: int, j: int| 0 <= i < w && 0 <= j < h
                    ==> (#[trigger] self.current_generation@[i]@[j]) <= 1,
                forall|i: int, j: int| 0 <= i < x && 0 <= j < h
                    ==> #[trigger] self.current_generation@[i]@[j]
                        == (if cave_border(w as int, h as int, i, j) {
                            prev[i]@[j]
                        } else {
                            step_value(prev, i, j)
                        }),
                forall|i: int, j: int| x <= i < w && 0 <= j < h
                    ==> #[trigger] self.current_generation@[i]@[j] == prev[i]@[j],
            decreases w - x,
        {
            let mut y: usize = 0;
            while y < h
                invariant
                    w == self.dimensions.0,
                    h == self.dimensions.1,
                    w >= 2,
                    h >= 2,
                    self.dimensions == old(self).dimensions,
                    cave_grid(self.last_generation@, w as int, h as int),
                    self.last_generation@ == prev,
                    x < w,
                    y <= h,
                    self.current_generation@.len() == w,
                    forall|i: int| 0 <= i < w
                        ==> (#[trigger] self.current_generation@[i])@.len() == h,
                    forall|i: int, j: int| 0 <= i < w && 0 <= j < h
                        ==> (#[trigger] self.current_generation@[i]@[j]) <= 1,
                    forall|i: int, j: int| 0 <= i < x && 0 <= j < h
                        ==> #[trigger] self.current_generation@[i]@[j]
                            == (if cave_border(w as int, h as int, i, j) {
                                prev[i]@[j]
                            } else {
                                step_value(prev, i, j)
                            }),
                    forall|j: int| 0 <= j < y
                        ==> #[trigger] self.current_generation@[x as int]@[j]
                            == (if cave_border(w as int, h as int, x as int, j) {
                                prev[x as int]@[j]
                            } else {
                                step_value(prev, x as int, j)
                            }),
                    forall|j: int| y <= j < h
                        ==> #[trigger] self.current_generation@[x as int]@[j]
                            == prev[x as int]@[j],
                    forall|i: int, j: int| x < i < w && 0 <= j < h
                        ==> #[trigger] self.current_generation@[i]@[j] == prev[i]@[j],
                decreases h - y,
            {
                let border_count = self.get_border_count((x, y));
                match border_count {
                    Some(count) => {
                        let val = self.last_generation[x][y];
                        let new_val: u8;
                        if val == 0 {
                            if count >= 5 {
                                new_val = 1;
                            } else {
                                new_val = 0;
                            }
                        } else {
                            if count >= 4 {
                                new_val = 1;
                            } else {
                                new_val = 0;
                            }
                        }
                        let col = &mut self.current_generation[x];
                        let col_len: usize = col.len();
                        assert(y < col_len);
                        col.set(y, new_val);
                    },
                    None => {
                        // rim cell: keeps its value
                    },
                }
                y = y + 1;
            }
            x = x + 1;
        }
    }

    /// Runs up to ten automaton steps, stopping early once a step changes
    /// nothing; afterwards the current generation is exactly one automaton
    /// step ahead of the stored previous one.
    pub fn generate(&mut self)
        requires
            old(self).wf(),
            old(self).dimensions.0 >= 2,
            old(self).dimensions.1 >= 2,
        ensures
            final(self).wf(),
            final(self).dimensions == old(self).dimensions,
            forall|x: int, y: int|
                0 <= x < old(self).dimensions.0 && 0 <= y < old(self).dimensions.1
                    ==> #[trigger] final(self).current_generation@[x]@[y]
                        == (if cave_border(old(self).dimensions.0 as int,
                            old(self).dimensions.1 as int, x, y) {
                            final(self).last_generation@[x]@[y]
                        } else {
                            step_value(final(self).last_generation@, x, y)
                        }),
    {
        let w = self.dimensions.0;
        let h = self.dimensions.1;
        let mut i: usize = 0;
        let mut settled = false;
        while i < 10 && !settled
            invariant
                self.wf(),
                self.dimensions == old(self).dimensions,
                w == self.dimensions.0,
                h == self.dimensions.1,
                w >= 2,
                h >= 2,
                i <= 10,
                settled ==> i >= 1,
                i >= 1 ==> forall|x: int, y: int| 0 <= x < w && 0 <= y < h
                    ==> #[trigger] self.current_generation@[x]@[y]
                        == (if cave_border(w as int, h as int, x, y) {
                            self.last_generation@[x]@[y]
                        } else {
                            step_value(self.last_generation@, x, y)
                        }),
            decreases 10 - i,
        {
            self.run_generation();
            if grids_equal(&self.current_generation, &self.last_generation, w, h) {
                settled = true;
            }
            i = i + 1;
        }
    }

    /// Renders the previous generation to display values: open floor as 1,
    /// walls as 3.
    pub fn make_render(&self) -> (result: Vec<Vec<u8>>)
        requires
            self.wf(),
        ensures
            result@.len() == self.dimensions.0,
            forall|x: int| 0 <= x < self.dimensions.0
                ==> (#[trigger] result@[x])@.len() == self.dimensions.1,
            forall|x: int, y: int| 0 <= x < self.dimensions.0 && 0 <= y < self.dimensions.1
                ==> #[trigger] result@[x]@[y]
                    == (if self.last_generation@[x]@[y] == 0 { 1u8 } else { 3u8 }),
    {
        let w = self.dimensions.0;
        let h = self.dimensions.1;
        let mut result: Vec<Vec<u8>> = Vec::new();
        let mut x: usize = 0;
        while x < w
            invariant
                self.wf(),
                w == self.dimensions.0,
                h == self.dimensions.1,
                x <= w,
                result@.len() == x,
                forall|i: int| 0 <= i < x ==> (#[trigger] result@[i])@.len() == h,
                forall|i: int, j: int| 0 <= i < x && 0 <= j < h
                    ==> #[trigger] result@[i]@[j]
                        == (if self.last_generation@[i]@[j] == 0 { 1u8 } else { 3u8 }),
            decreases w - x,
        {
            let col = &self.last_generation[x];
            let mut out: Vec<u8> = Vec::new();
            let mut y: usize = 0;
            while y < h
                invariant
                    self.wf(),
                    w == self.dimensions.0,
                    h == self.dimensions.1,
                    x < w,
                    col == self.last_generation@[x as int],
                    y <= h,
                    out@.len() == y,
                    forall|j: int| 0 <= j < y
                        ==> #[trigger] out@[j]
                            == (if self.last_generation@[x as int]@[j] == 0 { 1u8 } else { 3u8 }),
                decreases h - y,
            {
                let val = col[y];
                if val == 0 {
                    out.push(1);
                } else {
                    out.push(3);
                }
                y = y + 1;
            }
            result.push(out);
            x = x + 1;
        }
        result
    }
}

} // verus!
