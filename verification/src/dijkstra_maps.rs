use vstd::prelude::*;
use std::collections::VecDeque;
use crate::buffer::Buffer;
use crate::buffer::Dimemsion;

verus! {

/// A stamped region of the value field: wherever `matrix` holds a 1, the
/// field is forced to `value`.
pub struct Influence {
    pub position: Dimemsion,
    pub matrix: Buffer,
    pub value: u32,
}

/// `inf`'s stamp stays inside a `w x h` field.
pub open spec fn influence_in_bounds(inf: Influence, w: int, h: int) -> bool {
    &&& inf.position.0 + inf.matrix@.len() <= w
    &&& forall|x: int| 0 <= x < inf.matrix@.len()
        ==> inf.position.1 + (#[trigger] inf.matrix@[x])@.len() <= h
}

/// `inf` forces cell (x, y) to its value.
pub open spec fn influence_covers(inf: Influence, x: int, y: int) -> bool {
    &&& inf.position.0 <= x < inf.position.0 + inf.matrix@.len()
    &&& inf.position.1 <= y
    &&& y - inf.position.1 < inf.matrix@[x - inf.position.0]@.len()
    &&& inf.matrix@[x - inf.position.0]@[y - inf.position.1] == 1
}

/// The value of cell (x, y) after stamping every influence in order over a
/// field that held `old_val` there: the last influence covering the cell
/// wins; a cell nobody covers keeps its value.
pub open spec fn applied_value(infs: Seq<Influence>, old_val: u32, x: int, y: int) -> u32
    decreases infs.len(),
{
    if infs.len() == 0 {
        old_val
    } else if influence_covers(infs.last(), x, y) {
        infs.last().value
    } else {
        applied_value(infs.drop_last(), old_val, x, y)
    }
}

/// One unit of flood-fill work for each cell not yet visited.
pub open spec fn cell_pending(b: bool) -> nat {
    if b {
        0
    } else {
        1
    }
}

pub open spec fn col_pending(c: Seq<bool>) -> nat
    decreases c.len(),
{
    if c.len() == 0 {
        0
    } else {
        cell_pending(c[0]) + col_pending(c.drop_first())
    }
}

/// The number of unvisited cells: with the queue length, the flood fill's
/// termination measure.
pub open spec fn grid_pending(m: Seq<Vec<bool>>) -> nat
    decreases m.len(),
{
    if m.len() == 0 {
        0
    } else {
        col_pending(m[0]@) + grid_pending(m.drop_first())
    }
}

proof fn lemma_col_pending_update(c: Seq<bool>, j: int, v: bool)
    requires
        0 <= j < c.len(),
    ensures
        col_pending(c.update(j, v)) + cell_pending(c[j]) == col_pending(c) + cell_pending(v),
    decreases c.len(),
{
    if j == 0 {
        assert(c.update(0, v)[0] == v);
        assert(c.update(0, v).drop_first() =~= c.drop_first());
    } else {
        lemma_col_pending_update(c.drop_first(), j - 1, v);
        assert(c.update(j, v)[0] == c[0]);
        assert(c.update(j, v).drop_first() =~= c.drop_first().update(j - 1, v));
        assert(c.drop_first()[j - 1] == c[j]);
    }
}

proof fn lemma_grid_pending_update(m: Seq<Vec<bool>>, i: int, col: Vec<bool>)
    requires
        0 <= i < m.len(),
    ensures
        grid_pending(m.update(i, col)) + col_pending(m[i]@)
            == grid_pending(m) + col_pending(col@),
    decreases m.len(),
{
    if i == 0 {
        assert(m.update(0, col)[0] == col);
        assert(m.update(0, col).drop_first() =~= m.drop_first());
    } else {
        lemma_grid_pending_update(m.drop_first(), i - 1, col);
        assert(m.update(i, col)[0] == m[0]);
        assert(m.update(i, col).drop_first() =~= m.drop_first().update(i - 1, col));
        assert(m.drop_first()[i - 1] == m[i]);
    }
}

/// Marks a cell visited; an unvisited cell becoming visited lowers the
/// pending count by exactly one.
fn mark_done(done: &mut Vec<Vec<bool>>, x: usize, y: usize)
    requires
        x < old(done)@.len(),
        y < old(done)@[x as int]@.len(),
        !old(done)@[x as int]@[y as int],
    ensures
        final(done)@.len() == old(done)@.len(),
        forall|i: int| 0 <= i < old(done)@.len()
            ==> (#[trigger] final(done)@[i])@.len() == old(done)@[i]@.len(),
        final(done)@[x as int]@[y as int],
        forall|i: int, j: int| 0 <= i < old(done)@.len() && 0 <= j < old(done)@[i]@.len()
            && !(i == x && j == y) ==> #[trigger] final(done)@[i]@[j] == old(done)@[i]@[j],
        grid_pending(final(done)@) + 1 == grid_pending(old(done)@),
{
    let col = &mut done[x];
    col.set(y, true);
    proof {
        lemma_col_pending_update(old(done)@[x as int]@, y as int, true);
        assert(done@[x as int]@ =~= old(done)@[x as int]@.update(y as int, true));
        assert(col_pending(done@[x as int]@) + 1 == col_pending(old(done)@[x as int]@));
        lemma_grid_pending_update(old(done)@, x as int, done@[x as int]);
        assert(done@ =~= old(done)@.update(x as int, done@[x as int]));
    }
}

/// A flood-fill value field over the map, seeded by influences: low values
/// attract, `u32::MAX` blocks.
pub struct DijkstraMap {
    pub current_generation: Vec<Vec<u32>>,
    pub dimensions: (usize, usize),
    pub influences: Vec<Influence>,
}

impl DijkstraMap {
    /// The field is rectangular with the recorded dimensions and every
    /// influence stamps inside it.
    pub open spec fn wf(self) -> bool {
        &&& self.current_generation@.len() == self.dimensions.0
        &&& forall|x: int| 0 <= x < self.dimensions.0
            ==> (#[trigger] self.current_generation@[x])@.len() == self.dimensions.1
        &&& forall|k: int| 0 <= k < self.influences@.len()
            ==> influence_in_bounds(#[trigger] self.influences@[k],
                self.dimensions.0 as int, self.dimensions.1 as int)
    }

    /// A fresh field of `u32::MAX - 1` everywhere.
    pub fn new(dimensions: (u16, u16), influences: Vec<Influence>) -> (r: DijkstraMap)
        requires
            forall|k: int| 0 <= k < influences@.len()
                ==> influence_in_bounds(#[trigger] influences@[k],
                    dimensions.0 as int, dimensions.1 as int),
        ensures
            r.wf(),
            r.dimensions == (dimensions.0 as usize, dimensions.1 as usize),
            r.influences == influences,
            forall|x: int, y: int| 0 <= x < dimensions.0 && 0 <= y < dimensions.1
                ==> #[trigger] r.current_generation@[x]@[y] == u32::MAX - 1,
    {
        let w: usize = dimensions.0 as usize;
        let h: usize = dimensions.1 as usize;
        let mut field: Vec<Vec<u32>> = Vec::new();
        let mut x: usize = 0;
        while x < w
            invariant
                x <= w,
                field@.len() == x,
                forall|i: int| 0 <= i < x ==> (#[trigger] field@[i])@.len() == h,
                forall|i: int, j: int| 0 <= i < x && 0 <= j < h
                    ==> #[trigger] field@[i]@[j] == u32::MAX - 1,
            decreases w - x,
        {
            let mut col: Vec<u32> = Vec::new();
            let mut y: usize = 0;
            while y < h
                invariant
                    y <= h,
                    col@.len() == y,
                    forall|j: int| 0 <= j < y ==> #[trigger] col@[j] == u32::MAX - 1,
                decreases h - y,
            {
                col.push(u32::MAX - 1);
                y = y + 1;
            }
            field.push(col);
            x = x + 1;
        }

        DijkstraMap {
            current_generation: field,
            dimensions: (w, h),
            influences,
        }
    }

    /// Renders the field to display values: distant cells (above 25) show
    /// the flat value 5, near cells their distance shifted into the display
    /// palette.
    pub fn make_render(&self) -> (result: Buffer)
        requires
            self.wf(),
        ensures
            result@.len() == self.dimensions.0,
            forall|x: int| 0 <= x < self.dimensions.0
                ==> (#[trigger] result@[x])@.len() == self.dimensions.1,
            forall|x: int, y: int| 0 <= x < self.dimensions.0 && 0 <= y < self.dimensions.1
                ==> #[trigger] result@[x]@[y] == (if self.current_generation@[x]@[y] > 25 {
                    5u8
                } else {
                    (self.current_generation@[x]@[y] + 8) as u8
                }),
    {
        let w = self.dimensions.0;
        let h = self.dimensions.1;
        let mut result: Buffer = Vec::new();
        let mut x: usize = 0;
        while x < w
            invariant
                self.wf(),
                w == self.dimensions.0,
                h == self.dimensions.1,
                x <= w,
                result@.len() == x,
                forall|i: int| 0 <= i < x ==> (#[trigger] result@[i])@.len() == h,
                forall|i: int, j: int| 0 <= i < x && 0 <= j < h
                    ==> #[trigger] result@[i]@[j] == (if self.current_generation@[i]@[j] > 25 {
                        5u8
                    } else {
                        (self.current_generation@[i]@[j] + 8) as u8
                    }),
            decreases w - x,
        {
            let col = &self.current_generation[x];
            let mut out: Vec<u8> = Vec::new();
            let mut y: usize = 0;
            while y < h
                invariant
                    self.wf(),
                    w == self.dimensions.0,
                    h == self.dimensions.1,
                    x < w,
                    col == self.current_generation@[x as int],
                    y <= h,
                    out@.len() == y,
                    forall|j: int| 0 <= j < y
                        ==> #[trigger] out@[j] == (if self.current_generation@[x as int]@[j] > 25 {
                            5u8
                        } else {
                            (self.current_generation@[x as int]@[j] + 8) as u8
                        }),
                decreases h - y,
            {
                let val = col[y];
                if val > 25 {
                    out.push(5);
                } else {
                    out.push((val as u8) + 8);
                }
                y = y + 1;
            }
            result.push(out);
            x = x + 1;
        }
        result
    }

    /// Stamps every influence, in order, into the field: wherever an
    /// influence's mask holds a 1, the cell becomes that influence's value,
    /// later influences overriding earlier ones.
    pub fn apply_influences(&mut self)
        requires
            old(self).wf(),
        ensures
            final(self).wf(),
            final(self).dimensions == old(self).dimensions,
            final(self).influences == old(self).influences,
            final(self).current_generation@.len() == old(self).current_generation@.len(),
            forall|x: int| 0 <= x < old(self).current_generation@.len()
                ==> (#[trigger] final(self).current_generation@[x])@.len()
                    == old(self).current_generation@[x]@.len(),
            forall|x: int, y: int|
                0 <= x < old(self).dimensions.0 && 0 <= y < old(self).dimensions.1
                    ==> #[trigger] final(self).current_generation@[x]@[y]
                        == applied_value(old(self).influences@,
                            old(self).current_generation@[x]@[y], x, y),
    {
        let ghost orig = old(self).current_generation@;
        let n = self.influences.len();
        let mut k: usize = 0;
        while k < n
            invariant
                self.wf(),
                self.dimensions == old(self).dimensions,
                self.influences == old(self).influences,
                n == self.influences@.len(),
                k <= n,
                self.current_generation@.len() == orig.len(),
                forall|x: int| 0 <= x < orig.len()
                    ==> (#[trigger] self.current_generation@[x])@.len() == orig[x]@.len(),
                forall|x: int, y: int|
                    0 <= x < self.dimensions.0 && 0 <= y < self.dimensions.1
                        ==> #[trigger] self.current_generation@[x]@[y]
                            == applied_value(self.influences@.take(k as int),
                                orig[x]@[y], x, y),
            decreases n - k,
        {
            let ghost pre = self.current_generation@;
            let column: usize = self.influences[k].position.0 as usize;
            let row: usize = self.influences[k].position.1 as usize;
            let mwidth = self.influences[k].matrix.len();

            let mut x: usize = 0;
            while x < mwidth
                invariant
                    self.wf(),
                    self.dimensions == old(self).dimensions,
                    self.influences == old(self).influences,
                    k < self.influences@.len(),
                    column == self.influences@[k as int].position.0,
                    row == self.influences@[k as int].position.1,
                    mwidth == self.influences@[k as int].matrix@.len(),
                    x <= mwidth,
                    self.current_generation@.len() == pre.len(),
                    forall|i: int| 0 <= i < pre.len()
                        ==> (#[trigger] self.current_generation@[i])@.len() == pre[i]@.len(),
                    forall|i: int, j: int|
                        0 <= i < pre.len() && 0 <= j < pre[i]@.len()
                            && !(column <= i < column + x
                                && influence_covers(self.influences@[k as int], i, j))
                            ==> #[trigger] self.current_generation@[i]@[j] == pre[i]@[j],
                    forall|i: int, j: int|
                        column <= i < column + x && 0 <= j < pre[i]@.len()
                            && influence_covers(self.influences@[k as int], i, j)
                            ==> #[trigger] self.current_generation@[i]@[j]
                                == self.influences@[k as int].value,
                decreases mwidth - x,
            {
                let mheight = self.influences[k].matrix[x].len();
                let mut y: usize = 0;
                while y < mheight
                    invariant
                        self.wf(),
                        self.dimensions == old(self).dimensions,
                        self.influences == old(self).influences,
                        k < self.influences@.len(),
                        column == self.influences@[k as int].position.0,
                        row == self.influences@[k as int].position.1,
                        mwidth == self.influences@[k as int].matrix@.len(),
                        x < mwidth,
                        mheight == self.influences@[k as int].matrix@[x as int]@.len(),
                        y <= mheight,
                        self.current_generation@.len() == pre.len(),
                        forall|i: int| 0 <= i < pre.len()
                            ==> (#[trigger] self.current_generation@[i])@.len() == pre[i]@.len(),
                        forall|i: int, j: int|
                            0 <= i < pre.len() && 0 <= j < pre[i]@.len()
                                && !(column <= i < column + x
                                    && influence_covers(self.influences@[k as int], i, j))
                                && !(i == column + x && row <= j < row + y
                                    && influence_covers(self.influences@[k as int], i, j))
                                ==> #[trigger] self.current_generation@[i]@[j] == pre[i]@[j],
                        forall|i: int, j: int|
                            column <= i < column + x && 0 <= j < pre[i]@.len()
                                && influence_covers(self.influences@[k as int], i, j)
                                ==> #[trigger] self.current_generation@[i]@[j]
                                    == self.influences@[k as int].value,
                        forall|j: int|
                            row <= j < row + y
                                && influence_covers(self.influences@[k as int],
                                    column + x, j)
                                ==> #[trigger] self.current_generation@[column + x]@[j]
                                    == self.influences@[k as int].value,
                    decreases mheight - y,
                {
                    let masked = self.influences[k].matrix[x][y] == 1;
                    if masked {
                        let value = self.influences[k].value;
                        let target = &mut self.current_generation[column + x];
                        let target_len: usize = target.len();
                        assert(row + y < target_len);
                        target.set(row + y, value);
                    }
                    y = y + 1;
                }
                x = x + 1;
            }
            proof {
                assert(self.influences@.take(k + 1).drop_last()
                    =~= self.influences@.take(k as int));
                assert(self.influences@.take(k + 1).last() == self.influences@[k as int]);
                assert forall|i: int, j: int|
                    0 <= i < self.dimensions.0 && 0 <= j < self.dimensions.1
                        implies #[trigger] self.current_generation@[i]@[j]
                            == applied_value(self.influences@.take(k + 1), orig[i]@[j], i, j) by {
                    if influence_covers(self.influences@[k as int], i, j) {
                        assert(self.current_generation@[i]@[j]
                            == self.influences@[k as int].value);
                    } else {
                        assert(self.current_generation@[i]@[j] == pre[i]@[j]);
                    }
                }
            }
            k = k + 1;
        }
        proof {
            assert(self.influences@.take(n as int) =~= self.influences@);
        }
    }

    /// Recomputes the whole field: resets it, stamps the influences, then
    /// flood-fills increasing values outward from every low-valued seed,
    /// treating `u32::MAX` cells as walls. The shape of the field and the
    /// influence list are preserved; the cell values are a heuristic
    /// pathfinding aid and are not otherwise specified.
    pub fn new_implementation(&mut self)
        requires
            old(self).wf(),
            old(self).dimensions.0 >= 1,
            old(self).dimensions.1 >= 1,
            old(self).dimensions.0 <= u16::MAX,
            old(self).dimensions.1 <= u16::MAX,
        ensures
            final(self).wf(),
            final(self).dimensions == old(self).dimensions,
            final(self).influences == old(self).influences,
            forall|x: int, y: int|
                0 <= x < old(self).dimensions.0 && 0 <= y < old(self).dimensions.1
                    && applied_value(old(self).influences@, (u32::MAX - 1) as u32, x, y) == u32::MAX
                    ==> #[trigger] final(self).current_generation@[x]@[y] == u32::MAX,
    {
        let w = self.dimensions.0;
        let h = self.dimensions.1;

        let mut field: Vec<Vec<u32>> = Vec::new();
        let mut fx: usize = 0;
        while fx < w
            invariant
                fx <= w,
                field@.len() == fx,
                forall|i: int| 0 <= i < fx ==> (#[trigger] field@[i])@.len() == h,
                forall|i: int, j: int| 0 <= i < fx && 0 <= j < h
                    ==> #[trigger] field@[i]@[j] == u32::MAX - 1,
            decreases w - fx,
        {
            let mut col: Vec<u32> = Vec::new();
            let mut fy: usize = 0;
            while fy < h
                invariant
                    fy <= h,
                    col@.len() == fy,
                    forall|j: int| 0 <= j < fy ==> #[trigger] col@[j] == u32::MAX - 1,
                decreases h - fy,
            {
                col.push(u32::MAX - 1);
                fy = fy + 1;
            }
            field.push(col);
            fx = fx + 1;
        }
        self.current_generation = field;

        self.apply_influences();
        proof {
            // stamping a freshly reset field leaves exactly the applied values
            assert forall|i: int, j: int| 0 <= i < w && 0 <= j < h
                && applied_value(self.influences@, (u32::MAX - 1) as u32, i, j) == u32::MAX
                implies #[trigger] self.current_generation@[i]@[j] == u32::MAX by {
                assert(self.current_generation@[i]@[j]
                    == applied_value(self.influences@, (u32::MAX - 1) as u32, i, j));
            }
        }

        let mut queue: VecDeque<Dimemsion> = VecDeque::new();
        let mut zero_positions: Vec<Dimemsion> = Vec::new();

        let ninf = self.influences.len();
        let mut k: usize = 0;
        while k < ninf
            invariant
                self.wf(),
                self.dimensions == old(self).dimensions,
                self.influences == old(self).influences,
                w == self.dimensions.0,
                h == self.dimensions.1,
                ninf == self.influences@.len(),
                k <= ninf,
                forall|q: int| 0 <= q < zero_positions@.len()
                    ==> (#[trigger] zero_positions@[q]).0 < w
                        && zero_positions@[q].1 < h,
            decreases ninf - k,
        {
            let value = self.influences[k].value;
            if value <= 100 {
                let start = self.influences[k].position;
                let mwidth = self.influences[k].matrix.len();
                let mut x: usize = 0;
                while x < mwidth
                    invariant
                        self.wf(),
                        self.dimensions == old(self).dimensions,
                        self.influences == old(self).influences,
                        w == self.dimensions.0,
                        h == self.dimensions.1,
                        k < self.influences@.len(),
                        start == self.influences@[k as int].position,
                        mwidth == self.influences@[k as int].matrix@.len(),
                        x <= mwidth,
                        forall|q: int| 0 <= q < zero_positions@.len()
                            ==> (#[trigger] zero_positions@[q]).0 < w
                                && zero_positions@[q].1 < h,
                    decreases mwidth - x,
                {
                    let mheight = self.influences[k].matrix[x].len();
                    let mut y: usize = 0;
                    while y < mheight
                        invariant
                            self.wf(),
                            self.dimensions == old(self).dimensions,
                            self.influences == old(self).influences,
                            w == self.dimensions.0,
                            h == self.dimensions.1,
                            k < self.influences@.len(),
                            start == self.influences@[k as int].position,
                            mwidth == self.influences@[k as int].matrix@.len(),
                            x < mwidth,
                            mheight == self.influences@[k as int].matrix@[x as int]@.len(),
                            y <= mheight,
                            forall|q: int| 0 <= q < zero_positions@.len()
                                ==> (#[trigger] zero_positions@[q]).0 < w
                                    && zero_positions@[q].1 < h,
                        decreases mheight - y,
                    {
                        let masked = self.influences[k].matrix[x][y] == 1;
                        if masked {
                            let position = ((start.0 as usize + x) as u16,
                                (start.1 as usize + y) as u16);
                            proof {
                                assert(start.0 + x < w);
                                assert(start.1 + y < h);
                            }
                            zero_positions.push(position);
                        }
                        y = y + 1;
                    }
                    x = x + 1;
                }
            }
            k = k + 1;
        }

        let seed_count = zero_positions.len();
        let mut s: usize = 0;
        while s < seed_count
            invariant
                self.wf(),
                self.dimensions == old(self).dimensions,
                self.influences == old(self).influences,
                w == self.dimensions.0,
                h == self.dimensions.1,
                w <= u16::MAX,
                h <= u16::MAX,
                seed_count == zero_positions@.len(),
                s <= seed_count,
                forall|q: int| 0 <= q < zero_positions@.len()
                    ==> (#[trigger] zero_positions@[q]).0 < w
                        && zero_positions@[q].1 < h,
                queue@.len() == 0,
                forall|i: int, j: int| 0 <= i < w && 0 <= j < h
                    && applied_value(self.influences@, (u32::MAX - 1) as u32, i, j) == u32::MAX
                    ==> #[trigger] self.current_generation@[i]@[j] == u32::MAX,
            decreases seed_count - s,
        {
            let position = zero_positions[s];
            let mut done: Vec<Vec<bool>> = Vec::new();
            let mut dx: usize = 0;
            while dx < w
                invariant
                    dx <= w,
                    done@.len() == dx,
                    forall|i: int| 0 <= i < dx ==> (#[trigger] done@[i])@.len() == h,
                decreases w - dx,
            {
                let mut col: Vec<bool> = Vec::new();
                let mut dy: usize = 0;
                while dy < h
                    invariant
                        dy <= h,
                        col@.len() == dy,
                    decreases h - dy,
                {
                    col.push(false);
                    dy = dy + 1;
                }
                done.push(col);
                dx = dx + 1;
            }

            queue.push_back(position);

            let mut z: usize = 0;
            while z < seed_count
                invariant
                    seed_count == zero_positions@.len(),
                    z <= seed_count,
                    forall|q: int| 0 <= q < zero_positions@.len()
                        ==> (#[trigger] zero_positions@[q]).0 < w
                            && zero_positions@[q].1 < h,
                    done@.len() == w,
                    forall|i: int| 0 <= i < w ==> (#[trigger] done@[i])@.len() == h,
                decreases seed_count - z,
            {
                let p = zero_positions[z];
                let target = &mut done[p.0 as usize];
                let target_len: usize = target.len();
                assert((p.1 as usize) < target_len);
                target.set(p.1 as usize, true);
                z = z + 1;
            }

            // breadth-first sweep: each popped cell relaxes its unvisited,
            // unblocked neighbours to one more than its own value; a cell is
            // queued only when it flips from unvisited to visited, so the
            // pending count plus the queue length shrinks with every pop
            loop
                invariant
                    self.wf(),
                    self.dimensions == old(self).dimensions,
                    self.influences == old(self).influences,
                    w == self.dimensions.0,
                    h == self.dimensions.1,
                    w <= u16::MAX,
                    h <= u16::MAX,
                    done@.len() == w,
                    forall|i: int| 0 <= i < w ==> (#[trigger] done@[i])@.len() == h,
                    forall|q: int| 0 <= q < queue@.len()
                        ==> (#[trigger] queue@[q]).0 < w && queue@[q].1 < h,
                    forall|i: int, j: int| 0 <= i < w && 0 <= j < h
                    && applied_value(self.influences@, (u32::MAX - 1) as u32, i, j) == u32::MAX
                    ==> #[trigger] self.current_generation@[i]@[j] == u32::MAX,
                ensures
                    self.wf(),
                    self.dimensions == old(self).dimensions,
                    self.influences == old(self).influences,
                    queue@.len() == 0,
                    done@.len() == w,
                    forall|i: int| 0 <= i < w ==> (#[trigger] done@[i])@.len() == h,
                    forall|i: int, j: int| 0 <= i < w && 0 <= j < h
                    && applied_value(self.influences@, (u32::MAX - 1) as u32, i, j) == u32::MAX
                    ==> #[trigger] self.current_generation@[i]@[j] == u32::MAX,
                decreases grid_pending(done@) + queue@.len(),
            {
                if queue.len() == 0 {
                    break;
                }
                let target = match queue.pop_front() {
                    Some(t) => t,
                    None => unreached(),
                };

                let target_value = self.current_generation[target.0 as usize][target.1 as usize];

                let neighbours = self.get_neighbours(target);

                let ncount = neighbours.0.len();
                let mut ni: usize = 0;
                let ghost entry_sum = grid_pending(done@) + queue@.len();
                while ni < ncount
                    invariant
                        self.wf(),
                        self.dimensions == old(self).dimensions,
                        self.influences == old(self).influences,
                        w == self.dimensions.0,
                        h == self.dimensions.1,
                        done@.len() == w,
                        forall|i: int| 0 <= i < w ==> (#[trigger] done@[i])@.len() == h,
                        ncount == neighbours.0@.len(),
                        forall|q: int| 0 <= q < neighbours.0@.len()
                            ==> ((#[trigger] neighbours.0@[q]).0).0 < w
                                && (neighbours.0@[q].0).1 < h,
                        ni <= ncount,
                        grid_pending(done@) + queue@.len() == entry_sum,
                        forall|q: int| 0 <= q < queue@.len()
                            ==> (#[trigger] queue@[q]).0 < w && queue@[q].1 < h,
                        forall|i: int, j: int| 0 <= i < w && 0 <= j < h
                    && applied_value(self.influences@, (u32::MAX - 1) as u32, i, j) == u32::MAX
                    ==> #[trigger] self.current_generation@[i]@[j] == u32::MAX,
                    decreases ncount - ni,
                {
                    let neighbour = neighbours.0[ni];
                    let position = ((neighbour.0).0 as usize, (neighbour.0).1 as usize);

                    let cur = self.current_generation[position.0][position.1];
                    let is_done = done[position.0][position.1];
                    if cur > u32::MAX - 1 || is_done {
                        // blocked by a wall or already visited
                    } else {
                        queue.push_back(neighbour.0);
                        mark_done(&mut done, position.0, position.1);
                        if target_value == u32::MAX
                            || self.current_generation[position.0][position.1]
                                < 1 + target_value {
                            // already closer than this path would make it
                        } else {
                            let ghost prev = self.current_generation@;
                            let vcol = &mut self.current_generation[position.0];
                            let vcol_len: usize = vcol.len();
                            assert(position.1 < vcol_len);
                            vcol.set(position.1, 1 + target_value);
                            proof {
                                // only a below-wall cell is ever rewritten,
                                // so wall cells keep their value
                                assert forall|i: int, j: int| 0 <= i < w && 0 <= j < h
                                    && applied_value(self.influences@, (u32::MAX - 1) as u32, i, j)
                                        == u32::MAX
                                    implies #[trigger] self.current_generation@[i]@[j]
                                        == u32::MAX by {
                                    if i == position.0 && j == position.1 {
                                        assert(prev[i]@[j] == cur);
                                        assert(prev[i]@[j] == u32::MAX);
                                        assert(false);
                                    } else {
                                        if i != position.0 {
                                            assert(self.current_generation@[i] == prev[i]);
                                        } else {
                                            assert(self.current_generation@[i]@[j]
                                                == prev[i]@[j]);
                                        }
                                        assert(prev[i]@[j] == u32::MAX);
                                    }
                                }
                            }
                        }
                    }
                    ni = ni + 1;
                }
            }
            s = s + 1;
        }
    }

    /// The in-bounds 4-neighbourhood of `target` whose cells are not walls,
    /// each with its value, together with the lowest neighbouring value.
    fn get_neighbours(&self, target: Dimemsion) -> (r: (Vec<(Dimemsion, u32)>, u32))
        requires
            self.wf(),
            self.dimensions.0 <= u16::MAX,
            self.dimensions.1 <= u16::MAX,
            target.0 < self.dimensions.0,
            target.1 < self.dimensions.1,
        ensures
            forall|q: int| 0 <= q < r.0@.len()
                ==> ((#[trigger] r.0@[q]).0).0 < self.dimensions.0
                    && (r.0@[q].0).1 < self.dimensions.1,
    {
        let mut neighbours: Vec<(Dimemsion, u32)> = Vec::new();
        let mut lowest: u32 = u32::MAX;

        let tx = target.0 as usize;
        let ty = target.1 as usize;
        let w = self.dimensions.0;
        let h = self.dimensions.1;

        let mut d: usize = 0;
        while d < 4
            invariant
                self.wf(),
                w == self.dimensions.0,
                h == self.dimensions.1,
                tx == target.0,
                ty == target.1,
                tx < w,
                ty < h,
                d <= 4,
                forall|q: int| 0 <= q < neighbours@.len()
                    ==> ((#[trigger] neighbours@[q]).0).0 < w
                        && (neighbours@[q].0).1 < h,
            decreases 4 - d,
        {
            let in_bounds: bool;
            let mut lx: usize = 0;
            let mut ly: usize = 0;
            if d == 0 {
                in_bounds = tx > 0;
                if in_bounds {
                    lx = tx - 1;
                    ly = ty;
                }
            } else if d == 1 {
                in_bounds = ty > 0;
                if in_bounds {
                    lx = tx;
                    ly = ty - 1;
                }
            } else if d == 2 {
                in_bounds = ty + 1 < h;
                if in_bounds {
                    lx = tx;
                    ly = ty + 1;
                }
            } else {
                in_bounds = tx + 1 < w;
                if in_bounds {
                    lx = tx + 1;
                    ly = ty;
                }
            }

            if in_bounds {
                let value = self.current_generation[lx][ly];
                if value < lowest {
                    lowest = value;
                }
                if value != u32::MAX {
                    neighbours.push(((lx as u16, ly as u16), value));
                }
            }
            d = d + 1;
        }

        (neighbours, lowest)
    }
}

} // verus!
