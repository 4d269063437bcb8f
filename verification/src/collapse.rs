use vstd::prelude::*;
use std::collections::VecDeque;
use crate::components::Direction;
use crate::adjacency::AdjacencyTable;
use crate::adjacency::ConfigurationError;
use crate::randomness::RngSource;

verus! {

/// A cell's domain became empty during propagation (or the finished grid
/// failed its consistency check): the run is unsatisfiable from here, and
/// `at` names the offending coordinate for diagnostics.
#[derive(Clone, Copy, Debug, PartialEq, Eq)]
pub struct Contradiction {
    pub at: (usize, usize),
}

/// One domain per output cell: the tile indices still possible there.
pub type DomainGrid = Vec<Vec<Vec<usize>>>;

/// The set of still-possible tile indices at cell (x, y).
pub open spec fn domain_at(m: Seq<Vec<Vec<usize>>>, x: int, y: int) -> Seq<usize> {
    m[x]@[y]@
}

/// A single domain is non-empty and holds only valid tile indices.
pub open spec fn domain_ok(d: Seq<usize>, ntiles: int) -> bool {
    d.len() >= 1 && forall|k: int| 0 <= k < d.len() ==> d[k] < ntiles
}

/// The grid has the given dimensions and every domain is well formed.
pub open spec fn domains_wf(m: Seq<Vec<Vec<usize>>>, w: int, h: int, ntiles: int) -> bool {
    &&& m.len() == w
    &&& forall|x: int| 0 <= x < w ==> (#[trigger] m[x])@.len() == h
    &&& forall|x: int, y: int| 0 <= x < w && 0 <= y < h
        ==> domain_ok(#[trigger] domain_at(m, x, y), ntiles)
}

/// Every cell has been resolved to exactly one tile index.
pub open spec fn complete_grid(m: Seq<Vec<Vec<usize>>>) -> bool {
    forall|x: int, y: int| 0 <= x < m.len() && 0 <= y < m[x]@.len()
        ==> (#[trigger] domain_at(m, x, y)).len() <= 1
}

/// The resolved tile at (x, y) tolerates its right and lower neighbours.
pub open spec fn cell_consistent(t: AdjacencyTable, m: Seq<Vec<Vec<usize>>>, w: int, h: int, x: int, y: int) -> bool {
    &&& (x + 1 < w ==> t.rules@[domain_at(m, x, y)[0] as int]
            .allows(Direction::Right, domain_at(m, x + 1, y)[0]))
    &&& (y + 1 < h ==> t.rules@[domain_at(m, x, y)[0] as int]
            .allows(Direction::Down, domain_at(m, x, y + 1)[0]))
}

/// Every adjacent pair of resolved cells respects the adjacency rules.
pub open spec fn consistent(t: AdjacencyTable, m: Seq<Vec<Vec<usize>>>, w: int, h: int) -> bool {
    forall|x: int, y: int| 0 <= x < w && 0 <= y < h
        ==> #[trigger] cell_consistent(t, m, w, h, x, y)
}

/// The degenerate table of exactly one tile that tolerates itself in every
/// direction: the one shape of table on which a collapse can never fail.
pub open spec fn single_tile_closed(t: AdjacencyTable) -> bool {
    t.tiles@.len() == 1 && forall|d: Direction| t.rules@[0].allows(d, 0usize)
}

/// How far a single cell still is from resolution.
pub open spec fn cell_excess(d: Vec<usize>) -> nat {
    if d@.len() >= 1 {
        (d@.len() - 1) as nat
    } else {
        0
    }
}

/// Total excess of one column of domains.
pub open spec fn col_excess(col: Seq<Vec<usize>>) -> nat
    decreases col.len(),
{
    if col.len() == 0 {
        0
    } else {
        cell_excess(col[0]) + col_excess(col.drop_first())
    }
}

/// Total excess of the whole grid: the propagation loop's termination
/// measure, together with the queue length.
pub open spec fn grid_excess(m: Seq<Vec<Vec<usize>>>) -> nat
    decreases m.len(),
{
    if m.len() == 0 {
        0
    } else {
        col_excess(m[0]@) + grid_excess(m.drop_first())
    }
}

proof fn lemma_col_excess_update(col: Seq<Vec<usize>>, j: int, d: Vec<usize>)
    requires
        0 <= j < col.len(),
    ensures
        col_excess(col.update(j, d)) + cell_excess(col[j]) == col_excess(col) + cell_excess(d),
    decreases col.len(),
{
    if j == 0 {
        assert(col.update(0, d)[0] == d);
        assert(col.update(0, d).drop_first() =~= col.drop_first());
    } else {
        lemma_col_excess_update(col.drop_first(), j - 1, d);
        assert(col.update(j, d)[0] == col[0]);
        assert(col.update(j, d).drop_first() =~= col.drop_first().update(j - 1, d));
        assert(col.drop_first()[j - 1] == col[j]);
    }
}

proof fn lemma_grid_excess_update(m: Seq<Vec<Vec<usize>>>, i: int, col: Vec<Vec<usize>>)
    requires
        0 <= i < m.len(),
    ensures
        grid_excess(m.update(i, col)) + col_excess(m[i]@) == grid_excess(m) + col_excess(col@),
    decreases m.len(),
{
    if i == 0 {
        assert(m.update(0, col)[0] == col);
        assert(m.update(0, col).drop_first() =~= m.drop_first());
    } else {
        lemma_grid_excess_update(m.drop_first(), i - 1, col);
        assert(m.update(i, col)[0] == m[0]);
        assert(m.update(i, col).drop_first() =~= m.drop_first().update(i - 1, col));
        assert(m.drop_first()[i - 1] == m[i]);
    }
}

/// Replacing the domain at one cell shifts the grid excess by exactly the
/// difference of the two cells' excesses.
proof fn lemma_grid_excess_cell_update(m1: Seq<Vec<Vec<usize>>>, m2: Seq<Vec<Vec<usize>>>, x: int, y: int)
    requires
        0 <= x < m1.len(),
        0 <= y < m1[x]@.len(),
        m2.len() == m1.len(),
        m2 =~= m1.update(x, m2[x]),
        m2[x]@ =~= m1[x]@.update(y, m2[x]@[y]),
    ensures
        grid_excess(m2) + cell_excess(m1[x]@[y]) == grid_excess(m1) + cell_excess(m2[x]@[y]),
{
    lemma_col_excess_update(m1[x]@, y, m2[x]@[y]);
    assert(col_excess(m2[x]@) + cell_excess(m1[x]@[y])
        == col_excess(m1[x]@) + cell_excess(m2[x]@[y]));
    lemma_grid_excess_update(m1, x, m2[x]);
    assert(grid_excess(m1.update(x, m2[x])) + col_excess(m1[x]@)
        == grid_excess(m1) + col_excess(m2[x]@));
}

/// Membership in a pushed sequence.
proof fn lemma_push_contains(s: Seq<usize>, x: usize, y: usize)
    ensures
        s.push(x).contains(y) <==> (s.contains(y) || y == x),
{
    if y == x {
        assert(s.push(x)[s.len() as int] == y);
    }
    if s.contains(y) {
        let k = choose|k: int| 0 <= k < s.len() && s[k] == y;
        assert(s.push(x)[k] == y);
    }
    if s.push(x).contains(y) && y != x {
        let k = choose|k: int| 0 <= k < s.push(x).len() && s.push(x)[k] == y;
        assert(0 <= k < s.len());
        assert(s[k] == y);
    }
}

/// Linear membership scan.
fn vec_contains(v: &Vec<usize>, x: usize) -> (r: bool)
    ensures
        r == v@.contains(x),
{
    let mut i: usize = 0;
    while i < v.len()
        invariant
            i <= v@.len(),
            forall|k: int| 0 <= k < i ==> v@[k] != x,
        decreases v@.len() - i,
    {
        if v[i] == x {
            return true;
        }
        i = i + 1;
    }
    false
}

/// Whether the domain holds some index outside the permitted set.
fn needs_filtering(domain: &Vec<usize>, allowed: &Vec<usize>) -> (r: bool)
    ensures
        r == exists|k: int| 0 <= k < domain@.len() && !allowed@.contains(#[trigger] domain@[k]),
{
    let mut i: usize = 0;
    while i < domain.len()
        invariant
            i <= domain@.len(),
            forall|k: int| 0 <= k < i ==> allowed@.contains(#[trigger] domain@[k]),
        decreases domain@.len() - i,
    {
        if !vec_contains(allowed, domain[i]) {
            return true;
        }
        i = i + 1;
    }
    false
}

/// The domain shrunk to its intersection with the permitted set, keeping
/// order; strictly shorter whenever something had to go.
fn filter_domain(domain: &Vec<usize>, allowed: &Vec<usize>) -> (r: Vec<usize>)
    ensures
        forall|v: usize| #[trigger] r@.contains(v)
            <==> (domain@.contains(v) && allowed@.contains(v)),
        r@.len() <= domain@.len(),
        (exists|k: int| 0 <= k < domain@.len() && !allowed@.contains(#[trigger] domain@[k]))
            ==> r@.len() < domain@.len(),
{
    let mut result: Vec<usize> = Vec::new();
    let mut i: usize = 0;
    let ghost mut dropped = false;
    while i < domain.len()
        invariant
            i <= domain@.len(),
            forall|v: usize| #[trigger] result@.contains(v)
                <==> (exists|k: int| 0 <= k < i && domain@[k] == v) && allowed@.contains(v),
            result@.len() <= i,
            dropped ==> result@.len() < i,
            dropped == exists|k: int| 0 <= k < i && !allowed@.contains(#[trigger] domain@[k]),
        decreases domain@.len() - i,
    {
        let v = domain[i];
        if vec_contains(allowed, v) {
            let ghost pre = result@;
            result.push(v);
            proof {
                assert forall|u: usize| #[trigger] result@.contains(u)
                    <==> ((exists|k: int| 0 <= k < i + 1 && domain@[k] == u)
                        && allowed@.contains(u)) by {
                    lemma_push_contains(pre, v, u);
                    if u == v {
                        assert(domain@[i as int] == u);
                    }
                    if (exists|k: int| 0 <= k < i + 1 && domain@[k] == u) && u != v {
                        let k = choose|k: int| 0 <= k < i + 1 && domain@[k] == u;
                        assert(0 <= k < i);
                    }
                }
            }
        } else {
            proof {
                dropped = true;
                assert(!allowed@.contains(domain@[i as int]));
                assert forall|u: usize| #[trigger] result@.contains(u)
                    <==> ((exists|k: int| 0 <= k < i + 1 && domain@[k] == u)
                        && allowed@.contains(u)) by {
                    if (exists|k: int| 0 <= k < i + 1 && domain@[k] == u)
                        && allowed@.contains(u) {
                        let k = choose|k: int| 0 <= k < i + 1 && domain@[k] == u;
                        assert(0 <= k < i);
                    }
                }
            }
        }
        i = i + 1;
    }
    proof {
        assert forall|v: usize| #[trigger] result@.contains(v)
            <==> (domain@.contains(v) && allowed@.contains(v)) by {
            if domain@.contains(v) {
                let k = choose|k: int| 0 <= k < domain@.len() && domain@[k] == v;
                assert(0 <= k < i);
            }
        }
    }
    result
}

/// The union, over all tile indices still possible at `target`, of those
/// tiles' allowed-neighbour lists for direction `dir`: exactly the indices
/// permitted next to `target` in that direction.
pub fn allowed_neighbours(table: &AdjacencyTable, map: &DomainGrid, target: (usize, usize), dir: &Direction) -> (r: Vec<usize>)
    requires
        table.wf(),
        target.0 < map@.len(),
        target.1 < map@[target.0 as int]@.len(),
        domain_ok(domain_at(map@, target.0 as int, target.1 as int), table.tile_count()),
    ensures
        forall|v: usize| #[trigger] r@.contains(v)
            <==> exists|k: int| {
                &&& 0 <= k < domain_at(map@, target.0 as int, target.1 as int).len()
                &&& table.rules@[domain_at(map@, target.0 as int, target.1 as int)[k] as int]
                    .allows(*dir, v)
            },
{
    let ghost dom = domain_at(map@, target.0 as int, target.1 as int);
    let cell = &map[target.0][target.1];
    let mut result: Vec<usize> = Vec::new();

    let mut i: usize = 0;
    while i < cell.len()
        invariant
            table.wf(),
            cell@ == dom,
            domain_ok(dom, table.tile_count()),
            i <= dom.len(),
            forall|v: usize| #[trigger] result@.contains(v)
                <==> exists|k: int| 0 <= k < i
                    && table.rules@[dom[k] as int].allows(*dir, v),
        decreases dom.len() - i,
    {
        let tile_index = cell[i];
        let rule_list = table.rules[tile_index].get(*dir);

        let mut j: usize = 0;
        while j < rule_list.len()
            invariant
                table.wf(),
                cell@ == dom,
                domain_ok(dom, table.tile_count()),
                i < dom.len(),
                tile_index == dom[i as int],
                rule_list@ == table.rules@[dom[i as int] as int].allowed_seq(*dir),
                j <= rule_list@.len(),
                forall|v: usize| #[trigger] result@.contains(v)
                    <==> ((exists|k: int| 0 <= k < i
                            && table.rules@[dom[k] as int].allows(*dir, v))
                        || (exists|k: int| 0 <= k < j && rule_list@[k] == v)),
            decreases rule_list@.len() - j,
        {
            let val = rule_list[j];
            let ghost pre = result@;
            result.push(val);
            proof {
                assert forall|v: usize| #[trigger] result@.contains(v)
                    <==> ((exists|k: int| 0 <= k < i
                            && table.rules@[dom[k] as int].allows(*dir, v))
                        || (exists|k: int| 0 <= k < j + 1 && rule_list@[k] == v)) by {
                    lemma_push_contains(pre, val, v);
                    if v == val {
                        assert(rule_list@[j as int] == v);
                    }
                    if (exists|k: int| 0 <= k < j + 1 && rule_list@[k] == v) && v != val {
                        let k = choose|k: int| 0 <= k < j + 1 && rule_list@[k] == v;
                        assert(0 <= k < j);
                    }
                }
            }
            j = j + 1;
        }
        proof {
            assert forall|v: usize| #[trigger] result@.contains(v)
                <==> exists|k: int| 0 <= k < i + 1
                    && table.rules@[dom[k] as int].allows(*dir, v) by {
                if exists|k: int| 0 <= k < j && rule_list@[k] == v {
                    assert(table.rules@[dom[i as int] as int].allowed_seq(*dir).contains(v));
                    assert(table.rules@[dom[i as int] as int].allows(*dir, v));
                }
                if exists|k: int| 0 <= k < i + 1
                    && table.rules@[dom[k] as int].allows(*dir, v) {
                    let k = choose|k: int| 0 <= k < i + 1
                        && table.rules@[dom[k] as int].allows(*dir, v);
                    if k == i {
                        assert(rule_list@.contains(v));
                        let kk = choose|kk: int| 0 <= kk < rule_list@.len()
                            && rule_list@[kk] == v;
                        assert(0 <= kk < j);
                    }
                }
            }
        }
        i = i + 1;
    }
    result
}

/// Writes domain `d` into cell (x, y), leaving everything else unchanged,
/// and accounts for the change in the grid's excess.
fn set_cell(map: &mut DomainGrid, x: usize, y: usize, d: Vec<usize>)
    requires
        x < old(map)@.len(),
        y < old(map)@[x as int]@.len(),
    ensures
        final(map)@.len() == old(map)@.len(),
        forall|i: int| 0 <= i < old(map)@.len() && i != x
            ==> final(map)@[i] == old(map)@[i],
        final(map)@[x as int]@.len() == old(map)@[x as int]@.len(),
        forall|j: int| 0 <= j < old(map)@[x as int]@.len() && j != y
            ==> final(map)@[x as int]@[j] == old(map)@[x as int]@[j],
        final(map)@[x as int]@[y as int] == d,
        grid_excess(final(map)@) + cell_excess(old(map)@[x as int]@[y as int])
            == grid_excess(old(map)@) + cell_excess(d),
{
    let col = &mut map[x];
    col.set(y, d);
    proof {
        assert(map@ =~= old(map)@.update(x as int, map@[x as int]));
        assert(map@[x as int]@ =~= old(map)@[x as int]@.update(y as int, d));
        lemma_grid_excess_cell_update(old(map)@, map@, x as int, y as int);
    }
}

/// Whether every cell of the domain grid is down to at most one possibility.
pub fn grid_is_complete(map: &DomainGrid) -> (r: bool)
    ensures
        r == complete_grid(map@),
{
    let mut x: usize = 0;
    while x < map.len()
        invariant
            x <= map@.len(),
            forall|a: int, b: int| 0 <= a < x && 0 <= b < map@[a]@.len()
                ==> (#[trigger] domain_at(map@, a, b)).len() <= 1,
        decreases map@.len() - x,
    {
        let col = &map[x];
        let mut y: usize = 0;
        while y < col.len()
            invariant
                x < map@.len(),
                col == map@[x as int],
                y <= col@.len(),
                forall|a: int, b: int| 0 <= a < x && 0 <= b < map@[a]@.len()
                    ==> (#[trigger] domain_at(map@, a, b)).len() <= 1,
                forall|b: int| 0 <= b < y
                    ==> (#[trigger] domain_at(map@, x as int, b)).len() <= 1,
            decreases col@.len() - y,
        {
            if col[y].len() > 1 {
                proof {
                    assert(domain_at(map@, x as int, y as int).len() > 1);
                }
                return false;
            }
            y = y + 1;
        }
        x = x + 1;
    }
    true
}

/// Scans for the smallest domain size strictly greater than one, then picks
/// uniformly at random among the cells achieving that minimum. `None`
/// exactly when no cell has more than one possibility left.
pub fn find_lowest_non_one_pos(map: &DomainGrid, rng: &mut RngSource) -> (r: Option<(usize, usize)>)
    ensures
        r matches Some(pos) ==> {
            &&& pos.0 < map@.len()
            &&& pos.1 < map@[pos.0 as int]@.len()
            &&& domain_at(map@, pos.0 as int, pos.1 as int).len() > 1
            &&& forall|a: int, b: int|
                0 <= a < map@.len() && 0 <= b < map@[a]@.len()
                    && (#[trigger] domain_at(map@, a, b)).len() > 1
                    ==> domain_at(map@, a, b).len()
                        >= domain_at(map@, pos.0 as int, pos.1 as int).len()
        },
        r is None <==> (forall|a: int, b: int|
            0 <= a < map@.len() && 0 <= b < map@[a]@.len()
                ==> (#[trigger] domain_at(map@, a, b)).len() <= 1),
{
    let mut lowest_value: usize = 0;
    let mut found = false;
    let ghost mut bx: int = 0;
    let ghost mut by: int = 0;

    let mut x: usize = 0;
    while x < map.len()
        invariant
            x <= map@.len(),
            found ==> {
                &&& 0 <= bx < map@.len()
                &&& 0 <= by < map@[bx]@.len()
                &&& domain_at(map@, bx, by).len() == lowest_value
                &&& lowest_value > 1
            },
            forall|a: int, b: int| 0 <= a < x && 0 <= b < map@[a]@.len()
                && (#[trigger] domain_at(map@, a, b)).len() > 1
                ==> found && domain_at(map@, a, b).len() >= lowest_value,
        decreases map@.len() - x,
    {
        let col = &map[x];
        let mut y: usize = 0;
        while y < col.len()
            invariant
                x < map@.len(),
                col == map@[x as int],
                y <= col@.len(),
                found ==> {
                    &&& 0 <= bx < map@.len()
                    &&& 0 <= by < map@[bx]@.len()
                    &&& domain_at(map@, bx, by).len() == lowest_value
                    &&& lowest_value > 1
                },
                forall|a: int, b: int| 0 <= a < x && 0 <= b < map@[a]@.len()
                    && (#[trigger] domain_at(map@, a, b)).len() > 1
                    ==> found && domain_at(map@, a, b).len() >= lowest_value,
                forall|b: int| 0 <= b < y
                    && (#[trigger] domain_at(map@, x as int, b)).len() > 1
                    ==> found && domain_at(map@, x as int, b).len() >= lowest_value,
            decreases col@.len() - y,
        {
            let l = col[y].len();
            if l > 1 && (!found || l < lowest_value) {
                lowest_value = l;
                found = true;
                proof {
                    bx = x as int;
                    by = y as int;
                }
            }
            y = y + 1;
        }
        x = x + 1;
    }

    if !found {
        return None;
    }

    let mut lowest_positions: Vec<(usize, usize)> = Vec::new();
    let mut x2: usize = 0;
    while x2 < map.len()
        invariant
            x2 <= map@.len(),
            0 <= bx < map@.len(),
            0 <= by < map@[bx]@.len(),
            domain_at(map@, bx, by).len() == lowest_value,
            lowest_value > 1,
            forall|k: int| 0 <= k < lowest_positions@.len() ==> {
                &&& (#[trigger] lowest_positions@[k]).0 < map@.len()
                &&& lowest_positions@[k].1 < map@[lowest_positions@[k].0 as int]@.len()
                &&& domain_at(map@, lowest_positions@[k].0 as int,
                        lowest_positions@[k].1 as int).len() == lowest_value
            },
            bx < x2 ==> lowest_positions@.len() >= 1,
        decreases map@.len() - x2,
    {
        let col = &map[x2];
        let mut y2: usize = 0;
        while y2 < col.len()
            invariant
                x2 < map@.len(),
                col == map@[x2 as int],
                y2 <= col@.len(),
                0 <= bx < map@.len(),
                0 <= by < map@[bx]@.len(),
                domain_at(map@, bx, by).len() == lowest_value,
                lowest_value > 1,
                forall|k: int| 0 <= k < lowest_positions@.len() ==> {
                    &&& (#[trigger] lowest_positions@[k]).0 < map@.len()
                    &&& lowest_positions@[k].1 < map@[lowest_positions@[k].0 as int]@.len()
                    &&& domain_at(map@, lowest_positions@[k].0 as int,
                            lowest_positions@[k].1 as int).len() == lowest_value
                },
                bx < x2 || (bx == x2 && by < y2) ==> lowest_positions@.len() >= 1,
            decreases col@.len() - y2,
        {
            if col[y2].len() == lowest_value {
                lowest_positions.push((x2, y2));
            }
            y2 = y2 + 1;
        }
        x2 = x2 + 1;
    }

    let idx = rng.pick(lowest_positions.len());
    let pos = lowest_positions[idx];
    Some(pos)
}

/// One column of a fresh domain grid: `h` copies of the full domain
/// `{0, .., ntiles - 1}`.
fn make_full_column(h: usize, ntiles: usize) -> (col: Vec<Vec<usize>>)
    requires
        ntiles >= 1,
    ensures
        col@.len() == h,
        forall|j: int| 0 <= j < h ==> (#[trigger] col@[j])@.len() == ntiles,
        forall|j: int, k: int| 0 <= j < h && 0 <= k < ntiles
            ==> (#[trigger] col@[j]@[k]) == k,
{
    let mut col: Vec<Vec<usize>> = Vec::new();
    let mut j: usize = 0;
    while j < h
        invariant
            j <= h,
            col@.len() == j,
            forall|jj: int| 0 <= jj < j ==> (#[trigger] col@[jj])@.len() == ntiles,
            forall|jj: int, k: int| 0 <= jj < j && 0 <= k < ntiles
                ==> (#[trigger] col@[jj]@[k]) == k,
        decreases h - j,
    {
        let mut d: Vec<usize> = Vec::new();
        let mut k: usize = 0;
        while k < ntiles
            invariant
                k <= ntiles,
                d@.len() == k,
                forall|kk: int| 0 <= kk < k ==> (#[trigger] d@[kk]) == kk,
            decreases ntiles - k,
        {
            d.push(k);
            k = k + 1;
        }
        col.push(d);
        j = j + 1;
    }
    col
}

/// A fresh `w x h` domain grid in which every cell still allows every tile.
fn init_grid(w: usize, h: usize, ntiles: usize) -> (m: DomainGrid)
    requires
        ntiles >= 1,
    ensures
        domains_wf(m@, w as int, h as int, ntiles as int),
        forall|x: int, y: int| 0 <= x < w && 0 <= y < h
            ==> (#[trigger] domain_at(m@, x, y)).len() == ntiles,
{
    let mut m: DomainGrid = Vec::new();
    let mut x: usize = 0;
    while x < w
        invariant
            ntiles >= 1,
            x <= w,
            m@.len() == x,
            forall|i: int| 0 <= i < x ==> (#[trigger] m@[i])@.len() == h,
            forall|i: int, j: int| 0 <= i < x && 0 <= j < h
                ==> (#[trigger] domain_at(m@, i, j)).len() == ntiles,
            forall|i: int, j: int, k: int| 0 <= i < x && 0 <= j < h && 0 <= k < ntiles
                ==> (#[trigger] domain_at(m@, i, j)[k]) == k,
        decreases w - x,
    {
        let col = make_full_column(h, ntiles);
        let ghost pre = m@;
        m.push(col);
        proof {
            assert forall|i: int, j: int| 0 <= i < x + 1 && 0 <= j < h
                implies (#[trigger] domain_at(m@, i, j)).len() == ntiles by {
                if i < x {
                    assert(m@[i] == pre[i]);
                    assert(domain_at(pre, i, j).len() == ntiles);
                } else {
                    assert(m@[i] == col);
                    assert(col@[j]@.len() == ntiles);
                }
            }
            assert forall|i: int, j: int, k: int| 0 <= i < x + 1 && 0 <= j < h && 0 <= k < ntiles
                implies (#[trigger] domain_at(m@, i, j)[k]) == k by {
                if i < x {
                    assert(m@[i] == pre[i]);
                    assert(domain_at(pre, i, j)[k] == k);
                } else {
                    assert(m@[i] == col);
                    assert(col@[j]@[k] == k);
                }
            }
        }
        x = x + 1;
    }
    proof {
        assert forall|x2: int, y2: int| 0 <= x2 < w && 0 <= y2 < h
            implies domain_ok(#[trigger] domain_at(m@, x2, y2), ntiles as int) by {
            assert(domain_at(m@, x2, y2).len() == ntiles);
        }
    }
    m
}

/// Filters the neighbour of `current` one step in `dir` against what the
/// current cell's domain permits there; re-queues the neighbour when its
/// domain shrank, or reports the contradiction when it would become empty.
fn propagate_one(
    table: &AdjacencyTable,
    map: &mut DomainGrid,
    queue: &mut VecDeque<(usize, usize)>,
    current: (usize, usize),
    dir: Direction,
    nx: usize,
    ny: usize,
    Ghost(w): Ghost<int>,
    Ghost(h): Ghost<int>,
) -> (r: Result<bool, Contradiction>)
    requires
        table.wf(),
        table.tiles@.len() >= 1,
        domains_wf(old(map)@, w, h, table.tile_count()),
        current.0 < w,
        current.1 < h,
        nx < w,
        ny < h,
        forall|qi: int| 0 <= qi < old(queue)@.len()
            ==> (#[trigger] old(queue)@[qi]).0 < w && old(queue)@[qi].1 < h,
    ensures
        r matches Ok(changed) ==> {
            &&& domains_wf(final(map)@, w, h, table.tile_count())
            &&& forall|qi: int| 0 <= qi < final(queue)@.len()
                ==> (#[trigger] final(queue)@[qi]).0 < w && final(queue)@[qi].1 < h
            &&& (changed ==> grid_excess(final(map)@) < grid_excess(old(map)@))
            &&& (!changed ==> final(map)@ == old(map)@ && final(queue)@ == old(queue)@)
        },
        r matches Err(c) ==> c.at.0 < w && c.at.1 < h,
        single_tile_closed(*table) ==> r is Ok,
{
    let allowed = allowed_neighbours(table, map, current, &dir);
    let needs = {
        let neighbour = &map[nx][ny];
        needs_filtering(neighbour, &allowed)
    };
    if needs {
        let filtered = {
            let neighbour = &map[nx][ny];
            filter_domain(neighbour, &allowed)
        };
        if filtered.len() == 0 {
            proof {
                if single_tile_closed(*table) {
                    // with one self-tolerant tile nothing is ever filtered
                    // out: index 0 is in every domain and every permitted set
                    let dom = domain_at(map@, nx as int, ny as int);
                    assert(domain_ok(dom, table.tile_count()));
                    assert(dom[0] == 0usize);
                    assert(dom.contains(0usize));
                    let cdom = domain_at(map@, current.0 as int, current.1 as int);
                    assert(domain_ok(cdom, table.tile_count()));
                    assert(cdom[0] == 0usize);
                    assert(table.rules@[cdom[0] as int].allows(dir, 0usize));
                    assert(allowed@.contains(0usize));
                    assert(filtered@.contains(0usize));
                    assert(false);
                }
            }
            return Err(Contradiction { at: (nx, ny) });
        }
        proof {
            // every surviving index came from the old domain, so it is a
            // valid tile index
            assert forall|k: int| 0 <= k < filtered@.len()
                implies (#[trigger] filtered@[k]) < table.tile_count() by {
                assert(filtered@.contains(filtered@[k]));
                let v = filtered@[k];
                assert(domain_at(map@, nx as int, ny as int).contains(v));
                let kk = choose|kk: int| 0 <= kk < domain_at(map@, nx as int, ny as int).len()
                    && domain_at(map@, nx as int, ny as int)[kk] == v;
                assert(domain_ok(domain_at(map@, nx as int, ny as int), table.tile_count()));
            }
            assert(filtered@.len() < domain_at(map@, nx as int, ny as int).len());
            assert(domain_ok(filtered@, table.tile_count()));
        }
        let ghost pre = map@;
        set_cell(map, nx, ny, filtered);
        queue.push_back((nx, ny));
        proof {
            assert(cell_excess(map@[nx as int]@[ny as int]) < cell_excess(pre[nx as int]@[ny as int]));
            assert(grid_excess(map@) < grid_excess(pre));
            assert forall|x2: int, y2: int| 0 <= x2 < w && 0 <= y2 < h
                implies domain_ok(#[trigger] domain_at(map@, x2, y2), table.tile_count()) by {
                if x2 == nx && y2 == ny {
                    assert(map@[x2]@[y2] == filtered);
                    assert(domain_at(map@, x2, y2) == filtered@);
                    assert(domain_ok(filtered@, table.tile_count()));
                } else {
                    if x2 != nx {
                        assert(map@[x2] == pre[x2]);
                    } else {
                        assert(map@[x2]@[y2] == pre[x2]@[y2]);
                    }
                    assert(domain_at(map@, x2, y2) == domain_at(pre, x2, y2));
                    assert(domain_ok(domain_at(pre, x2, y2), table.tile_count()));
                }
            }
        }
        Ok(true)
    } else {
        Ok(false)
    }
}

/// Checks the finished grid cell by cell: every resolved tile must tolerate
/// its right and lower neighbour under the adjacency rules. Returns the
/// first offending coordinate, or `None` when the grid is fully consistent.
fn check_grid_consistency(table: &AdjacencyTable, map: &DomainGrid, w: usize, h: usize)
    -> (r: Option<(usize, usize)>)
    requires
        table.wf(),
        domains_wf(map@, w as int, h as int, table.tile_count()),
        forall|x: int, y: int| 0 <= x < w && 0 <= y < h
            ==> (#[trigger] domain_at(map@, x, y)).len() == 1,
    ensures
        r is None <==> consistent(*table, map@, w as int, h as int),
        r matches Some(c) ==> c.0 < w && c.1 < h,
{
    let mut x: usize = 0;
    while x < w
        invariant
            table.wf(),
            domains_wf(map@, w as int, h as int, table.tile_count()),
            forall|a: int, b: int| 0 <= a < w && 0 <= b < h
                ==> (#[trigger] domain_at(map@, a, b)).len() == 1,
            x <= w,
            forall|a: int, b: int| 0 <= a < x && 0 <= b < h
                ==> #[trigger] cell_consistent(*table, map@, w as int, h as int, a, b),
        decreases w - x,
    {
        let mut y: usize = 0;
        while y < h
            invariant
                table.wf(),
                domains_wf(map@, w as int, h as int, table.tile_count()),
                forall|a: int, b: int| 0 <= a < w && 0 <= b < h
                    ==> (#[trigger] domain_at(map@, a, b)).len() == 1,
                x < w,
                y <= h,
                forall|a: int, b: int| 0 <= a < x && 0 <= b < h
                    ==> #[trigger] cell_consistent(*table, map@, w as int, h as int, a, b),
                forall|b: int| 0 <= b < y
                    ==> #[trigger] cell_consistent(*table, map@, w as int, h as int, x as int, b),
            decreases h - y,
        {
            proof {
                assert(domain_at(map@, x as int, y as int).len() == 1);
                assert(domain_ok(domain_at(map@, x as int, y as int), table.tile_count()));
            }
            let t1 = map[x][y][0];
            if x + 1 < w {
                proof {
                    assert(domain_at(map@, x as int + 1, y as int).len() == 1);
                }
                let t2 = map[x + 1][y][0];
                let rl = table.rules[t1].get(Direction::Right);
                if !vec_contains(rl, t2) {
                    proof {
                        assert(!cell_consistent(*table, map@, w as int, h as int, x as int, y as int));
                    }
                    return Some((x, y));
                }
            }
            if y + 1 < h {
                proof {
                    assert(domain_at(map@, x as int, y as int + 1).len() == 1);
                }
                let t3 = map[x][y + 1][0];
                let rl = table.rules[t1].get(Direction::Down);
                if !vec_contains(rl, t3) {
                    proof {
                        assert(!cell_consistent(*table, map@, w as int, h as int, x as int, y as int));
                    }
                    return Some((x, y));
                }
            }
            proof {
                assert(cell_consistent(*table, map@, w as int, h as int, x as int, y as int));
            }
            y = y + 1;
        }
        x = x + 1;
    }
    None
}

/// Runs one whole generation: seed a random cell with a random tile,
/// propagate until the queue drains, re-seed the most constrained cell while
/// any remains unresolved, and finally check the resolved grid against the
/// rules. On success every cell holds exactly one valid tile index and all
/// adjacent pairs are rule-consistent.
fn run_engine(table: &AdjacencyTable, output_size: (usize, usize), rng: &mut RngSource)
    -> (r: Result<DomainGrid, Contradiction>)
    requires
        table.wf(),
        table.tiles@.len() >= 1,
        output_size.0 >= 1,
        output_size.1 >= 1,
    ensures
        r matches Ok(m) ==> {
            &&& domains_wf(m@, output_size.0 as int, output_size.1 as int, table.tile_count())
            &&& forall|x: int, y: int| 0 <= x < output_size.0 && 0 <= y < output_size.1
                ==> (#[trigger] domain_at(m@, x, y)).len() == 1
            &&& consistent(*table, m@, output_size.0 as int, output_size.1 as int)
        },
        r matches Err(c) ==> c.at.0 < output_size.0 && c.at.1 < output_size.1,
        single_tile_closed(*table) ==> r is Ok,
{
    let w = output_size.0;
    let h = output_size.1;
    let ntiles = table.tiles.len();

    let mut map = init_grid(w, h, ntiles);

    let start_x = rng.pick(w);
    let start_y = rng.pick(h);
    let first_tile = rng.pick(ntiles);
    let mut seed_domain: Vec<usize> = Vec::new();
    seed_domain.push(first_tile);
    let ghost pre_seed = map@;
    set_cell(&mut map, start_x, start_y, seed_domain);
    proof {
        assert forall|x2: int, y2: int| 0 <= x2 < w && 0 <= y2 < h
            implies domain_ok(#[trigger] domain_at(map@, x2, y2), ntiles as int) by {
            if x2 == start_x && y2 == start_y {
                assert(domain_at(map@, x2, y2).len() == 1);
                assert(domain_at(map@, x2, y2)[0] == first_tile);
            } else {
                if x2 != start_x {
                    assert(map@[x2] == pre_seed[x2]);
                } else {
                    assert(map@[x2]@[y2] == pre_seed[x2]@[y2]);
                }
                assert(domain_at(map@, x2, y2) == domain_at(pre_seed, x2, y2));
                assert(domain_ok(domain_at(pre_seed, x2, y2), ntiles as int));
            }
        }
    }

    let mut queue: VecDeque<(usize, usize)> = VecDeque::new();
    queue.push_back((start_x, start_y));

    loop
        invariant
            table.wf(),
            ntiles == table.tiles@.len(),
            ntiles >= 1,
            w == output_size.0,
            h == output_size.1,
            w >= 1,
            h >= 1,
            domains_wf(map@, w as int, h as int, ntiles as int),
            forall|qi: int| 0 <= qi < queue@.len()
                ==> (#[trigger] queue@[qi]).0 < w && queue@[qi].1 < h,
        ensures
            domains_wf(map@, w as int, h as int, ntiles as int),
            complete_grid(map@),
        decreases grid_excess(map@), queue@.len(),
    {
        let done = grid_is_complete(&map);
        if done {
            break;
        }

        if queue.len() > 0 {
            let current = match queue.pop_front() {
                Some(c) => c,
                None => unreached(),
            };
            let cx = current.0;
            let cy = current.1;

            let ghost entry_map = map@;
            let ghost entry_qlen = queue@.len();
            let mut changed = false;

            // Left neighbour
            if cx > 0 {
                match propagate_one(table, &mut map, &mut queue, current, Direction::Left,
                    cx - 1, cy, Ghost(w as int), Ghost(h as int)) {
                    Ok(c) => { changed = changed || c; },
                    Err(e) => { return Err(e); },
                }
            }
            // Up neighbour
            if cy > 0 {
                match propagate_one(table, &mut map, &mut queue, current, Direction::Up,
                    cx, cy - 1, Ghost(w as int), Ghost(h as int)) {
                    Ok(c) => { changed = changed || c; },
                    Err(e) => { return Err(e); },
                }
            }
            // Down neighbour
            if cy + 1 < h {
                match propagate_one(table, &mut map, &mut queue, current, Direction::Down,
                    cx, cy + 1, Ghost(w as int), Ghost(h as int)) {
                    Ok(c) => { changed = changed || c; },
                    Err(e) => { return Err(e); },
                }
            }
            // Right neighbour
            if cx + 1 < w {
                match propagate_one(table, &mut map, &mut queue, current, Direction::Right,
                    cx + 1, cy, Ghost(w as int), Ghost(h as int)) {
                    Ok(c) => { changed = changed || c; },
                    Err(e) => { return Err(e); },
                }
            }

            proof {
                if !changed {
                    assert(map@ == entry_map);
                    assert(queue@.len() == entry_qlen);
                } else {
                    assert(grid_excess(map@) < grid_excess(entry_map));
                }
            }
        } else {
            match find_lowest_non_one_pos(&map, rng) {
                Some(pos) => {
                    let cell_len = {
                        let cell = &map[pos.0][pos.1];
                        cell.len()
                    };
                    let idx = rng.pick(cell_len);
                    let chosen = map[pos.0][pos.1][idx];
                    let mut d: Vec<usize> = Vec::new();
                    d.push(chosen);
                    proof {
                        assert(domain_at(map@, pos.0 as int, pos.1 as int).len() > 1);
                        assert(domain_ok(domain_at(map@, pos.0 as int, pos.1 as int), ntiles as int));
                        assert(chosen < ntiles);
                    }
                    let ghost pre = map@;
                    set_cell(&mut map, pos.0, pos.1, d);
                    queue.push_back(pos);
                    proof {
                        assert(cell_excess(map@[pos.0 as int]@[pos.1 as int])
                            < cell_excess(pre[pos.0 as int]@[pos.1 as int]));
                        assert(grid_excess(map@) < grid_excess(pre));
                        assert forall|x2: int, y2: int| 0 <= x2 < w && 0 <= y2 < h
                            implies domain_ok(#[trigger] domain_at(map@, x2, y2), ntiles as int) by {
                            if x2 == pos.0 && y2 == pos.1 {
                                assert(map@[x2]@[y2] == d);
                                assert(domain_at(map@, x2, y2).len() == 1);
                                assert(domain_at(map@, x2, y2)[0] == chosen);
                            } else {
                                if x2 != pos.0 {
                                    assert(map@[x2] == pre[x2]);
                                } else {
                                    assert(map@[x2]@[y2] == pre[x2]@[y2]);
                                }
                                assert(domain_at(map@, x2, y2) == domain_at(pre, x2, y2));
                                assert(domain_ok(domain_at(pre, x2, y2), ntiles as int));
                            }
                        }
                    }
                },
                None => {
                    proof {
                        assert forall|a: int, b: int|
                            0 <= a < map@.len() && 0 <= b < map@[a]@.len()
                                implies (#[trigger] domain_at(map@, a, b)).len() <= 1 by {
                        }
                        assert(complete_grid(map@));
                        assert(false);
                    }
                },
            }
        }
    }

    proof {
        assert forall|x: int, y: int| 0 <= x < w && 0 <= y < h
            implies (#[trigger] domain_at(map@, x, y)).len() == 1 by {
            assert(domain_ok(domain_at(map@, x, y), ntiles as int));
        }
    }

    match check_grid_consistency(table, &map, w, h) {
        Some(c) => {
            proof {
                if single_tile_closed(*table) {
                    // every resolved cell holds tile 0 and tile 0 tolerates
                    // itself, so the scan cannot have found a violation
                    assert forall|x: int, y: int| 0 <= x < w && 0 <= y < h
                        implies #[trigger] cell_consistent(*table, map@, w as int, h as int,
                            x, y) by {
                        assert(domain_ok(domain_at(map@, x, y), table.tile_count()));
                        assert(domain_at(map@, x, y)[0] == 0usize);
                        if x + 1 < w {
                            assert(domain_ok(domain_at(map@, x + 1, y), table.tile_count()));
                            assert(domain_at(map@, x + 1, y)[0] == 0usize);
                            assert(table.rules@[0].allows(Direction::Right, 0usize));
                        }
                        if y + 1 < h {
                            assert(domain_ok(domain_at(map@, x, y + 1), table.tile_count()));
                            assert(domain_at(map@, x, y + 1)[0] == 0usize);
                            assert(table.rules@[0].allows(Direction::Down, 0usize));
                        }
                    }
                    assert(consistent(*table, map@, w as int, h as int));
                    assert(false);
                }
            }
            Err(Contradiction { at: c })
        },
        None => Ok(map),
    }
}

/// Decodes a fully resolved domain grid into display values: each cell's
/// single tile index is mapped to that tile's recorded centre value.
fn decode_output(table: &AdjacencyTable, map: &DomainGrid, w: usize, h: usize)
    -> (out: Vec<Vec<u8>>)
    requires
        table.wf(),
        domains_wf(map@, w as int, h as int, table.tile_count()),
        forall|x: int, y: int| 0 <= x < w && 0 <= y < h
            ==> (#[trigger] domain_at(map@, x, y)).len() == 1,
    ensures
        out@.len() == w,
        forall|x: int| 0 <= x < w ==> (#[trigger] out@[x])@.len() == h,
        forall|x: int, y: int| 0 <= x < w && 0 <= y < h
            ==> #[trigger] out@[x]@[y]
                == table.index_character_map@[domain_at(map@, x, y)[0] as int],
{
    let mut out: Vec<Vec<u8>> = Vec::new();
    let mut x: usize = 0;
    while x < w
        invariant
            table.wf(),
            domains_wf(map@, w as int, h as int, table.tile_count()),
            forall|a: int, b: int| 0 <= a < w && 0 <= b < h
                ==> (#[trigger] domain_at(map@, a, b)).len() == 1,
            x <= w,
            out@.len() == x,
            forall|a: int| 0 <= a < x ==> (#[trigger] out@[a])@.len() == h,
            forall|a: int, b: int| 0 <= a < x && 0 <= b < h
                ==> #[trigger] out@[a]@[b]
                    == table.index_character_map@[domain_at(map@, a, b)[0] as int],
        decreases w - x,
    {
        let mut col: Vec<u8> = Vec::new();
        let mut y: usize = 0;
        while y < h
            invariant
                table.wf(),
                domains_wf(map@, w as int, h as int, table.tile_count()),
                forall|a: int, b: int| 0 <= a < w && 0 <= b < h
                    ==> (#[trigger] domain_at(map@, a, b)).len() == 1,
                x < w,
                y <= h,
                col@.len() == y,
                forall|b: int| 0 <= b < y
                    ==> #[trigger] col@[b]
                        == table.index_character_map@[domain_at(map@, x as int, b)[0] as int],
            decreases h - y,
        {
            proof {
                assert(domain_at(map@, x as int, y as int).len() == 1);
                assert(domain_ok(domain_at(map@, x as int, y as int), table.tile_count()));
            }
            let tile_index = map[x][y][0];
            col.push(table.index_character_map[tile_index]);
            y = y + 1;
        }
        out.push(col);
        x = x + 1;
    }
    out
}

/// Synthesizes an output grid from a built adjacency table: runs the
/// collapse engine and decodes the resolved grid. On success the output is
/// the decoding of a complete, rule-consistent assignment of tiles; on
/// contradiction the offending coordinate is reported.
pub fn collapse(table: &AdjacencyTable, output_size: (usize, usize), rng: &mut RngSource)
    -> (r: Result<Vec<Vec<u8>>, Contradiction>)
    requires
        table.wf(),
        table.tiles@.len() >= 1,
        output_size.0 >= 1,
        output_size.1 >= 1,
    ensures
        r matches Ok(out) ==> exists|m: Seq<Vec<Vec<usize>>>| {
            &&& #[trigger] domains_wf(m, output_size.0 as int, output_size.1 as int,
                    table.tile_count())
            &&& forall|x: int, y: int| 0 <= x < output_size.0 && 0 <= y < output_size.1
                ==> (#[trigger] domain_at(m, x, y)).len() == 1
            &&& consistent(*table, m, output_size.0 as int, output_size.1 as int)
            &&& out@.len() == output_size.0
            &&& forall|x: int| 0 <= x < output_size.0
                ==> (#[trigger] out@[x])@.len() == output_size.1
            &&& forall|x: int, y: int| 0 <= x < output_size.0 && 0 <= y < output_size.1
                ==> #[trigger] out@[x]@[y]
                    == table.index_character_map@[domain_at(m, x, y)[0] as int]
        },
        r matches Err(c) ==> c.at.0 < output_size.0 && c.at.1 < output_size.1,
        single_tile_closed(*table) ==> r is Ok,
{
    match run_engine(table, output_size, rng) {
        Ok(map) => {
            let out = decode_output(table, &map, output_size.0, output_size.1);
            proof {
                assert(domains_wf(map@, output_size.0 as int, output_size.1 as int,
                    table.tile_count()));
            }
            Ok(out)
        },
        Err(c) => Err(c),
    }
}

/// Every cell of the sample holds the one value `v`.
pub open spec fn uniform_sample(s: Seq<Vec<u8>>, v: u8) -> bool {
    forall|x: int, y: int| 0 <= x < s.len() && 0 <= y < s[x]@.len()
        ==> #[trigger] s[x]@[y] == v
}

/// A table built from a uniform sample holds exactly one tile, and that tile
/// tolerates itself in every direction - the shape of table on which a
/// collapse is guaranteed to succeed. The hypotheses are exactly what
/// `build_rules` ensures of its result.
pub proof fn lemma_uniform_sample_single_tile(t: AdjacencyTable, s: Seq<Vec<u8>>, v: u8)
    requires
        crate::adjacency::square(s),
        s.len() >= 3,
        uniform_sample(s, v),
        t.wf(),
        crate::adjacency::distinct_tiles(t.tiles@),
        crate::adjacency::covers_sample(t.tiles@, s),
        forall|k: int| 0 <= k < t.tiles@.len()
            ==> crate::adjacency::tile_from_sample(#[trigger] t.tiles@[k], s),
    ensures
        t.tiles@.len() == 1,
        single_tile_closed(t),
{
    // every extracted tile reads only sample cells, so it is uniform too
    assert forall|k: int, x: int, y: int|
        0 <= k < t.tiles@.len() && 0 <= x < 3 && 0 <= y < 3
            implies #[trigger] crate::tiles::tile_at(t.tiles@[k], x, y) == v by {
        assert(crate::adjacency::tile_from_sample(t.tiles@[k], s));
        let (cx, cy, vv) = choose|cx: int, cy: int, vv: int|
            crate::adjacency::interior(s, cx, cy) && 0 <= vv < 4
                && crate::adjacency::sample_reads(t.tiles@[k], s, cx, cy, vv);
        let px = crate::tiles::variant_source(vv, x, y).0;
        let py = crate::tiles::variant_source(vv, x, y).1;
        assert(0 <= px < 3 && 0 <= py < 3);
        assert(crate::tiles::tile_at(t.tiles@[k], x, y) == s[cx + px - 1]@[cy + py - 1]);
        assert(0 <= cx + px - 1 < s.len());
        assert(s[cx + px - 1]@.len() == s.len());
        assert(0 <= cy + py - 1 < s[cx + px - 1]@.len());
    }

    // a uniform sample has an interior cell, so at least one tile came out
    assert(crate::adjacency::interior(s, 1, 1));
    assert(crate::adjacency::covered(t.tiles@, s, 1, 1, 0));
    assert(t.tiles@.len() >= 1);

    // any two tiles would be structurally identical, so there is only one
    if t.tiles@.len() >= 2 {
        assert(crate::tiles::tile_eq(t.tiles@[0], t.tiles@[1]));
        assert(false);
    }

    // the one tile's strips all read `v`, so it tolerates itself everywhere
    assert forall|d: Direction| t.rules@[0].allows(d, 0usize) by {
        crate::tiles::lemma_compat_cells(t.tiles@[0], t.tiles@[0], d);
        assert(crate::tiles::compat(t.tiles@[0], t.tiles@[0], d));
    }
}

/// LOCAL CONSISTENCY, remaining directions: in a consistent resolved grid
/// each cell also tolerates its left and upper neighbour, because the rules
/// of a well-formed table are symmetric across opposite directions.
pub proof fn lemma_consistent_all_directions(t: AdjacencyTable, m: Seq<Vec<Vec<usize>>>,
    w: int, h: int, x: int, y: int)
    requires
        t.wf(),
        domains_wf(m, w, h, t.tile_count()),
        forall|a: int, b: int| 0 <= a < w && 0 <= b < h
            ==> (#[trigger] domain_at(m, a, b)).len() == 1,
        consistent(t, m, w, h),
        0 <= x < w,
        0 <= y < h,
    ensures
        x >= 1 ==> t.rules@[domain_at(m, x, y)[0] as int]
            .allows(Direction::Left, domain_at(m, x - 1, y)[0]),
        y >= 1 ==> t.rules@[domain_at(m, x, y)[0] as int]
            .allows(Direction::Up, domain_at(m, x, y - 1)[0]),
{
    if x >= 1 {
        assert(cell_consistent(t, m, w, h, x - 1, y));
        assert(domain_ok(domain_at(m, x - 1, y), t.tile_count()));
        assert(domain_ok(domain_at(m, x, y), t.tile_count()));
        crate::adjacency::lemma_adjacency_symmetry(t, domain_at(m, x - 1, y)[0],
            domain_at(m, x, y)[0], Direction::Right);
    }
    if y >= 1 {
        assert(cell_consistent(t, m, w, h, x, y - 1));
        assert(domain_ok(domain_at(m, x, y - 1), t.tile_count()));
        assert(domain_ok(domain_at(m, x, y), t.tile_count()));
        crate::adjacency::lemma_adjacency_symmetry(t, domain_at(m, x, y - 1)[0],
            domain_at(m, x, y)[0], Direction::Down);
    }
}

/// The stateful driver: builds the adjacency table from a sample, runs the
/// collapse over a domain grid of the requested size, and decodes the result.
#[derive(Debug)]
pub struct WaveFormCollapser {
    pub table: Option<AdjacencyTable>,
    pub in_progress_map: DomainGrid,
    pub output: Vec<Vec<u8>>,
    pub dimensions: (usize, usize),
}

impl WaveFormCollapser {
    /// The rules have been built and describe at least one tile.
    pub open spec fn rules_ready(self) -> bool {
        self.table matches Some(t) && t.wf() && t.tiles@.len() >= 1
    }

    /// The recorded number of tiles.
    pub open spec fn spec_tile_count(self) -> int {
        self.table->Some_0.tile_count()
    }

    /// The domain grid matches the recorded dimensions and is fully resolved.
    pub open spec fn resolved(self) -> bool {
        &&& domains_wf(self.in_progress_map@, self.dimensions.0 as int,
                self.dimensions.1 as int, self.spec_tile_count())
        &&& forall|x: int, y: int| 0 <= x < self.dimensions.0 && 0 <= y < self.dimensions.1
            ==> (#[trigger] domain_at(self.in_progress_map@, x, y)).len() == 1
    }

    pub fn new() -> (r: WaveFormCollapser)
        ensures
            r.table is None,
            r.in_progress_map@.len() == 0,
            r.output@.len() == 0,
            r.dimensions == (0usize, 0usize),
    {
        WaveFormCollapser {
            table: None,
            in_progress_map: Vec::new(),
            output: Vec::new(),
            dimensions: (0, 0),
        }
    }

    /// Builds and stores the adjacency rules for a square 3x3-tile sample;
    /// fails, leaving the state unchanged, exactly when the sample has no
    /// interior cell.
    pub fn pre_wfc_3x3(&mut self, input: &Vec<Vec<u8>>) -> (r: Result<(), ConfigurationError>)
        requires
            crate::adjacency::square(input@),
        ensures
            r is Ok <==> input@.len() >= 3,
            r is Ok ==> {
                &&& final(self).rules_ready()
                &&& crate::adjacency::distinct_tiles(final(self).table->Some_0.tiles@)
                &&& crate::adjacency::covers_sample(final(self).table->Some_0.tiles@, input@)
                &&& forall|k: int| 0 <= k < final(self).table->Some_0.tiles@.len()
                    ==> crate::adjacency::tile_from_sample(
                        #[trigger] final(self).table->Some_0.tiles@[k], input@)
            },
            r is Err ==> *final(self) == *old(self),
            final(self).in_progress_map == old(self).in_progress_map,
            final(self).output == old(self).output,
            final(self).dimensions == old(self).dimensions,
    {
        match crate::adjacency::build_rules(input) {
            Ok(t) => {
                self.table = Some(t);
                Ok(())
            },
            Err(e) => Err(e),
        }
    }

    /// Runs the collapse over a fresh `output_size` domain grid. On success
    /// the stored grid is complete (every cell exactly one tile index) and
    /// locally consistent with the stored rules; on contradiction the state
    /// of the grid is unspecified and the offending coordinate is returned.
    pub fn wfc_core(&mut self, output_size: (usize, usize), rng: &mut RngSource)
        -> (r: Result<(), Contradiction>)
        requires
            old(self).rules_ready(),
            output_size.0 >= 1,
            output_size.1 >= 1,
        ensures
            final(self).table == old(self).table,
            final(self).output == old(self).output,
            r is Ok ==> {
                &&& final(self).dimensions == output_size
                &&& final(self).resolved()
                &&& consistent(final(self).table->Some_0, final(self).in_progress_map@,
                        output_size.0 as int, output_size.1 as int)
            },
            r matches Err(c) ==> {
                &&& c.at.0 < output_size.0
                &&& c.at.1 < output_size.1
                &&& final(self).in_progress_map == old(self).in_progress_map
                &&& final(self).dimensions == old(self).dimensions
            },
            single_tile_closed(old(self).table->Some_0) ==> r is Ok,
    {
        let result = match &self.table {
            Some(t) => run_engine(t, output_size, rng),
            None => unreached(),
        };
        match result {
            Ok(m) => {
                self.in_progress_map = m;
                self.dimensions = output_size;
                Ok(())
            },
            Err(c) => Err(c),
        }
    }

    /// Decodes the resolved domain grid into the output buffer: pure lookup
    /// of each cell's single tile index in the display-value map.
    pub fn post_wfc(&mut self)
        requires
            old(self).rules_ready(),
            old(self).resolved(),
        ensures
            final(self).table == old(self).table,
            final(self).in_progress_map == old(self).in_progress_map,
            final(self).dimensions == old(self).dimensions,
            final(self).output@.len() == old(self).dimensions.0,
            forall|x: int| 0 <= x < old(self).dimensions.0
                ==> (#[trigger] final(self).output@[x])@.len() == old(self).dimensions.1,
            forall|x: int, y: int|
                0 <= x < old(self).dimensions.0 && 0 <= y < old(self).dimensions.1
                    ==> #[trigger] final(self).output@[x]@[y]
                        == old(self).table->Some_0.index_character_map@[
                            domain_at(old(self).in_progress_map@, x, y)[0] as int],
    {
        let w = self.dimensions.0;
        let h = self.dimensions.1;
        let out = match &self.table {
            Some(t) => decode_output(t, &self.in_progress_map, w, h),
            None => unreached(),
        };
        self.output = out;
    }

    /// Whether every cell of the domain grid is down to at most one tile.
    pub fn is_complete(&self) -> (r: bool)
        ensures
            r == complete_grid(self.in_progress_map@),
    {
        grid_is_complete(&self.in_progress_map)
    }
}

} // verus!
