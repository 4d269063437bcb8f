use vstd::prelude::*;
use crate::components::Direction;
use crate::components::opposite;
use crate::tiles::Tile;
use crate::tiles::tile_at;
use crate::tiles::tile_eq;
use crate::tiles::compat;
use crate::tiles::compatible;
use crate::tiles::tiles_match;
use crate::tiles::get_reflections;
use crate::tiles::is_variant_of;
use crate::tiles::variant_source;
use crate::tiles::lemma_compat_symmetry;

verus! {

/// A square sample grid: every column has as many rows as there are columns.
pub open spec fn square(s: Seq<Vec<u8>>) -> bool {
    forall|x: int| 0 <= x < s.len() ==> (#[trigger] s[x])@.len() == s.len()
}

/// (cx, cy) is an interior cell of the sample: a full 3x3 neighbourhood
/// around it stays in bounds.
pub open spec fn interior(s: Seq<Vec<u8>>, cx: int, cy: int) -> bool {
    1 <= cx < s.len() - 1 && 1 <= cy < s.len() - 1
}

/// Tile `t` is symmetry variant `v` of the 3x3 neighbourhood of `s`
/// centred at (cx, cy).
pub open spec fn sample_reads(t: Tile, s: Seq<Vec<u8>>, cx: int, cy: int, v: int) -> bool {
    forall|x: int, y: int| 0 <= x < 3 && 0 <= y < 3
        ==> #[trigger] tile_at(t, x, y)
            == s[cx + variant_source(v, x, y).0 - 1]@[cy + variant_source(v, x, y).1 - 1]
}

/// Tile `t` arises from the sample: it is some symmetry variant of some
/// interior neighbourhood.
pub open spec fn tile_from_sample(t: Tile, s: Seq<Vec<u8>>) -> bool {
    exists|cx: int, cy: int, v: int|
        interior(s, cx, cy) && 0 <= v < 4 && sample_reads(t, s, cx, cy, v)
}

/// No two distinct indices hold structurally identical tiles.
pub open spec fn distinct_tiles(ts: Seq<Tile>) -> bool {
    forall|i: int, j: int| 0 <= i < j < ts.len() ==> !tile_eq(ts[i], ts[j])
}

/// Some tile in `ts` is variant `v` of the neighbourhood of `s` at (cx, cy).
pub open spec fn covered(ts: Seq<Tile>, s: Seq<Vec<u8>>, cx: int, cy: int, v: int) -> bool {
    exists|k: int| 0 <= k < ts.len() && sample_reads(ts[k], s, cx, cy, v)
}

/// Every interior neighbourhood variant of `s` is present in `ts`.
pub open spec fn covers_sample(ts: Seq<Tile>, s: Seq<Vec<u8>>) -> bool {
    forall|cx: int, cy: int, v: int|
        interior(s, cx, cy) && 0 <= v < 4 ==> #[trigger] covered(ts, s, cx, cy, v)
}

/// `ts2` extends `ts1`: it keeps every already-assigned index unchanged.
pub open spec fn extends(ts1: Seq<Tile>, ts2: Seq<Tile>) -> bool {
    ts2.len() >= ts1.len() && forall|k: int| 0 <= k < ts1.len() ==> ts2[k] == ts1[k]
}

/// Coverage is monotone under extension of the tile list.
proof fn lemma_covered_extends(ts1: Seq<Tile>, ts2: Seq<Tile>, s: Seq<Vec<u8>>, cx: int, cy: int, v: int)
    requires
        extends(ts1, ts2),
        covered(ts1, s, cx, cy, v),
    ensures
        covered(ts2, s, cx, cy, v),
{
    let k = choose|k: int| 0 <= k < ts1.len() && sample_reads(ts1[k], s, cx, cy, v);
    assert(ts2[k] == ts1[k]);
    assert(sample_reads(ts2[k], s, cx, cy, v));
}

/// Structurally identical tiles read the same cells of the sample.
proof fn lemma_reads_congruence(a: Tile, b: Tile, s: Seq<Vec<u8>>, cx: int, cy: int, v: int)
    requires
        tile_eq(a, b),
        sample_reads(a, s, cx, cy, v),
    ensures
        sample_reads(b, s, cx, cy, v),
{
    assert forall|x: int, y: int| 0 <= x < 3 && 0 <= y < 3
        implies #[trigger] tile_at(b, x, y)
            == s[cx + variant_source(v, x, y).0 - 1]@[cy + variant_source(v, x, y).1 - 1] by {
        assert(tile_at(a, x, y) == tile_at(b, x, y));
        assert(tile_at(a, x, y)
            == s[cx + variant_source(v, x, y).0 - 1]@[cy + variant_source(v, x, y).1 - 1]);
    }
}

/// A symmetry variant of a tile that reads a neighbourhood directly reads the
/// same neighbourhood through the variant's cell permutation.
proof fn lemma_variant_reads(t: Tile, n: Tile, v: int, s: Seq<Vec<u8>>, cx: int, cy: int)
    requires
        0 <= v < 4,
        is_variant_of(t, n, v),
        sample_reads(n, s, cx, cy, 0),
    ensures
        sample_reads(t, s, cx, cy, v),
{
    assert forall|x: int, y: int| 0 <= x < 3 && 0 <= y < 3
        implies #[trigger] tile_at(t, x, y)
            == s[cx + variant_source(v, x, y).0 - 1]@[cy + variant_source(v, x, y).1 - 1] by {
        let px = variant_source(v, x, y).0;
        let py = variant_source(v, x, y).1;
        assert(0 <= px < 3 && 0 <= py < 3);
        assert(tile_at(t, x, y) == tile_at(n, px, py));
        assert(tile_at(n, px, py) == s[cx + variant_source(0, px, py).0 - 1]@[cy + variant_source(0, px, py).1 - 1]);
    }
}

/// Whether the list already holds a tile structurally identical to `t`.
pub fn contains_tile(tiles: &Vec<Tile>, t: &Tile) -> (r: bool)
    ensures
        r == exists|k: int| 0 <= k < tiles@.len() && tile_eq(tiles@[k], *t),
{
    let mut i: usize = 0;
    while i < tiles.len()
        invariant
            i <= tiles@.len(),
            forall|k: int| 0 <= k < i ==> !tile_eq(tiles@[k], *t),
        decreases tiles@.len() - i,
    {
        if tiles_match(&tiles[i], t) {
            return true;
        }
        i = i + 1;
    }
    false
}

/// Reads the 3x3 neighbourhood of the sample centred at (cx, cy) as a tile.
fn read_tile(input: &Vec<Vec<u8>>, cx: usize, cy: usize) -> (t: Tile)
    requires
        square(input@),
        interior(input@, cx as int, cy as int),
    ensures
        sample_reads(t, input@, cx as int, cy as int, 0),
{
    let n: usize = input.len();
    assert(cx + 1 < n && cy + 1 < n);
    let t = Tile {
        cells: [
            [input[cx - 1][cy - 1], input[cx - 1][cy], input[cx - 1][cy + 1]],
            [input[cx][cy - 1], input[cx][cy], input[cx][cy + 1]],
            [input[cx + 1][cy - 1], input[cx + 1][cy], input[cx + 1][cy + 1]],
        ],
    };
    proof {
        assert forall|x: int, y: int| 0 <= x < 3 && 0 <= y < 3
            implies #[trigger] tile_at(t, x, y)
                == input@[cx + variant_source(0, x, y).0 - 1]@[cy + variant_source(0, x, y).1 - 1] by {
            assert(x == 0 || x == 1 || x == 2);
            assert(y == 0 || y == 1 || y == 2);
        }
    }
    t
}

/// Appends `t` to the list unless a structurally identical tile is already
/// there; keeps the list duplicate-free and sample-sound, and guarantees the
/// neighbourhood variant that `t` came from is covered afterwards.
fn insert_unique(
    tiles: &mut Vec<Tile>,
    t: Tile,
    Ghost(s): Ghost<Seq<Vec<u8>>>,
    Ghost(cx): Ghost<int>,
    Ghost(cy): Ghost<int>,
    Ghost(v): Ghost<int>,
)
    requires
        distinct_tiles(old(tiles)@),
        forall|k: int| 0 <= k < old(tiles)@.len()
            ==> tile_from_sample(#[trigger] old(tiles)@[k], s),
        interior(s, cx, cy),
        0 <= v < 4,
        sample_reads(t, s, cx, cy, v),
    ensures
        distinct_tiles(final(tiles)@),
        forall|k: int| 0 <= k < final(tiles)@.len()
            ==> tile_from_sample(#[trigger] final(tiles)@[k], s),
        covered(final(tiles)@, s, cx, cy, v),
        extends(old(tiles)@, final(tiles)@),
{
    let ghost pre = tiles@;
    if !contains_tile(tiles, &t) {
        tiles.push(t);
        proof {
            let n = pre.len() as int;
            assert(tiles@[n] == t);
            assert forall|k: int| 0 <= k < tiles@.len()
                implies tile_from_sample(#[trigger] tiles@[k], s) by {
                if k < n {
                    assert(tiles@[k] == pre[k]);
                    assert(tile_from_sample(pre[k], s));
                } else {
                    assert(tiles@[k] == t);
                    assert(interior(s, cx, cy) && 0 <= v < 4 && sample_reads(t, s, cx, cy, v));
                }
            }
            assert forall|i: int, j: int| 0 <= i < j < tiles@.len()
                implies !tile_eq(tiles@[i], tiles@[j]) by {
                if j < n {
                    assert(tiles@[i] == pre[i] && tiles@[j] == pre[j]);
                } else {
                    assert(tiles@[i] == pre[i] && tiles@[j] == t);
                    assert(!tile_eq(pre[i], t));
                }
            }
            assert(sample_reads(tiles@[n], s, cx, cy, v));
            assert(covered(tiles@, s, cx, cy, v));
        }
    } else {
        proof {
            let k = choose|k: int| 0 <= k < tiles@.len() && tile_eq(tiles@[k], t);
            lemma_reads_congruence(t, tiles@[k], s, cx, cy, v);
            assert(covered(tiles@, s, cx, cy, v));
        }
    }
}

/// Scans every interior cell of the square sample, takes its 3x3
/// neighbourhood and that neighbourhood's four symmetry variants, and
/// collects them into a duplicate-free list in first-seen order.
pub fn extract_tiles(input: &Vec<Vec<u8>>) -> (tiles: Vec<Tile>)
    requires
        square(input@),
        input@.len() >= 3,
    ensures
        tiles@.len() >= 1,
        distinct_tiles(tiles@),
        forall|k: int| 0 <= k < tiles@.len() ==> tile_from_sample(#[trigger] tiles@[k], input@),
        covers_sample(tiles@, input@),
{
    let n: usize = input.len();
    let num_tiles_width: usize = n - 2;
    let mut tiles: Vec<Tile> = Vec::new();

    let mut x: usize = 0;
    while x < num_tiles_width
        invariant
            square(input@),
            input@.len() >= 3,
            n == input@.len(),
            num_tiles_width == n - 2,
            x <= num_tiles_width,
            distinct_tiles(tiles@),
            forall|k: int| 0 <= k < tiles@.len()
                ==> tile_from_sample(#[trigger] tiles@[k], input@),
            forall|i: int, j: int, vv: int|
                0 <= i < x && 0 <= j < num_tiles_width && 0 <= vv < 4
                    ==> #[trigger] covered(tiles@, input@, i + 1, j + 1, vv),
        decreases num_tiles_width - x,
    {
        let mut y: usize = 0;
        while y < num_tiles_width
            invariant
                square(input@),
                input@.len() >= 3,
                n == input@.len(),
                num_tiles_width == n - 2,
                x < num_tiles_width,
                y <= num_tiles_width,
                distinct_tiles(tiles@),
                forall|k: int| 0 <= k < tiles@.len()
                    ==> tile_from_sample(#[trigger] tiles@[k], input@),
                forall|i: int, j: int, vv: int|
                    0 <= i < x && 0 <= j < num_tiles_width && 0 <= vv < 4
                        ==> #[trigger] covered(tiles@, input@, i + 1, j + 1, vv),
                forall|j: int, vv: int|
                    0 <= j < y && 0 <= vv < 4
                        ==> #[trigger] covered(tiles@, input@, x + 1, j + 1, vv),
            decreases num_tiles_width - y,
        {
            let cx: usize = x + 1;
            let cy: usize = y + 1;
            let new_tile = read_tile(input, cx, cy);
            let tile_versions = get_reflections(&new_tile);

            proof {
                lemma_variant_reads(tile_versions@[0], new_tile, 0, input@, cx as int, cy as int);
                lemma_variant_reads(tile_versions@[1], new_tile, 1, input@, cx as int, cy as int);
                lemma_variant_reads(tile_versions@[2], new_tile, 2, input@, cx as int, cy as int);
                lemma_variant_reads(tile_versions@[3], new_tile, 3, input@, cx as int, cy as int);
            }

            let ghost s0 = tiles@;
            insert_unique(&mut tiles, tile_versions[0], Ghost(input@), Ghost(cx as int),
                Ghost(cy as int), Ghost(0));
            let ghost s1 = tiles@;
            insert_unique(&mut tiles, tile_versions[1], Ghost(input@), Ghost(cx as int),
                Ghost(cy as int), Ghost(1));
            let ghost s2 = tiles@;
            insert_unique(&mut tiles, tile_versions[2], Ghost(input@), Ghost(cx as int),
                Ghost(cy as int), Ghost(2));
            let ghost s3 = tiles@;
            insert_unique(&mut tiles, tile_versions[3], Ghost(input@), Ghost(cx as int),
                Ghost(cy as int), Ghost(3));

            proof {
                // carry each already-covered neighbourhood variant across the
                // four insertions, and chain the current cell's four variants
                // to the final list
                assert forall|i2: int, j2: int, vv: int|
                    0 <= i2 < x && 0 <= j2 < num_tiles_width && 0 <= vv < 4
                        implies #[trigger] covered(tiles@, input@, i2 + 1, j2 + 1, vv) by {
                    assert(covered(s0, input@, i2 + 1, j2 + 1, vv));
                    lemma_covered_extends(s0, s1, input@, i2 + 1, j2 + 1, vv);
                    lemma_covered_extends(s1, s2, input@, i2 + 1, j2 + 1, vv);
                    lemma_covered_extends(s2, s3, input@, i2 + 1, j2 + 1, vv);
                    lemma_covered_extends(s3, tiles@, input@, i2 + 1, j2 + 1, vv);
                }
                assert forall|j2: int, vv: int|
                    0 <= j2 < y + 1 && 0 <= vv < 4
                        implies #[trigger] covered(tiles@, input@, x + 1, j2 + 1, vv) by {
                    if j2 < y {
                        assert(covered(s0, input@, x + 1, j2 + 1, vv));
                        lemma_covered_extends(s0, s1, input@, x + 1, j2 + 1, vv);
                        lemma_covered_extends(s1, s2, input@, x + 1, j2 + 1, vv);
                        lemma_covered_extends(s2, s3, input@, x + 1, j2 + 1, vv);
                        lemma_covered_extends(s3, tiles@, input@, x + 1, j2 + 1, vv);
                    } else {
                        if vv == 0 {
                            lemma_covered_extends(s1, s2, input@, cx as int, cy as int, vv);
                            lemma_covered_extends(s2, s3, input@, cx as int, cy as int, vv);
                            lemma_covered_extends(s3, tiles@, input@, cx as int, cy as int, vv);
                        } else if vv == 1 {
                            lemma_covered_extends(s2, s3, input@, cx as int, cy as int, vv);
                            lemma_covered_extends(s3, tiles@, input@, cx as int, cy as int, vv);
                        } else if vv == 2 {
                            lemma_covered_extends(s3, tiles@, input@, cx as int, cy as int, vv);
                        }
                    }
                }
            }

            y = y + 1;
        }
        x = x + 1;
    }
    proof {
        assert forall|cx: int, cy: int, v: int|
            interior(input@, cx, cy) && 0 <= v < 4
                implies #[trigger] covered(tiles@, input@, cx, cy, v) by {
            let i = cx - 1;
            let j = cy - 1;
            assert(0 <= i < num_tiles_width && 0 <= j < num_tiles_width);
            assert(covered(tiles@, input@, i + 1, j + 1, v));
        }
        assert(interior(input@, 1, 1));
        assert(covered(tiles@, input@, 1, 1, 0));
    }
    tiles
}

/// The set of tile indices permitted beside one tile, per direction.
#[derive(Debug)]
pub struct AdjanencyRule {
    pub left: Vec<usize>,
    pub up: Vec<usize>,
    pub down: Vec<usize>,
    pub right: Vec<usize>,
}

pub type AdjanencyRules = Vec<AdjanencyRule>;

impl AdjanencyRule {
    /// The recorded allowed-neighbour list for direction `d`.
    pub open spec fn allowed_seq(self, d: Direction) -> Seq<usize> {
        match d {
            Direction::Left => self.left@,
            Direction::Up => self.up@,
            Direction::Down => self.down@,
            Direction::Right => self.right@,
        }
    }

    /// Tile index `j` may sit in direction `d` of the tile this rule is for.
    pub open spec fn allows(self, d: Direction, j: usize) -> bool {
        self.allowed_seq(d).contains(j)
    }

    pub fn new() -> (r: AdjanencyRule)
        ensures
            forall|d: Direction, j: usize| !r.allows(d, j),
    {
        let r = AdjanencyRule { left: Vec::new(), up: Vec::new(), down: Vec::new(), right: Vec::new() };
        proof {
            assert forall|d: Direction, j: usize| !r.allows(d, j) by {
                assert(r.allowed_seq(d).len() == 0);
            }
        }
        r
    }

    /// Records that `tile` may sit in direction `dir`.
    pub fn allow(&mut self, dir: Direction, tile: usize)
        ensures
            forall|d: Direction, j: usize| #[trigger] final(self).allows(d, j)
                <==> (old(self).allows(d, j) || (d == dir && j == tile)),
    {
        match dir {
            Direction::Left => self.left.push(tile),
            Direction::Up => self.up.push(tile),
            Direction::Down => self.down.push(tile),
            Direction::Right => self.right.push(tile),
        }
        proof {
            let pre = *old(self);
            assert forall|d: Direction, j: usize| #[trigger] self.allows(d, j)
                <==> (pre.allows(d, j) || (d == dir && j == tile)) by {
                if d == dir {
                    assert(self.allowed_seq(d) == pre.allowed_seq(d).push(tile));
                    if pre.allows(d, j) {
                        let k = choose|k: int| 0 <= k < pre.allowed_seq(d).len()
                            && pre.allowed_seq(d)[k] == j;
                        assert(self.allowed_seq(d)[k] == j);
                    }
                    if j == tile {
                        assert(self.allowed_seq(d)[pre.allowed_seq(d).len() as int] == j);
                    }
                    if self.allows(d, j) && j != tile {
                        let k = choose|k: int| 0 <= k < self.allowed_seq(d).len()
                            && self.allowed_seq(d)[k] == j;
                        assert(k < pre.allowed_seq(d).len());
                        assert(pre.allowed_seq(d)[k] == j);
                    }
                } else {
                    assert(self.allowed_seq(d) == pre.allowed_seq(d));
                }
            }
        }
    }

    /// The recorded allowed-neighbour list for direction `dir`.
    pub fn get(&self, dir: Direction) -> (r: &Vec<usize>)
        ensures
            r@ == self.allowed_seq(dir),
    {
        match dir {
            Direction::Left => &self.left,
            Direction::Up => &self.up,
            Direction::Down => &self.down,
            Direction::Right => &self.right,
        }
    }
}

/// The sample grid was too small to yield any tile: it has no interior cell.
#[derive(Clone, Copy, Debug, PartialEq, Eq, Structural)]
pub struct ConfigurationError;

/// The immutable product of rule building: the unique tiles, one adjacency
/// rule per tile, and each tile's display value (its centre cell).
#[derive(Debug)]
pub struct AdjacencyTable {
    pub tiles: Vec<Tile>,
    pub rules: AdjanencyRules,
    pub index_character_map: Vec<u8>,
}

impl AdjacencyTable {
    /// Well-formedness: the three lists line up, every rule records exactly
    /// the geometrically compatible neighbours, and the display map records
    /// exactly the centre values.
    pub open spec fn wf(self) -> bool {
        &&& self.rules@.len() == self.tiles@.len()
        &&& self.index_character_map@.len() == self.tiles@.len()
        &&& forall|i: int, d: Direction, j: usize| 0 <= i < self.tiles@.len()
            ==> (#[trigger] self.rules@[i].allows(d, j)
                <==> (j < self.tiles@.len() && compat(self.tiles@[i], self.tiles@[j as int], d)))
        &&& forall|i: int| 0 <= i < self.tiles@.len()
            ==> #[trigger] self.index_character_map@[i] == tile_at(self.tiles@[i], 1, 1)
    }

    pub open spec fn tile_count(self) -> int {
        self.tiles@.len() as int
    }
}

/// Builds the adjacency table for a square sample: extracts the deduplicated
/// tiles and records, for every tile and direction, exactly the compatible
/// neighbour indices. Fails if and only if the sample has no interior cell.
pub fn build_rules(sample: &Vec<Vec<u8>>) -> (r: Result<AdjacencyTable, ConfigurationError>)
    requires
        square(sample@),
    ensures
        r is Ok <==> sample@.len() >= 3,
        r matches Ok(t) ==> {
            &&& t.wf()
            &&& t.tiles@.len() >= 1
            &&& distinct_tiles(t.tiles@)
            &&& forall|k: int| 0 <= k < t.tiles@.len()
                ==> tile_from_sample(#[trigger] t.tiles@[k], sample@)
            &&& covers_sample(t.tiles@, sample@)
        },
{
    if sample.len() < 3 {
        return Err(ConfigurationError);
    }

    let tiles = extract_tiles(sample);
    let tile_count: usize = tiles.len();

    let mut rules: AdjanencyRules = Vec::new();
    let mut index_character_map: Vec<u8> = Vec::new();

    let mut i: usize = 0;
    while i < tile_count
        invariant
            tile_count == tiles@.len(),
            i <= tile_count,
            rules@.len() == i,
            index_character_map@.len() == i,
            forall|ii: int, d: Direction, jj: usize| 0 <= ii < i
                ==> (#[trigger] rules@[ii].allows(d, jj)
                    <==> (jj < tiles@.len() && compat(tiles@[ii], tiles@[jj as int], d))),
            forall|ii: int| 0 <= ii < i
                ==> #[trigger] index_character_map@[ii] == tile_at(tiles@[ii], 1, 1),
        decreases tile_count - i,
    {
        let mut rule = AdjanencyRule::new();
        let a = tiles[i];

        let mut j: usize = 0;
        while j < tile_count
            invariant
                tile_count == tiles@.len(),
                i < tile_count,
                j <= tile_count,
                a == tiles@[i as int],
                forall|d: Direction, jj: usize| #[trigger] rule.allows(d, jj)
                    <==> (jj < j && compat(tiles@[i as int], tiles@[jj as int], d)),
            decreases tile_count - j,
        {
            let b = tiles[j];
            if compatible(&a, &b, &Direction::Left) {
                rule.allow(Direction::Left, j);
            }
            if compatible(&a, &b, &Direction::Up) {
                rule.allow(Direction::Up, j);
            }
            if compatible(&a, &b, &Direction::Down) {
                rule.allow(Direction::Down, j);
            }
            if compatible(&a, &b, &Direction::Right) {
                rule.allow(Direction::Right, j);
            }
            j = j + 1;
        }

        index_character_map.push(a.cells[1][1]);
        rules.push(rule);
        i = i + 1;
    }

    let table = AdjacencyTable { tiles, rules, index_character_map };
    Ok(table)
}

/// ADJACENCY SYMMETRY: in a well-formed table, tile `j` is allowed beside
/// tile `i` in direction `d` exactly when tile `i` is allowed beside tile
/// `j` in the opposite direction.
pub proof fn lemma_adjacency_symmetry(t: AdjacencyTable, i: usize, j: usize, d: Direction)
    requires
        t.wf(),
        i < t.tiles@.len(),
        j < t.tiles@.len(),
    ensures
        t.rules@[i as int].allows(d, j) <==> t.rules@[j as int].allows(opposite(d), i),
{
    lemma_compat_symmetry(t.tiles@[i as int], t.tiles@[j as int], d);
}

} // verus!
