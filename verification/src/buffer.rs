use vstd::prelude::*;

verus! {

/// A 2D grid of display values, column-major: `buffer[x][y]` is column `x`, row `y`.
pub type Buffer = Vec<Vec<u8>>;

/// A (columns, rows) pair.
pub type Dimemsion = (u16, u16);

/// A rectangular buffer: every column has the same number of rows.
pub open spec fn rect(b: Seq<Vec<u8>>, width: int, height: int) -> bool {
    &&& b.len() == width
    &&& forall|x: int| 0 <= x < width ==> (#[trigger] b[x])@.len() == height
}

/// Builds a `length x height` buffer filled with `value`, where the extents are
/// the inclusive span from `tl` to `br` (a degenerate span yields extent 1).
pub fn get_matrix(tl: (u16, u16), br: (u16, u16), value: u8) -> (r: Buffer)
    requires
        tl.0 <= br.0,
        tl.1 <= br.1,
    ensures
        rect(r@, br.0 - tl.0 + 1, br.1 - tl.1 + 1),
        forall|x: int, y: int|
            0 <= x <= br.0 - tl.0 && 0 <= y <= br.1 - tl.1 ==> r@[x]@[y] == value,
{
    let length: usize = (br.0 - tl.0) as usize + 1;
    let height: usize = (br.1 - tl.1) as usize + 1;

    let mut result: Buffer = Vec::new();
    for x in 0..length
        invariant
            result@.len() == x,
            forall|i: int| 0 <= i < x ==> (#[trigger] result@[i])@.len() == height,
            forall|i: int, j: int| 0 <= i < x && 0 <= j < height ==> result@[i]@[j] == value,
    {
        let mut column: Vec<u8> = Vec::new();
        for y in 0..height
            invariant
                column@.len() == y,
                forall|j: int| 0 <= j < y ==> column@[j] == value,
        {
            column.push(value);
        }
        result.push(column);
    }
    result
}

/// Overwrites the rectangle of `buffer` whose top-left corner is `location`
/// with the contents of `matrix`; cells outside that rectangle are unchanged.
pub fn insert_matrix(buffer: &mut Buffer, location: (u16, u16), matrix: &Buffer)
    requires
        location.0 + matrix@.len() <= old(buffer)@.len(),
        forall|x: int| 0 <= x < matrix@.len() ==> location.1 + (#[trigger] matrix@[x])@.len()
            <= old(buffer)@[location.0 + x]@.len(),
    ensures
        final(buffer)@.len() == old(buffer)@.len(),
        forall|x: int| 0 <= x < old(buffer)@.len() ==> (#[trigger] final(buffer)@[x])@.len()
            == old(buffer)@[x]@.len(),
        forall|x: int, y: int|
            0 <= x < matrix@.len() && 0 <= y < matrix@[x]@.len()
                ==> final(buffer)@[location.0 + x]@[location.1 + y] == #[trigger] matrix@[x]@[y],
        forall|x: int, y: int|
            0 <= x < old(buffer)@.len() && 0 <= y < old(buffer)@[x]@.len()
                && !(location.0 <= x < location.0 + matrix@.len()
                    && location.1 <= y < location.1 + matrix@[x - location.0]@.len())
                ==> #[trigger] final(buffer)@[x]@[y] == old(buffer)@[x]@[y],
{
    let column: usize = location.0 as usize;
    let row: usize = location.1 as usize;
    let buffer_len: usize = buffer.len();

    let ghost orig: Seq<Vec<u8>> = buffer@;
    let mut x: usize = 0;
    while x < matrix.len()
        invariant
            x <= matrix@.len(),
            orig.len() <= usize::MAX,
            column == location.0,
            row == location.1,
            column + matrix@.len() <= orig.len(),
            forall|i: int| 0 <= i < matrix@.len() ==> row + (#[trigger] matrix@[i])@.len()
                <= orig[column + i]@.len(),
            buffer@.len() == orig.len(),
            forall|i: int| 0 <= i < orig.len() ==> (#[trigger] buffer@[i])@.len()
                == orig[i]@.len(),
            forall|i: int, j: int|
                0 <= i < x && 0 <= j < matrix@[i]@.len()
                    ==> buffer@[column + i]@[row + j] == #[trigger] matrix@[i]@[j],
            forall|i: int, j: int|
                0 <= i < orig.len() && 0 <= j < orig[i]@.len()
                    && !(column <= i < column + x
                        && row <= j < row + matrix@[i - column]@.len())
                    ==> #[trigger] buffer@[i]@[j] == orig[i]@[j],
        decreases matrix@.len() - x,
    {
        let col = &matrix[x];
        let mut y: usize = 0;
        while y < col.len()
            invariant
                x < matrix@.len(),
                orig.len() <= usize::MAX,
                y <= col@.len(),
                col == matrix@[x as int],
                column == location.0,
                row == location.1,
                column + matrix@.len() <= orig.len(),
                forall|i: int| 0 <= i < matrix@.len() ==> row + (#[trigger] matrix@[i])@.len()
                    <= orig[column + i]@.len(),
                buffer@.len() == orig.len(),
                forall|i: int| 0 <= i < orig.len() ==> (#[trigger] buffer@[i])@.len()
                    == orig[i]@.len(),
                forall|i: int, j: int|
                    0 <= i < x && 0 <= j < matrix@[i]@.len()
                        ==> buffer@[column + i]@[row + j] == #[trigger] matrix@[i]@[j],
                forall|j: int| 0 <= j < y ==> buffer@[column + x]@[row + j]
                    == (#[trigger] matrix@[x as int])@[j],
                forall|i: int, j: int|
                    0 <= i < orig.len() && 0 <= j < orig[i]@.len()
                        && !(column <= i < column + x
                            && row <= j < row + matrix@[i - column]@.len())
                        && !(i == column + x && row <= j < row + y)
                        ==> #[trigger] buffer@[i]@[j] == orig[i]@[j],
            decreases col@.len() - y,
        {
            let value = col[y];
            let target = &mut buffer[column + x];
            let target_len: usize = target.len();
            assert(row + y < target_len);
            target.set(row + y, value);
            y = y + 1;
        }
        x = x + 1;
    }
}

/// Copies the `width x height` window of `buffer` whose top-left corner is
/// `location` into a fresh buffer.
pub fn get_sub_view(buffer: &Vec<Vec<u8>>, location: (u16, u16), width: usize, height: usize)
    -> (view: Vec<Vec<u8>>)
    requires
        location.0 + width <= buffer@.len(),
        forall|x: int| location.0 <= x < location.0 + width
            ==> location.1 + height <= (#[trigger] buffer@[x])@.len(),
    ensures
        rect(view@, width as int, height as int),
        forall|x: int, y: int|
            0 <= x < width && 0 <= y < height
                ==> view@[x]@[y] == buffer@[location.0 + x]@[location.1 + y],
{
    let column: usize = location.0 as usize;
    let row: usize = location.1 as usize;
    let buffer_len: usize = buffer.len();

    let mut view: Vec<Vec<u8>> = Vec::new();
    for x in 0..width
        invariant
            column == location.0,
            row == location.1,
            column + width <= usize::MAX,
            column + width <= buffer@.len(),
            forall|i: int| column <= i < column + width
                ==> row + height <= (#[trigger] buffer@[i])@.len(),
            view@.len() == x,
            forall|i: int| 0 <= i < x ==> (#[trigger] view@[i])@.len() == height,
            forall|i: int, j: int|
                0 <= i < x && 0 <= j < height ==> view@[i]@[j] == buffer@[column + i]@[row + j],
    {
        let src = &buffer[column + x];
        let src_len: usize = src.len();
        let mut col: Vec<u8> = Vec::new();
        for y in 0..height
            invariant
                column == location.0,
                row == location.1,
                x < width,
                row + height <= src_len,
                src_len == src@.len(),
                column + width <= buffer@.len(),
                forall|i: int| column <= i < column + width
                    ==> row + height <= (#[trigger] buffer@[i])@.len(),
                src == buffer@[column + x],
                col@.len() == y,
                forall|j: int| 0 <= j < y ==> col@[j] == buffer@[column + x]@[row + j],
        {
            col.push(src[row + y]);
        }
        view.push(col);
    }
    view
}

} // verus!
