//! Square-matrix transforms and the plane accessors of a three-dimensional grid.
use vstd::prelude::*;

verus! {

/// The mathematical value of a matrix held as nested vectors.
pub open spec fn grid2<T>(v: &Vec<Vec<T>>) -> Seq<Seq<T>> {
    v@.map_values(|r: Vec<T>| r@)
}

/// Every row has as many entries as the matrix has rows.
pub open spec fn is_square<T>(m: Seq<Seq<T>>) -> bool {
    forall|i: int| 0 <= i < m.len() ==> #[trigger] m[i].len() == m.len()
}

/// The sequence read back to front.
pub open spec fn reversed<T>(s: Seq<T>) -> Seq<T> {
    Seq::new(s.len(), |i: int| s[s.len() - 1 - i])
}

/// Each row reversed in place; the order of the rows is kept.
pub open spec fn rows_reversed<T>(m: Seq<Seq<T>>) -> Seq<Seq<T>> {
    m.map_values(|r: Seq<T>| reversed(r))
}

/// The rows taken in reverse order; each row is kept.
pub open spec fn cols_reversed<T>(m: Seq<Seq<T>>) -> Seq<Seq<T>> {
    reversed(m)
}

/// Entry (i, j) of the result is entry (j, i) of `m`.
pub open spec fn transposed<T>(m: Seq<Seq<T>>) -> Seq<Seq<T>> {
    Seq::new(m.len(), |i: int| Seq::new(m.len(), |j: int| m[j][i]))
}

/// A quarter turn clockwise: transpose, then reverse each row.
pub open spec fn rotated_cw<T>(m: Seq<Seq<T>>) -> Seq<Seq<T>> {
    rows_reversed(transposed(m))
}

/// A quarter turn counter-clockwise: transpose, then reverse the order of the rows.
pub open spec fn rotated_ccw<T>(m: Seq<Seq<T>>) -> Seq<Seq<T>> {
    cols_reversed(transposed(m))
}

/// A half turn: reverse the order of the rows, then reverse each row.
pub open spec fn rotated_half<T>(m: Seq<Seq<T>>) -> Seq<Seq<T>> {
    rows_reversed(cols_reversed(m))
}

/// Moves the items of `v` into a new vector, last one first.
fn reversed_vec<T>(v: Vec<T>) -> (r: Vec<T>)
    ensures
        r@ == reversed(v@),
{
    let mut v = v;
    let ghost orig = v@;
    let mut r: Vec<T> = Vec::new();
    while v.len() > 0
        invariant
            v@ == orig.subrange(0, v.len() as int),
            r.len() + v.len() == orig.len(),
            forall|k: int| 0 <= k < r.len() ==> #[trigger] r@[k] == orig[orig.len() - 1 - k],
        decreases v.len(),
    {
        let x = v.pop().unwrap();
        r.push(x);
    }
    assert(r@ =~= reversed(orig));
    r
}

/// Reverses the order of the entries within each row.
pub fn reverse_rows<T>(vector: &mut Vec<Vec<T>>)
    ensures
        grid2(final(vector)) == rows_reversed(grid2(old(vector))),
{
    let ghost orig = grid2(vector);
    let mut rows: Vec<Vec<T>> = Vec::new();
    std::mem::swap(&mut rows, vector);
    // the rows come out of `pop` last one first, so they are collected back to front
    let mut back: Vec<Vec<T>> = reversed_vec(rows);
    let mut out: Vec<Vec<T>> = Vec::new();
    while back.len() > 0
        invariant
            grid2(&back) == reversed(orig).subrange(0, back.len() as int),
            out.len() + back.len() == orig.len(),
            forall|k: int| 0 <= k < out.len() ==> #[trigger] out@[k]@ == reversed(orig[k]),
        decreases back.len(),
    {
        let ghost before = grid2(&back);
        let row = back.pop().unwrap();
        assert(row@ == before[before.len() - 1]);
        assert(grid2(&back) =~= before.subrange(0, back.len() as int));
        out.push(reversed_vec(row));
    }
    assert(grid2(&out) =~= rows_reversed(orig));
    *vector = out;
}

/// Reverses the order of the rows.
pub fn reverse_columns<T: Copy>(vector: &mut Vec<Vec<T>>)
    ensures
        grid2(final(vector)) == cols_reversed(grid2(old(vector))),
{
    let mut rows: Vec<Vec<T>> = Vec::new();
    std::mem::swap(&mut rows, vector);
    let ghost orig = rows@;
    let out = reversed_vec(rows);
    assert(grid2(&out) =~= cols_reversed(orig.map_values(|r: Vec<T>| r@)));
    *vector = out;
}

/// Swaps entry (i, j) with entry (j, i) for every i and j.
pub fn transpose<T: Copy>(vector: &mut Vec<Vec<T>>)
    requires
        is_square(grid2(old(vector))),
    ensures
        grid2(final(vector)) == transposed(grid2(old(vector))),
{
    let ghost m = grid2(vector);
    let n = vector.len();
    let mut out: Vec<Vec<T>> = Vec::new();
    let mut i: usize = 0;
    while i < n
        invariant
            n == vector.len(),
            m == grid2(vector),
            is_square(m),
            i <= n,
            out.len() == i,
            forall|k: int| 0 <= k < i ==> #[trigger] out@[k]@ == transposed(m)[k],
        decreases n - i,
    {
        let mut row: Vec<T> = Vec::new();
        let mut j: usize = 0;
        while j < n
            invariant
                n == vector.len(),
                m == grid2(vector),
                is_square(m),
                i < n,
                j <= n,
                row.len() == j,
                forall|k: int| 0 <= k < j ==> #[trigger] row@[k] == m[k][i as int],
            decreases n - j,
        {
            assert(vector@[j as int]@ == m[j as int]);
            row.push(vector[j][i]);
            j += 1;
        }
        assert(row@ =~= transposed(m)[i as int]);
        out.push(row);
        i += 1;
    }
    assert(grid2(&out) =~= transposed(m));
    *vector = out;
}

/// Turns the matrix a quarter clockwise.
pub fn rotate90<T: Copy>(vector: &mut Vec<Vec<T>>)
    requires
        is_square(grid2(old(vector))),
    ensures
        grid2(final(vector)) == rotated_cw(grid2(old(vector))),
{
    transpose(vector);
    reverse_rows(vector);
}

/// Turns the matrix a quarter counter-clockwise.
pub fn rotate_minus90<T: Copy>(vector: &mut Vec<Vec<T>>)
    requires
        is_square(grid2(old(vector))),
    ensures
        grid2(final(vector)) == rotated_ccw(grid2(old(vector))),
{
    transpose(vector);
    reverse_columns(vector);
}

/// Turns the matrix half a turn.
pub fn rotate_180<T: Copy>(vector: &mut Vec<Vec<T>>)
    ensures
        grid2(final(vector)) == rotated_half(grid2(old(vector))),
{
    reverse_columns(vector);
    reverse_rows(vector);
}

/// Entry by entry: a clockwise quarter turn brings entry (n-1-j, i) to (i, j), and keeps the
/// matrix square.
pub proof fn lemma_rotated_cw_entries<T>(m: Seq<Seq<T>>)
    requires
        is_square(m),
    ensures
        is_square(rotated_cw(m)),
        rotated_cw(m).len() == m.len(),
        forall|i: int, j: int|
            0 <= i < m.len() && 0 <= j < m.len() ==> #[trigger] rotated_cw(m)[i][j] == m[m.len() - 1
                - j][i],
{
}

/// Entry by entry: a counter-clockwise quarter turn brings entry (j, n-1-i) to (i, j), and
/// keeps the matrix square.
pub proof fn lemma_rotated_ccw_entries<T>(m: Seq<Seq<T>>)
    requires
        is_square(m),
    ensures
        is_square(rotated_ccw(m)),
        rotated_ccw(m).len() == m.len(),
        forall|i: int, j: int|
            0 <= i < m.len() && 0 <= j < m.len() ==> #[trigger] rotated_ccw(m)[i][j] == m[j][m.len()
                - 1 - i],
{
}

/// Transposing a square matrix twice gives it back.
pub proof fn lemma_transpose_involution<T>(m: Seq<Seq<T>>)
    requires
        is_square(m),
    ensures
        transposed(transposed(m)) == m,
{
    assert(transposed(transposed(m)) =~~= m);
}

/// Four clockwise quarter turns, four counter-clockwise quarter turns, and a clockwise turn
/// followed by a counter-clockwise one each give a square matrix back unchanged.
pub proof fn lemma_rotations_restore<T>(m: Seq<Seq<T>>)
    requires
        is_square(m),
    ensures
        rotated_cw(rotated_cw(rotated_cw(rotated_cw(m)))) == m,
        rotated_ccw(rotated_ccw(rotated_ccw(rotated_ccw(m)))) == m,
        rotated_ccw(rotated_cw(m)) == m,
        rotated_cw(rotated_ccw(m)) == m,
{
    let a1 = rotated_cw(m);
    lemma_rotated_cw_entries(m);
    let a2 = rotated_cw(a1);
    lemma_rotated_cw_entries(a1);
    let a3 = rotated_cw(a2);
    lemma_rotated_cw_entries(a2);
    let a4 = rotated_cw(a3);
    lemma_rotated_cw_entries(a3);
    assert(a4 =~~= m);
    let b1 = rotated_ccw(m);
    lemma_rotated_ccw_entries(m);
    let b2 = rotated_ccw(b1);
    lemma_rotated_ccw_entries(b1);
    let b3 = rotated_ccw(b2);
    lemma_rotated_ccw_entries(b2);
    let b4 = rotated_ccw(b3);
    lemma_rotated_ccw_entries(b3);
    assert(b4 =~~= m);
    lemma_rotated_ccw_entries(a1);
    assert(rotated_ccw(a1) =~~= m);
    lemma_rotated_cw_entries(b1);
    assert(rotated_cw(b1) =~~= m);
}

/// Reversing the row order equals transposing, reversing each row, and transposing back.
pub proof fn lemma_reverse_columns_by_transpose<T>(m: Seq<Seq<T>>)
    requires
        is_square(m),
    ensures
        transposed(rows_reversed(transposed(m))) == cols_reversed(m),
{
    assert(transposed(rows_reversed(transposed(m))) =~~= cols_reversed(m));
}

/// The three families of parallel slices of a cubic grid indexed by (layer, row, column).
pub enum Axis {
    /// Fixed layer: entry (i, j) of the plane is cell (l, i, j).
    XY,
    /// Fixed column: entry (i, j) of the plane is cell (i, j, l).
    YZ,
    /// Fixed row: entry (i, j) of the plane is cell (i, l, j).
    XZ,
}

/// The mathematical value of a three-dimensional grid held as nested vectors.
pub open spec fn grid3<T>(v: &Vec<Vec<Vec<T>>>) -> Seq<Seq<Seq<T>>> {
    v@.map_values(|s: Vec<Vec<T>>| grid2(&s))
}

/// The grid is n by n by n, where n is its number of layers.
pub open spec fn is_cube<T>(c: Seq<Seq<Seq<T>>>) -> bool {
    &&& forall|a: int| 0 <= a < c.len() ==> #[trigger] c[a].len() == c.len()
    &&& forall|a: int, b: int|
        0 <= a < c.len() && 0 <= b < c.len() ==> #[trigger] c[a][b].len() == c.len()
}

/// Whether cell (a, b, d) lies on the slice of `ax` at index `l`.
pub open spec fn on_plane(ax: Axis, l: int, a: int, b: int, d: int) -> bool {
    match ax {
        Axis::XY => a == l,
        Axis::YZ => d == l,
        Axis::XZ => b == l,
    }
}

/// The cell of the grid that entry (i, j) of the slice of `ax` at index `l` stands for.
pub open spec fn plane_cell<T>(c: Seq<Seq<Seq<T>>>, ax: Axis, l: int, i: int, j: int) -> T {
    match ax {
        Axis::XY => c[l][i][j],
        Axis::YZ => c[i][j][l],
        Axis::XZ => c[i][l][j],
    }
}

/// The entry of a slice that cell (a, b, d) of the grid corresponds to, for a cell on it.
pub open spec fn plane_entry<T>(p: Seq<Seq<T>>, ax: Axis, a: int, b: int, d: int) -> T {
    match ax {
        Axis::XY => p[b][d],
        Axis::YZ => p[a][b],
        Axis::XZ => p[a][d],
    }
}

/// The slice of `ax` at index `l`, as a square matrix.
pub open spec fn plane_of<T>(c: Seq<Seq<Seq<T>>>, ax: Axis, l: int) -> Seq<Seq<T>> {
    Seq::new(c.len(), |i: int| Seq::new(c.len(), |j: int| plane_cell(c, ax, l, i, j)))
}

/// The grid with the slice of `ax` at index `l` overwritten by `p`; every other cell kept.
pub open spec fn with_plane<T>(c: Seq<Seq<Seq<T>>>, ax: Axis, p: Seq<Seq<T>>, l: int) -> Seq<
    Seq<Seq<T>>,
> {
    Seq::new(
        c.len(),
        |a: int|
            Seq::new(
                c.len(),
                |b: int|
                    Seq::new(
                        c.len(),
                        |d: int|
                            if on_plane(ax, l, a, b, d) {
                                plane_entry(p, ax, a, b, d)
                            } else {
                                c[a][b][d]
                            },
                    ),
            ),
    )
}

fn cell_at<T: Copy>(cube: &Vec<Vec<Vec<T>>>, a: usize, b: usize, d: usize) -> (r: T)
    requires
        is_cube(grid3(cube)),
        a < cube.len(),
        b < cube.len(),
        d < cube.len(),
    ensures
        r == grid3(cube)[a as int][b as int][d as int],
{
    assert(grid3(cube)[a as int] == grid2(&cube@[a as int]));
    assert(grid3(cube)[a as int][b as int] == cube@[a as int]@[b as int]@);
    cube[a][b][d]
}

fn entry_at<T: Copy>(square: &Vec<Vec<T>>, i: usize, j: usize) -> (r: T)
    requires
        is_square(grid2(square)),
        i < square.len(),
        j < square.len(),
    ensures
        r == grid2(square)[i as int][j as int],
{
    assert(grid2(square)[i as int] == square@[i as int]@);
    square[i][j]
}

fn copy_plane<T: Copy>(cube: &Vec<Vec<Vec<T>>>, ax: Axis, idx: usize) -> (r: Vec<Vec<T>>)
    requires
        is_cube(grid3(cube)),
        idx < cube.len(),
    ensures
        grid2(&r) == plane_of(grid3(cube), ax, idx as int),
{
    let ghost c = grid3(cube);
    let n = cube.len();
    let mut out: Vec<Vec<T>> = Vec::new();
    let mut i: usize = 0;
    while i < n
        invariant
            n == cube.len(),
            c == grid3(cube),
            is_cube(c),
            idx < n,
            i <= n,
            out.len() == i,
            forall|k: int| 0 <= k < i ==> #[trigger] out@[k]@ == plane_of(c, ax, idx as int)[k],
        decreases n - i,
    {
        let mut row: Vec<T> = Vec::new();
        let mut j: usize = 0;
        while j < n
            invariant
                n == cube.len(),
                c == grid3(cube),
                is_cube(c),
                idx < n,
                i < n,
                j <= n,
                row.len() == j,
                forall|k: int|
                    0 <= k < j ==> #[trigger] row@[k] == plane_cell(c, ax, idx as int, i as int, k),
            decreases n - j,
        {
            let x = match ax {
                Axis::XY => cell_at(cube, idx, i, j),
                Axis::YZ => cell_at(cube, i, j, idx),
                Axis::XZ => cell_at(cube, i, idx, j),
            };
            row.push(x);
            j += 1;
        }
        assert(row@ =~= plane_of(c, ax, idx as int)[i as int]);
        out.push(row);
        i += 1;
    }
    assert(grid2(&out) =~= plane_of(c, ax, idx as int));
    out
}

fn write_plane<T: Copy>(cube: &mut Vec<Vec<Vec<T>>>, square: &Vec<Vec<T>>, ax: Axis, idx: usize)
    requires
        is_cube(grid3(old(cube))),
        idx < old(cube).len(),
        grid2(square).len() == old(cube).len(),
        is_square(grid2(square)),
    ensures
        grid3(final(cube)) == with_plane(grid3(old(cube)), ax, grid2(square), idx as int),
{
    let ghost c = grid3(cube);
    let ghost p = grid2(square);
    let ghost w = with_plane(c, ax, p, idx as int);
    let n = cube.len();
    let mut out: Vec<Vec<Vec<T>>> = Vec::new();
    let mut a: usize = 0;
    while a < n
        invariant
            n == cube.len(),
            c == grid3(cube),
            is_cube(c),
            p == grid2(square),
            p.len() == n,
            is_square(p),
            w == with_plane(c, ax, p, idx as int),
            idx < n,
            a <= n,
            out.len() == a,
            forall|k: int| 0 <= k < a ==> #[trigger] grid2(&out@[k]) == w[k],
        decreases n - a,
    {
        let mut layer: Vec<Vec<T>> = Vec::new();
        let mut b: usize = 0;
        while b < n
            invariant
                n == cube.len(),
                c == grid3(cube),
                is_cube(c),
                p == grid2(square),
                p.len() == n,
                is_square(p),
                w == with_plane(c, ax, p, idx as int),
                idx < n,
                a < n,
                b <= n,
                layer.len() == b,
                forall|k: int| 0 <= k < b ==> #[trigger] layer@[k]@ == w[a as int][k],
            decreases n - b,
        {
            let mut row: Vec<T> = Vec::new();
            let mut d: usize = 0;
            while d < n
                invariant
                    n == cube.len(),
                    c == grid3(cube),
                    is_cube(c),
                    p == grid2(square),
                    p.len() == n,
                    is_square(p),
                    w == with_plane(c, ax, p, idx as int),
                    idx < n,
                    a < n,
                    b < n,
                    d <= n,
                    row.len() == d,
                    forall|k: int| 0 <= k < d ==> #[trigger] row@[k] == w[a as int][b as int][k],
                decreases n - d,
            {
                let x = match ax {
                    Axis::XY => if a == idx {
                        entry_at(square, b, d)
                    } else {
                        cell_at(cube, a, b, d)
                    },
                    Axis::YZ => if d == idx {
                        entry_at(square, a, b)
                    } else {
                        cell_at(cube, a, b, d)
                    },
                    Axis::XZ => if b == idx {
                        entry_at(square, a, d)
                    } else {
                        cell_at(cube, a, b, d)
                    },
                };
                row.push(x);
                d += 1;
            }
            assert(row@ =~= w[a as int][b as int]);
            layer.push(row);
            b += 1;
        }
        assert(grid2(&layer) =~= w[a as int]);
        out.push(layer);
        a += 1;
    }
    assert(grid3(&out) =~= w);
    *cube = out;
}

/// Copies out the slice of the XY family at index `idx`.
pub fn get_x_y_plane<T: Copy>(cube: &mut Vec<Vec<Vec<T>>>, idx: usize) -> (r: Vec<Vec<T>>)
    requires
        is_cube(grid3(old(cube))),
        idx < old(cube).len(),
    ensures
        *final(cube) == *old(cube),
        grid2(&r) == plane_of(grid3(old(cube)), Axis::XY, idx as int),
{
    copy_plane(cube, Axis::XY, idx)
}

/// Writes `square` over the slice of the XY family at index `idx`, entry (i, j) to the cell
/// that `get_x_y_plane` reads it from; no other cell changes.
pub fn set_x_y_plane<T: Copy>(cube: &mut Vec<Vec<Vec<T>>>, square: &Vec<Vec<T>>, idx: usize)
    requires
        is_cube(grid3(old(cube))),
        idx < old(cube).len(),
        grid2(square).len() == old(cube).len(),
        is_square(grid2(square)),
    ensures
        grid3(final(cube)) == with_plane(grid3(old(cube)), Axis::XY, grid2(square), idx as int),
{
    write_plane(cube, square, Axis::XY, idx);
}

/// Copies out the slice of the YZ family at index `idx`.
pub fn get_y_z_plane<T: Copy>(cube: &mut Vec<Vec<Vec<T>>>, idx: usize) -> (r: Vec<Vec<T>>)
    requires
        is_cube(grid3(old(cube))),
        idx < old(cube).len(),
    ensures
        *final(cube) == *old(cube),
        grid2(&r) == plane_of(grid3(old(cube)), Axis::YZ, idx as int),
{
    copy_plane(cube, Axis::YZ, idx)
}

/// Writes `square` over the slice of the YZ family at index `idx`, entry (i, j) to the cell
/// that `get_y_z_plane` reads it from; no other cell changes.
pub fn set_y_z_plane<T: Copy>(cube: &mut Vec<Vec<Vec<T>>>, square: &Vec<Vec<T>>, idx: usize)
    requires
        is_cube(grid3(old(cube))),
        idx < old(cube).len(),
        grid2(square).len() == old(cube).len(),
        is_square(grid2(square)),
    ensures
        grid3(final(cube)) == with_plane(grid3(old(cube)), Axis::YZ, grid2(square), idx as int),
{
    write_plane(cube, square, Axis::YZ, idx);
}

/// Copies out the slice of the XZ family at index `idx`.
pub fn get_x_z_plane<T: Copy>(cube: &mut Vec<Vec<Vec<T>>>, idx: usize) -> (r: Vec<Vec<T>>)
    requires
        is_cube(grid3(old(cube))),
        idx < old(cube).len(),
    ensures
        *final(cube) == *old(cube),
        grid2(&r) == plane_of(grid3(old(cube)), Axis::XZ, idx as int),
{
    copy_plane(cube, Axis::XZ, idx)
}

/// Writes `square` over the slice of the XZ family at index `idx`, entry (i, j) to the cell
/// that `get_x_z_plane` reads it from; no other cell changes.
pub fn set_x_z_plane<T: Copy>(cube: &mut Vec<Vec<Vec<T>>>, square: &Vec<Vec<T>>, idx: usize)
    requires
        is_cube(grid3(old(cube))),
        idx < old(cube).len(),
        grid2(square).len() == old(cube).len(),
        is_square(grid2(square)),
    ensures
        grid3(final(cube)) == with_plane(grid3(old(cube)), Axis::XZ, grid2(square), idx as int),
{
    write_plane(cube, square, Axis::XZ, idx);
}

/// A slice of a cubic grid is a square matrix of the grid's size.
pub proof fn lemma_plane_is_square<T>(c: Seq<Seq<Seq<T>>>, ax: Axis, l: int)
    ensures
        plane_of(c, ax, l).len() == c.len(),
        is_square(plane_of(c, ax, l)),
{
}

/// Overwriting a slice keeps the grid cubic, and reading the slice back gives what was written.
pub proof fn lemma_get_after_set<T>(c: Seq<Seq<Seq<T>>>, ax: Axis, p: Seq<Seq<T>>, l: int)
    requires
        is_cube(c),
        0 <= l < c.len(),
        p.len() == c.len(),
        is_square(p),
    ensures
        is_cube(with_plane(c, ax, p, l)),
        plane_of(with_plane(c, ax, p, l), ax, l) == p,
{
    assert(plane_of(with_plane(c, ax, p, l), ax, l) =~~= p);
}

/// Writing back the slice just read leaves the grid unchanged.
pub proof fn lemma_set_of_get<T>(c: Seq<Seq<Seq<T>>>, ax: Axis, l: int)
    requires
        is_cube(c),
        0 <= l < c.len(),
    ensures
        with_plane(c, ax, plane_of(c, ax, l), l) == c,
{
    assert(with_plane(c, ax, plane_of(c, ax, l), l) =~~= c);
}

/// Of two writes to the same slice only the second one shows.
pub proof fn lemma_set_twice<T>(c: Seq<Seq<Seq<T>>>, ax: Axis, p: Seq<Seq<T>>, q: Seq<Seq<T>>, l: int)
    requires
        is_cube(c),
        0 <= l < c.len(),
        p.len() == c.len(),
        is_square(p),
    ensures
        with_plane(with_plane(c, ax, p, l), ax, q, l) == with_plane(c, ax, q, l),
{
    assert(with_plane(with_plane(c, ax, p, l), ax, q, l) =~~= with_plane(c, ax, q, l));
}

} // verus!
