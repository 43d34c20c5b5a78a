//! Map projection: a full-resolution glyph grid built over a board
//! snapshot, and the block-reduction pipeline that downsamples it to a
//! small display grid.

use vstd::prelude::*;
use crate::board::{Board, Location};

verus! {

/// The glyph of a cell holding nothing.
pub const GLYPH_EMPTY: char = '⬛';

/// The rock glyph; within a reduced block it wins over every other
/// non-background glyph.
pub const GLYPH_ROCK: char = '🪨';

/// The mathematical view of a glyph matrix: a sequence of rows.
pub open spec fn grid_view(m: Seq<Vec<char>>) -> Seq<Seq<char>> {
    Seq::new(m.len(), |i: int| m[i]@)
}

/// `m` is a `rows x cols` rectangle.
pub open spec fn is_grid(m: Seq<Seq<char>>, rows: int, cols: int) -> bool {
    &&& m.len() == rows
    &&& forall|i: int| 0 <= i < rows ==> (#[trigger] m[i]).len() == cols
}

/// Every glyph of `row[start .. start + k]` is the background glyph.
pub open spec fn chunk_all_empty(row: Seq<char>, start: int, k: int) -> bool {
    forall|t: int| start <= t < start + k ==> row[t] == GLYPH_EMPTY
}

/// Some glyph of `row[start .. start + k]` is the rock glyph.
pub open spec fn chunk_has_rock(row: Seq<char>, start: int, k: int) -> bool {
    exists|t: int| start <= t < start + k && row[t] == GLYPH_ROCK
}

/// The first glyph of `row[start .. end]` that is not the background glyph,
/// or the background glyph where there is none.
pub open spec fn first_mark(row: Seq<char>, start: int, end: int) -> char
    decreases end - start,
{
    if start >= end {
        GLYPH_EMPTY
    } else if row[start] != GLYPH_EMPTY {
        row[start]
    } else {
        first_mark(row, start + 1, end)
    }
}

/// One block of `k` glyphs becomes one: the background glyph if the whole
/// block is background; otherwise the rock glyph if the block holds one
/// anywhere; otherwise the first non-background glyph in block order.
pub open spec fn reduce_chunk(row: Seq<char>, start: int, k: int) -> char {
    if chunk_all_empty(row, start, k) {
        GLYPH_EMPTY
    } else if chunk_has_rock(row, start, k) {
        GLYPH_ROCK
    } else {
        first_mark(row, start, start + k)
    }
}

/// A row reduced along its length into blocks of `k`.
pub open spec fn reduce_row_spec(row: Seq<char>, k: int) -> Seq<char> {
    Seq::new((row.len() as int / k) as nat, |b: int| reduce_chunk(row, b * k, k))
}

/// Every row reduced into blocks of `k`.
pub open spec fn reduce_rows_spec(m: Seq<Seq<char>>, k: int) -> Seq<Seq<char>> {
    Seq::new(m.len(), |i: int| reduce_row_spec(m[i], k))
}

/// The grid rotated a quarter turn clockwise: for a `R x C` input the
/// result is `C x R` with `out[i][j] == m[R - 1 - j][i]`.
pub open spec fn rotate_cw_spec(m: Seq<Seq<char>>) -> Seq<Seq<char>> {
    let rows = m.len() as int;
    let cols = if m.len() == 0 { 0int } else { m[0].len() as int };
    Seq::new(cols as nat, |i: int| Seq::new(rows as nat, |j: int| m[rows - 1 - j][i]))
}

/// The grid rotated a quarter turn counter-clockwise: for a `R x C` input
/// the result is `C x R` with `out[i][j] == m[j][C - 1 - i]`.
pub open spec fn rotate_ccw_spec(m: Seq<Seq<char>>) -> Seq<Seq<char>> {
    let rows = m.len() as int;
    let cols = if m.len() == 0 { 0int } else { m[0].len() as int };
    Seq::new(cols as nat, |i: int| Seq::new(rows as nat, |j: int| m[j][cols - 1 - i]))
}

/// The rows in reverse order, so that row 0 prints last (at the bottom).
pub open spec fn flip_rows_spec(m: Seq<Seq<char>>) -> Seq<Seq<char>> {
    Seq::new(m.len(), |i: int| m[m.len() - 1 - i])
}

/// What `render` leaves in the scaled matrix: every row reduced into blocks
/// of `k`, a quarter turn, the rotated rows reduced the same way, the turn
/// undone, and a vertical flip so that the cell at grid coordinate `(0, 0)`
/// prints at the bottom left.
pub open spec fn render_spec(m: Seq<Seq<char>>, k: int) -> Seq<Seq<char>> {
    flip_rows_spec(
        rotate_ccw_spec(reduce_rows_spec(rotate_cw_spec(reduce_rows_spec(m, k)), k)),
    )
}

/// Extending the scanned range by one glyph keeps an already-found first
/// mark, and otherwise picks up the new glyph if it is marked.
proof fn lemma_first_mark_extend(row: Seq<char>, start: int, end: int)
    requires
        start <= end,
    ensures
        first_mark(row, start, end + 1) == (if first_mark(row, start, end) != GLYPH_EMPTY {
            first_mark(row, start, end)
        } else if row[end] != GLYPH_EMPTY {
            row[end]
        } else {
            GLYPH_EMPTY
        }),
    decreases end - start,
{
    reveal_with_fuel(first_mark, 3);
    if start < end {
        lemma_first_mark_extend(row, start + 1, end);
    }
}

/// One block of `scale` glyphs reduced to one, by a single scan.
#[verifier::loop_isolation(false)]
fn reduce_block(row: &Vec<char>, start: usize, k: usize) -> (c: char)
    requires
        start + k <= row@.len(),
        1 <= k,
    ensures
        c == reduce_chunk(row@, start as int, k as int),
{
    let n = row.len();
    assert(start + k <= n);
    let mut t: usize = 0;
    let mut saw_rock = false;
    let mut first: char = GLYPH_EMPTY;
    while t < k
        invariant
            0 <= t <= k,
            start + k <= n == row@.len(),
            saw_rock == chunk_has_rock(row@, start as int, t as int),
            first == first_mark(row@, start as int, start + t),
            (first == GLYPH_EMPTY) == chunk_all_empty(row@, start as int, t as int),
        decreases k - t,
    {
        let c = row[start + t];
        proof {
            lemma_first_mark_extend(row@, start as int, start + t);
        }
        if c == GLYPH_ROCK {
            saw_rock = true;
        }
        if c != GLYPH_EMPTY && first == GLYPH_EMPTY {
            first = c;
        }
        assert(chunk_has_rock(row@, start as int, t + 1 as int) == (
            chunk_has_rock(row@, start as int, t as int) || row@[start + t] == GLYPH_ROCK
        )) by {
            if chunk_has_rock(row@, start as int, t as int) {
                let w = choose|w: int|
                    start <= w < start + t && row@[w] == GLYPH_ROCK;
                assert(start <= w < start + t + 1 && row@[w] == GLYPH_ROCK);
            }
            if row@[start + t] == GLYPH_ROCK {
                assert(start <= start + t < start + t + 1);
            }
        }
        t = t + 1;
    }
    if first == GLYPH_EMPTY {
        GLYPH_EMPTY
    } else if saw_rock {
        GLYPH_ROCK
    } else {
        first
    }
}

/// One row reduced into blocks of `scale` glyphs, each block becoming one.
#[verifier::loop_isolation(false)]
fn reduce_row(row: &Vec<char>, scale: i64) -> (r: Vec<char>)
    requires
        1 <= scale,
        row@.len() as int % (scale as int) == 0,
    ensures
        r@ == reduce_row_spec(row@, scale as int),
{
    let n = row.len();
    if n == 0 {
        let empty: Vec<char> = Vec::new();
        assert(empty@ =~= reduce_row_spec(row@, scale as int));
        return empty;
    }
    proof {
        if scale as int > n as int {
            vstd::arithmetic::div_mod::lemma_small_mod(n as nat, scale as nat);
            assert(false);
        }
    }
    let k = scale as usize;
    let blocks = n / k;
    proof {
        vstd::arithmetic::div_mod::lemma_fundamental_div_mod(n as int, k as int);
        assert(n as int == (k as int) * (blocks as int));
        assert((k as int) * (blocks as int) == (blocks as int) * (k as int)) by (nonlinear_arith);
    }
    let mut reduced: Vec<char> = Vec::new();
    let mut b: usize = 0;
    while b < blocks
        invariant
            0 <= b <= blocks,
            n as int == (blocks as int) * (k as int),
            reduced@.len() == b,
            forall|i: int| 0 <= i < b
                ==> reduced@[i] == reduce_chunk(row@, i * (k as int), k as int),
        decreases blocks - b,
    {
        proof {
            assert((b + 1) * (k as int) <= blocks * (k as int)) by (nonlinear_arith)
                requires
                    b + 1 <= blocks,
                    1 <= k,
            ;
            assert(b * (k as int) + (k as int) == (b + 1) * (k as int)) by (nonlinear_arith);
        }
        let start = b * k;
        let c = reduce_block(row, start, k);
        reduced.push(c);
        b = b + 1;
    }
    assert(reduced@ =~= reduce_row_spec(row@, scale as int));
    reduced
}

/// The grid rotated a quarter turn, clockwise or counter-clockwise.
#[verifier::loop_isolation(false)]
fn rotate(m: &Vec<Vec<char>>, clockwise: bool) -> (r: Vec<Vec<char>>)
    requires
        m@.len() >= 1,
        is_grid(grid_view(m@), m@.len() as int, m@[0]@.len() as int),
    ensures
        grid_view(r@) == (if clockwise {
            rotate_cw_spec(grid_view(m@))
        } else {
            rotate_ccw_spec(grid_view(m@))
        }),
{
    let rows = m.len();
    let cols = m[0].len();
    let ghost target = if clockwise {
        rotate_cw_spec(grid_view(m@))
    } else {
        rotate_ccw_spec(grid_view(m@))
    };
    let mut out: Vec<Vec<char>> = Vec::new();
    let mut i: usize = 0;
    while i < cols
        invariant
            0 <= i <= cols,
            out@.len() == i,
            forall|a: int| 0 <= a < i ==> (#[trigger] out@[a])@ == target[a],
        decreases cols - i,
    {
        let mut line: Vec<char> = Vec::new();
        let mut j: usize = 0;
        while j < rows
            invariant
                0 <= j <= rows,
                0 <= i < cols,
                line@.len() == j,
                forall|b: int| 0 <= b < j ==> line@[b] == (if clockwise {
                    grid_view(m@)[rows - 1 - b][i as int]
                } else {
                    grid_view(m@)[b][cols - 1 - i]
                }),
            decreases rows - j,
        {
            proof {
                let src: int = if clockwise {
                    rows - 1 - j as int
                } else {
                    j as int
                };
                assert(grid_view(m@)[src] == m@[src]@);
                assert(grid_view(m@)[src].len() == cols);
            }
            let c = if clockwise {
                m[rows - 1 - j][i]
            } else {
                m[j][cols - 1 - i]
            };
            line.push(c);
            j = j + 1;
        }
        proof {
            assert(line@ =~= target[i as int]);
        }
        out.push(line);
        i = i + 1;
    }
    proof {
        assert(grid_view(out@) =~~= target);
    }
    out
}

/// The rows in reverse order, so that the row of grid coordinate `x == 0`
/// prints last, at the bottom of the output.
#[verifier::loop_isolation(false)]
fn flip_horizontal(m: &Vec<Vec<char>>) -> (r: Vec<Vec<char>>)
    ensures
        grid_view(r@) == flip_rows_spec(grid_view(m@)),
{
    let rows = m.len();
    let mut out: Vec<Vec<char>> = Vec::new();
    let mut i: usize = 0;
    while i < rows
        invariant
            0 <= i <= rows,
            out@.len() == i,
            forall|a: int| 0 <= a < i
                ==> (#[trigger] out@[a])@ == grid_view(m@)[rows - 1 - a],
        decreases rows - i,
    {
        let source = &m[rows - 1 - i];
        let len = source.len();
        let mut line: Vec<char> = Vec::new();
        let mut j: usize = 0;
        while j < len
            invariant
                0 <= j <= len,
                len == source@.len(),
                line@.len() == j,
                forall|b: int| 0 <= b < j ==> line@[b] == source@[b],
            decreases len - j,
        {
            line.push(source[j]);
            j = j + 1;
        }
        proof {
            assert(line@ =~= grid_view(m@)[rows - 1 - i as int]);
        }
        out.push(line);
        i = i + 1;
    }
    proof {
        assert(grid_view(out@) =~~= flip_rows_spec(grid_view(m@)));
    }
    out
}

/// With scale 1 the block reduction changes nothing: each block of one
/// glyph is that glyph.
proof fn lemma_reduce_row_one(row: Seq<char>)
    ensures
        reduce_row_spec(row, 1) =~= row,
{
    assert forall|b: int| 0 <= b < row.len() implies reduce_chunk(row, b, 1) == row[b] by {
        if row[b] == GLYPH_EMPTY {
            assert(chunk_all_empty(row, b, 1));
        } else {
            assert(!chunk_all_empty(row, b, 1));
            if row[b] == GLYPH_ROCK {
                assert(chunk_has_rock(row, b, 1));
            } else {
                assert(!chunk_has_rock(row, b, 1)) by {
                    if chunk_has_rock(row, b, 1) {
                        let w = choose|w: int| b <= w < b + 1 && row[w] == GLYPH_ROCK;
                        assert(w == b);
                    }
                }
                assert(first_mark(row, b, b + 1) == row[b]);
            }
        }
    }
}

/// Law: `render` at scale 1 only reorients the grid. The glyph of the cell
/// at grid coordinate `(x, y)` prints in output row `n - 1 - x`, column
/// `y`: coordinate `(0, 0)` appears at the bottom left of the printed
/// output, and an all-background board reproduces the background glyph
/// everywhere.
pub proof fn lemma_render_scale_one(m: Seq<Seq<char>>, n: int)
    requires
        is_grid(m, n, n),
        1 <= n,
    ensures
        is_grid(render_spec(m, 1), n, n),
        forall|i: int, j: int| 0 <= i < n && 0 <= j < n
            ==> render_spec(m, 1)[i][j] == m[n - 1 - i][j],
{
    let r1 = reduce_rows_spec(m, 1);
    assert forall|a: int| 0 <= a < n implies #[trigger] r1[a] == m[a] by {
        lemma_reduce_row_one(m[a]);
        assert(r1[a] =~= m[a]);
    }
    assert(r1 =~= m);
    let cw = rotate_cw_spec(m);
    assert(cw.len() == n);
    assert(forall|i: int| 0 <= i < n ==> (#[trigger] cw[i]).len() == n);
    let r2 = reduce_rows_spec(cw, 1);
    assert forall|a: int| 0 <= a < n implies #[trigger] r2[a] == cw[a] by {
        lemma_reduce_row_one(cw[a]);
        assert(r2[a] =~= cw[a]);
    }
    assert(r2 =~= cw);
    let ccw = rotate_ccw_spec(cw);
    assert(render_spec(m, 1) == flip_rows_spec(ccw));
    assert forall|i: int, j: int| 0 <= i < n && 0 <= j < n
        implies render_spec(m, 1)[i][j] == m[n - 1 - i][j] by {
        assert(flip_rows_spec(ccw)[i] == ccw[n - 1 - i]);
        assert(ccw[n - 1 - i][j] == cw[j][n - 1 - (n - 1 - i)]);
        assert(cw[j][i] == m[n - 1 - i][j]);
    }
    assert forall|i: int| 0 <= i < n
        implies (#[trigger] render_spec(m, 1)[i]).len() == n by {
        assert(flip_rows_spec(ccw)[i] == ccw[n - 1 - i]);
    }
}

/// A row of background glyphs reduces to a row of background glyphs.
proof fn lemma_reduce_row_all_empty(row: Seq<char>, k: int)
    requires
        1 <= k,
        row.len() as int % k == 0,
        forall|t: int| 0 <= t < row.len() ==> row[t] == GLYPH_EMPTY,
    ensures
        reduce_row_spec(row, k).len() == row.len() as int / k,
        forall|b: int| 0 <= b < row.len() as int / k
            ==> reduce_row_spec(row, k)[b] == GLYPH_EMPTY,
{
    let blocks = row.len() as int / k;
    vstd::arithmetic::div_mod::lemma_fundamental_div_mod(row.len() as int, k);
    assert forall|b: int| 0 <= b < blocks
        implies reduce_row_spec(row, k)[b] == GLYPH_EMPTY by {
        assert((b + 1) * k <= blocks * k) by (nonlinear_arith)
            requires
                b + 1 <= blocks,
                1 <= k,
        ;
        assert(blocks * k == k * blocks) by (nonlinear_arith);
        assert(b * k + k == (b + 1) * k) by (nonlinear_arith);
        assert(chunk_all_empty(row, b * k, k));
    }
}

/// Law: rendering an all-background grid, at any scale that divides the
/// board dimension, yields the background glyph everywhere.
pub proof fn lemma_render_all_empty(m: Seq<Seq<char>>, n: int, k: int)
    requires
        is_grid(m, n, n),
        1 <= k <= n,
        n % k == 0,
        forall|x: int, y: int| 0 <= x < n && 0 <= y < n ==> m[x][y] == GLYPH_EMPTY,
    ensures
        is_grid(render_spec(m, k), n / k, n / k),
        forall|i: int, j: int| 0 <= i < n / k && 0 <= j < n / k
            ==> render_spec(m, k)[i][j] == GLYPH_EMPTY,
{
    let q = n / k;
    vstd::arithmetic::div_mod::lemma_div_is_ordered(k, n, k);
    vstd::arithmetic::div_mod::lemma_div_by_self(k);
    assert(q >= 1);

    let r1 = reduce_rows_spec(m, k);
    assert forall|a: int, b: int| 0 <= a < n && 0 <= b < q
        implies #[trigger] r1[a][b] == GLYPH_EMPTY && r1[a].len() == q by {
        assert(m[a].len() == n);
        lemma_reduce_row_all_empty(m[a], k);
    }
    let cw = rotate_cw_spec(r1);
    assert(r1[0].len() == q) by {
        assert(m[0].len() == n);
        lemma_reduce_row_all_empty(m[0], k);
    }
    assert(cw.len() == q);
    assert forall|a: int, b: int| 0 <= a < q && 0 <= b < n
        implies #[trigger] cw[a][b] == GLYPH_EMPTY && cw[a].len() == n by {
        assert(cw[a][b] == r1[n - 1 - b][a]);
    }
    let r2 = reduce_rows_spec(cw, k);
    assert forall|a: int, b: int| 0 <= a < q && 0 <= b < q
        implies #[trigger] r2[a][b] == GLYPH_EMPTY && r2[a].len() == q by {
        assert(cw[a].len() == n);
        lemma_reduce_row_all_empty(cw[a], k);
    }
    let ccw = rotate_ccw_spec(r2);
    assert(r2[0].len() == q) by {
        assert(cw[0].len() == n);
        lemma_reduce_row_all_empty(cw[0], k);
    }
    assert(ccw.len() == q);
    assert forall|a: int, b: int| 0 <= a < q && 0 <= b < q
        implies #[trigger] ccw[a][b] == GLYPH_EMPTY && ccw[a].len() == q by {
        assert(ccw[a][b] == r2[b][q - 1 - a]);
    }
    let out = flip_rows_spec(ccw);
    assert(render_spec(m, k) == out);
    assert forall|i: int, j: int| 0 <= i < q && 0 <= j < q
        implies #[trigger] out[i][j] == GLYPH_EMPTY && out[i].len() == q by {
        assert(out[i] == ccw[q - 1 - i]);
    }
}

/// A display built over a board snapshot: `matrix` holds one glyph per
/// board cell, and `matrix_scaled` is the reduced render target that every
/// `render` call recomputes.
pub struct GridMap {
    pub board: Board,
    pub matrix: Vec<Vec<char>>,
    pub matrix_scaled: Vec<Vec<char>>,
}

impl GridMap {
    /// The glyph grid matches the board's dimensions exactly.
    pub open spec fn wf(self) -> bool {
        &&& self.board.wf()
        &&& is_grid(grid_view(self.matrix@), self.board.size + 1, self.board.size + 1)
    }

    /// An all-background glyph grid with `size + 1` glyphs per side.
    #[verifier::loop_isolation(false)]
    fn empty_grid(size: i64) -> (g: Vec<Vec<char>>)
        requires
            0 <= size < i64::MAX,
        ensures
            is_grid(grid_view(g@), size + 1, size + 1),
            forall|i: int, j: int| 0 <= i <= size && 0 <= j <= size
                ==> grid_view(g@)[i][j] == GLYPH_EMPTY,
    {
        let mut g: Vec<Vec<char>> = Vec::new();
        let mut x: i64 = 0;
        while x <= size
            invariant
                0 <= x <= size + 1,
                g@.len() == x,
                forall|i: int| 0 <= i < x ==> (#[trigger] g@[i])@.len() == size + 1,
                forall|i: int, j: int| 0 <= i < x && 0 <= j <= size ==> g@[i]@[j] == GLYPH_EMPTY,
            decreases size + 1 - x,
        {
            let mut row: Vec<char> = Vec::new();
            let mut y: i64 = 0;
            while y <= size
                invariant
                    0 <= y <= size + 1,
                    row@.len() == y,
                    forall|j: int| 0 <= j < y ==> row@[j] == GLYPH_EMPTY,
                decreases size + 1 - y,
            {
                row.push(GLYPH_EMPTY);
                y = y + 1;
            }
            g.push(row);
            x = x + 1;
        }
        g
    }

    /// A map over the given board snapshot: one background glyph per board
    /// cell, in both the full matrix and the scaled render target.
    pub fn new(board: Board) -> (m: GridMap)
        requires
            board.wf(),
        ensures
            m.wf(),
            m.board == board,
            forall|i: int, j: int| 0 <= i <= board.size && 0 <= j <= board.size
                ==> grid_view(m.matrix@)[i][j] == GLYPH_EMPTY,
            grid_view(m.matrix_scaled@) == grid_view(m.matrix@),
    {
        let matrix = Self::empty_grid(board.size);
        let matrix_scaled = Self::empty_grid(board.size);
        proof {
            assert(grid_view(matrix_scaled@) =~~= grid_view(matrix@));
        }
        GridMap { board, matrix, matrix_scaled }
    }

    /// Place a glyph on the specified location; a later plot overwrites an
    /// earlier one.
    pub fn plot_entity(&mut self, location: &Location, c: char)
        requires
            old(self).wf(),
            location.wf(),
            location.max == old(self).board.size,
        ensures
            final(self).wf(),
            final(self).board == old(self).board,
            grid_view(final(self).matrix_scaled@) == grid_view(old(self).matrix_scaled@),
            forall|i: int, j: int|
                0 <= i <= old(self).board.size && 0 <= j <= old(self).board.size
                    ==> grid_view(final(self).matrix@)[i][j] == (if i == location.x as int
                        && j == location.y as int {
                        c
                    } else {
                        grid_view(old(self).matrix@)[i][j]
                    }),
    {
        let n = self.matrix.len();
        assert(n == old(self).board.size + 1);
        assert(0 <= (location.x as int) && (location.x as int) < (n as int));
        let x = location.x as usize;
        assert(grid_view(self.matrix@)[x as int] == self.matrix@[x as int]@);
        assert(self.matrix@[x as int]@.len() == n);
        assert(0 <= (location.y as int) && (location.y as int) < (n as int));
        let y = location.y as usize;
        self.matrix[x][y] = c;
        assert(self.matrix@[x as int]@ == old(self).matrix@[x as int]@.update(y as int, c));
        proof {
            assert forall|i: int| 0 <= i <= old(self).board.size
                implies (#[trigger] grid_view(self.matrix@)[i]).len()
                    == old(self).board.size + 1 by {
                assert(grid_view(self.matrix@)[i] == self.matrix@[i]@);
                assert(grid_view(old(self).matrix@)[i] == old(self).matrix@[i]@);
            }
            assert forall|i: int, j: int|
                0 <= i <= old(self).board.size && 0 <= j <= old(self).board.size
                implies grid_view(self.matrix@)[i][j] == (if i == location.x as int
                    && j == location.y as int {
                    c
                } else {
                    grid_view(old(self).matrix@)[i][j]
                }) by {
                assert(grid_view(self.matrix@)[i] == self.matrix@[i]@);
                assert(grid_view(old(self).matrix@)[i] == old(self).matrix@[i]@);
            }
        }
    }

    /// Place a glyph on every location of a batch.
    #[verifier::loop_isolation(false)]
    pub fn plot_entities(&mut self, locations: &Vec<Location>, c: char)
        requires
            old(self).wf(),
            forall|k: int| 0 <= k < locations@.len() ==> (#[trigger] locations@[k]).wf()
                && locations@[k].max == old(self).board.size,
        ensures
            final(self).wf(),
            final(self).board == old(self).board,
            grid_view(final(self).matrix_scaled@) == grid_view(old(self).matrix_scaled@),
            forall|i: int, j: int|
                0 <= i <= old(self).board.size && 0 <= j <= old(self).board.size
                    ==> grid_view(final(self).matrix@)[i][j] == (if (exists|k: int|
                        0 <= k < locations@.len() && locations@[k].x == i && locations@[k].y
                            == j) {
                        c
                    } else {
                        grid_view(old(self).matrix@)[i][j]
                    }),
    {
        let total = locations.len();
        let mut idx: usize = 0;
        while idx < total
            invariant
                0 <= idx <= total,
                self.wf(),
                self.board == old(self).board,
                grid_view(self.matrix_scaled@) == grid_view(old(self).matrix_scaled@),
                forall|i: int, j: int|
                    0 <= i <= old(self).board.size && 0 <= j <= old(self).board.size
                        ==> grid_view(self.matrix@)[i][j] == (if (exists|k: int|
                            0 <= k < idx && locations@[k].x == i && locations@[k].y == j) {
                            c
                        } else {
                            grid_view(old(self).matrix@)[i][j]
                        }),
            decreases total - idx,
        {
            let l = locations[idx];
            let ghost before = grid_view(self.matrix@);
            self.plot_entity(&l, c);
            proof {
                assert forall|i: int, j: int|
                    0 <= i <= old(self).board.size && 0 <= j <= old(self).board.size
                    implies grid_view(self.matrix@)[i][j] == (if (exists|k: int|
                        0 <= k < idx + 1 && locations@[k].x == i && locations@[k].y == j) {
                        c
                    } else {
                        grid_view(old(self).matrix@)[i][j]
                    }) by {
                    if i == l.x as int && j == l.y as int {
                        assert(locations@[idx as int].x == i && locations@[idx as int].y == j);
                    } else {
                        if exists|k: int|
                            0 <= k < idx + 1 && locations@[k].x == i && locations@[k].y == j {
                            let k = choose|k: int|
                                0 <= k < idx + 1 && locations@[k].x == i && locations@[k].y
                                    == j;
                            assert(k < idx);
                            assert(before[i][j] == c);
                        }
                    }
                }
            }
            idx = idx + 1;
        }
    }

    /// Reduce the glyph grid by `scale` along both axes into the render
    /// target: every row reduced blockwise, a quarter turn, the rotated
    /// rows reduced the same way, the turn undone, and a final flip so that
    /// grid coordinate `(0, 0)` prints at the bottom left. The board
    /// dimension must be evenly divisible by the scale factor. The map
    /// writes to no output stream; printing the result is the driver's
    /// concern.
    #[verifier::loop_isolation(false)]
    pub fn render(&mut self, scale: i64)
        requires
            old(self).wf(),
            1 <= scale,
            (old(self).board.size + 1) as int % (scale as int) == 0,
        ensures
            final(self).wf(),
            final(self).board == old(self).board,
            grid_view(final(self).matrix@) == grid_view(old(self).matrix@),
            grid_view(final(self).matrix_scaled@)
                == render_spec(grid_view(old(self).matrix@), scale as int),
            is_grid(
                grid_view(final(self).matrix_scaled@),
                (old(self).board.size + 1) as int / (scale as int),
                (old(self).board.size + 1) as int / (scale as int),
            ),
    {
        let n = self.matrix.len();
        let ghost k = scale as int;
        let ghost q = n as int / k;
        proof {
            if k > n as int {
                vstd::arithmetic::div_mod::lemma_small_mod(n as nat, k as nat);
                assert(false);
            }
            vstd::arithmetic::div_mod::lemma_div_is_ordered(k, n as int, k);
            vstd::arithmetic::div_mod::lemma_div_by_self(k);
            assert(q >= 1);
        }

        // reduce the x-axis within every row
        let mut stage: Vec<Vec<char>> = Vec::new();
        let mut i: usize = 0;
        while i < n
            invariant
                0 <= i <= n,
                stage@.len() == i,
                forall|a: int| 0 <= a < i ==> (#[trigger] stage@[a])@
                    == reduce_row_spec(grid_view(self.matrix@)[a], k),
            decreases n - i,
        {
            proof {
                assert(grid_view(self.matrix@)[i as int] == self.matrix@[i as int]@);
                assert(grid_view(self.matrix@)[i as int].len() == n);
            }
            let reduced_row = reduce_row(&self.matrix[i], scale);
            stage.push(reduced_row);
            i = i + 1;
        }
        proof {
            assert(grid_view(stage@) =~~= reduce_rows_spec(grid_view(self.matrix@), k));
            assert forall|a: int| 0 <= a < n
                implies (#[trigger] grid_view(stage@)[a]).len() == q by {
                assert(grid_view(self.matrix@)[a].len() == n);
            }
            assert(is_grid(grid_view(stage@), n as int, q));
        }

        // quarter turn, then reduce what was the y-axis
        let turned = rotate(&stage, true);
        proof {
            assert(is_grid(grid_view(turned@), q, n as int));
        }
        let blocks = turned.len();
        let mut stage2: Vec<Vec<char>> = Vec::new();
        let mut b: usize = 0;
        while b < blocks
            invariant
                0 <= b <= blocks,
                blocks == turned@.len(),
                stage2@.len() == b,
                forall|a: int| 0 <= a < b ==> (#[trigger] stage2@[a])@
                    == reduce_row_spec(grid_view(turned@)[a], k),
            decreases blocks - b,
        {
            proof {
                assert(grid_view(turned@)[b as int] == turned@[b as int]@);
                assert(grid_view(turned@)[b as int].len() == n);
            }
            let reduced_row = reduce_row(&turned[b], scale);
            stage2.push(reduced_row);
            b = b + 1;
        }
        proof {
            assert(grid_view(stage2@) =~~= reduce_rows_spec(grid_view(turned@), k));
            assert forall|a: int| 0 <= a < q
                implies (#[trigger] grid_view(stage2@)[a]).len() == q by {
                assert(grid_view(turned@)[a].len() == n);
            }
            assert(is_grid(grid_view(stage2@), q, q));
        }

        // undo the turn and flip so (0, 0) ends up at the bottom left
        let turned_back = rotate(&stage2, false);
        self.matrix_scaled = flip_horizontal(&turned_back);
        proof {
            let rot = rotate_ccw_spec(grid_view(stage2@));
            assert(grid_view(self.matrix_scaled@) == flip_rows_spec(rot));
            assert(rot.len() == q);
            assert forall|a: int| 0 <= a < q
                implies (#[trigger] grid_view(self.matrix_scaled@)[a]).len() == q by {
                assert(grid_view(self.matrix_scaled@)[a] == rot[q - 1 - a]);
            }
            assert(grid_view(self.matrix_scaled@)
                == render_spec(grid_view(old(self).matrix@), k));
        }
    }
}

} // verus!
