//! The hit grid of the visualisation: the bin is cut into square cells, each
//! cell lists the placements that cover it, and a point or an area is
//! looked up by the cells it falls in. Where a placement lies in the grid is
//! computed from its coordinates; what is here is the bookkeeping of cells
//! and candidates.
use vstd::prelude::*;
use vstd::arithmetic::div_mod::lemma_fundamental_div_mod_converse;

verus! {

/// The cells a placement covers: columns `min_col..=max_col` of rows
/// `min_row..=max_row`.
#[derive(Clone, Copy, Debug, PartialEq, Eq, Structural)]
pub struct CellSpan {
    pub min_col: usize,
    pub max_col: usize,
    pub min_row: usize,
    pub max_row: usize,
}

pub open spec fn covers(s: CellSpan, row: int, col: int) -> bool {
    s.min_row <= row <= s.max_row && s.min_col <= col <= s.max_col
}

/// The indices of the spans that cover a cell, in increasing order.
pub open spec fn covering(spans: Seq<CellSpan>, row: int, col: int) -> Seq<usize>
    decreases spans.len(),
{
    if spans.len() == 0 {
        Seq::empty()
    } else {
        let r = covering(spans.drop_last(), row, col);
        if covers(spans.last(), row, col) {
            r.push((spans.len() - 1) as usize)
        } else {
            r
        }
    }
}

/// The list of the cell in row `row` and column `col` of a grid with `cols`
/// columns, stored row by row.
pub open spec fn cell_of(cells: Seq<Vec<usize>>, cols: int, row: int, col: int) -> Seq<usize> {
    cells[row * cols + col]@
}

/// `cells` is the hit grid of `spans` with `rows` rows and `cols` columns.
pub open spec fn is_grid_of(cells: Seq<Vec<usize>>, cols: int, rows: int, spans: Seq<CellSpan>) -> bool {
    &&& cells.len() == cols * rows
    &&& forall|row: int, col: int|
        0 <= row < rows && 0 <= col < cols ==> #[trigger] cell_of(cells, cols, row, col) == covering(spans, row, col)
}

proof fn lemma_cell_index(cols: int, rows: int, row: int, col: int)
    requires
        0 <= row < rows,
        0 <= col < cols,
    ensures
        0 <= row * cols + col < cols * rows,
{
    assert(0 <= row * cols + col < cols * rows) by (nonlinear_arith)
        requires
            0 <= row < rows,
            0 <= col < cols,
    ;
}

proof fn lemma_cell_index_injective(cols: int, r1: int, c1: int, r2: int, c2: int)
    requires
        0 <= c1 < cols,
        0 <= c2 < cols,
        r1 >= 0,
        r2 >= 0,
        r1 * cols + c1 == r2 * cols + c2,
    ensures
        r1 == r2 && c1 == c2,
{
    let x = r1 * cols + c1;
    assert(x == cols * r1 + c1) by (nonlinear_arith)
        requires
            x == r1 * cols + c1,
    ;
    assert(x == cols * r2 + c2) by (nonlinear_arith)
        requires
            x == r2 * cols + c2,
    ;
    lemma_fundamental_div_mod_converse(x, cols, r1, c1);
    lemma_fundamental_div_mod_converse(x, cols, r2, c2);
}

/// The hit grid of placements, given the cells each covers: `rows` rows of
/// `cols` cells, stored row by row, each listing in increasing order the
/// indices of the placements that cover it.
pub fn fill_hit_cells(cols: usize, rows: usize, spans: &Vec<CellSpan>) -> (cells: Vec<Vec<usize>>)
    requires
        cols >= 1,
        rows >= 1,
        cols * rows <= usize::MAX,
        forall|i: int| 0 <= i < spans@.len() ==> (#[trigger] spans@[i]).max_col < cols && spans@[i].max_row < rows,
    ensures
        is_grid_of(cells@, cols as int, rows as int, spans@),
{
    let size: usize = cols * rows;
    let mut cells: Vec<Vec<usize>> = Vec::new();
    let mut c: usize = 0;
    while c < size
        invariant
            c <= size,
            cells@.len() == c,
            forall|i: int| 0 <= i < c ==> (#[trigger] cells@[i])@.len() == 0,
        decreases size - c,
    {
        cells.push(Vec::new());
        c += 1;
    }
    assert forall|row: int, col: int| 0 <= row < rows && 0 <= col < cols implies #[trigger] cell_of(
        cells@,
        cols as int,
        row,
        col,
    ) == covering(spans@.take(0), row, col) by {
        lemma_cell_index(cols as int, rows as int, row, col);
        assert(cells@[row * cols + col]@ =~= Seq::<usize>::empty());
    }
    let mut idx: usize = 0;
    while idx < spans.len()
        invariant
            idx <= spans@.len(),
            cols >= 1,
            rows >= 1,
            size == cols * rows,
            cells@.len() == size,
            forall|i: int| 0 <= i < spans@.len() ==> (#[trigger] spans@[i]).max_col < cols && spans@[i].max_row < rows,
            forall|row: int, col: int|
                0 <= row < rows && 0 <= col < cols ==> #[trigger] cell_of(cells@, cols as int, row, col) == covering(
                    spans@.take(idx as int),
                    row,
                    col,
                ),
        decreases spans@.len() - idx,
    {
        let s = spans[idx];
        let ghost before = spans@.take(idx as int);
        assert(spans@.take(idx + 1).drop_last() == before);
        assert(spans@.take(idx + 1).last() == s);
        let mut row: usize = s.min_row;
        while s.min_row <= s.max_row && row <= s.max_row
            invariant
                s == spans@[idx as int],
                s.max_col < cols,
                s.max_row < rows,
                row == s.min_row || s.min_row <= row <= s.max_row + 1,
                row <= s.max_row + 1 || s.min_row > s.max_row,
                cols >= 1,
                size == cols * rows,
                cells@.len() == size,
                idx < spans@.len(),
                before == spans@.take(idx as int),
                forall|r: int, c: int|
                    0 <= r < rows && 0 <= c < cols ==> #[trigger] cell_of(cells@, cols as int, r, c) == if covers(s, r, c)
                        && r < row {
                        covering(before, r, c).push(idx)
                    } else {
                        covering(before, r, c)
                    },
            decreases s.max_row + 1 - row,
        {
            let mut col: usize = s.min_col;
            while s.min_col <= s.max_col && col <= s.max_col
                invariant
                    s == spans@[idx as int],
                    s.max_col < cols,
                    s.max_row < rows,
                    s.min_row <= row <= s.max_row,
                    col == s.min_col || s.min_col <= col <= s.max_col + 1,
                    cols >= 1,
                    size == cols * rows,
                    cells@.len() == size,
                    idx < spans@.len(),
                    before == spans@.take(idx as int),
                    forall|r: int, c: int|
                        0 <= r < rows && 0 <= c < cols ==> #[trigger] cell_of(cells@, cols as int, r, c) == if covers(s, r, c)
                            && (r < row || (r == row && c < col)) {
                            covering(before, r, c).push(idx)
                        } else {
                            covering(before, r, c)
                        },
                decreases s.max_col + 1 - col,
            {
                proof {
                    lemma_cell_index(cols as int, rows as int, row as int, col as int);
                }
                let at: usize = row * cols + col;
                let ghost old_cells = cells@;
                cells[at].push(idx);
                assert forall|r: int, c: int| 0 <= r < rows && 0 <= c < cols implies #[trigger] cell_of(
                    cells@,
                    cols as int,
                    r,
                    c,
                ) == if covers(s, r, c) && (r < row || (r == row && c < col + 1)) {
                    covering(before, r, c).push(idx)
                } else {
                    covering(before, r, c)
                } by {
                    lemma_cell_index(cols as int, rows as int, r, c);
                    if r == row && c == col {
                        assert(r * cols + c == at);
                        assert(cells@[at as int]@ == old_cells[at as int]@.push(idx));
                        assert(covers(s, r, c));
                        assert(cell_of(old_cells, cols as int, r, c) == covering(before, r, c));
                    } else {
                        if r * cols + c == at {
                            lemma_cell_index_injective(cols as int, r, c, row as int, col as int);
                        }
                        assert(cells@[r * cols + c] == old_cells[r * cols + c]);
                        assert(cell_of(old_cells, cols as int, r, c) == cell_of(cells@, cols as int, r, c));
                    }
                }
                col += 1;
            }
            row += 1;
        }
        assert forall|r: int, c: int| 0 <= r < rows && 0 <= c < cols implies #[trigger] cell_of(
            cells@,
            cols as int,
            r,
            c,
        ) == covering(spans@.take(idx + 1), r, c) by {}
        idx += 1;
    }
    assert(spans@.take(idx as int) == spans@);
    cells
}

// ───────────────────────────── lookup ─────────────────────────────

/// The lists of the cells `min_col, min_col + 1, ...` (`n` of them) of row
/// `row`, one after the other.
pub open spec fn row_items(cells: Seq<Vec<usize>>, cols: int, row: int, min_col: int, n: nat) -> Seq<usize>
    decreases n,
{
    if n == 0 {
        Seq::empty()
    } else {
        row_items(cells, cols, row, min_col, (n - 1) as nat) + cell_of(cells, cols, row, min_col + n - 1)
    }
}

/// The lists of the cells of `nrows` rows from `min_row` on, and of `ncols`
/// columns from `min_col` on, row after row.
pub open spec fn range_items(cells: Seq<Vec<usize>>, cols: int, min_row: int, nrows: nat, min_col: int, ncols: nat) -> Seq<
    usize,
>
    decreases nrows,
{
    if nrows == 0 {
        Seq::empty()
    } else {
        range_items(cells, cols, min_row, (nrows - 1) as nat, min_col, ncols) + row_items(
            cells,
            cols,
            min_row + nrows - 1,
            min_col,
            ncols,
        )
    }
}

/// The elements of `s` below `count`, each once, where it first occurs.
pub open spec fn dedup_below(s: Seq<usize>, count: int) -> Seq<usize>
    decreases s.len(),
{
    if s.len() == 0 {
        Seq::empty()
    } else {
        let r = dedup_below(s.drop_last(), count);
        if s.last() < count && !r.contains(s.last()) {
            r.push(s.last())
        } else {
            r
        }
    }
}

pub open spec fn span_len(lo: int, hi: int) -> nat {
    if lo <= hi {
        (hi - lo + 1) as nat
    } else {
        0
    }
}

/// The placements to test at a point or an area: those listed in the cells
/// of rows `min_row..=max_row` and columns `min_col..=max_col` whose index
/// is below `count`, each once, in the order first met row by row; or every
/// index below `count` when there is none.
pub open spec fn candidates_view(
    cells: Seq<Vec<usize>>,
    cols: int,
    min_row: int,
    max_row: int,
    min_col: int,
    max_col: int,
    count: int,
) -> Seq<usize> {
    let found = dedup_below(
        range_items(cells, cols, min_row, span_len(min_row, max_row), min_col, span_len(min_col, max_col)),
        count,
    );
    if found.len() == 0 {
        Seq::new(count as nat, |i: int| i as usize)
    } else {
        found
    }
}

/// Whether `x` is in `v`.
pub(crate) fn contains_index(v: &Vec<usize>, x: usize) -> (r: bool)
    ensures
        r == v@.contains(x),
{
    let mut i: usize = 0;
    while i < v.len()
        invariant
            i <= v.len(),
            forall|j: int| 0 <= j < i ==> v@[j] != x,
        decreases v.len() - i,
    {
        if v[i] == x {
            return true;
        }
        i += 1;
    }
    false
}

/// The placements to test at the cells of rows `min_row..=max_row` and
/// columns `min_col..=max_col` of a hit grid with `cols` columns (see
/// `candidates_view`).
pub fn grid_candidates(
    cells: &Vec<Vec<usize>>,
    cols: usize,
    rows: usize,
    min_row: usize,
    max_row: usize,
    min_col: usize,
    max_col: usize,
    count: usize,
) -> (r: Vec<usize>)
    requires
        cols >= 1,
        cells@.len() == cols * rows,
        max_row < rows,
        max_col < cols,
    ensures
        r@ == candidates_view(cells@, cols as int, min_row as int, max_row as int, min_col as int, max_col as int, count as int),
{
    let ghost ncols = span_len(min_col as int, max_col as int);
    let total_cells = cells.len();
    assert(cols * rows <= usize::MAX);
    let mut out: Vec<usize> = Vec::new();
    let mut row: usize = min_row;
    while min_row <= max_row && row <= max_row
        invariant
            cols >= 1,
            cells@.len() == cols * rows,
            cols * rows <= usize::MAX,
            max_row < rows,
            max_col < cols,
            ncols == span_len(min_col as int, max_col as int),
            row == min_row || min_row <= row <= max_row + 1,
            out@ == dedup_below(
                range_items(cells@, cols as int, min_row as int, (row - min_row) as nat, min_col as int, ncols),
                count as int,
            ),
        decreases max_row + 1 - row,
    {
        let ghost done = range_items(cells@, cols as int, min_row as int, (row - min_row) as nat, min_col as int, ncols);
        let mut col: usize = min_col;
        while min_col <= max_col && col <= max_col
            invariant
                cols >= 1,
                cells@.len() == cols * rows,
                cols * rows <= usize::MAX,
                row <= max_row < rows,
                max_col < cols,
                min_row <= row,
                ncols == span_len(min_col as int, max_col as int),
                col == min_col || min_col <= col <= max_col + 1,
                done == range_items(cells@, cols as int, min_row as int, (row - min_row) as nat, min_col as int, ncols),
                out@ == dedup_below(
                    done + row_items(cells@, cols as int, row as int, min_col as int, (col - min_col) as nat),
                    count as int,
                ),
            decreases max_col + 1 - col,
        {
            proof {
                lemma_cell_index(cols as int, rows as int, row as int, col as int);
            }
            let cell = &cells[row * cols + col];
            let ghost prefix = done + row_items(cells@, cols as int, row as int, min_col as int, (col - min_col) as nat);
            assert(prefix + cell@.take(0) == prefix);
            let mut k: usize = 0;
            while k < cell.len()
                invariant
                    k <= cell@.len(),
                    out@ == dedup_below(prefix + cell@.take(k as int), count as int),
                decreases cell@.len() - k,
            {
                let idx = cell[k];
                assert((prefix + cell@.take(k + 1)).drop_last() == prefix + cell@.take(k as int));
                assert((prefix + cell@.take(k + 1)).last() == idx);
                if idx < count && !contains_index(&out, idx) {
                    out.push(idx);
                }
                k += 1;
            }
            assert(cell@.take(k as int) == cell@);
            assert(cell@ == cell_of(cells@, cols as int, row as int, col as int));
            assert(row_items(cells@, cols as int, row as int, min_col as int, (col + 1 - min_col) as nat)
                == row_items(cells@, cols as int, row as int, min_col as int, (col - min_col) as nat) + cell@);
            assert(done + row_items(cells@, cols as int, row as int, min_col as int, (col + 1 - min_col) as nat)
                == prefix + cell@);
            col += 1;
        }
        proof {
            if min_col <= max_col {
                assert((col - min_col) as nat == ncols);
            } else {
                assert(col == min_col);
                assert(ncols == 0);
            }
        }
        assert(range_items(cells@, cols as int, min_row as int, (row + 1 - min_row) as nat, min_col as int, ncols)
            == done + row_items(cells@, cols as int, row as int, min_col as int, ncols));
        row += 1;
    }
    proof {
        if min_row <= max_row {
            assert((row - min_row) as nat == span_len(min_row as int, max_row as int));
        } else {
            assert(row == min_row);
        }
    }
    if out.len() == 0 {
        let mut all: Vec<usize> = Vec::new();
        let mut i: usize = 0;
        while i < count
            invariant
                i <= count,
                all@ == Seq::new(i as nat, |j: int| j as usize),
            decreases count - i,
        {
            all.push(i);
            assert(all@ =~= Seq::new((i + 1) as nat, |j: int| j as usize));
            i += 1;
        }
        all
    } else {
        out
    }
}

// ───────────────────────────── laws ─────────────────────────────

proof fn lemma_covering_contains(spans: Seq<CellSpan>, row: int, col: int, idx: int)
    requires
        0 <= idx < spans.len(),
        idx <= usize::MAX,
        covers(spans[idx], row, col),
    ensures
        covering(spans, row, col).contains(idx as usize),
    decreases spans.len(),
{
    let r = covering(spans.drop_last(), row, col);
    if idx == spans.len() - 1 {
        assert(covering(spans, row, col).last() == idx as usize);
        assert(covering(spans, row, col)[covering(spans, row, col).len() - 1] == idx as usize);
    } else {
        assert(spans.drop_last()[idx] == spans[idx]);
        lemma_covering_contains(spans.drop_last(), row, col, idx);
        let k = choose|k: int| 0 <= k < r.len() && r[k] == idx as usize;
        if covers(spans.last(), row, col) {
            assert(r.push((spans.len() - 1) as usize)[k] == idx as usize);
        }
    }
}

proof fn lemma_row_items_contains(cells: Seq<Vec<usize>>, cols: int, row: int, min_col: int, n: nat, j: int, x: usize)
    requires
        0 <= j < n,
        cell_of(cells, cols, row, min_col + j).contains(x),
    ensures
        row_items(cells, cols, row, min_col, n).contains(x),
    decreases n,
{
    let prev = row_items(cells, cols, row, min_col, (n - 1) as nat);
    let last = cell_of(cells, cols, row, min_col + n - 1);
    if j == n - 1 {
        let k = choose|k: int| 0 <= k < last.len() && last[k] == x;
        assert((prev + last)[prev.len() + k] == x);
    } else {
        lemma_row_items_contains(cells, cols, row, min_col, (n - 1) as nat, j, x);
        let k = choose|k: int| 0 <= k < prev.len() && prev[k] == x;
        assert((prev + last)[k] == x);
    }
}

proof fn lemma_range_items_contains(
    cells: Seq<Vec<usize>>,
    cols: int,
    min_row: int,
    nrows: nat,
    min_col: int,
    ncols: nat,
    i: int,
    x: usize,
)
    requires
        0 <= i < nrows,
        row_items(cells, cols, min_row + i, min_col, ncols).contains(x),
    ensures
        range_items(cells, cols, min_row, nrows, min_col, ncols).contains(x),
    decreases nrows,
{
    let prev = range_items(cells, cols, min_row, (nrows - 1) as nat, min_col, ncols);
    let last = row_items(cells, cols, min_row + nrows - 1, min_col, ncols);
    if i == nrows - 1 {
        let k = choose|k: int| 0 <= k < last.len() && last[k] == x;
        assert((prev + last)[prev.len() + k] == x);
    } else {
        lemma_range_items_contains(cells, cols, min_row, (nrows - 1) as nat, min_col, ncols, i, x);
        let k = choose|k: int| 0 <= k < prev.len() && prev[k] == x;
        assert((prev + last)[k] == x);
    }
}

/// What `dedup_below` keeps: each element below `count`, once.
proof fn lemma_dedup_below(s: Seq<usize>, count: int)
    ensures
        forall|x: usize| #[trigger] dedup_below(s, count).contains(x) <==> (x < count && s.contains(x)),
        forall|i: int, j: int|
            0 <= i < j < dedup_below(s, count).len() ==> #[trigger] dedup_below(s, count)[i] != #[trigger] dedup_below(
                s,
                count,
            )[j],
    decreases s.len(),
{
    if s.len() > 0 {
        let p = s.drop_last();
        lemma_dedup_below(p, count);
        let r = dedup_below(p, count);
        assert forall|x: usize| #[trigger] dedup_below(s, count).contains(x) <==> (x < count && s.contains(x)) by {
            if s.contains(x) {
                let k = choose|k: int| 0 <= k < s.len() && s[k] == x;
                if k < s.len() - 1 {
                    assert(p[k] == x);
                    assert(p.contains(x));
                }
            }
            if p.contains(x) {
                let k = choose|k: int| 0 <= k < p.len() && p[k] == x;
                assert(s[k] == x);
            }
            if dedup_below(s, count).contains(x) && x != s.last() {
                if s.last() < count && !r.contains(s.last()) {
                    let k = choose|k: int| 0 <= k < r.len() + 1 && r.push(s.last())[k] == x;
                    assert(r[k] == x);
                }
            }
            if x == s.last() && x < count {
                if !r.contains(s.last()) {
                    assert(r.push(s.last())[r.len() as int] == x);
                }
            }
            if r.contains(x) {
                let k = choose|k: int| 0 <= k < r.len() && r[k] == x;
                if s.last() < count && !r.contains(s.last()) {
                    assert(r.push(s.last())[k] == x);
                }
            }
        }
    }
}

/// The hit grid loses no placement: a placement below `count` that covers a
/// cell of the rows and columns looked up is among the candidates. The
/// candidates are all below `count` and none is listed twice.
pub proof fn lemma_covering_placement_is_candidate(
    cells: Seq<Vec<usize>>,
    cols: int,
    rows: int,
    spans: Seq<CellSpan>,
    idx: int,
    row: int,
    col: int,
    min_row: int,
    max_row: int,
    min_col: int,
    max_col: int,
    count: int,
)
    requires
        is_grid_of(cells, cols, rows, spans),
        0 <= idx < spans.len(),
        idx < count <= usize::MAX,
        covers(spans[idx], row, col),
        0 <= min_row <= row <= max_row < rows,
        0 <= min_col <= col <= max_col < cols,
    ensures
        candidates_view(cells, cols, min_row, max_row, min_col, max_col, count).contains(idx as usize),
        forall|i: int|
            0 <= i < candidates_view(cells, cols, min_row, max_row, min_col, max_col, count).len()
                ==> #[trigger] candidates_view(cells, cols, min_row, max_row, min_col, max_col, count)[i] < count,
        forall|i: int, j: int|
            0 <= i < j < candidates_view(cells, cols, min_row, max_row, min_col, max_col, count).len()
                ==> #[trigger] candidates_view(cells, cols, min_row, max_row, min_col, max_col, count)[i]
                != #[trigger] candidates_view(cells, cols, min_row, max_row, min_col, max_col, count)[j],
{
    let x = idx as usize;
    lemma_covering_contains(spans, row, col, idx);
    assert(cell_of(cells, cols, row, col) == covering(spans, row, col));
    let ncols = span_len(min_col, max_col);
    let nrows = span_len(min_row, max_row);
    assert(min_col + (col - min_col) == col);
    lemma_row_items_contains(cells, cols, row, min_col, ncols, col - min_col, x);
    assert(min_row + (row - min_row) == row);
    lemma_range_items_contains(cells, cols, min_row, nrows, min_col, ncols, row - min_row, x);
    let items = range_items(cells, cols, min_row, nrows, min_col, ncols);
    lemma_dedup_below(items, count);
    let found = dedup_below(items, count);
    assert(found.contains(x));
    assert forall|i: int| 0 <= i < found.len() implies #[trigger] found[i] < count by {
        assert(found.contains(found[i]));
    }
}

} // verus!
