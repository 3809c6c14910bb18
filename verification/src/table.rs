//! A table formatter for text user interfaces.
//!
//! A [`Table`] owns rows of cells and a layout configuration: a space
//! budget, per-column priorities, an alignment mode and a surround flag.
//! Rendering measures every column, drops the lowest-priority columns
//! until the table fits the budget, aligns each cell within its column
//! and joins the cells of each row into one line of exactly the budgeted
//! display width.

use crate::align;
use crate::align::{
    around_layout, between_layout, center_layout, left_layout, right_layout, spaces, str_width,
    total_width, total_width_from,
};
use vstd::prelude::*;
use vstd::slice::slice_to_vec;

verus! {

/// Represents the data in a table: rows, and within them, columns.
pub type Data = Vec<Vec<String>>;

/// Largest display width among the strings from index `i` on.
pub open spec fn max_width_from(ws: Seq<Seq<char>>, i: int) -> nat
    decreases ws.len() - i,
{
    if i < 0 || i >= ws.len() {
        0nat
    } else {
        let w = str_width(ws[i]);
        let rest = max_width_from(ws, i + 1);
        if w >= rest {
            w
        } else {
            rest
        }
    }
}

/// Largest display width among a list of strings (0 if there are none).
pub open spec fn max_width(ws: Seq<Seq<char>>) -> nat {
    max_width_from(ws, 0)
}

proof fn lemma_max_width_from_bound(ws: Seq<Seq<char>>, j: int, i: int)
    requires
        0 <= j <= i < ws.len(),
    ensures
        str_width(ws[i]) <= max_width_from(ws, j),
    decreases i - j,
{
    if j < i {
        lemma_max_width_from_bound(ws, j + 1, i);
    }
}

/// Find the display width of the longest string in a list of strings.
pub fn find_longest(column: &Vec<String>) -> (r: usize)
    ensures
        r == max_width(column.deep_view()),
{
    let ghost ws = column.deep_view();
    let mut r: usize = 0;
    let mut i: usize = 0;
    while i < column.len()
        invariant
            i <= column.len(),
            ws == column.deep_view(),
            max_width(ws) == if r as nat >= max_width_from(ws, i as int) {
                r as nat
            } else {
                max_width_from(ws, i as int)
            },
        decreases column.len() - i,
    {
        let w = align::display_width(column[i].as_str());
        if w > r {
            r = w;
        }
        i = i + 1;
    }
    r
}

/// For setting the alignment of cells within the table.
pub enum Align {
    Left,
    Center,
    Right,
}

impl Default for Align {
    fn default() -> (a: Align)
        ensures
            a is Left,
    {
        Align::Left
    }
}

/// The cells of column `j`, one per row.
pub open spec fn column(rows: Seq<Seq<Seq<char>>>, j: int) -> Seq<Seq<char>> {
    rows.map_values(|row: Seq<Seq<char>>| row[j])
}

/// Required width of column `j`: the widest cell in it.
pub open spec fn col_width(rows: Seq<Seq<Seq<char>>>, j: int) -> nat {
    max_width(column(rows, j))
}

/// Priority of column `j`: its entry in the priority list, or 0 (lowest)
/// for a column the list does not cover.
pub open spec fn eff_prio(pris: Seq<usize>, j: int) -> int {
    if 0 <= j < pris.len() {
        pris[j] as int
    } else {
        0int
    }
}

/// A table whose rows disagree in column count: some row is shorter than
/// the first one.
pub open spec fn ragged(rows: Seq<Seq<Seq<char>>>) -> bool {
    exists|r: int| 0 <= r < rows.len() && (#[trigger] rows[r]).len() < rows[0].len()
}

/// A surviving column is a triple of its index in the rows, its required
/// width, and its priority. The initial layout keeps every column.
pub open spec fn table_columns(rows: Seq<Seq<Seq<char>>>, pris: Seq<usize>) -> Seq<(int, int, int)> {
    Seq::new(rows[0].len(), |j: int| (j, col_width(rows, j) as int, eff_prio(pris, j)))
}

/// Number of padding gaps a row of `n` columns needs: one per outer edge
/// and between columns when surrounded, only between columns otherwise,
/// and none at all for an empty row.
pub open spec fn pad_places(n: int, surround: bool) -> int {
    if n <= 0 {
        0int
    } else if surround {
        n + 1
    } else {
        n - 1
    }
}

/// Sum of the required widths of the columns from index `i` on.
pub open spec fn cols_width(cols: Seq<(int, int, int)>, i: int) -> int
    decreases cols.len() - i,
{
    if i < 0 || i >= cols.len() {
        0int
    } else {
        cols[i].1 + cols_width(cols, i + 1)
    }
}

/// Leftmost lowest-priority column among the first `n`.
pub open spec fn min_prio_upto(cols: Seq<(int, int, int)>, n: int) -> int
    decreases n,
{
    if n <= 1 {
        0int
    } else {
        let b = min_prio_upto(cols, n - 1);
        if cols[n - 1].2 < cols[b].2 {
            n - 1
        } else {
            b
        }
    }
}

/// Leftmost lowest-priority column.
pub open spec fn min_prio_index(cols: Seq<(int, int, int)>) -> int {
    min_prio_upto(cols, cols.len() as int)
}

proof fn lemma_min_prio_upto_range(cols: Seq<(int, int, int)>, n: int)
    requires
        1 <= n,
    ensures
        0 <= min_prio_upto(cols, n) < n,
    decreases n,
{
    if n > 1 {
        lemma_min_prio_upto_range(cols, n - 1);
    }
}

/// The columns fit: their widths plus the padding they require stay
/// within the space budget.
pub open spec fn fits(cols: Seq<(int, int, int)>, surround: bool, space: int) -> bool {
    cols_width(cols, 0) + pad_places(cols.len() as int, surround) <= space
}

/// Greedy column eviction: while the columns and their padding overflow
/// the budget, drop the leftmost lowest-priority column.
pub open spec fn evict(cols: Seq<(int, int, int)>, surround: bool, space: int) -> Seq<
    (int, int, int),
>
    decreases cols.len(),
{
    if fits(cols, surround, space) || cols.len() == 0 {
        cols
    } else {
        let p = min_prio_index(cols);
        let q = if 0 <= p < cols.len() {
            p
        } else {
            0int
        };
        evict(cols.remove(q), surround, space)
    }
}

/// One cell aligned within its column's width.
pub open spec fn aligned_cell(a: Align, t: Seq<char>, w: nat) -> Seq<char> {
    match a {
        Align::Left => left_layout(t, w),
        Align::Center => center_layout(t, w),
        Align::Right => right_layout(t, w),
    }
}

/// The surviving cells of one row, each aligned within its column.
pub open spec fn row_cells(row: Seq<Seq<char>>, cols: Seq<(int, int, int)>, a: Align) -> Seq<
    Seq<char>,
> {
    Seq::new(cols.len(), |i: int| aligned_cell(a, row[cols[i].0], cols[i].1 as nat))
}

/// One row joined into a line of exactly `space` columns.
pub open spec fn row_line(
    row: Seq<Seq<char>>,
    cols: Seq<(int, int, int)>,
    a: Align,
    surround: bool,
    space: nat,
) -> Seq<char> {
    if surround {
        around_layout(row_cells(row, cols, a), space)
    } else {
        between_layout(row_cells(row, cols, a), space)
    }
}

/// The rendering of a non-empty block of rows: fails on a ragged table,
/// otherwise evicts columns until the table fits and lays out every row.
pub open spec fn table_layout(
    rows: Seq<Seq<Seq<char>>>,
    pris: Seq<usize>,
    a: Align,
    space: nat,
    surround: bool,
) -> Option<Seq<Seq<char>>>
    recommends
        rows.len() > 0,
{
    if ragged(rows) {
        None
    } else {
        let cols = evict(table_columns(rows, pris), surround, space as int);
        Some(Seq::new(rows.len(), |r: int| row_line(rows[r], cols, a, surround, space)))
    }
}

/// What rendering from row `offset` on yields: nothing when no rows
/// remain, otherwise the layout of the remaining rows.
pub open spec fn render_spec(
    data: Seq<Seq<Seq<char>>>,
    pris: Seq<usize>,
    a: Align,
    space: nat,
    surround: bool,
    offset: int,
) -> Option<Seq<Seq<char>>> {
    if data.len() <= offset {
        Some(Seq::empty())
    } else {
        table_layout(data.skip(offset), pris, a, space, surround)
    }
}

/// The live column records, as the three parallel vectors of the eviction
/// loop hold them: original index, required width, priority.
pub open spec fn zip3(a: Seq<usize>, b: Seq<usize>, c: Seq<usize>) -> Seq<(int, int, int)> {
    Seq::new(a.len(), |i: int| (a[i] as int, b[i] as int, c[i] as int))
}

proof fn lemma_remove_index<T>(s: Seq<T>, p: int, k: int)
    requires
        0 <= p < s.len(),
        0 <= k < s.len() - 1,
    ensures
        s.remove(p)[k] == (if k < p {
            s[k]
        } else {
            s[k + 1]
        }),
{
}

proof fn lemma_zip3_remove(a: Seq<usize>, b: Seq<usize>, c: Seq<usize>, p: int)
    requires
        a.len() == b.len(),
        a.len() == c.len(),
        0 <= p < a.len(),
    ensures
        zip3(a.remove(p), b.remove(p), c.remove(p)) =~= zip3(a, b, c).remove(p),
{
    let l = zip3(a.remove(p), b.remove(p), c.remove(p));
    let r = zip3(a, b, c).remove(p);
    assert forall|k: int| 0 <= k < l.len() implies l[k] == r[k] by {
        lemma_remove_index(a, p, k);
        lemma_remove_index(b, p, k);
        lemma_remove_index(c, p, k);
        lemma_remove_index(zip3(a, b, c), p, k);
    }
}

proof fn lemma_cols_width_nonneg(cols: Seq<(int, int, int)>, i: int)
    requires
        forall|k: int| 0 <= k < cols.len() ==> (#[trigger] cols[k]).1 >= 0,
    ensures
        cols_width(cols, i) >= 0,
    decreases cols.len() - i,
{
    if 0 <= i < cols.len() {
        lemma_cols_width_nonneg(cols, i + 1);
    }
}

/// Whether the column widths plus their padding overflow `space`.
fn exceeds_space(
    limits: &Vec<usize>,
    surround: bool,
    space: usize,
    Ghost(cols): Ghost<Seq<(int, int, int)>>,
) -> (b: bool)
    requires
        cols.len() == limits@.len(),
        forall|i: int| 0 <= i < cols.len() ==> (#[trigger] cols[i]).1 == limits@[i] as int,
    ensures
        b == !fits(cols, surround, space as int),
{
    let n = limits.len();
    let mut running: usize = 0;
    let mut i: usize = 0;
    while i < n
        invariant
            i <= n,
            n == limits@.len(),
            running <= space,
            cols.len() == limits@.len(),
            forall|k: int| 0 <= k < cols.len() ==> (#[trigger] cols[k]).1 == limits@[k] as int,
            cols_width(cols, 0) == running + cols_width(cols, i as int),
        decreases n - i,
    {
        let w = limits[i];
        if w > space - running {
            proof {
                lemma_cols_width_nonneg(cols, i + 1);
            }
            return true;
        }
        running = running + w;
        i = i + 1;
    }
    if n == 0 {
        return false;
    }
    let avail = space - running;
    if surround {
        n >= avail
    } else {
        n - 1 > avail
    }
}

/// Position of the leftmost lowest-priority live column.
fn min_prio_pos(prios: &Vec<usize>, Ghost(cols): Ghost<Seq<(int, int, int)>>) -> (p: usize)
    requires
        prios@.len() >= 1,
        cols.len() == prios@.len(),
        forall|i: int| 0 <= i < cols.len() ==> (#[trigger] cols[i]).2 == prios@[i] as int,
    ensures
        p as int == min_prio_index(cols),
        p < prios@.len(),
{
    let mut best: usize = 0;
    let mut i: usize = 1;
    while i < prios.len()
        invariant
            1 <= i <= prios@.len(),
            best < i,
            cols.len() == prios@.len(),
            forall|k: int| 0 <= k < cols.len() ==> (#[trigger] cols[k]).2 == prios@[k] as int,
            best as int == min_prio_upto(cols, i as int),
        decreases prios@.len() - i,
    {
        if prios[i] < prios[best] {
            best = i;
        }
        i = i + 1;
    }
    best
}

/// The width one aligned cell occupies is its column's width.
pub proof fn lemma_aligned_cell_width(a: Align, t: Seq<char>, w: nat)
    requires
        str_width(t) <= w,
    ensures
        str_width(aligned_cell(a, t, w)) == w,
{
    match a {
        Align::Left => align::lemma_left_layout_width(t, w),
        Align::Center => align::lemma_center_layout_width(t, w),
        Align::Right => align::lemma_right_layout_width(t, w),
    }
}

/// The aligned cells of a row are together exactly as wide as the
/// surviving columns.
proof fn lemma_row_cells_width(row: Seq<Seq<char>>, cols: Seq<(int, int, int)>, a: Align, i: int)
    requires
        0 <= i <= cols.len(),
        forall|k: int|
            0 <= k < cols.len() ==> 0 <= (#[trigger] cols[k]).0 < row.len() && str_width(
                row[cols[k].0],
            ) <= cols[k].1,
    ensures
        total_width_from(row_cells(row, cols, a), i) == cols_width(cols, i),
    decreases cols.len() - i,
{
    if i < cols.len() {
        lemma_row_cells_width(row, cols, a, i + 1);
        lemma_aligned_cell_width(a, row[cols[i].0], cols[i].1 as nat);
    }
}

/// Blank columns an alignment puts left of the text.
pub open spec fn aligned_left_pad(a: Align, t: Seq<char>, space: nat) -> nat
    recommends
        str_width(t) <= space,
{
    match a {
        Align::Left => 0nat,
        Align::Right => (space - str_width(t)) as nat,
        Align::Center => ((space - str_width(t)) as nat) / 2,
    }
}

/// Blank columns an alignment puts right of the text.
pub open spec fn aligned_right_pad(a: Align, t: Seq<char>, space: nat) -> nat
    recommends
        str_width(t) <= space,
{
    (space - str_width(t) - aligned_left_pad(a, t, space)) as nat
}

/// An alignment never rewrites the text: its result is the text itself
/// between two all-blank runs that together fill the target width.
pub proof fn lemma_aligned_cell_content(a: Align, t: Seq<char>, space: nat)
    requires
        str_width(t) <= space,
    ensures
        aligned_cell(a, t, space) == spaces(aligned_left_pad(a, t, space)) + t + spaces(
            aligned_right_pad(a, t, space),
        ),
        aligned_left_pad(a, t, space) + aligned_right_pad(a, t, space) + str_width(t) == space,
{
    match a {
        Align::Left => {
            assert(aligned_cell(a, t, space) =~= spaces(0nat) + t + spaces(
                aligned_right_pad(a, t, space),
            ));
        },
        Align::Right => {
            assert(aligned_cell(a, t, space) =~= spaces(aligned_left_pad(a, t, space)) + t + spaces(
                0nat,
            ));
        },
        Align::Center => {
        },
    }
}

proof fn lemma_evict_len(cols: Seq<(int, int, int)>, surround: bool, space: int)
    ensures
        evict(cols, surround, space).len() <= cols.len(),
    decreases cols.len(),
{
    if !(fits(cols, surround, space) || cols.len() == 0) {
        let p = min_prio_index(cols);
        let q = if 0 <= p < cols.len() {
            p
        } else {
            0int
        };
        lemma_evict_len(cols.remove(q), surround, space);
    }
}

/// Column eviction is monotonic in the space budget: a larger budget
/// never keeps fewer columns, and a smaller one never keeps more.
pub proof fn lemma_evict_monotonic(cols: Seq<(int, int, int)>, surround: bool, s1: int, s2: int)
    requires
        s1 <= s2,
    ensures
        evict(cols, surround, s1).len() <= evict(cols, surround, s2).len(),
    decreases cols.len(),
{
    if fits(cols, surround, s2) || cols.len() == 0 {
        lemma_evict_len(cols, surround, s1);
    } else {
        let p = min_prio_index(cols);
        let q = if 0 <= p < cols.len() {
            p
        } else {
            0int
        };
        lemma_evict_monotonic(cols.remove(q), surround, s1, s2);
    }
}

/// On a table's columns, increasing the space budget (all else fixed)
/// never reduces the number of surviving columns, and decreasing it never
/// increases that number.
pub proof fn lemma_eviction_monotonic_in_space(
    rows: Seq<Seq<Seq<char>>>,
    pris: Seq<usize>,
    surround: bool,
    s1: nat,
    s2: nat,
)
    requires
        s1 <= s2,
        rows.len() > 0,
    ensures
        evict(table_columns(rows, pris), surround, s1 as int).len() <= evict(
            table_columns(rows, pris),
            surround,
            s2 as int,
        ).len(),
{
    lemma_evict_monotonic(table_columns(rows, pris), surround, s1 as int, s2 as int);
}

proof fn lemma_evict_fits(cols: Seq<(int, int, int)>, surround: bool, space: int)
    requires
        0 <= space,
    ensures
        fits(evict(cols, surround, space), surround, space),
    decreases cols.len(),
{
    if !(fits(cols, surround, space) || cols.len() == 0) {
        let p = min_prio_index(cols);
        let q = if 0 <= p < cols.len() {
            p
        } else {
            0int
        };
        lemma_evict_fits(cols.remove(q), surround, space);
    }
}

proof fn lemma_evict_subset(cols: Seq<(int, int, int)>, surround: bool, space: int, i: int)
    requires
        0 <= i < evict(cols, surround, space).len(),
    ensures
        exists|j: int| 0 <= j < cols.len() && evict(cols, surround, space)[i] == cols[j],
    decreases cols.len(),
{
    let ev = evict(cols, surround, space);
    if fits(cols, surround, space) || cols.len() == 0 {
        assert(ev[i] == cols[i]);
    } else {
        let p = min_prio_index(cols);
        let q = if 0 <= p < cols.len() {
            p
        } else {
            0int
        };
        let rm = cols.remove(q);
        lemma_evict_subset(rm, surround, space, i);
        let j = choose|j: int| 0 <= j < rm.len() && ev[i] == rm[j];
        lemma_remove_index(cols, q, j);
        if j < q {
            assert(ev[i] == cols[j]);
        } else {
            assert(ev[i] == cols[j + 1]);
        }
    }
}

/// Every line of a successful render is exactly `space` display columns
/// wide.
pub proof fn lemma_table_layout_line_width(
    rows: Seq<Seq<Seq<char>>>,
    pris: Seq<usize>,
    a: Align,
    space: nat,
    surround: bool,
    r: int,
)
    requires
        rows.len() > 0,
        !ragged(rows),
        0 <= r < rows.len(),
    ensures
        table_layout(rows, pris, a, space, surround) matches Some(lines) && str_width(lines[r])
            == space,
{
    let cols0 = table_columns(rows, pris);
    let cols = evict(cols0, surround, space as int);
    lemma_evict_fits(cols0, surround, space as int);
    assert(rows[r].len() >= rows[0].len());
    assert forall|k: int|
        0 <= k < cols.len() implies 0 <= (#[trigger] cols[k]).0 < rows[r].len() && str_width(
        rows[r][cols[k].0],
    ) <= cols[k].1 by {
        lemma_evict_subset(cols0, surround, space as int, k);
        let j = choose|j: int| 0 <= j < cols0.len() && cols[k] == cols0[j];
        assert(column(rows, j)[r] == rows[r][j]);
        lemma_max_width_from_bound(column(rows, j), 0, r);
    }
    lemma_row_cells_width(rows[r], cols, a, 0);
    if surround {
        align::lemma_around_layout_width(row_cells(rows[r], cols, a), space);
    } else {
        align::lemma_between_layout_width(row_cells(rows[r], cols, a), space);
    }
}

/// Rendering is idempotent: the outcome of `render_partial` is pinned to
/// `render_spec` of the table's state alone, so two renders without an
/// intervening setter call yield identical output.
pub proof fn lemma_render_deterministic(
    data: Seq<Seq<Seq<char>>>,
    pris: Seq<usize>,
    a: Align,
    space: nat,
    surround: bool,
    offset: int,
    r1: Option<Seq<Seq<char>>>,
    r2: Option<Seq<Seq<char>>>,
)
    requires
        r1 == render_spec(data, pris, a, space, surround, offset),
        r2 == render_spec(data, pris, a, space, surround, offset),
    ensures
        r1 == r2,
{
}

/// A really powerful table formatter for text user interfaces.
///
/// A table owns its rows by value; the configuration is adjusted through
/// the setters and `render`/`render_partial` read it without mutating
/// anything.
pub struct Table {
    /// Stores the data within this table.
    pub data: Data,
    /// Stores the priority of each column.
    pub priorities: Vec<usize>,
    /// How to align each cell.
    pub align: Align,
    /// The space that this table has.
    pub space: usize,
    /// Surround with padding?
    pub surround: bool,
}

impl Table {
    /// Create a new table with data and space.
    ///
    /// `data` is organized into rows, and then within those rows, there
    /// are columns. The new table is left-aligned, not surrounded, and
    /// has no column priorities.
    pub fn new(data: Vec<Vec<String>>, space: usize) -> (t: Table)
        ensures
            t.data == data,
            t.space == space,
            t.priorities@ == Seq::<usize>::empty(),
            t.align is Left,
            !t.surround,
    {
        Table { data, priorities: Vec::new(), align: Align::Left, space, surround: false }
    }

    /// Set the priorities for the columns: the higher a column's number,
    /// the more important it is, and the later it is evicted when space
    /// runs out.
    pub fn set_priorities(&mut self, priorities: &[usize])
        ensures
            final(self).priorities@ == priorities@,
            final(self).data == old(self).data,
            final(self).align == old(self).align,
            final(self).space == old(self).space,
            final(self).surround == old(self).surround,
    {
        self.priorities = slice_to_vec(priorities);
    }

    /// Set the alignment of each cell.
    pub fn set_alignment(&mut self, align: Align)
        ensures
            final(self).align == align,
            final(self).data == old(self).data,
            final(self).priorities == old(self).priorities,
            final(self).space == old(self).space,
            final(self).surround == old(self).surround,
    {
        self.align = align;
    }

    /// When `surround` is true, padding will be applied to the sides of
    /// the table as well as between columns.
    pub fn set_surround(&mut self, surround: bool)
        ensures
            final(self).surround == surround,
            final(self).data == old(self).data,
            final(self).priorities == old(self).priorities,
            final(self).align == old(self).align,
            final(self).space == old(self).space,
    {
        self.surround = surround;
    }

    /// Set the space budget of the table. Use this if your terminal size
    /// updates.
    pub fn set_space(&mut self, space: usize)
        ensures
            final(self).space == space,
            final(self).data == old(self).data,
            final(self).priorities == old(self).priorities,
            final(self).align == old(self).align,
            final(self).surround == old(self).surround,
    {
        self.space = space;
    }

    /// Render this table to rows of strings.
    ///
    /// Returns `None` if there is not enough space to fit the table.
    pub fn render(&self) -> (r: Option<Vec<String>>)
        ensures
            (match r {
                Some(lines) => render_spec(
                    self.data.deep_view(),
                    self.priorities@,
                    self.align,
                    self.space as nat,
                    self.surround,
                    0,
                ) == Some(lines.deep_view()),
                None => render_spec(
                    self.data.deep_view(),
                    self.priorities@,
                    self.align,
                    self.space as nat,
                    self.surround,
                    0,
                ) is None,
            }),
    {
        self.render_partial(0)
    }

    /// Only renders the rows from index `offset` on, producing one string
    /// of exactly `space` display columns per row. This is particularly
    /// useful if you have a table that you wish to fit into a terminal
    /// with a height shorter than the table.
    ///
    /// Returns `None` if the rows disagree in column count, or if not
    /// even the padding alone fits the space budget.
    pub fn render_partial(&self, offset: usize) -> (r: Option<Vec<String>>)
        ensures
            (match r {
                Some(lines) => render_spec(
                    self.data.deep_view(),
                    self.priorities@,
                    self.align,
                    self.space as nat,
                    self.surround,
                    offset as int,
                ) == Some(lines.deep_view()),
                None => render_spec(
                    self.data.deep_view(),
                    self.priorities@,
                    self.align,
                    self.space as nat,
                    self.surround,
                    offset as int,
                ) is None,
            }),
    {
        let ghost dv = self.data.deep_view();
        let ghost pris = self.priorities@;
        if self.data.len() <= offset {
            let empty: Vec<String> = Vec::new();
            proof {
                assert(empty.deep_view() =~= Seq::<Seq<char>>::empty());
            }
            return Some(empty);
        }
        let ghost rows = dv.skip(offset as int);
        let nrows = self.data.len();
        let ncols = self.data[offset].len();
        proof {
            assert(rows.len() == nrows - offset);
            assert(rows[0] == dv[offset as int]);
            assert(rows[0].len() == ncols);
        }
        // Ragged detection: every remaining row must offer at least the
        // column count of the first remaining row.
        let mut rr: usize = offset;
        while rr < nrows
            invariant
                offset <= rr <= nrows,
                nrows == self.data@.len(),
                offset < nrows,
                dv == self.data.deep_view(),
                rows == dv.skip(offset as int),
                ncols == rows[0].len(),
                forall|k: int| 0 <= k < rr - offset ==> (#[trigger] rows[k]).len() >= ncols,
            decreases nrows - rr,
        {
            if self.data[rr].len() < ncols {
                proof {
                    assert(rows[rr - offset].len() < rows[0].len());
                    assert(ragged(rows));
                }
                return None;
            }
            rr = rr + 1;
        }
        proof {
            assert(!ragged(rows));
        }
        // Measure every column and record its priority; unlisted columns
        // get the lowest priority.
        let mut keep: Vec<usize> = Vec::new();
        let mut limits: Vec<usize> = Vec::new();
        let mut prios: Vec<usize> = Vec::new();
        let mut j: usize = 0;
        while j < ncols
            invariant
                j <= ncols,
                nrows == self.data@.len(),
                offset < nrows,
                dv == self.data.deep_view(),
                pris == self.priorities@,
                rows == dv.skip(offset as int),
                ncols == rows[0].len(),
                forall|k: int| 0 <= k < rows.len() ==> (#[trigger] rows[k]).len() >= ncols,
                keep@.len() == j,
                limits@.len() == j,
                prios@.len() == j,
                forall|i: int| 0 <= i < j ==> keep@[i] as int == i,
                forall|i: int| 0 <= i < j ==> limits@[i] as nat == col_width(rows, i),
                forall|i: int| 0 <= i < j ==> prios@[i] as int == eff_prio(pris, i),
            decreases ncols - j,
        {
            let mut colv: Vec<String> = Vec::new();
            let mut r2: usize = offset;
            while r2 < nrows
                invariant
                    offset <= r2 <= nrows,
                    nrows == self.data@.len(),
                    offset < nrows,
                    dv == self.data.deep_view(),
                    rows == dv.skip(offset as int),
                    ncols == rows[0].len(),
                    j < ncols,
                    forall|k: int| 0 <= k < rows.len() ==> (#[trigger] rows[k]).len() >= ncols,
                    colv@.len() == r2 - offset,
                    forall|k: int|
                        0 <= k < r2 - offset ==> (#[trigger] colv@[k])@ == rows[k][j as int],
                decreases nrows - r2,
            {
                proof {
                    assert(rows[r2 - offset].len() >= ncols);
                    assert(rows[r2 - offset] == dv[r2 as int]);
                }
                let cell = self.data[r2][j].clone();
                colv.push(cell);
                r2 = r2 + 1;
            }
            let w = find_longest(&colv);
            proof {
                assert(colv.deep_view() =~= column(rows, j as int));
            }
            keep.push(j);
            limits.push(w);
            if j < self.priorities.len() {
                let p = self.priorities[j];
                prios.push(p);
            } else {
                prios.push(0);
            }
            j = j + 1;
        }
        let ghost cols0 = table_columns(rows, pris);
        proof {
            assert(zip3(keep@, limits@, prios@) =~= cols0);
        }
        // Strip columns until the table fits.
        let mut over = exceeds_space(&limits, self.surround, self.space, Ghost(zip3(keep@, limits@, prios@)));
        while over
            invariant
                keep@.len() == limits@.len(),
                keep@.len() == prios@.len(),
                over == !fits(zip3(keep@, limits@, prios@), self.surround, self.space as int),
                evict(zip3(keep@, limits@, prios@), self.surround, self.space as int) == evict(
                    cols0,
                    self.surround,
                    self.space as int,
                ),
                rows == dv.skip(offset as int),
                ncols == rows[0].len(),
                forall|i: int| 0 <= i < keep@.len() ==> (#[trigger] keep@[i]) < ncols,
                forall|i: int|
                    0 <= i < keep@.len() ==> (#[trigger] limits@[i]) as nat == col_width(
                        rows,
                        keep@[i] as int,
                    ),
            decreases keep@.len(),
        {
            let ghost cur = zip3(keep@, limits@, prios@);
            proof {
                if keep@.len() == 0 {
                    assert(cols_width(cur, 0) == 0);
                    assert(fits(cur, self.surround, self.space as int));
                }
            }
            let p = min_prio_pos(&prios, Ghost(cur));
            proof {
                lemma_min_prio_upto_range(cur, cur.len() as int);
                assert(evict(cur, self.surround, self.space as int) == evict(
                    cur.remove(p as int),
                    self.surround,
                    self.space as int,
                ));
                lemma_zip3_remove(keep@, limits@, prios@, p as int);
            }
            let ghost keep0 = keep@;
            let ghost limits0 = limits@;
            keep.remove(p);
            limits.remove(p);
            prios.remove(p);
            proof {
                assert forall|i: int| 0 <= i < keep@.len() implies (#[trigger] keep@[i]) < ncols
                    && limits@[i] as nat == col_width(rows, keep@[i] as int) by {
                    lemma_remove_index(keep0, p as int, i);
                    lemma_remove_index(limits0, p as int, i);
                }
            }
            over = exceeds_space(&limits, self.surround, self.space, Ghost(zip3(keep@, limits@, prios@)));
        }
        let ghost cols_fin = zip3(keep@, limits@, prios@);
        proof {
            assert(evict(cols_fin, self.surround, self.space as int) == cols_fin);
            assert(cols_fin == evict(cols0, self.surround, self.space as int));
            assert(fits(cols_fin, self.surround, self.space as int));
        }
        // Align each surviving cell within its column and join each row
        // into a line of exactly `space` columns.
        let mut result: Vec<String> = Vec::new();
        let mut rr: usize = offset;
        while rr < nrows
            invariant
                offset <= rr <= nrows,
                nrows == self.data@.len(),
                offset < nrows,
                dv == self.data.deep_view(),
                rows == dv.skip(offset as int),
                ncols == rows[0].len(),
                forall|k: int| 0 <= k < rows.len() ==> (#[trigger] rows[k]).len() >= ncols,
                keep@.len() == limits@.len(),
                cols_fin == zip3(keep@, limits@, prios@),
                fits(cols_fin, self.surround, self.space as int),
                forall|i: int| 0 <= i < keep@.len() ==> (#[trigger] keep@[i]) < ncols,
                forall|i: int|
                    0 <= i < keep@.len() ==> (#[trigger] limits@[i]) as nat == col_width(
                        rows,
                        keep@[i] as int,
                    ),
                result@.len() == rr - offset,
                forall|k: int|
                    0 <= k < rr - offset ==> (#[trigger] result@[k])@ == row_line(
                        rows[k],
                        cols_fin,
                        self.align,
                        self.surround,
                        self.space as nat,
                    ),
            decreases nrows - rr,
        {
            proof {
                assert(rows[rr - offset] == dv[rr as int]);
                assert(rows[rr - offset].len() >= ncols);
            }
            let mut cells: Vec<String> = Vec::new();
            let mut i: usize = 0;
            while i < keep.len()
                invariant
                    i <= keep@.len(),
                    nrows == self.data@.len(),
                    offset <= rr < nrows,
                    dv == self.data.deep_view(),
                    rows == dv.skip(offset as int),
                    ncols == rows[0].len(),
                    rows[rr - offset].len() >= ncols,
                    keep@.len() == limits@.len(),
                    cols_fin == zip3(keep@, limits@, prios@),
                    forall|k: int| 0 <= k < keep@.len() ==> (#[trigger] keep@[k]) < ncols,
                    forall|k: int|
                        0 <= k < keep@.len() ==> (#[trigger] limits@[k]) as nat == col_width(
                            rows,
                            keep@[k] as int,
                        ),
                    cells@.len() == i,
                    forall|k: int|
                        0 <= k < i ==> (#[trigger] cells@[k])@ == row_cells(
                            rows[rr - offset],
                            cols_fin,
                            self.align,
                        )[k],
                decreases keep@.len() - i,
            {
                let jdx = keep[i];
                let w = limits[i];
                proof {
                    assert(column(rows, jdx as int)[rr - offset] == rows[rr - offset][jdx as int]);
                    lemma_max_width_from_bound(column(rows, jdx as int), 0, rr - offset);
                    assert(str_width(rows[rr - offset][jdx as int]) <= w as nat);
                    assert(rows[rr - offset] == dv[rr as int]);
                }
                let aligned = match self.align {
                    Align::Left => align::left(self.data[rr][jdx].as_str(), w),
                    Align::Right => align::right(self.data[rr][jdx].as_str(), w),
                    Align::Center => align::center(self.data[rr][jdx].as_str(), w),
                };
                let cell = aligned.unwrap();
                proof {
                    assert(cell@ == aligned_cell(self.align, rows[rr - offset][jdx as int], w as nat));
                }
                cells.push(cell);
                i = i + 1;
            }
            proof {
                assert(cells.deep_view() =~= row_cells(rows[rr - offset], cols_fin, self.align));
                assert forall|k: int| 0 <= k < cols_fin.len() implies 0 <= (#[trigger] cols_fin[k]).0
                    < rows[rr - offset].len() && str_width(rows[rr - offset][cols_fin[k].0])
                    <= cols_fin[k].1 by {
                    assert(column(rows, cols_fin[k].0)[rr - offset] == rows[rr - offset][cols_fin[k].0]);
                    lemma_max_width_from_bound(column(rows, cols_fin[k].0), 0, rr - offset);
                }
                lemma_row_cells_width(rows[rr - offset], cols_fin, self.align, 0);
                assert(total_width(cells.deep_view()) == cols_width(cols_fin, 0));
                assert(total_width(cells.deep_view()) + pad_places(
                    cols_fin.len() as int,
                    self.surround,
                ) <= self.space);
            }
            let line = if self.surround {
                align::around(&cells, self.space)
            } else {
                align::between(&cells, self.space)
            };
            let line = line.unwrap();
            proof {
                assert(line@ == row_line(
                    rows[rr - offset],
                    cols_fin,
                    self.align,
                    self.surround,
                    self.space as nat,
                ));
            }
            result.push(line);
            rr = rr + 1;
        }
        proof {
            assert(result.deep_view() =~= Seq::new(
                rows.len(),
                |r: int|
                    row_line(rows[r], cols_fin, self.align, self.surround, self.space as nat),
            ));
        }
        Some(result)
    }
}

} // verus!
