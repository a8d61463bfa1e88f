use vstd::prelude::*;
use vstd::string::StringExecFns;

use crate::point::Point2;
use crate::text::{char_lines, join_lines, push_char, split_lines, str_lines};
use crate::width::{
    ch_of, char_width, str_width, unicode_char_width, unicode_str_width, width_or_zero, Ch, BLANK_CH,
};

verus! {

/// The total width of a line: the sum of the widths of its cells.
pub open spec fn width_sum(line: Seq<Ch>) -> nat
    decreases line.len(),
{
    if line.len() == 0 {
        0
    } else {
        width_sum(line.drop_last()) + line.last().width as nat
    }
}

/// The column at which cell `i` of a line starts.
pub open spec fn prefix_width(line: Seq<Ch>, i: int) -> nat {
    width_sum(line.take(i))
}

/// Cell `i` is the first cell of the line that starts at column `x`.
pub open spec fn is_column_at(line: Seq<Ch>, x: int, i: int) -> bool {
    &&& 0 <= i < line.len()
    &&& prefix_width(line, i) == x
    &&& forall|j: int| 0 <= j < i ==> prefix_width(line, j) != x
}

/// The index of the first cell that starts at column `x`, if any cell does.
pub open spec fn cell_index_at(line: Seq<Ch>, x: int) -> Option<int> {
    if exists|i: int| is_column_at(line, x, i) {
        Some(choose|i: int| is_column_at(line, x, i))
    } else {
        None
    }
}

/// A width as a `usize`, held at `usize::MAX` when it does not fit.
pub open spec fn capped(n: nat) -> usize {
    if n <= usize::MAX {
        n as usize
    } else {
        usize::MAX
    }
}

/// The characters of a line.
pub open spec fn line_text(line: Seq<Ch>) -> Seq<char> {
    line.map_values(|c: Ch| c.ch)
}

/// The characters of each line.
pub open spec fn grid_text(grid: Seq<Seq<Ch>>) -> Seq<Seq<char>> {
    grid.map_values(|l: Seq<Ch>| line_text(l))
}

/// The cells `TextBuffer::new_from_str` makes of a line of text.
pub open spec fn cells_of(line: Seq<char>) -> Seq<Ch> {
    line.map_values(|c: char| ch_of(c))
}

/// The cells `TextBuffer::new_from_str` makes of lines of text.
pub open spec fn cells_grid(lines: Seq<Seq<char>>) -> Seq<Seq<Ch>> {
    lines.map_values(|l: Seq<char>| cells_of(l))
}

/// The contents of vectors of cells.
pub open spec fn cell_rows(rows: Seq<Vec<Ch>>) -> Seq<Seq<Ch>> {
    rows.map_values(|l: Vec<Ch>| l@)
}

pub proof fn lemma_prefix_step(line: Seq<Ch>, i: int)
    requires
        0 <= i < line.len(),
    ensures
        prefix_width(line, i + 1) == prefix_width(line, i) + line[i].width,
{
    assert(line.take(i + 1).drop_last() =~= line.take(i));
}

pub proof fn lemma_prefix_mono(line: Seq<Ch>, i: int, j: int)
    requires
        0 <= i <= j <= line.len(),
    ensures
        prefix_width(line, i) <= prefix_width(line, j),
    decreases j - i,
{
    if i < j {
        lemma_prefix_step(line, j - 1);
        lemma_prefix_mono(line, i, j - 1);
    }
}

pub proof fn lemma_prefix_full(line: Seq<Ch>)
    ensures
        prefix_width(line, line.len() as int) == width_sum(line),
{
    assert(line.take(line.len() as int) =~= line);
}

pub proof fn lemma_column_unique(line: Seq<Ch>, x: int, i: int)
    requires
        is_column_at(line, x, i),
    ensures
        cell_index_at(line, x) == Some(i),
{
    let k = choose|k: int| is_column_at(line, x, k);
    assert(is_column_at(line, x, k));
    if k < i {
        assert(prefix_width(line, k) != x);
    } else if i < k {
        assert(prefix_width(line, i) != x);
    }
}

pub proof fn lemma_column_some(line: Seq<Ch>, x: int)
    ensures
        cell_index_at(line, x) matches Some(i) ==> is_column_at(line, x, i),
{
}

/// When some cell starts at column `x`, a first one does.
pub proof fn lemma_first_column(line: Seq<Ch>, x: int, j: int)
    requires
        0 <= j < line.len(),
        prefix_width(line, j) == x,
    ensures
        cell_index_at(line, x) is Some,
    decreases j,
{
    if exists|k: int| 0 <= k < j && prefix_width(line, k) == x {
        let k = choose|k: int| 0 <= k < j && prefix_width(line, k) == x;
        lemma_first_column(line, x, k);
    } else {
        assert(is_column_at(line, x, j));
    }
}

/// In a line followed by blanks of one column each, the `k`-th blank
/// starts `k` columns past the line's end.
pub proof fn lemma_prefix_blanks(line: Seq<Ch>, d: nat, k: nat)
    requires
        ch_of(BLANK_CH).width == 1,
        k <= d,
    ensures
        prefix_width(line + blanks(d), (line.len() + k) as int) == width_sum(line) + k,
    decreases k,
{
    let padded = line + blanks(d);
    if k == 0 {
        assert(padded.take(line.len() as int) =~= line);
    } else {
        lemma_prefix_blanks(line, d, (k - 1) as nat);
        lemma_prefix_step(padded, line.len() + k - 1);
    }
}

pub proof fn lemma_column_none(line: Seq<Ch>, x: int)
    requires
        forall|j: int| 0 <= j < line.len() ==> prefix_width(line, j) != x,
    ensures
        cell_index_at(line, x) is None,
{
}


pub proof fn lemma_rows_update(rows: Seq<Vec<Ch>>, y: int, v: Vec<Ch>)
    requires
        0 <= y < rows.len(),
    ensures
        cell_rows(rows.update(y, v)) == cell_rows(rows).update(y, v@),
{
    assert(cell_rows(rows.update(y, v)) =~= cell_rows(rows).update(y, v@));
}

pub proof fn lemma_rows_insert(rows: Seq<Vec<Ch>>, y: int, v: Vec<Ch>)
    requires
        0 <= y <= rows.len(),
    ensures
        cell_rows(rows.insert(y, v)) == cell_rows(rows).insert(y, v@),
{
    assert(cell_rows(rows.insert(y, v)) =~= cell_rows(rows).insert(y, v@));
}

pub proof fn lemma_rows_remove(rows: Seq<Vec<Ch>>, y: int)
    requires
        0 <= y < rows.len(),
    ensures
        cell_rows(rows.remove(y)) == cell_rows(rows).remove(y),
{
    assert(cell_rows(rows.remove(y)) =~= cell_rows(rows).remove(y));
}

pub proof fn lemma_rows_push(rows: Seq<Vec<Ch>>, v: Vec<Ch>)
    ensures
        cell_rows(rows.push(v)) == cell_rows(rows).push(v@),
{
    assert(cell_rows(rows.push(v)) =~= cell_rows(rows).push(v@));
}

/// `y + 1`, held at `usize::MAX`.
pub open spec fn succ_sat(y: usize) -> usize {
    if y < usize::MAX {
        (y + 1) as usize
    } else {
        usize::MAX
    }
}

/// `a - b`, held at 0.
pub open spec fn sub_sat(a: usize, b: usize) -> usize {
    if a >= b {
        (a - b) as usize
    } else {
        0
    }
}

/// `n` blank cells.
pub open spec fn blanks(n: nat) -> Seq<Ch> {
    Seq::new(n, |i: int| ch_of(BLANK_CH))
}

/// The grid with empty lines appended until it has at least `n` lines.
pub open spec fn with_lines(grid: Seq<Seq<Ch>>, n: nat) -> Seq<Seq<Ch>> {
    if grid.len() >= n {
        grid
    } else {
        grid + Seq::new((n - grid.len()) as nat, |i: int| Seq::<Ch>::empty())
    }
}

/// `ensure_line_exist(y)`: lines are added until line `y` exists.
pub open spec fn ensure_line_spec(grid: Seq<Seq<Ch>>, y: usize) -> Seq<Seq<Ch>> {
    with_lines(grid, succ_sat(y) as nat)
}

/// The width of line `n` as `TextBuffer::line_width` gives it.
pub open spec fn line_width_spec(grid: Seq<Seq<Ch>>, n: int) -> usize {
    if 0 <= n < grid.len() {
        capped(width_sum(grid[n]))
    } else {
        0
    }
}

/// `ensure_cell_exist(x, y)`: line `y` is made to exist, then blanks are
/// appended to it until its width reaches `x + 1`.
pub open spec fn ensure_cell_spec(grid: Seq<Seq<Ch>>, x: usize, y: usize) -> Seq<Seq<Ch>> {
    let g = ensure_line_spec(grid, y);
    let diff = sub_sat(succ_sat(x), line_width_spec(g, y as int));
    g.update(y as int, g[y as int] + blanks(diff as nat))
}

/// `ensure_before_cell_exist(x, y)`: line `y` is made to exist, and the
/// cell before column `x` too.
pub open spec fn ensure_before_cell_spec(grid: Seq<Seq<Ch>>, x: usize, y: usize) -> Seq<Seq<Ch>> {
    let g = ensure_line_spec(grid, y);
    if x > 0 {
        ensure_cell_spec(g, (x - 1) as usize, y)
    } else {
        g
    }
}

/// `insert_char(x, y, ch)`: the cell of `ch` goes in at the cell that starts
/// at column `x`, or at the end of the line if no cell does.
pub open spec fn insert_char_spec(grid: Seq<Seq<Ch>>, x: usize, y: usize, c: char) -> Seq<Seq<Ch>> {
    let g = ensure_before_cell_spec(grid, x, y);
    let line = g[y as int];
    match cell_index_at(line, x as int) {
        Some(i) => g.update(y as int, line.insert(i, ch_of(c))),
        None => g.update(y as int, line.push(ch_of(c))),
    }
}

/// `delete_char(x, y)`: the cell that starts at column `x` is removed, if any.
pub open spec fn delete_char_spec(grid: Seq<Seq<Ch>>, x: usize, y: usize) -> Seq<Seq<Ch>> {
    match column_at(grid, x as int, y as int) {
        Some(i) => grid.update(y as int, grid[y as int].remove(i as int)),
        None => grid,
    }
}

/// `replace_char(x, y, ch)` can be done: once the cell at `(x, y)` is made
/// to exist, a cell starts at column `x`.
pub open spec fn can_replace(grid: Seq<Seq<Ch>>, x: usize, y: usize) -> bool {
    &&& y < usize::MAX
    &&& cell_index_at(ensure_cell_spec(grid, x, y)[y as int], x as int) is Some
}

/// `replace_char(x, y, ch)`: the cell that starts at column `x` holds `ch`.
pub open spec fn replace_char_spec(grid: Seq<Seq<Ch>>, x: usize, y: usize, c: char) -> Seq<Seq<Ch>> {
    let g = ensure_cell_spec(grid, x, y);
    let i = cell_index_at(g[y as int], x as int)->0;
    g.update(y as int, g[y as int].update(i, ch_of(c)))
}

/// `break_line(x, y)`: the cells from column `x` on move to a new line below.
pub open spec fn break_line_spec(grid: Seq<Seq<Ch>>, x: usize, y: usize) -> Seq<Seq<Ch>> {
    let g = ensure_before_cell_spec(grid, x, y);
    let line = g[y as int];
    match cell_index_at(line, x as int) {
        Some(i) => g.update(y as int, line.take(i)).insert(y + 1, line.skip(i)),
        None => g.insert(y + 1, Seq::empty()),
    }
}

/// `join_line(y)`: line `y + 1` is appended to line `y`.
pub open spec fn join_line_spec(grid: Seq<Seq<Ch>>, y: usize) -> Seq<Seq<Ch>> {
    grid.update(y as int, grid[y as int] + grid[y + 1]).remove(y + 1)
}

/// Appending `n` blanks of one column each widens a line by `n` columns.
pub proof fn lemma_width_blanks(line: Seq<Ch>, n: nat)
    requires
        ch_of(BLANK_CH).width == 1,
    ensures
        width_sum(line + blanks(n)) == width_sum(line) + n,
    decreases n,
{
    if n > 0 {
        assert((line + blanks(n)).drop_last() =~= line + blanks((n - 1) as nat));
        lemma_width_blanks(line, (n - 1) as nat);
    } else {
        assert(line + blanks(0) =~= line);
    }
}

pub proof fn lemma_ensure_line(grid: Seq<Seq<Ch>>, y: usize)
    requires
        y < usize::MAX,
    ensures
        ensure_line_spec(grid, y).len() == (if grid.len() > y { grid.len() as int } else { y + 1 }),
        forall|i: int| 0 <= i < grid.len() ==> #[trigger] ensure_line_spec(grid, y)[i] == grid[i],
        forall|i: int|
            grid.len() <= i < ensure_line_spec(grid, y).len() ==> #[trigger] ensure_line_spec(
                grid,
                y,
            )[i] == Seq::<Ch>::empty(),
{
}

pub proof fn lemma_ensure_cell(grid: Seq<Seq<Ch>>, x: usize, y: usize)
    requires
        y < usize::MAX,
    ensures
        ensure_cell_spec(grid, x, y).len() == ensure_line_spec(grid, y).len(),
        (y as int) < ensure_cell_spec(grid, x, y).len(),
        ensure_before_cell_spec(grid, x, y).len() == ensure_line_spec(grid, y).len(),
        (y as int) < ensure_before_cell_spec(grid, x, y).len(),
{
    lemma_ensure_line(grid, y);
    lemma_ensure_line(ensure_line_spec(grid, y), y);
    assert(ensure_line_spec(ensure_line_spec(grid, y), y) == ensure_line_spec(grid, y));
}

/// The character at `(x, y)`: that of the cell starting at column `x` of line `y`.
pub open spec fn char_at(grid: Seq<Seq<Ch>>, x: usize, y: usize) -> Option<char> {
    match column_at(grid, x as int, y as int) {
        Some(i) => Some(grid[y as int][i as int].ch),
        None => None,
    }
}

/// A text buffer where characters are manipulated visually with
/// consideration on the unicode width of characters.
/// Characters can span more than 1 cell, therefore
/// visually manipulating text in a 2-dimensional way should consider using the unicode width.
#[derive(Clone)]
pub struct TextBuffer {
    chars: Vec<Vec<Ch>>,
    cursor: Point2<usize>,
}

impl TextBuffer {
    /// The cells of the buffer, line by line.
    pub closed spec fn grid(&self) -> Seq<Seq<Ch>> {
        cell_rows(self.chars@)
    }

    /// A buffer holds no more lines than a `usize` counts.
    pub proof fn lemma_len_bound(&self)
        ensures
            self.grid().len() <= usize::MAX,
            forall|i: int| 0 <= i < self.grid().len() ==> #[trigger] self.grid()[i].len() <= usize::MAX,
    {
        vstd::std_specs::vec::axiom_spec_len(&self.chars);
        assert forall|i: int| 0 <= i < self.grid().len() implies #[trigger] self.grid()[i].len()
            <= usize::MAX by {
            vstd::std_specs::vec::axiom_spec_len(&self.chars@[i]);
        }
    }

    /// The position of the cursor.
    pub closed spec fn cursor(&self) -> Point2<usize> {
        self.cursor
    }

    pub fn default() -> (r: Self)
        ensures
            r.grid() == Seq::<Seq<Ch>>::empty(),
            r.cursor() == (Point2::<usize> { x: 0, y: 0 }),
    {
        let r = TextBuffer { chars: Vec::new(), cursor: Point2::new(0, 0) };
        assert(r.grid() =~= Seq::<Seq<Ch>>::empty());
        r
    }

    /// A buffer holding the lines of `content`, as `str::lines` splits them,
    /// each character in a cell of its display width.
    pub fn new_from_str(content: &str) -> (r: Self)
        ensures
            r.grid() == cells_grid(str_lines(content@)),
            r.cursor() == (Point2::<usize> { x: 0, y: 0 }),
    {
        let lines = split_lines(content);
        let ghost ls = char_lines(lines@);
        let mut chars: Vec<Vec<Ch>> = Vec::new();
        let mut i: usize = 0;
        while i < lines.len()
            invariant
                i <= lines.len(),
                ls == char_lines(lines@),
                cell_rows(chars@) =~= cells_grid(ls.take(i as int)),
            decreases lines.len() - i,
        {
            let line = &lines[i];
            let mut cells: Vec<Ch> = Vec::new();
            let mut j: usize = 0;
            while j < line.len()
                invariant
                    j <= line.len(),
                    cells@ =~= cells_of(line@.take(j as int)),
                decreases line.len() - j,
            {
                cells.push(Ch::new(line[j]));
                j = j + 1;
            }
            assert(line@.take(j as int) =~= line@);
            assert(ls[i as int] == line@);
            let ghost prev = chars@;
            chars.push(cells);
            assert(cell_rows(chars@) =~= cell_rows(prev).push(cells_of(ls[i as int])));
            i = i + 1;
            assert(ls.take(i as int) =~= ls.take(i - 1).push(ls[i - 1]));
        }
        assert(ls.take(i as int) =~= ls);
        let r = TextBuffer { chars, cursor: Point2::new(0, 0) };
        r
    }

    /// Translates a position to the column index of its line, if the
    /// line exists and a cell starts at that column.
    fn column_index(&self, x: usize, y: usize) -> (r: Option<usize>)
        ensures
            r == column_at(self.grid(), x as int, y as int),
    {
        if y < self.chars.len() {
            let line = &self.chars[y];
            let ghost l = line@;
            assert(l == self.grid()[y as int]);
            let mut width_sum: usize = 0;
            let mut i: usize = 0;
            assert(l.take(0) =~= Seq::<Ch>::empty());
            while i < line.len()
                invariant
                    i <= line.len(),
                    l == line@,
                    (y as int) < self.grid().len(),
                    l == self.grid()[y as int],
                    width_sum == prefix_width(l, i as int),
                    forall|j: int| 0 <= j < i ==> prefix_width(l, j) != x,
                decreases line.len() - i,
            {
                if width_sum == x {
                    proof {
                        lemma_column_unique(l, x as int, i as int);
                    }
                    return Some(i);
                }
                proof {
                    lemma_prefix_step(l, i as int);
                }
                let w = line[i].width;
                if w > usize::MAX - width_sum {
                    proof {
                        assert forall|j: int| 0 <= j < l.len() implies prefix_width(l, j) != x by {
                            if j > i {
                                lemma_prefix_mono(l, i + 1, j);
                            }
                        }
                        lemma_column_none(l, x as int);
                    }
                    return None;
                }
                width_sum = width_sum + w;
                i = i + 1;
            }
            proof {
                lemma_column_none(l, x as int);
            }
            None
        } else {
            None
        }
    }
}

/// The column index at `(x, y)`: `None` when line `y` does not exist or no
/// cell of it starts at column `x`.
pub open spec fn column_at(grid: Seq<Seq<Ch>>, x: int, y: int) -> Option<usize> {
    if 0 <= y < grid.len() {
        match cell_index_at(grid[y], x) {
            Some(i) => Some(i as usize),
            None => None,
        }
    } else {
        None
    }
}

/// text manipulation
/// This are purely manipulating text into the text buffer.
/// The cursor shouldn't be move here, since it is done by the commands functions
/// Whether two lines hold the same cells.
fn same_cells(a: &Vec<Ch>, b: &Vec<Ch>) -> (r: bool)
    ensures
        r == (a@ == b@),
{
    if a.len() != b.len() {
        return false;
    }
    let mut i: usize = 0;
    while i < a.len()
        invariant
            i <= a.len(),
            a.len() == b.len(),
            forall|k: int| 0 <= k < i ==> a@[k] == b@[k],
        decreases a.len() - i,
    {
        if a[i].ch != b[i].ch || a[i].width != b[i].width {
            assert(a@[i as int] != b@[i as int]);
            return false;
        }
        i = i + 1;
    }
    assert(a@ =~= b@);
    true
}

impl TextBuffer {
    /// A copy of the cells of the buffer, line by line.
    pub fn cells(&self) -> (r: Vec<Vec<Ch>>)
        ensures
            cell_rows(r@) == self.grid(),
    {
        let mut rows: Vec<Vec<Ch>> = Vec::new();
        let mut y: usize = 0;
        while y < self.chars.len()
            invariant
                y <= self.chars@.len(),
                rows@.len() == y,
                forall|k: int| 0 <= k < y ==> #[trigger] rows@[k]@ == self.chars@[k]@,
            decreases self.chars@.len() - y,
        {
            let line = &self.chars[y];
            let mut copy: Vec<Ch> = Vec::new();
            let mut x: usize = 0;
            while x < line.len()
                invariant
                    x <= line@.len(),
                    copy@ == line@.take(x as int),
                decreases line@.len() - x,
            {
                copy.push(line[x]);
                x = x + 1;
                assert(copy@ =~= line@.take(x as int));
            }
            assert(copy@ =~= line@);
            rows.push(copy);
            y = y + 1;
        }
        assert(cell_rows(rows@) =~= self.grid());
        rows
    }

    /// Whether the buffer holds exactly the cells `rows`.
    pub fn has_cells(&self, rows: &Vec<Vec<Ch>>) -> (b: bool)
        ensures
            b == (self.grid() == cell_rows(rows@)),
    {
        if self.chars.len() != rows.len() {
            assert(self.grid().len() != cell_rows(rows@).len());
            return false;
        }
        let mut y: usize = 0;
        while y < rows.len()
            invariant
                y <= rows@.len(),
                self.chars@.len() == rows@.len(),
                forall|k: int| 0 <= k < y ==> #[trigger] self.chars@[k]@ == rows@[k]@,
            decreases rows@.len() - y,
        {
            if !same_cells(&self.chars[y], &rows[y]) {
                assert(self.grid()[y as int] != cell_rows(rows@)[y as int]);
                return false;
            }
            y = y + 1;
        }
        assert(self.grid() =~= cell_rows(rows@));
        true
    }
}

impl TextBuffer {
    /// the total number of lines of this text canvas
    pub fn total_lines(&self) -> (n: usize)
        ensures
            n == self.grid().len(),
    {
        self.chars.len()
    }

    pub fn is_empty(&self) -> (b: bool)
        ensures
            b == (self.grid().len() == 0),
    {
        self.chars.len() == 0
    }

    /// return the position of the cursor
    pub fn get_position(&self) -> (p: Point2<usize>)
        ensures
            p == self.cursor(),
    {
        self.cursor
    }

    /// the width of the line at line `n`
    pub fn line_width(&self, n: usize) -> (w: usize)
        ensures
            w == line_width_spec(self.grid(), n as int),
    {
        if n < self.chars.len() {
            let line = &self.chars[n];
            let ghost l = line@;
            let mut sum: usize = 0;
            let mut i: usize = 0;
            assert(l.take(0) =~= Seq::<Ch>::empty());
            while i < line.len()
                invariant
                    i <= line.len(),
                    l == line@,
                    sum == capped(prefix_width(l, i as int)),
                decreases line.len() - i,
            {
                proof {
                    lemma_prefix_step(l, i as int);
                }
                sum = sum.saturating_add(line[i].width);
                i = i + 1;
            }
            proof {
                lemma_prefix_full(l);
            }
            sum
        } else {
            0
        }
    }

    /// insert a line at this location
    pub fn insert_line(&mut self, loc_y: usize, text: Vec<Ch>)
        requires
            loc_y <= old(self).grid().len(),
        ensures
            final(self).grid() == old(self).grid().insert(loc_y as int, text@),
            final(self).cursor() == old(self).cursor(),
    {
        proof {
            lemma_rows_insert(self.chars@, loc_y as int, text);
        }
        self.chars.insert(loc_y, text);
    }

    pub fn remove_line(&mut self, loc_y: usize) -> (r: Vec<Ch>)
        requires
            loc_y < old(self).grid().len(),
        ensures
            r@ == old(self).grid()[loc_y as int],
            final(self).grid() == old(self).grid().remove(loc_y as int),
            final(self).cursor() == old(self).cursor(),
    {
        proof {
            lemma_rows_remove(self.chars@, loc_y as int);
        }
        self.chars.remove(loc_y)
    }

    pub fn cut_to_end_of_line(&mut self, loc_y: usize, char_index: usize) -> (r: Vec<Ch>)
        requires
            loc_y < old(self).grid().len(),
            char_index <= old(self).grid()[loc_y as int].len(),
        ensures
            r@ == old(self).grid()[loc_y as int].skip(char_index as int),
            final(self).grid() == old(self).grid().update(
                loc_y as int,
                old(self).grid()[loc_y as int].take(char_index as int),
            ),
            final(self).cursor() == old(self).cursor(),
    {
        let ghost rows = self.chars@;
        let tail = self.chars[loc_y].split_off(char_index);
        proof {
            lemma_rows_update(rows, loc_y as int, self.chars@[loc_y as int]);
            assert(self.chars@ =~= rows.update(loc_y as int, self.chars@[loc_y as int]));
        }
        tail
    }

    pub fn append_to_line(&mut self, loc_y: usize, text: Vec<Ch>)
        requires
            loc_y < old(self).grid().len(),
        ensures
            final(self).grid() == old(self).grid().update(
                loc_y as int,
                old(self).grid()[loc_y as int] + text@,
            ),
            final(self).cursor() == old(self).cursor(),
    {
        let ghost rows = self.chars@;
        let mut text = text;
        self.chars[loc_y].append(&mut text);
        proof {
            lemma_rows_update(rows, loc_y as int, self.chars@[loc_y as int]);
            assert(self.chars@ =~= rows.update(loc_y as int, self.chars@[loc_y as int]));
        }
    }

    pub fn join_line(&mut self, x: usize, y: usize)
        requires
            y + 1 < old(self).grid().len(),
        ensures
            final(self).grid() == join_line_spec(old(self).grid(), y),
            final(self).cursor() == old(self).cursor(),
    {
        let ghost g = self.grid();
        proof {
            self.lemma_len_bound();
        }
        let next_line_index = y.saturating_add(1);
        let next_line = self.remove_line(next_line_index);
        assert(next_line@ == g[y + 1]);
        self.append_to_line(y, next_line);
        assert(self.grid() =~= join_line_spec(g, y));
    }

    /// ensure line at index y exist
    pub fn ensure_line_exist(&mut self, y: usize)
        ensures
            final(self).grid() == ensure_line_spec(old(self).grid(), y),
            final(self).cursor() == old(self).cursor(),
    {
        let total_lines = self.chars.len();
        let diff = y.saturating_add(1).saturating_sub(total_lines);
        let ghost g0 = self.grid();
        let mut k: usize = 0;
        while k < diff
            invariant
                k <= diff,
                diff == sub_sat(succ_sat(y), total_lines),
                total_lines == g0.len(),
                self.cursor() == old(self).cursor(),
                g0 == old(self).grid(),
                self.grid() =~= g0 + Seq::new(k as nat, |i: int| Seq::<Ch>::empty()),
            decreases diff - k,
        {
            let empty: Vec<Ch> = Vec::new();
            proof {
                lemma_rows_push(self.chars@, empty);
            }
            self.chars.push(empty);
            k = k + 1;
        }
    }

    pub fn ensure_before_line_exist(&mut self, y: usize)
        ensures
            final(self).grid() == (if y > 0 {
                ensure_line_spec(old(self).grid(), (y - 1) as usize)
            } else {
                old(self).grid()
            }),
            final(self).cursor() == old(self).cursor(),
    {
        if y > 0 {
            self.ensure_line_exist(y.saturating_sub(1));
        }
    }

    /// ensure line in index y exist and the cell at index x
    pub fn ensure_cell_exist(&mut self, x: usize, y: usize)
        requires
            y < usize::MAX,
        ensures
            final(self).grid() == ensure_cell_spec(old(self).grid(), x, y),
            final(self).cursor() == old(self).cursor(),
            (y as int) < final(self).grid().len(),
            x < usize::MAX ==> width_sum(final(self).grid()[y as int]) > x,
    {
        self.ensure_line_exist(y);
        let ghost g = self.grid();
        let line_width = self.line_width(y);
        let diff = x.saturating_add(1).saturating_sub(line_width);
        let blank = Ch::new(BLANK_CH);
        let mut k: usize = 0;
        while k < diff
            invariant
                k <= diff,
                blank == ch_of(BLANK_CH),
                (y as int) < g.len(),
                (y as int) < self.chars@.len(),
                self.grid() == g.update(y as int, g[y as int] + blanks(k as nat)),
                self.cursor() == old(self).cursor(),
            decreases diff - k,
        {
            let ghost rows = self.chars@;
            self.chars[y].push(blank);
            proof {
                lemma_rows_update(rows, y as int, self.chars@[y as int]);
                assert(self.chars@ =~= rows.update(y as int, self.chars@[y as int]));
                assert(cell_rows(rows)[y as int] == g[y as int] + blanks(k as nat));
                assert(self.chars@[y as int]@ == rows[y as int]@.push(blank));
                assert(g[y as int] + blanks((k + 1) as nat) =~= (g[y as int] + blanks(k as nat)).push(blank));
                assert(self.grid() =~= g.update(y as int, g[y as int] + blanks((k + 1) as nat)));
            }
            k = k + 1;
        }
        proof {
            assert(blank.width == 1);
            lemma_width_blanks(g[y as int], diff as nat);
        }
    }

    /// Whether `replace_char(x, y, ..)` can be done: once the cell at
    /// `(x, y)` is made to exist, a cell starts at column `x`.
    pub fn can_replace_char(&self, x: usize, y: usize) -> (b: bool)
        ensures
            b == can_replace(self.grid(), x, y),
    {
        if y == usize::MAX {
            return false;
        }
        let ghost g = self.grid();
        let ghost g1 = ensure_line_spec(g, y);
        proof {
            lemma_ensure_line(g, y);
            assert(g1[y as int] == (if (y as int) < g.len() { g[y as int] } else { Seq::<Ch>::empty() }));
            assert(line_width_spec(g1, y as int) == line_width_spec(g, y as int));
        }
        let w = self.line_width(y);
        if x < w {
            proof {
                assert(sub_sat(succ_sat(x), w) == 0);
                assert(blanks(0) =~= Seq::<Ch>::empty());
                assert(g1[y as int] + blanks(0) =~= g1[y as int]);
                assert((y as int) < g.len());
            }
            return self.column_index(x, y).is_some();
        }
        let blank = Ch::new(BLANK_CH);
        let ghost line = g1[y as int];
        let ghost d = sub_sat(succ_sat(x), w) as nat;
        proof {
            assert(ensure_cell_spec(g, x, y)[y as int] == line + blanks(d));
            lemma_prefix_full(line);
        }
        if x == usize::MAX {
            if w < usize::MAX {
                // the blanks end the line at the last column: none starts there
                proof {
                    let padded = line + blanks(d);
                    lemma_prefix_blanks(line, d, d);
                    lemma_prefix_full(padded);
                    assert(padded.take(padded.len() as int) =~= padded);
                    assert forall|j: int| 0 <= j < padded.len() implies prefix_width(padded, j) != x by {
                        lemma_prefix_step(padded, j);
                        lemma_prefix_mono(padded, j + 1, padded.len() as int);
                        if j >= line.len() {
                            assert(padded[j] == blank);
                        } else {
                            lemma_prefix_mono(line, j, line.len() as int);
                            assert(prefix_width(padded, j) == prefix_width(line, j)) by {
                                assert(padded.take(j) =~= line.take(j));
                            }
                        }
                    }
                    lemma_column_none(padded, x as int);
                }
                return false;
            }
            proof {
                assert(d == 0);
                assert(blanks(0) =~= Seq::<Ch>::empty());
                assert(line + blanks(0) =~= line);
                assert((y as int) < g.len());
            }
            return self.column_index(x, y).is_some();
        }
        // the blanks reach column `x`: the one that starts there, or a cell
        // before it, starts at `x`
        proof {
            let padded = line + blanks(d);
            let k = (x - width_sum(line)) as nat;
            lemma_prefix_blanks(line, d, k);
            lemma_first_column(padded, x as int, (line.len() + k) as int);
        }
        blank.width > 0
    }

    pub fn ensure_before_cell_exist(&mut self, loc: Point2<usize>)
        requires
            loc.y < usize::MAX,
        ensures
            final(self).grid() == ensure_before_cell_spec(old(self).grid(), loc.x, loc.y),
            final(self).cursor() == old(self).cursor(),
    {
        self.ensure_line_exist(loc.y);
        if loc.x > 0 {
            self.ensure_cell_exist(loc.x.saturating_sub(1), loc.y);
        }
    }

    /// insert a character at this x and y and move cells after it to the right
    pub fn insert_char(&mut self, x: usize, y: usize, ch: char)
        requires
            y < usize::MAX,
        ensures
            final(self).grid() == insert_char_spec(old(self).grid(), x, y, ch),
            final(self).cursor() == old(self).cursor(),
    {
        proof {
            lemma_ensure_cell(self.grid(), x, y);
        }
        self.ensure_before_cell_exist(Point2::new(x, y));
        let ghost g = self.grid();
        proof {
            lemma_column_some(g[y as int], x as int);
            self.lemma_len_bound();
        }
        let new_ch = Ch::new(ch);
        let ghost rows = self.chars@;
        if let Some(column_index) = self.column_index(x, y) {
            let insert_index = column_index;
            self.chars[y].insert(insert_index, new_ch);
            proof {
                lemma_rows_update(rows, y as int, self.chars@[y as int]);
                assert(self.chars@ =~= rows.update(y as int, self.chars@[y as int]));
                assert(cell_index_at(g[y as int], x as int) == Some(insert_index as int));
                assert(self.chars@[y as int]@ == g[y as int].insert(insert_index as int, ch_of(ch)));
                assert(self.grid() == g.update(y as int, g[y as int].insert(insert_index as int, ch_of(ch))));
            }
        } else {
            self.chars[y].push(new_ch);
            proof {
                lemma_rows_update(rows, y as int, self.chars@[y as int]);
                assert(self.chars@ =~= rows.update(y as int, self.chars@[y as int]));
                assert(cell_index_at(g[y as int], x as int) is None);
                assert(self.grid() == g.update(y as int, g[y as int].push(ch_of(ch))));
            }
        }
    }

    /// get the character at this cursor position
    pub fn get_char(&self, x: usize, y: usize) -> (r: Option<char>)
        ensures
            r == char_at(self.grid(), x, y),
    {
        if y < self.chars.len() {
            let column_index = self.column_index(x, y);
            match column_index {
                Some(col) => Some(self.chars[y][col].ch),
                None => None,
            }
        } else {
            None
        }
    }

    /// delete character at this position
    pub fn delete_char(&mut self, x: usize, y: usize) -> (r: Option<char>)
        ensures
            final(self).grid() == delete_char_spec(old(self).grid(), x, y),
            r == char_at(old(self).grid(), x, y),
            final(self).cursor() == old(self).cursor(),
    {
        if let Some(column_index) = self.column_index(x, y) {
            let ghost rows = self.chars@;
            let ex_ch = self.chars[y].remove(column_index);
            proof {
                lemma_rows_update(rows, y as int, self.chars@[y as int]);
                assert(self.chars@ =~= rows.update(y as int, self.chars@[y as int]));
            }
            Some(ex_ch.ch)
        } else {
            None
        }
    }

    /// replace the character at this location
    pub fn replace_char(&mut self, x: usize, y: usize, ch: char) -> (r: Option<char>)
        requires
            can_replace(old(self).grid(), x, y),
        ensures
            final(self).grid() == replace_char_spec(old(self).grid(), x, y, ch),
            r == char_at(ensure_cell_spec(old(self).grid(), x, y), x, y),
            r is Some,
            final(self).cursor() == old(self).cursor(),
    {
        proof {
            lemma_ensure_cell(self.grid(), x, y);
        }
        self.ensure_cell_exist(x, y);
        proof {
            lemma_column_some(self.grid()[y as int], x as int);
            self.lemma_len_bound();
        }
        let column_index = match self.column_index(x, y) {
            Some(c) => c,
            None => {
                assert(false);
                0
            },
        };
        let ghost rows = self.chars@;
        let ex_ch = self.chars[y].remove(column_index);
        self.chars[y].insert(column_index, Ch::new(ch));
        proof {
            lemma_rows_update(rows, y as int, self.chars@[y as int]);
            assert(self.chars@ =~= rows.update(y as int, self.chars@[y as int]));
            assert(self.chars@[y as int]@ =~= rows[y as int]@.update(column_index as int, ch_of(ch)));
        }
        Some(ex_ch.ch)
    }

    /// break at line y and put the characters after x on the next line
    pub fn break_line(&mut self, x: usize, y: usize)
        requires
            y < usize::MAX,
        ensures
            final(self).grid() == break_line_spec(old(self).grid(), x, y),
            final(self).cursor() == old(self).cursor(),
    {
        proof {
            lemma_ensure_cell(self.grid(), x, y);
        }
        self.ensure_before_cell_exist(Point2::new(x, y));
        let ghost g = self.grid();
        proof {
            lemma_column_some(g[y as int], x as int);
            self.lemma_len_bound();
        }
        if let Some(break_point) = self.column_index(x, y) {
            let break2 = self.cut_to_end_of_line(y, break_point);
            self.insert_line(y + 1, break2);
            assert(self.grid() =~= break_line_spec(old(self).grid(), x, y));
        } else {
            let empty: Vec<Ch> = Vec::new();
            self.insert_line(y + 1, empty);
        }
    }
}

/// The number of cells in all lines.
pub open spec fn total_len(grid: Seq<Seq<Ch>>) -> nat
    decreases grid.len(),
{
    if grid.len() == 0 {
        0
    } else {
        total_len(grid.drop_last()) + grid.last().len()
    }
}

/// The number of decimal digits of `n`.
pub open spec fn decimal_len(n: nat) -> nat
    decreases n,
{
    if n < 10 {
        1
    } else {
        1 + decimal_len(n / 10)
    }
}

/// The line holds a character other than a blank.
pub open spec fn has_non_blank(line: Seq<Ch>) -> bool {
    exists|k: int| 0 <= k < line.len() && #[trigger] line[k].ch != BLANK_CH
}

/// The widest line, each width held at `usize::MAX`.
pub open spec fn max_width(grid: Seq<Seq<Ch>>) -> usize
    decreases grid.len(),
{
    if grid.len() == 0 {
        0
    } else {
        let m = max_width(grid.drop_last());
        let w = capped(width_sum(grid.last()));
        if m >= w {
            m
        } else {
            w
        }
    }
}

/// The number of cells of line `y`, 0 when it does not exist.
pub open spec fn line_len(grid: Seq<Seq<Ch>>, y: int) -> usize {
    if 0 <= y < grid.len() {
        grid[y].len() as usize
    } else {
        0
    }
}

/// Lines joined with `'\n'`: the text of the whole grid.
pub open spec fn grid_string(grid: Seq<Seq<Ch>>) -> Seq<char> {
    join_lines(grid_text(grid))
}

pub proof fn lemma_total_len_prefix(grid: Seq<Seq<Ch>>, i: int)
    requires
        0 < i <= grid.len(),
    ensures
        total_len(grid.take(i)) == total_len(grid.take(i - 1)) + grid[i - 1].len(),
        total_len(grid.take(i)) <= total_len(grid),
    decreases grid.len() - i,
{
    assert(grid.take(i).drop_last() =~= grid.take(i - 1));
    if i < grid.len() {
        lemma_total_len_prefix(grid, i + 1);
    } else {
        assert(grid.take(i) =~= grid);
    }
}

/// Ten to the power `k`.
pub open spec fn pow10(k: nat) -> nat
    decreases k,
{
    if k == 0 {
        1
    } else {
        10 * pow10((k - 1) as nat)
    }
}

pub proof fn lemma_decimal_len_pos(n: nat)
    ensures
        decimal_len(n) >= 1,
    decreases n,
{
    if n >= 10 {
        lemma_decimal_len_pos(n / 10);
    }
}

pub proof fn lemma_decimal_len_below(n: nat, k: nat)
    requires
        k >= 1,
        n < pow10(k),
    ensures
        decimal_len(n) <= k,
    decreases k,
{
    if n >= 10 {
        assert(k >= 2) by {
            if k == 1 {
                assert(pow10(1) == 10);
            }
        }
        assert(n / 10 < pow10((k - 1) as nat));
        lemma_decimal_len_below(n / 10, (k - 1) as nat);
    }
}

pub proof fn lemma_decimal_len_usize(n: nat)
    requires
        n <= usize::MAX,
    ensures
        decimal_len(n) <= 20,
{
    reveal_with_fuel(pow10, 21);
    assert(pow10(20) == 100000000000000000000nat);
    assert(usize::MAX < 100000000000000000000nat);
    lemma_decimal_len_below(n, 20);
}

pub proof fn lemma_max_width(grid: Seq<Seq<Ch>>)
    ensures
        forall|i: int| 0 <= i < grid.len() ==> capped(width_sum(#[trigger] grid[i])) <= max_width(grid),
        grid.len() > 0 ==> exists|i: int|
            0 <= i < grid.len() && capped(width_sum(#[trigger] grid[i])) == max_width(grid),
    decreases grid.len(),
{
    if grid.len() > 0 {
        lemma_max_width(grid.drop_last());
        assert forall|i: int| 0 <= i < grid.len() implies capped(width_sum(#[trigger] grid[i]))
            <= max_width(grid) by {
            if i < grid.len() - 1 {
                assert(grid[i] == grid.drop_last()[i]);
            }
        }
        if max_width(grid) == capped(width_sum(grid.last())) {
            assert(capped(width_sum(grid[grid.len() - 1])) == max_width(grid));
        } else {
            let i = choose|i: int|
                0 <= i < grid.drop_last().len() && capped(width_sum(#[trigger] grid.drop_last()[i]))
                    == max_width(grid.drop_last());
            assert(grid[i] == grid.drop_last()[i]);
        }
    }
}

impl TextBuffer {
    pub fn from_ch(chars: &[&[Ch]]) -> (r: Self)
        ensures
            r.grid() == chars@.map_values(|l: &[Ch]| l@),
            r.cursor() == (Point2::<usize> { x: 0, y: 0 }),
    {
        let mut rows: Vec<Vec<Ch>> = Vec::new();
        let mut i: usize = 0;
        while i < chars.len()
            invariant
                i <= chars.len(),
                cell_rows(rows@) =~= chars@.take(i as int).map_values(|l: &[Ch]| l@),
            decreases chars.len() - i,
        {
            let inner: &[Ch] = chars[i];
            let mut row: Vec<Ch> = Vec::new();
            let mut j: usize = 0;
            while j < inner.len()
                invariant
                    j <= inner.len(),
                    row@ =~= inner@.take(j as int),
                decreases inner.len() - j,
            {
                row.push(inner[j]);
                j = j + 1;
            }
            assert(inner@.take(j as int) =~= inner@);
            let ghost prev = rows@;
            rows.push(row);
            proof {
                lemma_rows_push(prev, row);
                assert(chars@.take(i + 1) =~= chars@.take(i as int).push(chars@[i as int]));
            }
            i = i + 1;
        }
        assert(chars@.take(i as int) =~= chars@);
        TextBuffer { chars: rows, cursor: Point2::new(0, 0) }
    }

    pub fn chars(&self) -> (r: &[Vec<Ch>])
        ensures
            cell_rows(r@) == self.grid(),
    {
        self.chars.as_slice()
    }

    /// return the total number of characters
    /// excluding new lines
    pub fn total_chars(&self) -> (n: usize)
        requires
            total_len(self.grid()) <= usize::MAX,
        ensures
            n == total_len(self.grid()),
    {
        let ghost g = self.grid();
        let mut sum: usize = 0;
        let mut i: usize = 0;
        while i < self.chars.len()
            invariant
                i <= self.chars.len(),
                g == self.grid(),
                total_len(g) <= usize::MAX,
                sum == total_len(g.take(i as int)),
            decreases self.chars.len() - i,
        {
            proof {
                assert(g.take(i + 1).drop_last() =~= g.take(i as int));
                lemma_total_len_prefix(g, i + 1);
            }
            sum = sum + self.chars[i].len();
            i = i + 1;
        }
        assert(g.take(i as int) =~= g);
        sum
    }

    /// return the number of characters to represent the line number of the last line of
    /// this text buffer
    pub fn numberline_wide(&self) -> (n: usize)
        ensures
            n == decimal_len(self.grid().len()),
    {
        let total = self.total_lines();
        let mut n = total;
        let mut digits: usize = 1;
        proof {
            lemma_decimal_len_usize(total as nat);
        }
        while n >= 10
            invariant
                decimal_len(total as nat) == digits + decimal_len(n as nat) - 1,
                decimal_len(total as nat) <= 20,
                total == self.grid().len(),
                1 <= digits,
            decreases n,
        {
            proof {
                lemma_decimal_len_pos((n / 10) as nat);
            }
            n = n / 10;
            digits = digits + 1;
        }
        digits
    }
}

/// Appends the characters of cells `from..to` of `line` to `s`.
fn push_cells(s: &mut String, line: &Vec<Ch>, from: usize, to: usize)
    requires
        from <= to <= line@.len(),
    ensures
        final(s)@ == old(s)@ + line_text(line@.subrange(from as int, to as int)),
{
    let mut i = from;
    while i < to
        invariant
            from <= i <= to,
            to <= line@.len(),
            s@ == old(s)@ + line_text(line@.subrange(from as int, i as int)),
        decreases to - i,
    {
        push_char(s, line[i].ch);
        i = i + 1;
        assert(line_text(line@.subrange(from as int, i as int)) =~= line_text(
            line@.subrange(from as int, i - 1),
        ).push(line@[i - 1].ch));
    }
}

/// The characters of a line of cells as a string.
fn cells_string(line: &Vec<Ch>) -> (r: String)
    ensures
        r@ == line_text(line@),
{
    let mut s = String::new();
    push_cells(&mut s, line, 0, line.len());
    assert(line@.subrange(0, line@.len() as int) =~= line@);
    assert(s@ =~= line_text(line@));
    s
}

pub proof fn lemma_join_push(lines: Seq<Seq<char>>, last: Seq<char>)
    requires
        lines.len() > 0,
    ensures
        join_lines(lines.push(last)) == join_lines(lines) + seq!['\n'] + last,
{
    assert(lines.push(last).drop_last() =~= lines);
}

impl TextBuffer {
    pub fn lines(&self) -> (r: Vec<String>)
        ensures
            r@.map_values(|l: String| l@) == grid_text(self.grid()),
    {
        let mut out: Vec<String> = Vec::new();
        let mut i: usize = 0;
        while i < self.chars.len()
            invariant
                i <= self.chars.len(),
                out@.map_values(|l: String| l@) =~= grid_text(self.grid().take(i as int)),
            decreases self.chars.len() - i,
        {
            let line = cells_string(&self.chars[i]);
            out.push(line);
            i = i + 1;
            assert(grid_text(self.grid().take(i as int)) =~= grid_text(self.grid().take(i - 1)).push(
                line_text(self.grid()[i - 1]),
            ));
        }
        assert(self.grid().take(i as int) =~= self.grid());
        out
    }

    /// The text of the buffer: its lines joined with `'\n'`.
    pub fn to_string(&self) -> (r: String)
        ensures
            r@ == grid_string(self.grid()),
    {
        let mut out = String::new();
        let mut i: usize = 0;
        while i < self.chars.len()
            invariant
                i <= self.chars.len(),
                out@ == join_lines(grid_text(self.grid().take(i as int))),
            decreases self.chars.len() - i,
        {
            let ghost prev = grid_text(self.grid().take(i as int));
            if i > 0 {
                push_char(&mut out, '\n');
            }
            push_cells(&mut out, &self.chars[i], 0, self.chars[i].len());
            proof {
                assert(self.chars@[i as int]@.subrange(0, self.chars@[i as int]@.len() as int)
                    =~= self.grid()[i as int]);
                assert(grid_text(self.grid().take(i + 1)) =~= prev.push(line_text(self.grid()[i as int])));
                if i > 0 {
                    lemma_join_push(prev, line_text(self.grid()[i as int]));
                } else {
                    assert(prev.push(line_text(self.grid()[i as int])).len() == 1);
                }
            }
            i = i + 1;
        }
        assert(self.grid().take(i as int) =~= self.grid());
        out
    }

    /// return the first non blank line
    pub fn first_non_blank_line(&self) -> (r: Option<usize>)
        ensures
            r matches Some(i) ==> i < self.grid().len() && has_non_blank(self.grid()[i as int])
                && forall|j: int| 0 <= j < i ==> !has_non_blank(#[trigger] self.grid()[j]),
            r is None ==> forall|j: int|
                0 <= j < self.grid().len() ==> !has_non_blank(#[trigger] self.grid()[j]),
    {
        let mut i: usize = 0;
        while i < self.chars.len()
            invariant
                i <= self.chars.len(),
                forall|j: int| 0 <= j < i ==> !has_non_blank(#[trigger] self.grid()[j]),
            decreases self.chars.len() - i,
        {
            if self.line_has_non_blank(i) {
                return Some(i);
            }
            i = i + 1;
        }
        None
    }

    /// return the last non blank line
    pub fn last_non_blank_line(&self) -> (r: Option<usize>)
        ensures
            r matches Some(i) ==> i < self.grid().len() && has_non_blank(self.grid()[i as int])
                && forall|j: int| i < j < self.grid().len() ==> !has_non_blank(#[trigger] self.grid()[j]),
            r is None ==> forall|j: int|
                0 <= j < self.grid().len() ==> !has_non_blank(#[trigger] self.grid()[j]),
    {
        let mut i: usize = self.chars.len();
        while i > 0
            invariant
                i <= self.chars.len(),
                forall|j: int| i <= j < self.grid().len() ==> !has_non_blank(#[trigger] self.grid()[j]),
            decreases i,
        {
            if self.line_has_non_blank(i - 1) {
                return Some(i - 1);
            }
            i = i - 1;
        }
        None
    }

    fn line_has_non_blank(&self, n: usize) -> (b: bool)
        requires
            n < self.grid().len(),
        ensures
            b == has_non_blank(self.grid()[n as int]),
    {
        let line = &self.chars[n];
        let mut k: usize = 0;
        while k < line.len()
            invariant
                k <= line.len(),
                line@ == self.grid()[n as int],
                forall|j: int| 0 <= j < k ==> #[trigger] line@[j].ch == BLANK_CH,
            decreases line.len() - k,
        {
            if line[k].ch != BLANK_CH {
                return true;
            }
            k = k + 1;
        }
        false
    }

    /// get the length of the widest line
    pub fn max_column_width(&self) -> (w: usize)
        ensures
            w == max_width(self.grid()),
    {
        let mut m: usize = 0;
        let mut i: usize = 0;
        while i < self.chars.len()
            invariant
                i <= self.chars.len(),
                m == max_width(self.grid().take(i as int)),
            decreases self.chars.len() - i,
        {
            let w = self.line_width(i);
            assert(self.grid().take(i + 1).drop_last() =~= self.grid().take(i as int));
            if w > m {
                m = w;
            }
            i = i + 1;
        }
        assert(self.grid().take(i as int) =~= self.grid());
        m
    }

    /// return rectangular position starting from 0,0 to contain all
    /// the text
    pub fn max_position(&self) -> (p: Point2<usize>)
        ensures
            p.x == max_width(self.grid()),
            p.y == sub_sat(self.grid().len() as usize, 1),
    {
        let last_line = self.total_lines().saturating_sub(1);
        let max_column = self.max_column_width();
        Point2::new(max_column, last_line)
    }

    pub fn last_char_position(&self) -> (p: Point2<usize>)
        ensures
            p.y == sub_sat(self.grid().len() as usize, 1),
            p.x == sub_sat(line_width_spec(self.grid(), p.y as int), 1),
    {
        let last_line = self.total_lines().saturating_sub(1);
        let bottom_last_x = self.line_width(last_line).saturating_sub(1);
        Point2::new(bottom_last_x, last_line)
    }

    /// clear the contents of this text buffer
    pub fn clear(&mut self)
        ensures
            final(self).grid() == Seq::<Seq<Ch>>::empty(),
            final(self).cursor() == old(self).cursor(),
    {
        self.chars.clear();
        assert(self.grid() =~= Seq::<Seq<Ch>>::empty());
    }

    /// translate this point into the correct index position
    /// considering the character widths
    fn point_to_index(&self, point: Point2<usize>) -> (p: Point2<usize>)
        ensures
            p == index_point(self.grid(), point),
    {
        let column_x = match self.column_index(point.x, point.y) {
            Some(c) => c,
            None => point.x,
        };
        Point2::new(column_x, point.y)
    }
}

/// The cell index of a position: the cell that starts at its column, or the
/// column itself when no cell does.
pub open spec fn index_point(grid: Seq<Seq<Ch>>, p: Point2<usize>) -> Point2<usize> {
    Point2 {
        x: match column_at(grid, p.x as int, p.y as int) {
            Some(i) => i,
            None => p.x,
        },
        y: p.y,
    }
}

/// Command implementation here
///
/// functions that are preceeded with command also moves the
/// cursor and highlight the texts
///
/// Note: methods that are preceeded with `command` such as `command_insert_char` are high level methods
/// which has consequences in the text buffer such as moving the cursor.
/// While there corresponding more primitive counter parts such as `insert_char` are low level
/// commands, which doesn't move the cursor location
impl TextBuffer {
    pub fn command_insert_char(&mut self, ch: char)
        requires
            old(self).cursor().y < usize::MAX,
            char_width(ch) is Some,
        ensures
            final(self).grid() == insert_char_spec(
                old(self).grid(),
                old(self).cursor().x,
                old(self).cursor().y,
                ch,
            ),
            final(self).cursor() == (Point2 {
                x: add_sat(old(self).cursor().x, char_width(ch)->0),
                y: old(self).cursor().y,
            }),
    {
        self.insert_char(self.cursor.x, self.cursor.y, ch);
        let width = match unicode_char_width(ch) {
            Some(w) => w,
            None => {
                assert(false);
                0
            },
        };
        self.move_x(width);
    }

    pub fn command_replace_char(&mut self, ch: char) -> (r: Option<char>)
        requires
            can_replace(old(self).grid(), old(self).cursor().x, old(self).cursor().y),
        ensures
            final(self).grid() == replace_char_spec(
                old(self).grid(),
                old(self).cursor().x,
                old(self).cursor().y,
                ch,
            ),
            r == char_at(
                ensure_cell_spec(old(self).grid(), old(self).cursor().x, old(self).cursor().y),
                old(self).cursor().x,
                old(self).cursor().y,
            ),
            r is Some,
            final(self).cursor() == old(self).cursor(),
    {
        self.replace_char(self.cursor.x, self.cursor.y, ch)
    }

    pub fn move_left(&mut self)
        ensures
            final(self).grid() == old(self).grid(),
            final(self).cursor() == (Point2 { x: sub_sat(old(self).cursor().x, 1), y: old(self).cursor().y }),
    {
        self.cursor.x = self.cursor.x.saturating_sub(1);
    }

    pub fn move_left_start(&mut self)
        ensures
            final(self).grid() == old(self).grid(),
            final(self).cursor() == (Point2 { x: 0usize, y: old(self).cursor().y }),
    {
        self.cursor.x = 0;
    }

    pub fn move_right(&mut self)
        ensures
            final(self).grid() == old(self).grid(),
            final(self).cursor() == (Point2 { x: add_sat(old(self).cursor().x, 1), y: old(self).cursor().y }),
    {
        self.cursor.x = self.cursor.x.saturating_add(1);
    }

    fn line_max_column(&self, line: usize) -> (n: usize)
        ensures
            n == line_len(self.grid(), line as int),
    {
        if line < self.chars.len() {
            self.chars[line].len()
        } else {
            0
        }
    }

    fn current_line_max_column(&self) -> (n: usize)
        ensures
            n == line_len(self.grid(), self.cursor().y as int),
    {
        self.line_max_column(self.cursor.y)
    }

    pub fn move_right_clamped(&mut self)
        ensures
            final(self).grid() == old(self).grid(),
            final(self).cursor() == (if old(self).cursor().x < line_len(old(self).grid(), old(self).cursor().y as int) {
                Point2 { x: add_sat(old(self).cursor().x, 1), y: old(self).cursor().y }
            } else {
                old(self).cursor()
            }),
    {
        if self.cursor.x < self.current_line_max_column() {
            self.move_right();
        }
    }

    pub fn move_right_end(&mut self)
        ensures
            final(self).grid() == old(self).grid(),
            final(self).cursor() == (Point2 {
                x: line_len(old(self).grid(), old(self).cursor().y as int),
                y: old(self).cursor().y,
            }),
    {
        self.cursor.x = self.current_line_max_column();
    }

    pub fn move_x(&mut self, x: usize)
        ensures
            final(self).grid() == old(self).grid(),
            final(self).cursor() == (Point2 { x: add_sat(old(self).cursor().x, x), y: old(self).cursor().y }),
    {
        self.cursor.x = self.cursor.x.saturating_add(x);
    }

    pub fn move_y(&mut self, y: usize)
        ensures
            final(self).grid() == old(self).grid(),
            final(self).cursor() == (Point2 { x: old(self).cursor().x, y: add_sat(old(self).cursor().y, y) }),
    {
        self.cursor.y = self.cursor.y.saturating_add(y);
    }

    pub fn move_up(&mut self)
        ensures
            final(self).grid() == old(self).grid(),
            final(self).cursor() == (Point2 { x: old(self).cursor().x, y: sub_sat(old(self).cursor().y, 1) }),
    {
        self.cursor.y = self.cursor.y.saturating_sub(1);
    }

    pub fn move_down(&mut self)
        ensures
            final(self).grid() == old(self).grid(),
            final(self).cursor() == (Point2 { x: old(self).cursor().x, y: add_sat(old(self).cursor().y, 1) }),
    {
        self.cursor.y = self.cursor.y.saturating_add(1);
    }

    pub fn move_up_clamped(&mut self)
        ensures
            final(self).grid() == old(self).grid(),
            final(self).cursor() == move_vertical_clamped(old(self).grid(), old(self).cursor(), sub_sat(old(self).cursor().y, 1)),
    {
        let target_line = self.cursor.y.saturating_sub(1);
        let target_line_max_column = self.line_max_column(target_line);
        if target_line < self.total_lines() {
            if self.cursor.x > target_line_max_column {
                self.cursor.x = target_line_max_column;
            }
            self.move_up()
        }
    }

    pub fn clamp_position(&self, loc: Point2<usize>) -> (p: Point2<usize>)
        ensures
            p == (Point2 { x: min_usize(loc.x, line_len(self.grid(), loc.y as int)), y: loc.y }),
    {
        let line = loc.y;
        let line_max_column = self.line_max_column(line);
        let loc_x = if loc.x > line_max_column {
            line_max_column
        } else {
            loc.x
        };
        Point2::new(loc_x, loc.y)
    }

    pub fn move_down_clamped(&mut self)
        ensures
            final(self).grid() == old(self).grid(),
            final(self).cursor() == move_vertical_clamped(old(self).grid(), old(self).cursor(), add_sat(old(self).cursor().y, 1)),
    {
        let target_line = self.cursor.y.saturating_add(1);
        let target_line_max_column = self.line_max_column(target_line);
        if target_line < self.total_lines() {
            if self.cursor.x > target_line_max_column {
                self.cursor.x = target_line_max_column;
            }
            self.move_down()
        }
    }

    pub fn set_position(&mut self, x: usize, y: usize)
        ensures
            final(self).grid() == old(self).grid(),
            final(self).cursor() == (Point2 { x, y }),
    {
        self.cursor = Point2::new(x, y);
    }

    /// set the position to the max_column of the line if it is out of
    /// bounds
    pub fn set_position_clamped(&mut self, x: usize, y: usize)
        ensures
            final(self).grid() == old(self).grid(),
            final(self).cursor() == clamped_position(old(self).grid(), x, y),
    {
        let total_lines = self.total_lines();
        let mut y = y;
        if y >= total_lines {
            y = total_lines.saturating_sub(1);
        }
        let line_width = self.line_width(y);
        let mut x = x;
        if x > line_width {
            x = line_width.saturating_sub(1);
        }
        self.set_position(x, y)
    }

    pub fn command_break_line(&mut self, x: usize, y: usize)
        requires
            y < usize::MAX,
        ensures
            final(self).grid() == break_line_spec(old(self).grid(), x, y),
            final(self).cursor() == (Point2 { x: 0usize, y: add_sat(old(self).cursor().y, 1) }),
    {
        self.break_line(x, y);
        self.move_left_start();
        self.move_down();
    }

    pub fn command_join_line(&mut self, x: usize, y: usize)
        requires
            y + 1 < old(self).grid().len(),
        ensures
            final(self).grid() == join_line_spec(old(self).grid(), y),
            final(self).cursor() == (Point2 { x, y }),
    {
        self.join_line(x, y);
        self.set_position(x, y);
    }

    pub fn command_delete_back(&mut self) -> (r: Option<char>)
        ensures
            old(self).cursor().x > 0 ==> {
                &&& final(self).grid() == delete_char_spec(
                    old(self).grid(),
                    (old(self).cursor().x - 1) as usize,
                    old(self).cursor().y,
                )
                &&& r == char_at(old(self).grid(), (old(self).cursor().x - 1) as usize, old(self).cursor().y)
                &&& final(self).cursor() == (Point2 { x: (old(self).cursor().x - 1) as usize, y: old(self).cursor().y })
            },
            old(self).cursor().x == 0 ==> r is None && final(self).grid() == old(self).grid()
                && final(self).cursor() == old(self).cursor(),
    {
        if self.cursor.x > 0 {
            let c = self.delete_char(self.cursor.x.saturating_sub(1), self.cursor.y);
            self.move_left();
            c
        } else {
            None
        }
    }

    pub fn command_delete_forward(&mut self) -> (r: Option<char>)
        ensures
            final(self).grid() == delete_char_spec(old(self).grid(), old(self).cursor().x, old(self).cursor().y),
            r == char_at(old(self).grid(), old(self).cursor().x, old(self).cursor().y),
            final(self).cursor() == old(self).cursor(),
    {
        self.delete_char(self.cursor.x, self.cursor.y)
    }

    /// move the cursor to position
    pub fn move_to(&mut self, pos: Point2<usize>)
        ensures
            final(self).grid() == old(self).grid(),
            final(self).cursor() == pos,
    {
        self.set_position(pos.x, pos.y);
    }
}

/// `a + b`, held at `usize::MAX`.
pub open spec fn add_sat(a: usize, b: usize) -> usize {
    if a + b > usize::MAX {
        usize::MAX
    } else {
        (a + b) as usize
    }
}

pub open spec fn min_usize(a: usize, b: usize) -> usize {
    if a > b {
        b
    } else {
        a
    }
}

/// Where a clamped move of the cursor to line `target` leaves it: when the
/// line exists the cursor moves there, its column held to the line's length.
pub open spec fn move_vertical_clamped(grid: Seq<Seq<Ch>>, cursor: Point2<usize>, target: usize) -> Point2<usize> {
    if target < grid.len() {
        Point2 { x: min_usize(cursor.x, line_len(grid, target as int)), y: target }
    } else {
        cursor
    }
}

/// The position `set_position_clamped(x, y)` moves the cursor to.
pub open spec fn clamped_position(grid: Seq<Seq<Ch>>, x: usize, y: usize) -> Point2<usize> {
    let y2 = if y >= grid.len() {
        sub_sat(grid.len() as usize, 1)
    } else {
        y
    };
    let w = line_width_spec(grid, y2 as int);
    let x2 = if x > w {
        sub_sat(w, 1)
    } else {
        x
    };
    Point2 { x: x2, y: y2 }
}

/// The lines of text between cell positions `s` and `e` (both included) in
/// linear mode: from `s` to the end of its line, the lines in between, and
/// the start of `e`'s line up to `e`.
pub open spec fn linear_lines(grid: Seq<Seq<Ch>>, s: Point2<usize>, e: Point2<usize>) -> Seq<Seq<char>> {
    if s.y == e.y {
        seq![line_text(grid[s.y as int].subrange(s.x as int, e.x + 1))]
    } else {
        let mid = if s.y + 1 < e.y {
            grid_text(grid.subrange(s.y + 1, e.y as int))
        } else {
            Seq::empty()
        };
        seq![line_text(grid[s.y as int].skip(s.x as int))] + mid + seq![line_text(grid[e.y as int].take(e.x + 1))]
    }
}

/// The cell positions `s` and `e` lie within the grid for a linear selection.
pub open spec fn linear_range_ok(grid: Seq<Seq<Ch>>, s: Point2<usize>, e: Point2<usize>) -> bool {
    if s.y == e.y {
        &&& s.y < grid.len()
        &&& s.x <= e.x + 1
        &&& e.x < grid[s.y as int].len()
    } else {
        &&& s.y < grid.len()
        &&& s.x <= grid[s.y as int].len()
        &&& e.y < grid.len()
        &&& e.x < grid[e.y as int].len()
    }
}

/// The text selected in linear mode from `start` to `end`, given in columns.
pub open spec fn linear_text(grid: Seq<Seq<Ch>>, start: Point2<usize>, end: Point2<usize>) -> Seq<char> {
    join_lines(linear_lines(grid, index_point(grid, start), index_point(grid, end)))
}

/// A linear selection from `start` to `end`, given in columns, lies within the grid.
pub open spec fn linear_ok(grid: Seq<Seq<Ch>>, start: Point2<usize>, end: Point2<usize>) -> bool {
    linear_range_ok(grid, index_point(grid, start), index_point(grid, end))
}

/// The grid once the linear selection between cell positions `s` and `e` is cut:
/// within one line the cells are removed; over several lines the end of
/// `s`'s line, the lines in between and the start of `e`'s line are removed,
/// the two remaining parts staying on their own lines.
pub open spec fn cut_linear_cells(grid: Seq<Seq<Ch>>, s: Point2<usize>, e: Point2<usize>) -> Seq<Seq<Ch>> {
    if s.y == e.y {
        grid.update(s.y as int, grid[s.y as int].take(s.x as int) + grid[s.y as int].skip(e.x + 1))
    } else {
        let g1 = grid.update(e.y as int, grid[e.y as int].skip(e.x + 1));
        let g2 = if s.y + 1 < e.y {
            g1.take(s.y + 1) + g1.skip(e.y as int)
        } else {
            g1
        };
        g2.update(s.y as int, g2[s.y as int].take(s.x as int))
    }
}

/// `cut_text_in_linear_mode(start, end)` on a grid, positions given in columns.
pub open spec fn cut_linear_spec(grid: Seq<Seq<Ch>>, start: Point2<usize>, end: Point2<usize>) -> Seq<Seq<Ch>> {
    cut_linear_cells(grid, index_point(grid, start), index_point(grid, end))
}

/// The character in cell `x` of a line, or a blank past its end.
pub open spec fn char_or_blank(line: Seq<Ch>, x: int) -> char {
    if 0 <= x < line.len() {
        line[x].ch
    } else {
        BLANK_CH
    }
}

/// The characters of cells `sx..=ex` of line `y`, blanks past the end of
/// the line; nothing when the line does not exist.
pub open spec fn block_row(grid: Seq<Seq<Ch>>, y: int, sx: usize, ex: usize) -> Seq<char> {
    if 0 <= y < grid.len() && sx <= ex {
        Seq::new((ex - sx + 1) as nat, |k: int| char_or_blank(grid[y], sx + k))
    } else {
        Seq::empty()
    }
}

/// The rows of a block selection between cell positions `s` and `e`.
pub open spec fn block_lines(grid: Seq<Seq<Ch>>, s: Point2<usize>, e: Point2<usize>) -> Seq<Seq<char>> {
    if s.y <= e.y {
        Seq::new((e.y - s.y + 1) as nat, |k: int| block_row(grid, s.y + k, s.x, e.x))
    } else {
        Seq::empty()
    }
}

/// The text selected in block mode from `start` to `end`, given in columns.
pub open spec fn block_text(grid: Seq<Seq<Ch>>, start: Point2<usize>, end: Point2<usize>) -> Seq<char> {
    join_lines(block_lines(grid, index_point(grid, start), index_point(grid, end)))
}

/// The lines of a block selection between cell positions `s` and `e`
/// exist, and its first cell does not lie past its last.
pub open spec fn block_range_ok(grid: Seq<Seq<Ch>>, s: Point2<usize>, e: Point2<usize>) -> bool {
    s.y <= e.y ==> {
        &&& e.y < grid.len()
        &&& s.x <= e.x + 1
    }
}

/// The cells `sx..=ex` of a line, as far as the line has them: the index
/// of the first and the index past the last.
pub open spec fn cut_range(line: Seq<Ch>, sx: usize, ex: usize) -> (int, int) {
    (
        if sx < line.len() { sx as int } else { line.len() as int },
        if ex < line.len() { ex + 1 } else { line.len() as int },
    )
}

/// A line once the cells `sx..=ex` it has are removed.
pub open spec fn cut_row(line: Seq<Ch>, sx: usize, ex: usize) -> Seq<Ch> {
    let (a, b) = cut_range(line, sx, ex);
    line.take(a) + line.skip(b)
}

/// The characters of the cells `sx..=ex` a line has.
pub open spec fn cut_row_text(line: Seq<Ch>, sx: usize, ex: usize) -> Seq<char> {
    let (a, b) = cut_range(line, sx, ex);
    line_text(line.subrange(a, b))
}

/// The rows of text a block cut between cell positions `s` and `e` takes.
pub open spec fn cut_block_rows(grid: Seq<Seq<Ch>>, s: Point2<usize>, e: Point2<usize>) -> Seq<Seq<char>> {
    if s.y <= e.y {
        Seq::new((e.y - s.y + 1) as nat, |k: int| cut_row_text(grid[s.y + k], s.x, e.x))
    } else {
        Seq::empty()
    }
}

/// The text `cut_text_in_block_mode(start, end)` takes, positions given in
/// columns: of each line the cells it has in the block, without blanks for
/// the cells it lacks.
pub open spec fn cut_block_text(grid: Seq<Seq<Ch>>, start: Point2<usize>, end: Point2<usize>) -> Seq<char> {
    join_lines(cut_block_rows(grid, index_point(grid, start), index_point(grid, end)))
}

/// A block selection from `start` to `end`, given in columns, lies within the grid.
pub open spec fn block_ok(grid: Seq<Seq<Ch>>, start: Point2<usize>, end: Point2<usize>) -> bool {
    block_range_ok(grid, index_point(grid, start), index_point(grid, end))
}

/// The grid once the cells `s.x..=e.x` they have are removed from each
/// line `s.y..=e.y`.
pub open spec fn cut_block_cells(grid: Seq<Seq<Ch>>, s: Point2<usize>, e: Point2<usize>) -> Seq<Seq<Ch>> {
    Seq::new(
        grid.len(),
        |y: int|
            if s.y <= y <= e.y {
                cut_row(grid[y], s.x, e.x)
            } else {
                grid[y]
            },
    )
}

/// `cut_text_in_block_mode(start, end)` on a grid, positions given in columns.
pub open spec fn cut_block_spec(grid: Seq<Seq<Ch>>, start: Point2<usize>, end: Point2<usize>) -> Seq<Seq<Ch>> {
    cut_block_cells(grid, index_point(grid, start), index_point(grid, end))
}

impl TextBuffer {
    /// get the text in between start and end if selected in linear mode
    pub fn get_text_in_linear_mode(&self, start: Point2<usize>, end: Point2<usize>) -> (r: String)
        requires
            linear_ok(self.grid(), start, end),
        ensures
            r@ == linear_text(self.grid(), start, end),
    {
        let start = self.point_to_index(start);
        let end = self.point_to_index(end);
        let ghost g = self.grid();
        proof {
            self.lemma_len_bound();
        }
        let mut text = String::new();
        if start.y == end.y {
            push_cells(&mut text, &self.chars[start.y], start.x, end.x + 1);
            assert(text@ =~= line_text(g[start.y as int].subrange(start.x as int, end.x + 1)));
        } else {
            let first_line = &self.chars[start.y];
            push_cells(&mut text, first_line, start.x, first_line.len());
            let ghost first = line_text(g[start.y as int].skip(start.x as int));
            assert(g[start.y as int].subrange(start.x as int, g[start.y as int].len() as int) =~= g[start.y as int].skip(start.x as int));
            assert(text@ =~= first);
            let mut y = start.y + 1;
            assert(grid_text(g.subrange(start.y + 1, y as int)) =~= Seq::<Seq<char>>::empty());
            assert(seq![first] + Seq::<Seq<char>>::empty() =~= seq![first]);
            while y < end.y
                invariant
                    start.y < y,
                    g == self.grid(),
                    y <= end.y || y == start.y + 1,
                    start.y + 1 < end.y ==> y <= end.y,
                    end.y < g.len(),
                    text@ == join_lines(seq![first] + grid_text(g.subrange(start.y + 1, y as int))),
                decreases end.y - y,
            {
                let ghost prev = seq![first] + grid_text(g.subrange(start.y + 1, y as int));
                push_char(&mut text, '\n');
                push_cells(&mut text, &self.chars[y], 0, self.chars[y].len());
                proof {
                    assert(g[y as int].subrange(0, g[y as int].len() as int) =~= g[y as int]);
                    lemma_join_push(prev, line_text(g[y as int]));
                    assert(seq![first] + grid_text(g.subrange(start.y + 1, y + 1)) =~= prev.push(line_text(g[y as int])));
                }
                y = y + 1;
            }
            let ghost before = seq![first] + grid_text(g.subrange(start.y + 1, y as int));
            push_char(&mut text, '\n');
            push_cells(&mut text, &self.chars[end.y], 0, end.x + 1);
            proof {
                let last = line_text(g[end.y as int].take(end.x + 1));
                assert(g[end.y as int].subrange(0, end.x + 1) =~= g[end.y as int].take(end.x + 1));
                lemma_join_push(before, last);
                if start.y + 1 < end.y {
                    assert(before.push(last) =~= linear_lines(g, start, end));
                } else {
                    assert(g.subrange(start.y + 1, y as int) =~= Seq::<Seq<Ch>>::empty());
                    assert(before.push(last) =~= linear_lines(g, start, end));
                }
            }
        }
        text
    }

    /// Remove the text within the start and end position then return the deleted text
    pub fn cut_text_in_linear_mode(&mut self, start: Point2<usize>, end: Point2<usize>) -> (r: String)
        requires
            linear_ok(old(self).grid(), start, end),
        ensures
            r@ == linear_text(old(self).grid(), start, end),
            final(self).grid() == cut_linear_spec(old(self).grid(), start, end),
            final(self).cursor() == old(self).cursor(),
    {
        let text = self.get_text_in_linear_mode(start, end);
        let start = self.point_to_index(start);
        let end = self.point_to_index(end);
        let ghost g = self.grid();
        proof {
            self.lemma_len_bound();
        }
        let ghost rows = self.chars@;
        if start.y == end.y {
            let mut tail = self.chars[start.y].split_off(end.x + 1);
            self.chars[start.y].truncate(start.x);
            self.chars[start.y].append(&mut tail);
            proof {
                lemma_rows_update(rows, start.y as int, self.chars@[start.y as int]);
                assert(self.chars@ =~= rows.update(start.y as int, self.chars@[start.y as int]));
                assert(self.chars@[start.y as int]@ =~= g[start.y as int].take(start.x as int) + g[start.y as int].skip(end.x + 1));
            }
        } else {
            let rest = self.chars[end.y].split_off(end.x + 1);
            self.chars.set(end.y, rest);
            let ghost g1 = g.update(end.y as int, g[end.y as int].skip(end.x + 1));
            proof {
                lemma_rows_update(rows, end.y as int, rest);
                assert(rest@ =~= g[end.y as int].skip(end.x + 1));
                assert(self.grid() =~= g1);
            }
            if start.y + 1 < end.y {
                let mut tail = self.chars.split_off(end.y);
                self.chars.truncate(start.y + 1);
                self.chars.append(&mut tail);
                assert(self.grid() =~= g1.take(start.y + 1) + g1.skip(end.y as int));
            }
            let ghost g2 = self.grid();
            let ghost rows2 = self.chars@;
            self.chars[start.y].truncate(start.x);
            proof {
                lemma_rows_update(rows2, start.y as int, self.chars@[start.y as int]);
                assert(self.chars@ =~= rows2.update(start.y as int, self.chars@[start.y as int]));
            }
            assert(self.grid() =~= cut_linear_cells(g, start, end));
        }
        text
    }
}

impl TextBuffer {
    /// The characters of cells `sx..=ex` of line `y`, blanks past its end.
    fn block_row_string(&self, y: usize, sx: usize, ex: usize) -> (r: String)
        ensures
            r@ == block_row(self.grid(), y as int, sx, ex),
    {
        let mut text = String::new();
        if y < self.chars.len() && sx <= ex {
            let line = &self.chars[y];
            let ghost want = block_row(self.grid(), y as int, sx, ex);
            let mut x = sx;
            while x < ex
                invariant
                    sx <= x <= ex,
                    line@ == self.grid()[y as int],
                    (y as int) < self.grid().len(),
                    want == block_row(self.grid(), y as int, sx, ex),
                    text@ =~= want.take(x - sx),
                decreases ex - x,
            {
                let c = if x < line.len() { line[x].ch } else { BLANK_CH };
                push_char(&mut text, c);
                x = x + 1;
                assert(want.take(x - sx) =~= want.take(x - sx - 1).push(c));
            }
            let c = if x < line.len() { line[x].ch } else { BLANK_CH };
            push_char(&mut text, c);
            assert(want.take(x - sx + 1) =~= want);
        }
        text
    }

    /// get the text in between start and end if selected in block mode
    pub fn get_text_in_block_mode(&self, start: Point2<usize>, end: Point2<usize>) -> (r: String)
        ensures
            r@ == block_text(self.grid(), start, end),
    {
        let start = self.point_to_index(start);
        let end = self.point_to_index(end);
        let ghost g = self.grid();
        let ghost rows = block_lines(g, start, end);
        let mut text = String::new();
        if start.y <= end.y {
            let mut y = start.y;
            while y < end.y
                invariant
                    start.y <= y <= end.y,
                    g == self.grid(),
                    rows == block_lines(g, start, end),
                    y > start.y ==> text@ == join_lines(rows.take(y - start.y)),
                    y == start.y ==> text@ == Seq::<char>::empty(),
                decreases end.y - y,
            {
                let row = self.block_row_string(y, start.x, end.x);
                proof {
                    assert(rows[y - start.y] == row@);
                    assert(rows.take(y - start.y + 1) =~= rows.take(y - start.y).push(row@));
                }
                if y > start.y {
                    proof {
                        lemma_join_push(rows.take(y - start.y), row@);
                    }
                    push_char(&mut text, '\n');
                }
                text.append(row.as_str());
                y = y + 1;
            }
            let row = self.block_row_string(y, start.x, end.x);
            proof {
                assert(rows[y - start.y] == row@);
                assert(rows.take(y - start.y + 1) =~= rows.take(y - start.y).push(row@));
                assert(rows.take(y - start.y + 1) =~= rows);
            }
            if y > start.y {
                proof {
                    lemma_join_push(rows.take(y - start.y), row@);
                }
                push_char(&mut text, '\n');
            }
            text.append(row.as_str());
        } else {
            assert(rows =~= Seq::<Seq<char>>::empty());
        }
        text
    }
}

/// The grid with the cells `s.x..=e.x` removed from the lines `s.y..y` only.
pub open spec fn cut_block_upto(grid: Seq<Seq<Ch>>, s: Point2<usize>, e: Point2<usize>, y: int) -> Seq<Seq<Ch>> {
    Seq::new(
        grid.len(),
        |i: int|
            if s.y <= i < y {
                cut_row(grid[i], s.x, e.x)
            } else {
                grid[i]
            },
    )
}

impl TextBuffer {
    /// Removes the cells `sx..=ex` that line `y` has and returns them.
    fn remove_cells(&mut self, y: usize, sx: usize, ex: usize) -> (removed: Vec<Ch>)
        requires
            y < old(self).grid().len(),
            sx <= ex + 1,
        ensures
            final(self).grid() == old(self).grid().update(y as int, cut_row(old(self).grid()[y as int], sx, ex)),
            removed@ == old(self).grid()[y as int].subrange(
                cut_range(old(self).grid()[y as int], sx, ex).0,
                cut_range(old(self).grid()[y as int], sx, ex).1,
            ),
            final(self).cursor() == old(self).cursor(),
    {
        let ghost rows = self.chars@;
        let ghost g = self.grid();
        proof {
            self.lemma_len_bound();
        }
        let len = self.chars[y].len();
        let from = if sx < len {
            sx
        } else {
            len
        };
        let to = if ex < len {
            ex + 1
        } else {
            len
        };
        let mut tail = self.chars[y].split_off(to);
        let removed = self.chars[y].split_off(from);
        self.chars[y].append(&mut tail);
        proof {
            lemma_rows_update(rows, y as int, self.chars@[y as int]);
            assert(self.chars@ =~= rows.update(y as int, self.chars@[y as int]));
            assert(self.chars@[y as int]@ =~= cut_row(g[y as int], sx, ex));
            assert(removed@ =~= g[y as int].subrange(from as int, to as int));
        }
        removed
    }

    pub fn cut_text_in_block_mode(&mut self, start: Point2<usize>, end: Point2<usize>) -> (r: String)
        requires
            block_ok(old(self).grid(), start, end),
        ensures
            r@ == cut_block_text(old(self).grid(), start, end),
            final(self).grid() == cut_block_spec(old(self).grid(), start, end),
            final(self).cursor() == old(self).cursor(),
    {
        let start = self.point_to_index(start);
        let end = self.point_to_index(end);
        let ghost g = self.grid();
        let ghost rows = cut_block_rows(g, start, end);
        proof {
            self.lemma_len_bound();
        }
        let mut text = String::new();
        if start.y <= end.y {
            let mut y = start.y;
            assert(cut_block_upto(g, start, end, y as int) =~= g);
            assert(rows.take(0) =~= Seq::<Seq<char>>::empty());
            while y <= end.y
                invariant
                    start.y <= y <= end.y + 1,
                    end.y < g.len(),
                    g.len() <= usize::MAX,
                    start.x <= end.x + 1,
                    rows == cut_block_rows(g, start, end),
                    self.grid() == cut_block_upto(g, start, end, y as int),
                    self.cursor() == old(self).cursor(),
                    text@ == join_lines(rows.take(y - start.y)),
                decreases end.y + 1 - y,
            {
                let ghost before = self.grid();
                assert(before[y as int] == g[y as int]);
                let removed = self.remove_cells(y, start.x, end.x);
                let row = cells_string(&removed);
                proof {
                    assert(row@ == rows[y - start.y]);
                    assert(rows.take(y - start.y + 1) =~= rows.take(y - start.y).push(row@));
                }
                if y > start.y {
                    proof {
                        lemma_join_push(rows.take(y - start.y), row@);
                    }
                    push_char(&mut text, '\n');
                } else {
                    assert(rows.take(1) =~= seq![row@]);
                }
                text.append(row.as_str());
                y = y + 1;
                assert(self.grid() =~= cut_block_upto(g, start, end, y as int));
            }
            assert(rows.take(y - start.y) =~= rows);
            assert(self.grid() =~= cut_block_cells(g, start, end));
        } else {
            assert(g =~= cut_block_cells(g, start, end));
            assert(rows =~= Seq::<Seq<char>>::empty());
        }
        text
    }
}

/// The total width of characters, each as wide as its cell.
pub open spec fn widths(cs: Seq<char>) -> nat
    decreases cs.len(),
{
    if cs.len() == 0 {
        0
    } else {
        widths(cs.drop_last()) + width_or_zero(cs.last()) as nat
    }
}

pub proof fn lemma_widths_mono(cs: Seq<char>, i: int, j: int)
    requires
        0 <= i <= j <= cs.len(),
    ensures
        widths(cs.take(i)) <= widths(cs.take(j)),
    decreases j - i,
{
    if i < j {
        assert(cs.take(j).drop_last() =~= cs.take(j - 1));
        lemma_widths_mono(cs, i, j - 1);
    }
}

/// Inserting the characters `cs` one after the other from column `x` of
/// line `y`, each at the column where the previous one ended: the grid, and
/// whether every step was within range (no column or width overflows a
/// `usize`, and the line is not the last a `usize` counts).
pub open spec fn insert_chars_state(grid: Seq<Seq<Ch>>, x: int, y: usize, cs: Seq<char>) -> (Seq<Seq<Ch>>, bool)
    decreases cs.len(),
{
    if cs.len() == 0 {
        (grid, true)
    } else {
        let (g, ok) = insert_chars_state(grid, x, y, cs.drop_last());
        let at = x + widths(cs.drop_last());
        let step_ok = y < usize::MAX && at <= usize::MAX && widths(cs) <= usize::MAX;
        (insert_char_spec(g, at as usize, y, cs.last()), ok && step_ok)
    }
}

/// Inserting the lines `ls` at `(x, y)`: the first line goes in at `(x, y)`;
/// before each further line the line is broken where the previous one
/// ended, and the next line goes in at the start of the new line. The
/// grid, the column where the last inserted line ended, and whether every
/// step was within range.
pub open spec fn insert_lines_state(grid: Seq<Seq<Ch>>, x: int, y: int, ls: Seq<Seq<char>>) -> (Seq<Seq<Ch>>, int, bool)
    decreases ls.len(),
{
    if ls.len() == 0 {
        (grid, x, true)
    } else {
        let (g1, st, ok1) = insert_lines_state(grid, x, y, ls.drop_last());
        let k = ls.len() - 1;
        let line_y = y + k;
        let brk_ok = k > 0 ==> (0 <= st <= usize::MAX && line_y - 1 < usize::MAX);
        let g2 = if k > 0 { break_line_spec(g1, st as usize, (line_y - 1) as usize) } else { g1 };
        let st2 = if k > 0 { 0 } else { st };
        let (g3, ok3) = insert_chars_state(g2, st2, line_y as usize, ls.last());
        (g3, st2 + widths(ls.last()), ok1 && brk_ok && line_y < usize::MAX && ok3)
    }
}

/// `insert_text(x, y, text)` stays within range.
pub open spec fn insert_text_ok(grid: Seq<Seq<Ch>>, x: usize, y: usize, text: Seq<char>) -> bool {
    insert_lines_state(grid, x as int, y as int, str_lines(text)).2
}

/// `insert_text(x, y, text)` on a grid.
pub open spec fn insert_text_spec(grid: Seq<Seq<Ch>>, x: usize, y: usize, text: Seq<char>) -> Seq<Seq<Ch>> {
    insert_lines_state(grid, x as int, y as int, str_lines(text)).0
}

impl TextBuffer {
    /// insert a text, must not contain a \n; returns the width it took
    fn insert_line_text(&mut self, x: usize, y: usize, text: &Vec<char>) -> (w: usize)
        requires
            insert_chars_state(old(self).grid(), x as int, y, text@).1,
        ensures
            final(self).grid() == insert_chars_state(old(self).grid(), x as int, y, text@).0,
            w == widths(text@),
            final(self).cursor() == old(self).cursor(),
    {
        let ghost g0 = self.grid();
        let ghost cs = text@;
        let mut width_inc: usize = 0;
        let mut k: usize = 0;
        assert(cs.take(0) =~= Seq::<char>::empty());
        while k < text.len()
            invariant
                k <= text.len(),
                cs == text@,
                insert_chars_state(g0, x as int, y, cs).1,
                width_inc == widths(cs.take(k as int)),
                self.grid() == insert_chars_state(g0, x as int, y, cs.take(k as int)).0,
                self.cursor() == old(self).cursor(),
            decreases text.len() - k,
        {
            proof {
                lemma_insert_chars_ok_prefix(g0, x as int, y, cs, k + 1);
                assert(cs.take(k + 1).drop_last() =~= cs.take(k as int));
            }
            let new_ch = Ch::new(text[k]);
            self.insert_char(x + width_inc, y, new_ch.ch);
            width_inc = width_inc + new_ch.width;
            k = k + 1;
        }
        assert(cs.take(k as int) =~= cs);
        width_inc
    }
}

pub proof fn lemma_insert_chars_ok_prefix(grid: Seq<Seq<Ch>>, x: int, y: usize, cs: Seq<char>, k: int)
    requires
        0 <= k <= cs.len(),
        insert_chars_state(grid, x, y, cs).1,
    ensures
        insert_chars_state(grid, x, y, cs.take(k)).1,
        k > 0 ==> x + widths(cs.take(k - 1)) <= usize::MAX,
        widths(cs.take(k)) <= usize::MAX,
        y < usize::MAX || cs.len() == 0,
    decreases cs.len() - k,
{
    if k < cs.len() {
        assert(cs.drop_last().take(k) =~= cs.take(k));
        lemma_insert_chars_ok_prefix(grid, x, y, cs.drop_last(), k);
        lemma_widths_mono(cs, k, cs.len() as int);
        assert(cs.take(cs.len() as int) =~= cs);
        if k > 0 {
            lemma_widths_mono(cs, k - 1, cs.len() - 1);
            assert(cs.take(cs.len() - 1) =~= cs.drop_last());
        }
    } else {
        assert(cs.take(k) =~= cs);
        if k > 0 {
            assert(cs.take(k - 1) =~= cs.drop_last());
        }
    }
}

pub proof fn lemma_insert_lines_ok_prefix(grid: Seq<Seq<Ch>>, x: int, y: int, ls: Seq<Seq<char>>, k: int)
    requires
        0 <= k <= ls.len(),
        insert_lines_state(grid, x, y, ls).2,
    ensures
        insert_lines_state(grid, x, y, ls.take(k)).2,
    decreases ls.len() - k,
{
    if k < ls.len() {
        assert(ls.drop_last().take(k) =~= ls.take(k));
        lemma_insert_lines_ok_prefix(grid, x, y, ls.drop_last(), k);
    } else {
        assert(ls.take(k) =~= ls);
    }
}

impl TextBuffer {
    /// Inserts `text` at `(x, y)`. Each line break of the text breaks the
    /// line where the previously inserted line ended, so the rest of the
    /// original line follows the last inserted line.
    pub fn insert_text(&mut self, x: usize, y: usize, text: &str)
        requires
            insert_text_ok(old(self).grid(), x, y, text@),
        ensures
            final(self).grid() == insert_text_spec(old(self).grid(), x, y, text@),
            final(self).cursor() == old(self).cursor(),
    {
        let lines = split_lines(text);
        let ghost ls = char_lines(lines@);
        let ghost g0 = self.grid();
        let mut start = x;
        let mut i: usize = 0;
        assert(ls.take(0) =~= Seq::<Seq<char>>::empty());
        while i < lines.len()
            invariant
                i <= lines.len(),
                ls == char_lines(lines@),
                insert_lines_state(g0, x as int, y as int, ls).2,
                self.grid() == insert_lines_state(g0, x as int, y as int, ls.take(i as int)).0,
                i < lines.len() ==> start as int == insert_lines_state(g0, x as int, y as int, ls.take(i as int)).1,
                self.cursor() == old(self).cursor(),
            decreases lines.len() - i,
        {
            proof {
                lemma_insert_lines_ok_prefix(g0, x as int, y as int, ls, i + 1);
                assert(ls.take(i + 1).drop_last() =~= ls.take(i as int));
                assert(ls.take(i + 1).last() == lines@[i as int]@);
                if i + 1 < lines.len() {
                    lemma_insert_lines_ok_prefix(g0, x as int, y as int, ls, i + 2);
                    assert(ls.take(i + 2).drop_last() =~= ls.take(i + 1));
                }
            }
            if i > 0 {
                self.break_line(start, y + i - 1);
                start = 0;
            }
            let w = self.insert_line_text(start, y + i, &lines[i]);
            if i + 1 < lines.len() {
                start = start + w;
            }
            i = i + 1;
        }
        assert(ls.take(i as int) =~= ls);
    }
}

/// Replacing cells with the characters `cs` one after the other from
/// column `x` of line `y`, each at the column where the previous one ended:
/// the grid, and whether every step could be done (the columns fit a
/// `usize` and each replacement has a cell to replace).
pub open spec fn replace_chars_state(grid: Seq<Seq<Ch>>, x: int, y: int, cs: Seq<char>) -> (Seq<Seq<Ch>>, bool)
    decreases cs.len(),
{
    if cs.len() == 0 {
        (grid, true)
    } else {
        let (g, ok) = replace_chars_state(grid, x, y, cs.drop_last());
        let at = x + widths(cs.drop_last());
        let step_ok = 0 <= y <= usize::MAX && at <= usize::MAX && widths(cs) <= usize::MAX && can_replace(
            g,
            at as usize,
            y as usize,
        );
        (replace_char_spec(g, at as usize, y as usize, cs.last()), ok && step_ok)
    }
}

/// Pasting lines as a block with its top left corner at `(x, y)`: line `k`
/// replaces cells from `(x, y + k)` on.
pub open spec fn paste_lines_state(grid: Seq<Seq<Ch>>, x: int, y: int, ls: Seq<Seq<char>>) -> (Seq<Seq<Ch>>, bool)
    decreases ls.len(),
{
    if ls.len() == 0 {
        (grid, true)
    } else {
        let (g, ok) = paste_lines_state(grid, x, y, ls.drop_last());
        let line_y = y + ls.len() - 1;
        let (g2, ok2) = replace_chars_state(g, x, line_y, ls.last());
        (g2, ok && line_y <= usize::MAX && ok2)
    }
}

pub proof fn lemma_replace_chars_ok_prefix(grid: Seq<Seq<Ch>>, x: int, y: int, cs: Seq<char>, k: int)
    requires
        0 <= k <= cs.len(),
        replace_chars_state(grid, x, y, cs).1,
    ensures
        replace_chars_state(grid, x, y, cs.take(k)).1,
    decreases cs.len() - k,
{
    if k < cs.len() {
        assert(cs.drop_last().take(k) =~= cs.take(k));
        lemma_replace_chars_ok_prefix(grid, x, y, cs.drop_last(), k);
    } else {
        assert(cs.take(k) =~= cs);
    }
}

pub proof fn lemma_paste_lines_ok_prefix(grid: Seq<Seq<Ch>>, x: int, y: int, ls: Seq<Seq<char>>, k: int)
    requires
        0 <= k <= ls.len(),
        paste_lines_state(grid, x, y, ls).1,
    ensures
        paste_lines_state(grid, x, y, ls.take(k)).1,
    decreases ls.len() - k,
{
    if k < ls.len() {
        assert(ls.drop_last().take(k) =~= ls.take(k));
        lemma_paste_lines_ok_prefix(grid, x, y, ls.drop_last(), k);
    } else {
        assert(ls.take(k) =~= ls);
    }
}

impl TextBuffer {
    /// Replaces cells with the characters of `line` from `(x, y)` on.
    fn replace_line_chars(&mut self, x: usize, y: usize, line: &Vec<char>)
        requires
            replace_chars_state(old(self).grid(), x as int, y as int, line@).1,
        ensures
            final(self).grid() == replace_chars_state(old(self).grid(), x as int, y as int, line@).0,
            final(self).cursor() == old(self).cursor(),
    {
        let ghost g0 = self.grid();
        let ghost cs = line@;
        let mut width: usize = 0;
        let mut k: usize = 0;
        assert(cs.take(0) =~= Seq::<char>::empty());
        while k < line.len()
            invariant
                k <= line.len(),
                cs == line@,
                replace_chars_state(g0, x as int, y as int, cs).1,
                width == widths(cs.take(k as int)),
                self.grid() == replace_chars_state(g0, x as int, y as int, cs.take(k as int)).0,
                self.cursor() == old(self).cursor(),
            decreases line.len() - k,
        {
            proof {
                lemma_replace_chars_ok_prefix(g0, x as int, y as int, cs, k + 1);
                assert(cs.take(k + 1).drop_last() =~= cs.take(k as int));
            }
            let ch = line[k];
            self.replace_char(x + width, y, ch);
            width = width + Ch::new(ch).width;
            k = k + 1;
        }
        assert(cs.take(k as int) =~= cs);
    }

    /// paste the text block in the cursor location
    pub fn paste_text_in_block_mode(&mut self, text_block: String)
        requires
            paste_lines_state(
                old(self).grid(),
                old(self).cursor().x as int,
                old(self).cursor().y as int,
                str_lines(text_block@),
            ).1,
        ensures
            final(self).grid() == paste_lines_state(
                old(self).grid(),
                old(self).cursor().x as int,
                old(self).cursor().y as int,
                str_lines(text_block@),
            ).0,
            final(self).cursor() == old(self).cursor(),
    {
        let lines = split_lines(text_block.as_str());
        let ghost ls = char_lines(lines@);
        let ghost g0 = self.grid();
        let mut i: usize = 0;
        assert(ls.take(0) =~= Seq::<Seq<char>>::empty());
        while i < lines.len()
            invariant
                i <= lines.len(),
                ls == char_lines(lines@),
                paste_lines_state(g0, self.cursor().x as int, self.cursor().y as int, ls).1,
                self.grid() == paste_lines_state(g0, self.cursor().x as int, self.cursor().y as int, ls.take(i as int)).0,
                self.cursor() == old(self).cursor(),
            decreases lines.len() - i,
        {
            proof {
                lemma_paste_lines_ok_prefix(g0, self.cursor().x as int, self.cursor().y as int, ls, i + 1);
                assert(ls.take(i + 1).drop_last() =~= ls.take(i as int));
            }
            let y = self.cursor.y + i;
            self.replace_line_chars(self.cursor.x, y, &lines[i]);
            i = i + 1;
        }
        assert(ls.take(i as int) =~= ls);
    }
}

impl TextBuffer {
    /// The text of a line before and from a column.
    pub fn split_line_at_point(&self, loc: Point2<usize>) -> (r: (String, String))
        requires
            index_point(self.grid(), loc).y < self.grid().len(),
            index_point(self.grid(), loc).x <= self.grid()[loc.y as int].len(),
        ensures
            r.0@ == line_text(self.grid()[loc.y as int].take(index_point(self.grid(), loc).x as int)),
            r.1@ == line_text(self.grid()[loc.y as int].skip(index_point(self.grid(), loc).x as int)),
    {
        let loc = self.point_to_index(loc);
        let line = &self.chars[loc.y];
        let mut first_str = String::new();
        push_cells(&mut first_str, line, 0, loc.x);
        let mut second_str = String::new();
        push_cells(&mut second_str, line, loc.x, line.len());
        assert(line@.subrange(0, loc.x as int) =~= line@.take(loc.x as int));
        assert(line@.subrange(loc.x as int, line@.len() as int) =~= line@.skip(loc.x as int));
        assert(first_str@ =~= line_text(line@.take(loc.x as int)));
        assert(second_str@ =~= line_text(line@.skip(loc.x as int)));
        (first_str, second_str)
    }

    /// The text of the line of `loc` before `loc`, between `loc` and
    /// `loc2`, and from `loc2` on; both are translated to cells on their own
    /// lines, and the line of `loc` is the one split.
    pub fn split_line_at_2_points(&self, loc: Point2<usize>, loc2: Point2<usize>) -> (r: (
        String,
        String,
        String,
    ))
        requires
            loc.y < self.grid().len(),
            index_point(self.grid(), loc).x <= index_point(self.grid(), loc2).x,
            index_point(self.grid(), loc2).x <= self.grid()[loc.y as int].len(),
        ensures
            r.0@ == line_text(
                self.grid()[loc.y as int].subrange(0, index_point(self.grid(), loc).x as int),
            ),
            r.1@ == line_text(
                self.grid()[loc.y as int].subrange(
                    index_point(self.grid(), loc).x as int,
                    index_point(self.grid(), loc2).x as int,
                ),
            ),
            r.2@ == line_text(
                self.grid()[loc.y as int].subrange(
                    index_point(self.grid(), loc2).x as int,
                    self.grid()[loc.y as int].len() as int,
                ),
            ),
    {
        let loc = self.point_to_index(loc);
        let loc2 = self.point_to_index(loc2);
        let line = &self.chars[loc.y];
        let mut first_str = String::new();
        push_cells(&mut first_str, line, 0, loc.x);
        let mut second_str = String::new();
        push_cells(&mut second_str, line, loc.x, loc2.x);
        let mut third_str = String::new();
        push_cells(&mut third_str, line, loc2.x, line.len());
        assert(first_str@ =~= line_text(line@.subrange(0, loc.x as int)));
        assert(second_str@ =~= line_text(line@.subrange(loc.x as int, loc2.x as int)));
        assert(third_str@ =~= line_text(line@.subrange(loc2.x as int, line@.len() as int)));
        (first_str, second_str, third_str)
    }

    pub fn command_insert_text(&mut self, text: &str)
        requires
            insert_text_ok(old(self).grid(), old(self).cursor().x, old(self).cursor().y, text@),
        ensures
            final(self).grid() == insert_text_spec(
                old(self).grid(),
                old(self).cursor().x,
                old(self).cursor().y,
                text@,
            ),
            final(self).cursor() == (Point2 {
                x: add_sat(old(self).cursor().x, str_width(text@)),
                y: old(self).cursor().y,
            }),
    {
        let width = unicode_str_width(text);
        self.insert_text(self.cursor.x, self.cursor.y, text);
        self.move_x(width);
    }
}

} // verus!
