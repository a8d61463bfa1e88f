//! What holds of the library as a whole: edits that undo each other, what
//! the history gives back, and how text goes in and comes out again.
use vstd::prelude::*;

use crate::action::{action_ok, apply_seq_state, apply_spec, inverse_seq, invert_spec, location_spec, Action};
use crate::base_editor::{command_effect, command_step, commands_step, delete_state, redo_state, undo_state, with_state, Command};
use crate::history::{
    keep_front, lemma_skip_separators, record_history, redo_ok, skip_separators, undo_ok, HISTORY_SIZE, UNDO_SIZE,
};
use crate::point::Point2;
use crate::text::{join_lines, scan_lines, str_lines, strip_cr};
use crate::text_buffer::{
    add_sat, blanks, break_line_spec, cut_linear_spec, index_point, linear_lines, linear_ok, linear_text, total_len, can_replace, insert_chars_state, insert_lines_state, insert_text_ok,
    insert_text_spec, lemma_column_none, lemma_insert_chars_ok_prefix, lemma_widths_mono, widths, cell_index_at, cells_grid, cells_of, char_at, column_at,
    delete_char_spec, ensure_before_cell_spec, ensure_cell_spec, ensure_line_spec, grid_string, grid_text,
    insert_char_spec, is_column_at, join_line_spec, lemma_column_some, lemma_column_unique, lemma_first_column,
    lemma_prefix_full, lemma_prefix_mono, lemma_prefix_step, line_text, line_width_spec, prefix_width,
    replace_char_spec, width_sum,
};
use crate::text_edit::{
    cut_actions, cut_linear_done, delete_action, deletes_at, in_block_selection, in_linear_selection, replaced_char,
    EditState, EditorView, TextEdit,
};
use crate::util::{cast_point_spec, normalize_spec, order_spec};
use crate::width::{ch_of, char_width, Ch};

verus! {

/// The buffer has no more lines, and no line more cells, than a `usize`
/// counts, as of a buffer held in vectors.
pub open spec fn grid_fits(grid: Seq<Seq<Ch>>) -> bool {
    &&& grid.len() <= usize::MAX
    &&& forall|i: int| 0 <= i < grid.len() ==> #[trigger] grid[i].len() <= usize::MAX
}

/// The cell that starts at column `x` of line `y`, if there is one.
pub open spec fn cell_at(grid: Seq<Seq<Ch>>, x: usize, y: usize) -> Option<Ch> {
    match column_at(grid, x as int, y as int) {
        Some(i) => Some(grid[y as int][i as int]),
        None => None,
    }
}

/// Column `x` of line `y` is within the line and is not inside a wide
/// character: a cell starts there, or the line ends there.
pub open spec fn at_boundary(grid: Seq<Seq<Ch>>, x: usize, y: usize) -> bool {
    &&& (y as int) < grid.len()
    &&& (cell_index_at(grid[y as int], x as int) is Some || x == width_sum(grid[y as int]))
}

/// Applying `a` to `grid` and then its inverse gives `grid` back: the edit
/// pads no line with blanks, and what it takes away is what its inverse
/// puts back.
pub open spec fn undoable(grid: Seq<Seq<Ch>>, a: Action) -> bool {
    match a {
        Action::Insert(p, _) => at_boundary(grid, p.x, p.y),
        Action::Delete(p, ch) => cell_at(grid, p.x, p.y) == Some(ch_of(ch)),
        Action::Replace(p, old_ch, ch) => {
            &&& cell_at(grid, p.x, p.y) == Some(ch_of(old_ch))
            &&& ch_of(old_ch).width > 0
            &&& ch_of(ch).width > 0
        },
        Action::BreakLine(p) => (p.y as int) < grid.len() && p.x <= width_sum(grid[p.y as int]),
        Action::JoinLine(p) => {
            &&& p.x == width_sum(grid[p.y as int])
            &&& cell_index_at(grid[p.y as int], p.x as int) is None
        },
    }
}

proof fn lemma_prefix_insert(line: Seq<Ch>, i: int, c: Ch, j: int)
    requires
        0 <= j <= i <= line.len(),
    ensures
        prefix_width(line.insert(i, c), j) == prefix_width(line, j),
{
    assert(line.insert(i, c).take(j) =~= line.take(j));
}

proof fn lemma_prefix_remove(line: Seq<Ch>, i: int, j: int)
    requires
        0 <= j <= i < line.len(),
    ensures
        prefix_width(line.remove(i), j) == prefix_width(line, j),
{
    assert(line.remove(i).take(j) =~= line.take(j));
}

proof fn lemma_prefix_update(line: Seq<Ch>, i: int, c: Ch, j: int)
    requires
        0 <= j <= i < line.len(),
    ensures
        prefix_width(line.update(i, c), j) == prefix_width(line, j),
{
    assert(line.update(i, c).take(j) =~= line.take(j));
}

proof fn lemma_prefix_append(line: Seq<Ch>, more: Seq<Ch>, j: int)
    requires
        0 <= j <= line.len(),
    ensures
        prefix_width(line + more, j) == prefix_width(line, j),
{
    assert((line + more).take(j) =~= line.take(j));
}

/// No cell starts at a column no cell is found at.
proof fn lemma_no_column(line: Seq<Ch>, x: int, j: int)
    requires
        0 <= j < line.len(),
        cell_index_at(line, x) is None,
    ensures
        prefix_width(line, j) != x,
{
    if prefix_width(line, j) == x {
        lemma_first_column(line, x, j);
    }
}

/// Making the cell before column `x` exist changes nothing when line `y`
/// exists and reaches column `x`.
proof fn lemma_no_padding(grid: Seq<Seq<Ch>>, x: usize, y: usize)
    requires
        (y as int) < grid.len(),
        x <= width_sum(grid[y as int]),
    ensures
        ensure_before_cell_spec(grid, x, y) == grid,
{
    assert(ensure_line_spec(grid, y) == grid);
    if x > 0 {
        assert(line_width_spec(grid, y as int) >= x);
        assert(blanks(0) =~= Seq::<Ch>::empty());
        assert(grid[y as int] + blanks(0) =~= grid[y as int]);
        assert(grid.update(y as int, grid[y as int]) =~= grid);
    }
}

/// Making the cell at column `x` exist changes nothing when line `y`
/// exists and reaches past column `x`.
proof fn lemma_cell_exists(grid: Seq<Seq<Ch>>, x: usize, y: usize)
    requires
        (y as int) < grid.len(),
        x < width_sum(grid[y as int]),
    ensures
        ensure_cell_spec(grid, x, y) == grid,
{
    assert(ensure_line_spec(grid, y) == grid);
    assert(line_width_spec(grid, y as int) >= x + 1 || line_width_spec(grid, y as int) == usize::MAX);
    assert(blanks(0) =~= Seq::<Ch>::empty());
    assert(grid[y as int] + blanks(0) =~= grid[y as int]);
    assert(grid.update(y as int, grid[y as int]) =~= grid);
}

proof fn lemma_insert_undone(grid: Seq<Seq<Ch>>, p: Point2<usize>, ch: char)
    requires
        grid_fits(grid),
        at_boundary(grid, p.x, p.y),
    ensures
        delete_char_spec(insert_char_spec(grid, p.x, p.y, ch), p.x, p.y) == grid,
{
    let x: usize = p.x;
    let y: usize = p.y;
    let line = grid[y as int];
    let c = ch_of(ch);
    lemma_column_some(line, x as int);
    lemma_prefix_full(line);
    if let Some(i) = cell_index_at(line, x as int) {
        lemma_prefix_mono(line, i, line.len() as int);
    }
    lemma_no_padding(grid, x, y);
    let g1 = insert_char_spec(grid, x, y, ch);
    match cell_index_at(line, x as int) {
        Some(i) => {
            let l1 = line.insert(i, c);
            assert(g1 == grid.update(y as int, l1));
            lemma_prefix_insert(line, i, c, i);
            assert forall|j: int| 0 <= j < i implies prefix_width(l1, j) != x by {
                lemma_prefix_insert(line, i, c, j);
            }
            assert(is_column_at(l1, x as int, i));
            lemma_column_unique(l1, x as int, i);
            assert(l1.remove(i) =~= line);
            assert(grid.update(y as int, line) =~= grid);
        },
        None => {
            let n: int = line.len() as int;
            let l1 = line.push(c);
            assert(g1 == grid.update(y as int, l1));
            assert(line.push(c) =~= line.insert(n, c));
            lemma_prefix_insert(line, n, c, n);
            lemma_prefix_full(line);
            assert forall|j: int| 0 <= j < n implies prefix_width(l1, j) != x by {
                lemma_prefix_insert(line, n, c, j);
                lemma_no_column(line, x as int, j);
            }
            assert(is_column_at(l1, x as int, n));
            lemma_column_unique(l1, x as int, n);
            assert(l1.remove(n) =~= line);
            assert(grid.update(y as int, line) =~= grid);
        },
    }
}

proof fn lemma_delete_undone(grid: Seq<Seq<Ch>>, p: Point2<usize>, ch: char)
    requires
        grid_fits(grid),
        cell_at(grid, p.x, p.y) == Some(ch_of(ch)),
    ensures
        insert_char_spec(delete_char_spec(grid, p.x, p.y), p.x, p.y, ch) == grid,
{
    let x: usize = p.x;
    let y: usize = p.y;
    let line = grid[y as int];
    let c = ch_of(ch);
    lemma_column_some(line, x as int);
    let i: int = cell_index_at(line, x as int)->0;
    assert(is_column_at(line, x as int, i));
    let l1 = line.remove(i);
    let g1 = grid.update(y as int, l1);
    assert(delete_char_spec(grid, x, y) == g1);
    lemma_prefix_remove(line, i, i);
    lemma_prefix_mono(l1, i, l1.len() as int);
    lemma_prefix_full(l1);
    lemma_no_padding(g1, x, y);
    assert forall|j: int| 0 <= j < i implies prefix_width(l1, j) != x by {
        lemma_prefix_remove(line, i, j);
    }
    if i < l1.len() {
        assert(is_column_at(l1, x as int, i));
        lemma_column_unique(l1, x as int, i);
        assert(l1.insert(i, c) =~= line);
    } else {
        lemma_column_some(l1, x as int);
        assert(cell_index_at(l1, x as int) is None);
        assert(l1.push(c) =~= line);
    }
    assert(grid.update(y as int, line) =~= grid);
}

proof fn lemma_replace_undone(grid: Seq<Seq<Ch>>, p: Point2<usize>, old_ch: char, ch: char)
    requires
        grid_fits(grid),
        cell_at(grid, p.x, p.y) == Some(ch_of(old_ch)),
        ch_of(old_ch).width > 0,
        ch_of(ch).width > 0,
    ensures
        replace_char_spec(replace_char_spec(grid, p.x, p.y, ch), p.x, p.y, old_ch) == grid,
{
    let x: usize = p.x;
    let y: usize = p.y;
    let line = grid[y as int];
    lemma_column_some(line, x as int);
    let i: int = cell_index_at(line, x as int)->0;
    assert(is_column_at(line, x as int, i));
    lemma_prefix_step(line, i);
    lemma_prefix_mono(line, i + 1, line.len() as int);
    lemma_prefix_full(line);
    lemma_cell_exists(grid, x, y);
    let l1 = line.update(i, ch_of(ch));
    let g1 = grid.update(y as int, l1);
    assert(replace_char_spec(grid, x, y, ch) == g1);
    lemma_prefix_update(line, i, ch_of(ch), i);
    lemma_prefix_step(l1, i);
    lemma_prefix_mono(l1, i + 1, l1.len() as int);
    lemma_prefix_full(l1);
    lemma_cell_exists(g1, x, y);
    assert forall|j: int| 0 <= j < i implies prefix_width(l1, j) != x by {
        lemma_prefix_update(line, i, ch_of(ch), j);
    }
    assert(is_column_at(l1, x as int, i));
    lemma_column_unique(l1, x as int, i);
    assert(l1.update(i, ch_of(old_ch)) =~= line);
    assert(grid.update(y as int, line) =~= grid);
}

proof fn lemma_break_undone(grid: Seq<Seq<Ch>>, p: Point2<usize>)
    requires
        (p.y as int) < grid.len(),
        p.x <= width_sum(grid[p.y as int]),
    ensures
        break_line_spec(grid, p.x, p.y).len() == grid.len() + 1,
        join_line_spec(break_line_spec(grid, p.x, p.y), p.y) == grid,
{
    let x: usize = p.x;
    let y: usize = p.y;
    let line = grid[y as int];
    lemma_no_padding(grid, x, y);
    let g1 = break_line_spec(grid, x, y);
    lemma_column_some(line, x as int);
    match cell_index_at(line, x as int) {
        Some(i) => {
            assert(line.take(i) + line.skip(i) =~= line);
        },
        None => {
            assert(line + Seq::<Ch>::empty() =~= line);
        },
    }
    assert(join_line_spec(g1, y) =~= grid);
}

proof fn lemma_join_undone(grid: Seq<Seq<Ch>>, p: Point2<usize>)
    requires
        (p.y + 1) < grid.len(),
        p.x == width_sum(grid[p.y as int]),
        cell_index_at(grid[p.y as int], p.x as int) is None,
    ensures
        break_line_spec(join_line_spec(grid, p.y), p.x, p.y) == grid,
{
    let x: usize = p.x;
    let y: usize = p.y;
    let line = grid[y as int];
    let next = grid[y + 1];
    let joined = line + next;
    let g1 = join_line_spec(grid, y);
    assert(g1[y as int] == joined);
    let n: int = line.len() as int;
    lemma_prefix_append(line, next, n);
    lemma_prefix_full(line);
    lemma_prefix_mono(joined, n, joined.len() as int);
    lemma_prefix_full(joined);
    lemma_no_padding(g1, x, y);
    assert forall|j: int| 0 <= j < n implies prefix_width(joined, j) != x by {
        lemma_prefix_append(line, next, j);
        lemma_no_column(line, x as int, j);
    }
    if next.len() > 0 {
        assert(is_column_at(joined, x as int, n));
        lemma_column_unique(joined, x as int, n);
        assert(joined.take(n) =~= line);
        assert(joined.skip(n) =~= next);
        assert(break_line_spec(g1, x, y) == g1.update(y as int, line).insert(y + 1, next));
    } else {
        assert(joined =~= line);
        assert(next =~= Seq::<Ch>::empty());
        assert forall|j: int| 0 <= j < joined.len() implies prefix_width(joined, j) != x by {
            lemma_prefix_append(line, next, j);
            lemma_no_column(line, x as int, j);
        }
        assert(cell_index_at(joined, x as int) is None);
        assert(break_line_spec(g1, x, y) == g1.insert(y + 1, Seq::<Ch>::empty()));
    }
    assert(break_line_spec(g1, x, y) =~= grid);
}

/// An edit followed by its inverse gives the buffer back, on buffers where
/// it pads no line with blanks and takes away what its inverse puts back.
pub proof fn law_invert_undoes(grid: Seq<Seq<Ch>>, a: Action)
    requires
        grid_fits(grid),
        action_ok(grid, a),
        undoable(grid, a),
    ensures
        action_ok(apply_spec(grid, a), invert_spec(a)),
        apply_spec(apply_spec(grid, a), invert_spec(a)) == grid,
{
    match a {
        Action::Insert(p, ch) => lemma_insert_undone(grid, p, ch),
        Action::Delete(p, ch) => lemma_delete_undone(grid, p, ch),
        Action::Replace(p, old_ch, ch) => {
            lemma_replace_undone(grid, p, old_ch, ch);
            let line = grid[p.y as int];
            lemma_column_some(line, p.x as int);
            let i: int = cell_index_at(line, p.x as int)->0;
            lemma_prefix_step(line, i);
            lemma_prefix_mono(line, i + 1, line.len() as int);
            lemma_prefix_full(line);
            lemma_cell_exists(grid, p.x, p.y);
            let l1 = line.update(i, ch_of(ch));
            lemma_prefix_update(line, i, ch_of(ch), i);
            lemma_prefix_step(l1, i);
            lemma_prefix_mono(l1, i + 1, l1.len() as int);
            lemma_prefix_full(l1);
            lemma_cell_exists(grid.update(p.y as int, l1), p.x, p.y);
            assert forall|j: int| 0 <= j < i implies prefix_width(l1, j) != p.x by {
                lemma_prefix_update(line, i, ch_of(ch), j);
            }
            assert(is_column_at(l1, p.x as int, i));
            lemma_column_unique(l1, p.x as int, i);
        },
        Action::BreakLine(p) => lemma_break_undone(grid, p),
        Action::JoinLine(p) => lemma_join_undone(grid, p),
    }
}

/// The front group of the history is empty, as `bump_history` leaves it:
/// the next edit starts a group of its own.
pub open spec fn fresh_group(history: Seq<Seq<Action>>) -> bool {
    history.len() > 0 && history[0].len() == 0
}

/// One edit `a` recorded in a fresh group is undone by one undo, which
/// gives the buffer back and puts the cursor where the edit was made; a
/// redo then makes the edit again.
proof fn lemma_undo_redo_one(st: EditState, a: Action, cursor: Point2<usize>)
    requires
        grid_fits(st.0),
        action_ok(st.0, a),
        undoable(st.0, a),
        fresh_group(st.2),
    ensures
        ({
            let st1: EditState = (apply_spec(st.0, a), cursor, record_history(st.2, a), Seq::<Seq<Action>>::empty());
            let st2 = undo_state(st1);
            &&& undo_ok(st1.0, st1.2)
            &&& st2.0 == st.0
            &&& st2.1 == location_spec(a)
            &&& redo_ok(st2.0, st2.3)
            &&& redo_state(st2).0 == st1.0
            &&& redo_state(st2).1 == location_spec(a)
        }),
{
    let g1 = apply_spec(st.0, a);
    let h1 = record_history(st.2, a);
    law_invert_undoes(st.0, a);
    assert(st.2.update(0, st.2[0].push(a))[0] =~= seq![a]);
    assert(h1[0] =~= seq![a]);
    assert(h1.len() > 0);
    let inv = inverse_seq(seq![a]);
    assert(inv =~= seq![invert_spec(a)]);
    assert(inv.drop_last() =~= Seq::<Action>::empty());
    assert(apply_seq_state(g1, Seq::<Action>::empty()) == (g1, true));
    assert(apply_seq_state(g1, inv) == (apply_spec(g1, invert_spec(a)), action_ok(g1, invert_spec(a))));
    assert(seq![a].drop_last() =~= Seq::<Action>::empty());
    assert(apply_seq_state(st.0, Seq::<Action>::empty()) == (st.0, true));
    assert(apply_seq_state(st.0, seq![a]) == (g1, action_ok(st.0, a)));
    let undone = keep_front(seq![h1[0]] + Seq::<Seq<Action>>::empty(), UNDO_SIZE as nat);
    assert(undone =~= seq![seq![a]]);
    let st1: EditState = (g1, cursor, h1, Seq::<Seq<Action>>::empty());
    let st2 = undo_state(st1);
    assert(st2.0 == st.0);
    assert(st2.3 == undone);
    assert(redo_state(st2).0 == g1);
}

proof fn lemma_step_insert_char(virtual_edit: bool, v: EditorView, ch: char)
    ensures
        command_step(virtual_edit, v, Command::InsertChar(ch)).0 == with_state(
                v,
                (
                    insert_char_spec(v.0.0, v.0.1.x, v.0.1.y, ch),
                    Point2 { x: add_sat(v.0.1.x, char_width(ch)->0), y: v.0.1.y },
                    record_history(v.0.2, Action::Insert(v.0.1, ch)),
                    Seq::<Seq<Action>>::empty(),
                ),
            ),
        command_step(virtual_edit, v, Command::InsertChar(ch)).1 == (v.0.1.y < usize::MAX && char_width(ch) is Some),
{
    reveal(command_effect);
}

proof fn lemma_step_delete_forward(virtual_edit: bool, v: EditorView)
    ensures
        command_step(virtual_edit, v, Command::DeleteForward).0 == with_state(v, delete_state(v.0, v.0.1)),
        command_step(virtual_edit, v, Command::DeleteForward).1,
{
    reveal(command_effect);
}

proof fn lemma_step_replace_char(virtual_edit: bool, v: EditorView, ch: char)
    ensures
        command_step(virtual_edit, v, Command::ReplaceChar(ch)).0 == with_state(
                v,
                (
                    replace_char_spec(v.0.0, v.0.1.x, v.0.1.y, ch),
                    v.0.1,
                    record_history(v.0.2, Action::Replace(v.0.1, replaced_char(v.0.0, v.0.1.x, v.0.1.y), ch)),
                    Seq::<Seq<Action>>::empty(),
                ),
            ),
        command_step(virtual_edit, v, Command::ReplaceChar(ch)).1 == can_replace(v.0.0, v.0.1.x, v.0.1.y),
{
    reveal(command_effect);
}

proof fn lemma_step_break_line(virtual_edit: bool, v: EditorView)
    ensures
        command_step(virtual_edit, v, Command::BreakLine).0 == with_state(
                v,
                (
                    break_line_spec(v.0.0, v.0.1.x, v.0.1.y),
                    Point2 { x: 0usize, y: (v.0.1.y + 1) as usize },
                    record_history(v.0.2, Action::BreakLine(v.0.1)),
                    Seq::<Seq<Action>>::empty(),
                ),
            ),
        command_step(virtual_edit, v, Command::BreakLine).1 == (v.0.1.y < usize::MAX),
{
    reveal(command_effect);
}

proof fn lemma_step_undo_redo(virtual_edit: bool, v: EditorView)
    ensures
        command_step(virtual_edit, v, Command::Undo).0 == with_state(v, undo_state(v.0)),
        command_step(virtual_edit, v, Command::Undo).1 == undo_ok(v.0.0, v.0.2),
        command_step(virtual_edit, v, Command::Redo).0 == with_state(v, redo_state(v.0)),
        command_step(virtual_edit, v, Command::Redo).1 == redo_ok(v.0.0, v.0.3),
{
    reveal(command_effect);
}

/// Typing a character into a fresh group and undoing it gives the buffer
/// and the cursor back, and redoing types it again; the cursor stands
/// within its line and not inside a wide character.
pub proof fn law_undo_insert_char(virtual_edit: bool, v: EditorView, ch: char)
    requires
        grid_fits(v.0.0),
        fresh_group(v.0.2),
        at_boundary(v.0.0, v.0.1.x, v.0.1.y),
        char_width(ch) is Some,
    ensures
        ({
            let s1 = command_step(virtual_edit, v, Command::InsertChar(ch));
            let s2 = command_step(virtual_edit, s1.0, Command::Undo);
            let s3 = command_step(virtual_edit, s2.0, Command::Redo);
            &&& s1.1 && s2.1 && s3.1
            &&& s2.0.0.0 == v.0.0
            &&& s2.0.0.1 == v.0.1
            &&& s3.0.0.0 == s1.0.0.0
        }),
{
    let (g, c, h, u) = v.0;
    lemma_step_insert_char(virtual_edit, v, ch);
    let s1 = command_step(virtual_edit, v, Command::InsertChar(ch));
    lemma_step_undo_redo(virtual_edit, s1.0);
    lemma_step_undo_redo(virtual_edit, command_step(virtual_edit, s1.0, Command::Undo).0);
    lemma_undo_redo_one(v.0, Action::Insert(c, ch), Point2 { x: add_sat(c.x, char_width(ch)->0), y: c.y });
}

/// Deleting the character under the cursor in a fresh group and undoing
/// it gives the buffer back, and redoing deletes it again.
pub proof fn law_undo_delete_forward(virtual_edit: bool, v: EditorView)
    requires
        grid_fits(v.0.0),
        fresh_group(v.0.2),
        cell_at(v.0.0, v.0.1.x, v.0.1.y) matches Some(cell) && cell == ch_of(cell.ch),
    ensures
        ({
            let s1 = command_step(virtual_edit, v, Command::DeleteForward);
            let s2 = command_step(virtual_edit, s1.0, Command::Undo);
            let s3 = command_step(virtual_edit, s2.0, Command::Redo);
            &&& s1.1 && s2.1 && s3.1
            &&& s2.0.0.0 == v.0.0
            &&& s2.0.0.1 == v.0.1
            &&& s3.0.0.0 == s1.0.0.0
        }),
{
    let (g, c, h, u) = v.0;
    let cell = cell_at(g, c.x, c.y)->0;
    assert(char_at(g, c.x, c.y) == Some(cell.ch));
    lemma_step_delete_forward(virtual_edit, v);
    let s1 = command_step(virtual_edit, v, Command::DeleteForward);
    lemma_step_undo_redo(virtual_edit, s1.0);
    lemma_step_undo_redo(virtual_edit, command_step(virtual_edit, s1.0, Command::Undo).0);
    lemma_undo_redo_one(v.0, Action::Delete(c, cell.ch), c);
}

/// Replacing the character under the cursor in a fresh group and undoing
/// it gives the buffer back, and redoing replaces it again; both
/// characters take up at least one column.
pub proof fn law_undo_replace_char(virtual_edit: bool, v: EditorView, ch: char)
    requires
        grid_fits(v.0.0),
        fresh_group(v.0.2),
        cell_at(v.0.0, v.0.1.x, v.0.1.y) matches Some(cell) && cell == ch_of(cell.ch) && cell.width > 0,
        ch_of(ch).width > 0,
    ensures
        ({
            let s1 = command_step(virtual_edit, v, Command::ReplaceChar(ch));
            let s2 = command_step(virtual_edit, s1.0, Command::Undo);
            let s3 = command_step(virtual_edit, s2.0, Command::Redo);
            &&& s1.1 && s2.1 && s3.1
            &&& s2.0.0.0 == v.0.0
            &&& s2.0.0.1 == v.0.1
            &&& s3.0.0.0 == s1.0.0.0
        }),
{
    let (g, c, h, u) = v.0;
    let cell = cell_at(g, c.x, c.y)->0;
    lemma_step_replace_char(virtual_edit, v, ch);
    let s1 = command_step(virtual_edit, v, Command::ReplaceChar(ch));
    lemma_step_undo_redo(virtual_edit, s1.0);
    lemma_step_undo_redo(virtual_edit, command_step(virtual_edit, s1.0, Command::Undo).0);
    let line = g[c.y as int];
    lemma_column_some(line, c.x as int);
    let i: int = cell_index_at(line, c.x as int)->0;
    lemma_prefix_step(line, i);
    lemma_prefix_mono(line, i + 1, line.len() as int);
    lemma_prefix_full(line);
    lemma_cell_exists(g, c.x, c.y);
    assert(replaced_char(g, c.x, c.y) == cell.ch);
    assert(crate::text_buffer::can_replace(g, c.x, c.y));
    lemma_undo_redo_one(v.0, Action::Replace(c, cell.ch, ch), c);
}

/// Breaking a line in a fresh group and undoing it gives the buffer and
/// the cursor back, and redoing breaks it again; the cursor stands within
/// its line.
pub proof fn law_undo_break_line(virtual_edit: bool, v: EditorView)
    requires
        grid_fits(v.0.0),
        fresh_group(v.0.2),
        (v.0.1.y as int) < v.0.0.len(),
        v.0.1.x <= width_sum(v.0.0[v.0.1.y as int]),
    ensures
        ({
            let s1 = command_step(virtual_edit, v, Command::BreakLine);
            let s2 = command_step(virtual_edit, s1.0, Command::Undo);
            let s3 = command_step(virtual_edit, s2.0, Command::Redo);
            &&& s1.1 && s2.1 && s3.1
            &&& s2.0.0.0 == v.0.0
            &&& s2.0.0.1 == v.0.1
            &&& s3.0.0.0 == s1.0.0.0
        }),
{
    let (g, c, h, u) = v.0;
    lemma_step_break_line(virtual_edit, v);
    let s1 = command_step(virtual_edit, v, Command::BreakLine);
    lemma_step_undo_redo(virtual_edit, s1.0);
    lemma_step_undo_redo(virtual_edit, command_step(virtual_edit, s1.0, Command::Undo).0);
    lemma_undo_redo_one(v.0, Action::BreakLine(c), Point2 { x: 0usize, y: (c.y + 1) as usize });
}

/// A character typed at a column where a cell starts, or where its line
/// ends, is read back from that column.
pub proof fn law_get_char_after_insert(grid: Seq<Seq<Ch>>, x: usize, y: usize, ch: char)
    requires
        grid_fits(grid),
        at_boundary(grid, x, y),
    ensures
        char_at(insert_char_spec(grid, x, y, ch), x, y) == Some(ch),
{
    let line = grid[y as int];
    let c = ch_of(ch);
    lemma_column_some(line, x as int);
    lemma_prefix_full(line);
    if let Some(i) = cell_index_at(line, x as int) {
        lemma_prefix_mono(line, i, line.len() as int);
    }
    lemma_no_padding(grid, x, y);
    match cell_index_at(line, x as int) {
        Some(i) => {
            let l1 = line.insert(i, c);
            lemma_prefix_insert(line, i, c, i);
            assert forall|j: int| 0 <= j < i implies prefix_width(l1, j) != x by {
                lemma_prefix_insert(line, i, c, j);
            }
            assert(is_column_at(l1, x as int, i));
            lemma_column_unique(l1, x as int, i);
        },
        None => {
            let n: int = line.len() as int;
            let l1 = line.push(c);
            assert(line.push(c) =~= line.insert(n, c));
            lemma_prefix_insert(line, n, c, n);
            assert forall|j: int| 0 <= j < n implies prefix_width(l1, j) != x by {
                lemma_prefix_insert(line, n, c, j);
                lemma_no_column(line, x as int, j);
            }
            assert(is_column_at(l1, x as int, n));
            lemma_column_unique(l1, x as int, n);
        },
    }
}

/// Whether a position is selected does not depend on which end of the
/// selection is its start, in linear and in block mode alike.
pub proof fn law_selection_symmetric(start: Point2<i32>, end: Point2<i32>, loc: Point2<i32>)
    ensures
        in_linear_selection(start, end, loc) == in_linear_selection(end, start, loc),
        in_block_selection(start, end, loc) == in_block_selection(end, start, loc),
{
    assert(normalize_spec(start, end) == normalize_spec(end, start));
}

/// Processing two batches of commands one after the other is processing
/// them as one batch.
pub proof fn law_commands_compose(virtual_edit: bool, v: EditorView, first: Seq<Command>, second: Seq<Command>)
    ensures
        commands_step(virtual_edit, v, first + second) == ({
            let r1 = commands_step(virtual_edit, v, first);
            let r2 = commands_step(virtual_edit, r1.0, second);
            (r2.0, r1.1 && r2.1, r1.2 || r2.2)
        }),
    decreases second.len(),
{
    if second.len() == 0 {
        assert(first + second =~= first);
    } else {
        law_commands_compose(virtual_edit, v, first, second.drop_last());
        assert((first + second).drop_last() =~= first + second.drop_last());
        assert((first + second).last() == second.last());
    }
}

/// Reading a text from the left, the lines completed so far and the
/// characters read since give the text back when joined with line breaks.
proof fn lemma_scan_lines_join(s: Seq<char>)
    requires
        no_crlf(s),
    ensures
        ({
            let (done, cur) = scan_lines(s);
            &&& join_lines(done.push(cur)) == s
            &&& cur.len() > 0 ==> cur.last() == s.last()
        }),
    decreases s.len(),
{
    if s.len() > 0 {
        let pre = s.drop_last();
        assert forall|i: int| 0 <= i < pre.len() - 1 implies !(#[trigger] pre[i] == '\r' && pre[i + 1] == '\n') by {
            assert(pre[i] == s[i] && pre[i + 1] == s[i + 1]);
        }
        lemma_scan_lines_join(pre);
        let (done, cur) = scan_lines(pre);
        assert(s =~= pre.push(s.last()));
        if s.last() == '\n' {
            if cur.len() > 0 {
                assert(cur.last() == pre.last());
                assert(s[s.len() - 2] == pre.last());
            }
            assert(strip_cr(cur) == cur);
            let d2 = done.push(cur);
            assert(d2.push(Seq::<char>::empty()).drop_last() =~= d2);
            assert(join_lines(d2.push(Seq::<char>::empty())) =~= join_lines(d2) + seq!['\n']);
        } else {
            let c2 = cur.push(s.last());
            if done.len() == 0 {
                assert(done.push(cur) =~= seq![cur]);
                assert(done.push(c2) =~= seq![c2]);
            } else {
                assert(done.push(cur).drop_last() =~= done);
                assert(done.push(c2).drop_last() =~= done);
                assert(join_lines(done.push(c2)) =~= join_lines(done) + seq!['\n'] + c2);
            }
        }
    }
}

/// No carriage return stands right before a line feed.
pub open spec fn no_crlf(s: Seq<char>) -> bool {
    forall|i: int| 0 <= i < s.len() - 1 ==> !(#[trigger] s[i] == '\r' && s[i + 1] == '\n')
}

/// The text a buffer is made from is the text it gives back, unless it
/// ends with a line break or breaks a line with a carriage return (which
/// `str::lines` drops).
pub proof fn law_text_roundtrip(s: Seq<char>)
    requires
        no_crlf(s),
        s.len() == 0 || s.last() != '\n',
    ensures
        grid_string(cells_grid(str_lines(s))) == s,
{
    lemma_scan_lines_join(s);
    let (done, cur) = scan_lines(s);
    let ls = str_lines(s);
    if s.len() == 0 {
        assert(ls =~= Seq::<Seq<char>>::empty());
    } else {
        assert(scan_lines(s).1 =~= scan_lines(s.drop_last()).1.push(s.last()));
        assert(cur.len() > 0);
        assert(ls == done.push(cur));
    }
    assert(grid_text(cells_grid(ls)) =~= ls) by {
        assert forall|i: int| 0 <= i < ls.len() implies #[trigger] grid_text(cells_grid(ls))[i] == ls[i] by {
            assert(line_text(cells_of(ls[i])) =~= ls[i]);
        }
    }
}

/// Bumping the history leaves the buffer and the cursor as they are and
/// starts a fresh group, so that the next edit is undone on its own.
pub proof fn law_bump_starts_group(virtual_edit: bool, v: EditorView)
    ensures
        ({
            let s = command_step(virtual_edit, v, Command::BumpHistory);
            &&& s.1
            &&& !s.2
            &&& s.0.0.0 == v.0.0
            &&& s.0.0.1 == v.0.1
            &&& fresh_group(s.0.0.2)
            &&& s.0.0.2.drop_first() == v.0.2
        }),
{
    reveal(command_effect);
    assert((seq![Seq::<Action>::empty()] + v.0.2).drop_first() =~= v.0.2);
}

/// Recording an edit keeps no more than `HISTORY_SIZE` groups, the most
/// recent first, and the edit stands last in the front group.
pub proof fn law_history_bounded(history: Seq<Seq<Action>>, a: Action)
    ensures
        record_history(history, a).len() <= HISTORY_SIZE,
        record_history(history, a).len() > 0,
        record_history(history, a)[0].last() == a,
{
}

/// Each action of `acts`, applied in order from `grid`, is undone by its
/// inverse on the buffer it meets (see `undoable`).
pub open spec fn steps_undoable(grid: Seq<Seq<Ch>>, acts: Seq<Action>) -> bool
    decreases acts.len(),
{
    if acts.len() == 0 {
        true
    } else {
        let before = apply_seq_state(grid, acts.drop_last()).0;
        &&& steps_undoable(grid, acts.drop_last())
        &&& grid_fits(before)
        &&& undoable(before, acts.last())
    }
}

/// Applying `a` and then `rest` is applying `rest` to what `a` gives.
proof fn lemma_apply_seq_prepend(grid: Seq<Seq<Ch>>, a: Action, rest: Seq<Action>)
    ensures
        apply_seq_state(grid, seq![a] + rest) == ({
            let r = apply_seq_state(apply_spec(grid, a), rest);
            (r.0, action_ok(grid, a) && r.1)
        }),
    decreases rest.len(),
{
    if rest.len() == 0 {
        assert(seq![a] + rest =~= seq![a]);
        assert(seq![a].drop_last() =~= Seq::<Action>::empty());
        assert(apply_seq_state(grid, Seq::<Action>::empty()) == (grid, true));
        assert(apply_seq_state(apply_spec(grid, a), rest) == (apply_spec(grid, a), true));
    } else {
        lemma_apply_seq_prepend(grid, a, rest.drop_last());
        assert((seq![a] + rest).drop_last() =~= seq![a] + rest.drop_last());
        assert((seq![a] + rest).last() == rest.last());
    }
}

/// The inverses of a group's actions, last first, give back the buffer the
/// group started from.
proof fn lemma_undo_steps(grid: Seq<Seq<Ch>>, acts: Seq<Action>)
    requires
        grid_fits(grid),
        apply_seq_state(grid, acts).1,
        steps_undoable(grid, acts),
    ensures
        apply_seq_state(apply_seq_state(grid, acts).0, inverse_seq(acts)) == (grid, true),
    decreases acts.len(),
{
    if acts.len() == 0 {
        assert(inverse_seq(acts) =~= Seq::<Action>::empty());
    } else {
        let pre = acts.drop_last();
        let a = acts.last();
        let g1 = apply_seq_state(grid, pre).0;
        lemma_undo_steps(grid, pre);
        law_invert_undoes(g1, a);
        assert(inverse_seq(acts) =~= seq![invert_spec(a)] + inverse_seq(pre));
        lemma_apply_seq_prepend(apply_spec(g1, a), invert_spec(a), inverse_seq(pre));
    }
}

/// A history separator is no undo step: an undo right after bumping the
/// history does what it would have done before.
pub proof fn law_separator_no_undo_step(virtual_edit: bool, v: EditorView)
    ensures
        ({
            let bumped = command_step(virtual_edit, v, Command::BumpHistory).0;
            &&& command_step(virtual_edit, bumped, Command::Undo).0.0 == command_step(virtual_edit, v, Command::Undo).0.0
            &&& command_step(virtual_edit, bumped, Command::Undo).1 == command_step(virtual_edit, v, Command::Undo).1
        }),
{
    reveal(command_effect);
    let h = v.0.2;
    let h1 = seq![Seq::<Action>::empty()] + h;
    assert(h1.drop_first() =~= h);
    assert(skip_separators(h1) == skip_separators(h));
}

/// Undo takes back the whole front group of the history that holds edits,
/// past any separators before it: when the group's edits, made in order from
/// some buffer, can each be undone, an undo gives that buffer back, and a
/// redo then makes the edits again and puts the group back at the front.
pub proof fn law_undo_restores_group(virtual_edit: bool, v: EditorView, before: Seq<Seq<Ch>>)
    requires
        skip_separators(v.0.2).len() > 0,
        grid_fits(before),
        apply_seq_state(before, skip_separators(v.0.2)[0]).1,
        apply_seq_state(before, skip_separators(v.0.2)[0]).0 == v.0.0,
        steps_undoable(before, skip_separators(v.0.2)[0]),
    ensures
        ({
            let s2 = command_step(virtual_edit, v, Command::Undo);
            let s3 = command_step(virtual_edit, s2.0, Command::Redo);
            &&& s2.1 && s3.1
            &&& s2.0.0.0 == before
            &&& s3.0.0.0 == v.0.0
            &&& s3.0.0.2 == skip_separators(v.0.2)
        }),
{
    lemma_step_undo_redo(virtual_edit, v);
    let s2 = command_step(virtual_edit, v, Command::Undo);
    lemma_step_undo_redo(virtual_edit, s2.0);
    let h = skip_separators(v.0.2);
    let group = h[0];
    lemma_skip_separators(v.0.2);
    lemma_undo_steps(before, group);
    let undone = keep_front(seq![group] + v.0.3, UNDO_SIZE as nat);
    assert(undone[0] == group);
    assert(seq![group] + h.drop_first() =~= h);
}

/// The index at which a character typed at column `x` of `line` goes in:
/// the first cell that starts there, or the end of the line.
pub open spec fn insertion_index(line: Seq<Ch>, x: int) -> int {
    match cell_index_at(line, x) {
        Some(i) => i,
        None => line.len() as int,
    }
}

/// Every character of `cs` takes up at least one column.
pub open spec fn all_visible(cs: Seq<char>) -> bool {
    forall|k: int| 0 <= k < cs.len() ==> #[trigger] ch_of(cs[k]).width > 0
}

proof fn lemma_width_concat(a: Seq<Ch>, b: Seq<Ch>)
    ensures
        width_sum(a + b) == width_sum(a) + width_sum(b),
    decreases b.len(),
{
    if b.len() > 0 {
        lemma_width_concat(a, b.drop_last());
        assert((a + b).drop_last() =~= a + b.drop_last());
    } else {
        assert(a + b =~= a);
    }
}

proof fn lemma_widths_cells(cs: Seq<char>)
    ensures
        width_sum(cells_of(cs)) == widths(cs),
    decreases cs.len(),
{
    if cs.len() > 0 {
        lemma_widths_cells(cs.drop_last());
        assert(cells_of(cs).drop_last() =~= cells_of(cs.drop_last()));
    }
}

/// Before column `x` of `line`, cells start only at smaller columns.
proof fn lemma_before_column(line: Seq<Ch>, i: int, x: int, j: int)
    requires
        0 <= j < i <= line.len(),
        prefix_width(line, i) == x,
        forall|k: int| 0 <= k < i ==> prefix_width(line, k) != x,
    ensures
        prefix_width(line, j) < x,
{
    lemma_prefix_mono(line, j, i);
    assert(prefix_width(line, j) != x);
}

/// With the cells of `pre` put in at index `i` of `line`, the `k`-th of them
/// starts where the cells before it end, before the column where all of
/// them end.
proof fn lemma_typed_cell_start(line: Seq<Ch>, i: int, pre: Seq<char>, k: int)
    requires
        0 <= i <= line.len(),
        0 <= k < pre.len(),
        all_visible(pre),
    ensures
        prefix_width(line.take(i) + cells_of(pre) + line.skip(i), i + k)
            == width_sum(line.take(i)) + widths(pre.take(k)),
        widths(pre.take(k)) < widths(pre),
{
    let m_line = line.take(i) + cells_of(pre) + line.skip(i);
    assert(m_line.take(i + k) =~= line.take(i) + cells_of(pre.take(k)));
    lemma_width_concat(line.take(i), cells_of(pre.take(k)));
    lemma_widths_cells(pre.take(k));
    assert(pre.take(k + 1).drop_last() =~= pre.take(k));
    assert(pre.take(k + 1).last() == pre[k]);
    assert(ch_of(pre[k]).width > 0);
    lemma_widths_mono(pre, k + 1, pre.len() as int);
    assert(pre.take(pre.len() as int) =~= pre);
}

/// With the cells of `pre` put in at index `i` of `line`, where column `x`
/// starts, the cell after them starts at the column where they end, and
/// every cell before it starts earlier.
proof fn lemma_typed_prefixes(line: Seq<Ch>, i: int, x: int, pre: Seq<char>)
    requires
        0 <= i <= line.len(),
        prefix_width(line, i) == x,
        forall|j: int| 0 <= j < i ==> prefix_width(line, j) != x,
        all_visible(pre),
    ensures
        prefix_width(line.take(i) + cells_of(pre) + line.skip(i), i + pre.len()) == x + widths(pre),
        forall|j: int|
            0 <= j < i + pre.len() ==> prefix_width(line.take(i) + cells_of(pre) + line.skip(i), j) < x + widths(pre),
{
    let m_line = line.take(i) + cells_of(pre) + line.skip(i);
    let m = i + pre.len();
    assert(line.take(i).take(i) =~= line.take(i));
    lemma_prefix_full(line.take(i));
    assert(prefix_width(line, i) == width_sum(line.take(i)));
    assert(m_line.take(m) =~= line.take(i) + cells_of(pre));
    lemma_width_concat(line.take(i), cells_of(pre));
    lemma_widths_cells(pre);
    assert forall|j: int| 0 <= j < m implies prefix_width(m_line, j) < x + widths(pre) by {
        if j < i {
            assert(m_line.take(j) =~= line.take(j));
            lemma_before_column(line, i, x, j);
        } else {
            lemma_typed_cell_start(line, i, pre, j - i);
        }
    }
}

/// Typing visible characters one after the other from a column where a cell
/// starts, or where the line ends, puts their cells there in order.
proof fn lemma_insert_chars_cells(grid: Seq<Seq<Ch>>, x: int, y: usize, cs: Seq<char>, i: int)
    requires
        (y as int) < grid.len(),
        0 <= i <= grid[y as int].len(),
        prefix_width(grid[y as int], i) == x,
        forall|j: int| 0 <= j < i ==> prefix_width(grid[y as int], j) != x,
        all_visible(cs),
        insert_chars_state(grid, x, y, cs).1,
    ensures
        insert_chars_state(grid, x, y, cs).0 == grid.update(
            y as int,
            grid[y as int].take(i) + cells_of(cs) + grid[y as int].skip(i),
        ),
    decreases cs.len(),
{
    let line = grid[y as int];
    if cs.len() == 0 {
        assert(line.take(i) + cells_of(cs) + line.skip(i) =~= line);
        assert(grid.update(y as int, line) =~= grid);
    } else {
        let pre = cs.drop_last();
        let c = cs.last();
        lemma_insert_chars_ok_prefix(grid, x, y, cs, cs.len() - 1);
        assert(cs.take(cs.len() - 1) =~= pre);
        assert forall|k: int| 0 <= k < pre.len() implies #[trigger] ch_of(pre[k]).width > 0 by {
            assert(pre[k] == cs[k]);
        }
        lemma_insert_chars_cells(grid, x, y, pre, i);
        let m_line = line.take(i) + cells_of(pre) + line.skip(i);
        let g1 = grid.update(y as int, m_line);
        let at = x + widths(pre);
        let m = i + pre.len();
        lemma_typed_prefixes(line, i, x, pre);
        lemma_prefix_mono(m_line, m, m_line.len() as int);
        lemma_prefix_full(m_line);
        lemma_no_padding(g1, at as usize, y);
        let full = line.take(i) + cells_of(cs) + line.skip(i);
        if m < m_line.len() {
            assert(is_column_at(m_line, at, m));
            lemma_column_unique(m_line, at, m);
            assert(m_line.insert(m, ch_of(c)) =~= full);
        } else {
            lemma_column_none(m_line, at);
            assert(m_line.push(ch_of(c)) =~= full);
        }
        assert(g1.update(y as int, full) =~= grid.update(y as int, full));
    }
}

/// Text of one line typed where a cell starts, or where its line ends,
/// goes into the line there as cells, in order, with what followed after
/// it; its characters take up at least one column each.
pub proof fn law_insert_text_cells(grid: Seq<Seq<Ch>>, x: usize, y: usize, text: Seq<char>)
    requires
        at_boundary(grid, x, y),
        insert_text_ok(grid, x, y, text),
        !text.contains('\n'),
        all_visible(text),
    ensures
        insert_text_spec(grid, x, y, text) == grid.update(
            y as int,
            grid[y as int].take(insertion_index(grid[y as int], x as int)) + cells_of(text) + grid[y as int].skip(
                insertion_index(grid[y as int], x as int),
            ),
        ),
{
    let line = grid[y as int];
    let i = insertion_index(line, x as int);
    lemma_no_newline_scan(text);
    if text.len() == 0 {
        assert(str_lines(text) =~= Seq::<Seq<char>>::empty());
        assert(line.take(i) + cells_of(text) + line.skip(i) =~= line);
        assert(grid.update(y as int, line) =~= grid);
    } else {
        assert(str_lines(text) == seq![text]);
        let ls = seq![text];
        assert(ls.drop_last() =~= Seq::<Seq<char>>::empty());
        assert(insert_lines_state(grid, x as int, y as int, Seq::<Seq<char>>::empty()) == (grid, x as int, true));
        lemma_column_some(line, x as int);
        lemma_prefix_full(line);
        if cell_index_at(line, x as int) is None {
            assert forall|j: int| 0 <= j < line.len() implies prefix_width(line, j) != x by {
                lemma_no_column(line, x as int, j);
            }
        }
        lemma_insert_chars_cells(grid, x as int, y, text, i);
    }
}

/// A text with no line feed is read as one line, or none when empty.
proof fn lemma_no_newline_scan(text: Seq<char>)
    requires
        !text.contains('\n'),
    ensures
        scan_lines(text) == (Seq::<Seq<char>>::empty(), text),
    decreases text.len(),
{
    if text.len() > 0 {
        let pre = text.drop_last();
        assert(!pre.contains('\n')) by {
            if pre.contains('\n') {
                let k = choose|k: int| 0 <= k < pre.len() && pre[k] == '\n';
                assert(text[k] == '\n');
            }
        }
        lemma_no_newline_scan(pre);
        assert(text[text.len() - 1] != '\n');
        assert(pre.push(text.last()) =~= text);
    } else {
        assert(text =~= Seq::<char>::empty());
    }
}

/// Deleting the characters `cs` one after the other at column `x` of line
/// `y`, where cell `i` starts and the cells from `i` on hold them, removes
/// those cells; each deletion is undone by its inverse.
proof fn lemma_deletes_remove(grid: Seq<Seq<Ch>>, y: usize, x: usize, i: int, cs: Seq<char>)
    requires
        grid_fits(grid),
        (y as int) < grid.len(),
        is_column_at(grid[y as int], x as int, i),
        i + cs.len() <= grid[y as int].len(),
        forall|k: int| 0 <= k < cs.len() ==> grid[y as int][i + k] == #[trigger] ch_of(cs[k]),
    ensures
        apply_seq_state(grid, deletes_at(Point2 { x, y }, cs)) == (
            grid.update(y as int, grid[y as int].take(i) + grid[y as int].skip(i + cs.len())),
            true,
        ),
        steps_undoable(grid, deletes_at(Point2 { x, y }, cs)),
    decreases cs.len(),
{
    let p = Point2 { x, y };
    let line = grid[y as int];
    if cs.len() == 0 {
        assert(line.take(i) + line.skip(i) =~= line);
        assert(grid.update(y as int, line) =~= grid);
    } else {
        let pre = cs.drop_last();
        let n = cs.len() as int;
        assert forall|k: int| 0 <= k < pre.len() implies grid[y as int][i + k] == #[trigger] ch_of(pre[k]) by {
            assert(pre[k] == cs[k]);
            assert(grid[y as int][i + k] == ch_of(cs[k]));
        }
        lemma_deletes_remove(grid, y, x, i, pre);
        let line1 = line.take(i) + line.skip(i + n - 1);
        let g1 = grid.update(y as int, line1);
        assert(deletes_at(p, cs).drop_last() =~= deletes_at(p, pre));
        assert(deletes_at(p, cs).last() == delete_action(p, cs.last()));
        assert(line1.take(i) =~= line.take(i));
        assert forall|j: int| 0 <= j <= i implies prefix_width(line1, j) == prefix_width(line, j) by {
            assert(line1.take(j) =~= line.take(j));
        }
        assert(is_column_at(line1, x as int, i));
        lemma_column_unique(line1, x as int, i);
        assert(line1[i] == line[i + n - 1]);
        assert(ch_of(cs[n - 1]) == line[i + n - 1]);
        assert(cell_at(g1, x, y) == Some(ch_of(cs.last())));
        assert(line1.remove(i) =~= line.take(i) + line.skip(i + n));
        assert(g1.update(y as int, line1.remove(i)) =~= grid.update(y as int, line.take(i) + line.skip(i + n)));
        assert forall|k: int| 0 <= k < g1.len() implies #[trigger] g1[k].len() <= usize::MAX by {
            if k != y {
                assert(g1[k] == grid[k]);
            }
        }
    }
}

/// Undo right after cutting text out of one line gives the buffer back:
/// the selection runs left to right on one line, starts where a cell
/// starts, takes at least one cell, and the cells it takes hold characters
/// as typed, none of them a line feed.
pub proof fn law_undo_line_cut(before: TextEdit, after: TextEdit, r: Option<String>)
    requires
        cut_linear_done(before, after, r),
        grid_fits(before.grid()),
        before.sel_start() matches Some(s) && before.sel_end() matches Some(e) && {
            let g = before.grid();
            let y = s.y as usize;
            let i = index_point(g, cast_point_spec(s)).x as int;
            let j = index_point(g, cast_point_spec(e)).x as int;
            &&& 0 <= s.x <= e.x
            &&& 0 <= s.y == e.y
            &&& (y as int) < g.len()
            &&& column_at(g, s.x as int, s.y as int) is Some
            &&& i <= j < g[y as int].len()
            &&& forall|k: int| i <= k <= j ==> #[trigger] g[y as int][k] == ch_of(g[y as int][k].ch) && g[y as int][k].ch != '\n'
        },
    ensures
        undo_state(after.state()).0 == before.grid(),
{
    let s = before.sel_start()->0;
    let e = before.sel_end()->0;
    let g = before.grid();
    let sp = cast_point_spec(s);
    let ep = cast_point_spec(e);
    assert(order_spec(s, e) == (s, e));
    let y = sp.y;
    let line = g[y as int];
    let i = index_point(g, sp).x as int;
    let j = index_point(g, ep).x as int;
    lemma_column_some(line, s.x as int);
    assert(is_column_at(line, sp.x as int, i));
    let text = line_text(line.subrange(i, j + 1));
    assert(linear_text(g, sp, ep) == join_lines(seq![text]));
    assert(join_lines(seq![text]) == text);
    assert(!text.contains('\n')) by {
        if text.contains('\n') {
            let k = choose|k: int| 0 <= k < text.len() && text[k] == '\n';
            assert(text[k] == line[i + k].ch);
        }
    }
    lemma_no_newline_scan(text);
    assert(text.len() > 0);
    assert(str_lines(text) == seq![text]);
    let acts = cut_actions(sp, str_lines(text));
    assert(acts == deletes_at(sp, text));
    assert forall|k: int| 0 <= k < text.len() implies line[i + k] == #[trigger] ch_of(text[k]) by {
        assert(text[k] == line[i + k].ch);
        assert(line[i + k] == ch_of(line[i + k].ch));
    }
    lemma_deletes_remove(g, y, sp.x, i, text);
    assert(line.take(i) + line.skip(i + text.len()) =~= line.take(i) + line.skip(j + 1));
    assert(after.grid() == g.update(y as int, line.take(i) + line.skip(j + 1)));
    lemma_deletes_len(sp, text);
    let h1 = keep_front(seq![acts] + before.history(), HISTORY_SIZE as nat);
    assert(after.history() == h1);
    assert(h1[0] == acts);
    assert(skip_separators(h1) == h1);
    lemma_undo_steps(g, acts);
}

proof fn lemma_deletes_len(p: Point2<usize>, cs: Seq<char>)
    ensures
        deletes_at(p, cs).len() == cs.len(),
    decreases cs.len(),
{
    if cs.len() > 0 {
        lemma_deletes_len(p, cs.drop_last());
    }
}

/// The number of times `c` occurs in `s`.
pub open spec fn count_char(s: Seq<char>, c: char) -> nat
    decreases s.len(),
{
    if s.len() == 0 {
        0
    } else {
        count_char(s.drop_last(), c) + if s.last() == c { 1nat } else { 0nat }
    }
}

/// No cell of the line holds a line break.
pub open spec fn line_unbroken(line: Seq<Ch>) -> bool {
    forall|x: int| 0 <= x < line.len() ==> #[trigger] line[x].ch != '\n'
}

/// No cell of the grid holds a line break.
pub open spec fn grid_unbroken(grid: Seq<Seq<Ch>>) -> bool {
    forall|y: int| 0 <= y < grid.len() ==> #[trigger] line_unbroken(grid[y])
}

/// The lengths of the sequences in `s`, added up.
pub open spec fn seqs_len<A>(s: Seq<Seq<A>>) -> nat
    decreases s.len(),
{
    if s.len() == 0 {
        0
    } else {
        seqs_len(s.drop_last()) + s.last().len()
    }
}

proof fn lemma_total_len_seqs(grid: Seq<Seq<Ch>>)
    ensures
        total_len(grid) == seqs_len(grid),
        seqs_len(grid_text(grid)) == seqs_len(grid),
    decreases grid.len(),
{
    if grid.len() > 0 {
        lemma_total_len_seqs(grid.drop_last());
        assert(grid_text(grid).drop_last() =~= grid_text(grid.drop_last()));
    }
}

proof fn lemma_seqs_len_concat<A>(a: Seq<Seq<A>>, b: Seq<Seq<A>>)
    ensures
        seqs_len(a + b) == seqs_len(a) + seqs_len(b),
    decreases b.len(),
{
    if b.len() > 0 {
        lemma_seqs_len_concat(a, b.drop_last());
        assert((a + b).drop_last() =~= a + b.drop_last());
    } else {
        assert(a + b =~= a);
    }
}

proof fn lemma_seqs_len_one<A>(x: Seq<A>)
    ensures
        seqs_len(seq![x]) == x.len(),
{
    reveal_with_fuel(seqs_len, 2);
    assert(seq![x].drop_last() =~= Seq::<Seq<A>>::empty());
}

proof fn lemma_seqs_len_update<A>(s: Seq<Seq<A>>, i: int, x: Seq<A>)
    requires
        0 <= i < s.len(),
    ensures
        seqs_len(s.update(i, x)) + s[i].len() == seqs_len(s) + x.len(),
{
    assert(s =~= s.take(i) + seq![s[i]] + s.skip(i + 1));
    assert(s.update(i, x) =~= s.take(i) + seq![x] + s.skip(i + 1));
    lemma_seqs_len_concat(s.take(i) + seq![s[i]], s.skip(i + 1));
    lemma_seqs_len_concat(s.take(i), seq![s[i]]);
    lemma_seqs_len_concat(s.take(i) + seq![x], s.skip(i + 1));
    lemma_seqs_len_concat(s.take(i), seq![x]);
    lemma_seqs_len_one(s[i]);
    lemma_seqs_len_one(x);
}

proof fn lemma_count_concat(a: Seq<char>, b: Seq<char>, c: char)
    ensures
        count_char(a + b, c) == count_char(a, c) + count_char(b, c),
    decreases b.len(),
{
    if b.len() > 0 {
        lemma_count_concat(a, b.drop_last(), c);
        assert((a + b).drop_last() =~= a + b.drop_last());
    } else {
        assert(a + b =~= a);
    }
}

proof fn lemma_unbroken_text(line: Seq<Ch>)
    requires
        line_unbroken(line),
    ensures
        count_char(line_text(line), '\n') == 0,
    decreases line.len(),
{
    if line.len() > 0 {
        assert(line_text(line).drop_last() =~= line_text(line.drop_last()));
        assert(line_text(line).last() == line[line.len() - 1].ch);
        lemma_unbroken_text(line.drop_last());
    }
}

proof fn lemma_unbroken_part(line: Seq<Ch>, a: int, b: int)
    requires
        line_unbroken(line),
        0 <= a <= b <= line.len(),
    ensures
        line_unbroken(line.subrange(a, b)),
{
    assert forall|x: int| 0 <= x < line.subrange(a, b).len() implies #[trigger] line.subrange(a, b)[x].ch != '\n' by {
        assert(line.subrange(a, b)[x] == line[a + x]);
    }
}

/// Joining lines that hold no line break: the text holds one line break
/// between each two lines, and the lines' characters.
proof fn lemma_join_count(lines: Seq<Seq<char>>)
    requires
        forall|i: int| 0 <= i < lines.len() ==> count_char(#[trigger] lines[i], '\n') == 0,
    ensures
        join_lines(lines).len() == count_char(join_lines(lines), '\n') + seqs_len(lines),
    decreases lines.len(),
{
    if lines.len() == 1 {
        lemma_seqs_len_one(lines[0]);
        assert(lines =~= seq![lines[0]]);
    } else if lines.len() >= 2 {
        let pre = lines.drop_last();
        assert(forall|i: int| 0 <= i < pre.len() ==> pre[i] == lines[i]);
        lemma_join_count(pre);
        assert(count_char(lines.last(), '\n') == 0);
        lemma_count_concat(join_lines(pre) + seq!['\n'], lines.last(), '\n');
        lemma_count_concat(join_lines(pre), seq!['\n'], '\n');
        reveal_with_fuel(count_char, 2);
        assert(seq!['\n'].drop_last() =~= Seq::<char>::empty());
        assert(count_char(seq!['\n'], '\n') == 1);
        assert(join_lines(lines) == join_lines(pre) + seq!['\n'] + lines.last());
        assert(seqs_len(lines) == seqs_len(pre) + lines.last().len());
    }
}

/// Cutting a linear selection out of a buffer whose cells hold no line
/// break removes as many cells as the cut text holds characters other than
/// line breaks.
pub proof fn law_cut_linear_len(grid: Seq<Seq<Ch>>, start: Point2<usize>, end: Point2<usize>)
    requires
        linear_ok(grid, start, end),
        grid_unbroken(grid),
    ensures
        total_len(cut_linear_spec(grid, start, end)) + linear_text(grid, start, end).len() == total_len(grid)
            + count_char(linear_text(grid, start, end), '\n'),
{
    let s = index_point(grid, start);
    let e = index_point(grid, end);
    let lines = linear_lines(grid, s, e);
    let cut = cut_linear_spec(grid, start, end);
    lemma_total_len_seqs(grid);
    lemma_total_len_seqs(cut);
    if s.y == e.y {
        let line = grid[s.y as int];
        assert(line_unbroken(line));
        lemma_unbroken_part(line, s.x as int, e.x + 1);
        lemma_unbroken_text(line.subrange(s.x as int, e.x + 1));
        lemma_join_count(lines);
        lemma_seqs_len_one(line_text(line.subrange(s.x as int, e.x + 1)));
        lemma_seqs_len_update(grid, s.y as int, line.take(s.x as int) + line.skip(e.x + 1));
    } else {
        let first = grid[s.y as int];
        let last = grid[e.y as int];
        assert(line_unbroken(first));
        assert(line_unbroken(last));
        let mid_cells = if s.y + 1 < e.y { grid.subrange(s.y + 1, e.y as int) } else { Seq::<Seq<Ch>>::empty() };
        let mid = if s.y + 1 < e.y { grid_text(grid.subrange(s.y + 1, e.y as int)) } else { Seq::<Seq<char>>::empty() };
        lemma_total_len_seqs(mid_cells);
        assert(mid == grid_text(mid_cells));
        lemma_unbroken_part(first, s.x as int, first.len() as int);
        lemma_unbroken_part(last, 0, e.x + 1);
        lemma_unbroken_text(first.skip(s.x as int));
        lemma_unbroken_text(last.take(e.x + 1));
        assert forall|i: int| 0 <= i < lines.len() implies count_char(#[trigger] lines[i], '\n') == 0 by {
            if i == 0 {
            } else if i == lines.len() - 1 {
            } else {
                assert(lines[i] == line_text(grid[s.y + 1 + i - 1]));
                assert(line_unbroken(grid[s.y + i]));
                lemma_unbroken_text(grid[s.y + i]);
            }
        }
        lemma_join_count(lines);
        let a = line_text(first.skip(s.x as int));
        let b = line_text(last.take(e.x + 1));
        lemma_seqs_len_concat(seq![a] + mid, seq![b]);
        lemma_seqs_len_concat(seq![a], mid);
        lemma_seqs_len_one(a);
        lemma_seqs_len_one(b);
        let g1 = grid.update(e.y as int, last.skip(e.x + 1));
        lemma_seqs_len_update(grid, e.y as int, last.skip(e.x + 1));
        let g2 = if s.y + 1 < e.y { g1.take(s.y + 1) + g1.skip(e.y as int) } else { g1 };
        if s.y + 1 < e.y {
            assert(g1 =~= g1.take(s.y + 1) + mid_cells + g1.skip(e.y as int));
            lemma_seqs_len_concat(g1.take(s.y + 1) + mid_cells, g1.skip(e.y as int));
            lemma_seqs_len_concat(g1.take(s.y + 1), mid_cells);
            lemma_seqs_len_concat(g1.take(s.y + 1), g1.skip(e.y as int));
        }
        assert(g2[s.y as int] == first);
        lemma_seqs_len_update(g2, s.y as int, first.take(s.x as int));
        assert(cut == g2.update(s.y as int, first.take(s.x as int)));
    }
}

} // verus!
