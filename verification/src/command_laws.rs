//! What the commands do, stated by their effect on positions, cells and
//! the cursor: which positions a selection covers, what each key asks for,
//! what the editor's commands do, and where pasted and merged text lands.
use vstd::prelude::*;

use crate::base_editor::{command_effect, command_step};
use crate::editor::{base_command, Command as EditorCommand};
use crate::editor_web::{is_key_command, Command as KeyCommand};
use crate::point::Point2;
use crate::laws::all_visible;
use crate::text::str_lines;
use crate::text_buffer::{
    add_sat, can_replace, cell_index_at, char_at, delete_char_spec, ensure_cell_spec, ensure_line_spec, is_column_at, lemma_column_some,
    lemma_column_unique, lemma_prefix_full, lemma_prefix_mono, lemma_prefix_step, lemma_widths_mono, line_width_spec, paste_lines_state, prefix_width, replace_char_spec,
    replace_chars_state, sub_sat, widths,
};
use crate::width::{ch_of, Ch, BLANK_CH};
use crate::text_edit::{in_linear_selection, merge_chars_state, merge_lines_state, EditState, EditorView};
use crate::web_editor::{is_key_call, Call};
use crate::base_editor::Command as BaseCommand;

verus! {

/// `p` comes no later than `q` in reading order: on an earlier line, or on
/// the same line at a column no further right.
pub open spec fn reads_before(p: Point2<i32>, q: Point2<i32>) -> bool {
    p.y < q.y || (p.y == q.y && p.x <= q.x)
}

/// A linear selection covers exactly the positions that lie, in reading
/// order, between its two ends, both included, whichever end comes first:
/// the rest of the first end's line, every line in between whole, and the
/// start of the last end's line.
pub proof fn law_linear_selection_covers(start: Point2<i32>, end: Point2<i32>, loc: Point2<i32>)
    ensures
        in_linear_selection(start, end, loc) <==> (reads_before(start, loc) && reads_before(loc, end)) || (
        reads_before(end, loc) && reads_before(loc, start)),
{
}

/// A position on a line strictly between the lines of the two ends of a
/// linear selection is selected, whatever its column.
pub proof fn law_linear_selection_inner_lines(start: Point2<i32>, end: Point2<i32>, loc: Point2<i32>)
    requires
        (start.y < loc.y && loc.y < end.y) || (end.y < loc.y && loc.y < start.y),
    ensures
        in_linear_selection(start, end, loc),
{
    law_linear_selection_covers(start, end, loc);
}

/// In the key map of the editor drawn on top of `Editor`, each named key
/// asks for its own command, whatever modifiers are held: tab indents,
/// enter breaks the line, backspace and delete delete before and under the
/// cursor, and each arrow key moves the cursor in its own direction. Home
/// and End ask for nothing there.
pub proof fn law_editor_web_named_keys(is_ctrl: bool, is_shift: bool, r: Option<KeyCommand>)
    ensures
        is_key_command("Tab"@, is_ctrl, is_shift, r) ==> r == Some(KeyCommand::EditorCommand(EditorCommand::IndentForward)),
        is_key_command("Enter"@, is_ctrl, is_shift, r) ==> r == Some(KeyCommand::EditorCommand(EditorCommand::BreakLine)),
        is_key_command("Backspace"@, is_ctrl, is_shift, r) ==> r == Some(KeyCommand::EditorCommand(EditorCommand::DeleteBack)),
        is_key_command("Delete"@, is_ctrl, is_shift, r) ==> r == Some(KeyCommand::EditorCommand(EditorCommand::DeleteForward)),
        is_key_command("ArrowUp"@, is_ctrl, is_shift, r) ==> r == Some(KeyCommand::EditorCommand(EditorCommand::MoveUp)),
        is_key_command("ArrowDown"@, is_ctrl, is_shift, r) ==> r == Some(KeyCommand::EditorCommand(EditorCommand::MoveDown)),
        is_key_command("ArrowLeft"@, is_ctrl, is_shift, r) ==> r == Some(KeyCommand::EditorCommand(EditorCommand::MoveLeft)),
        is_key_command("ArrowRight"@, is_ctrl, is_shift, r) ==> r == Some(KeyCommand::EditorCommand(EditorCommand::MoveRight)),
        is_key_command("Home"@, is_ctrl, is_shift, r) ==> r is None,
        is_key_command("End"@, is_ctrl, is_shift, r) ==> r is None,
{
    reveal_strlit("Tab");
    reveal_strlit("Enter");
    reveal_strlit("Backspace");
    reveal_strlit("Delete");
    reveal_strlit("ArrowUp");
    reveal_strlit("ArrowDown");
    reveal_strlit("ArrowLeft");
    reveal_strlit("ArrowRight");
    reveal_strlit("Home");
    reveal_strlit("End");
    assert("ArrowLeft"@[5] != "ArrowDown"@[5]);
    assert("ArrowLeft"@[0] != "Backspace"@[0]);
    assert("ArrowDown"@[0] != "Backspace"@[0]);
    assert("Tab"@[0] != "End"@[0]);
}

/// In the key map of the web editor, each named key asks for its own
/// command, whatever modifiers are held: tab indents, enter breaks the line,
/// backspace and delete delete before and under the cursor, each arrow key
/// moves the cursor in its own direction, and home and end move it to the
/// start and the end of its line.
pub proof fn law_web_editor_named_keys(is_ctrl: bool, is_shift: bool, r: Option<Call>)
    ensures
        is_key_call("Tab"@, is_ctrl, is_shift, r) ==> r == Some(Call::Command(BaseCommand::IndentForward)),
        is_key_call("Enter"@, is_ctrl, is_shift, r) ==> r == Some(Call::Command(BaseCommand::BreakLine)),
        is_key_call("Backspace"@, is_ctrl, is_shift, r) ==> r == Some(Call::Command(BaseCommand::DeleteBack)),
        is_key_call("Delete"@, is_ctrl, is_shift, r) ==> r == Some(Call::Command(BaseCommand::DeleteForward)),
        is_key_call("ArrowUp"@, is_ctrl, is_shift, r) ==> r == Some(Call::Command(BaseCommand::MoveUp)),
        is_key_call("ArrowDown"@, is_ctrl, is_shift, r) ==> r == Some(Call::Command(BaseCommand::MoveDown)),
        is_key_call("ArrowLeft"@, is_ctrl, is_shift, r) ==> r == Some(Call::Command(BaseCommand::MoveLeft)),
        is_key_call("ArrowRight"@, is_ctrl, is_shift, r) ==> r == Some(Call::Command(BaseCommand::MoveRight)),
        is_key_call("Home"@, is_ctrl, is_shift, r) ==> r == Some(Call::Command(BaseCommand::MoveLeftStart)),
        is_key_call("End"@, is_ctrl, is_shift, r) ==> r == Some(Call::Command(BaseCommand::MoveRightEnd)),
{
    reveal_strlit("Tab");
    reveal_strlit("Enter");
    reveal_strlit("Backspace");
    reveal_strlit("Delete");
    reveal_strlit("ArrowUp");
    reveal_strlit("ArrowDown");
    reveal_strlit("ArrowLeft");
    reveal_strlit("ArrowRight");
    reveal_strlit("Home");
    reveal_strlit("End");
    assert("ArrowLeft"@[5] != "ArrowDown"@[5]);
    assert("ArrowLeft"@[0] != "Backspace"@[0]);
    assert("ArrowDown"@[0] != "Backspace"@[0]);
    assert("Tab"@[0] != "End"@[0]);
}

/// A key whose name is one character types that character, unless the
/// control key is held with one of the shortcuts: c copies, x cuts, v
/// pastes, z undoes (redoes with shift), a selects all.
pub proof fn law_editor_web_typed_keys(c: char, is_ctrl: bool, is_shift: bool, r: Option<KeyCommand>)
    ensures
        is_key_command(seq![c], false, is_shift, r) ==> r == Some(KeyCommand::EditorCommand(EditorCommand::InsertChar(c))),
        c != 'c' && c != 'x' && c != 'v' && c != 'z' && c != 'Z' && c != 'a' ==> (is_key_command(seq![c], is_ctrl, is_shift, r)
            ==> r == Some(KeyCommand::EditorCommand(EditorCommand::InsertChar(c)))),
        is_key_command(seq!['c'], true, is_shift, r) ==> r == Some(KeyCommand::CopyText),
        is_key_command(seq!['x'], true, is_shift, r) ==> r == Some(KeyCommand::CutText),
        is_key_command(seq!['v'], true, is_shift, r) ==> r == Some(KeyCommand::PasteText),
        is_key_command(seq!['z'], true, false, r) ==> r == Some(KeyCommand::EditorCommand(EditorCommand::Undo)),
        is_key_command(seq!['Z'], true, false, r) ==> r == Some(KeyCommand::EditorCommand(EditorCommand::Undo)),
        is_key_command(seq!['z'], true, true, r) ==> r == Some(KeyCommand::EditorCommand(EditorCommand::Redo)),
        is_key_command(seq!['Z'], true, true, r) ==> r == Some(KeyCommand::EditorCommand(EditorCommand::Redo)),
        is_key_command(seq!['a'], true, is_shift, r) ==> r == Some(KeyCommand::EditorCommand(EditorCommand::SelectAll)),
{
}

/// In the web editor's key map a key whose name is one character types
/// that character, unless the control key is held with one of the
/// shortcuts: c copies, x cuts, v pastes (an empty block until the page
/// hands over the clipboard), z undoes (redoes with shift), r redoes, a
/// selects all.
pub proof fn law_web_editor_typed_keys(c: char, is_ctrl: bool, is_shift: bool, r: Option<Call>)
    ensures
        is_key_call(seq![c], false, is_shift, r) ==> r == Some(Call::Command(BaseCommand::InsertChar(c))),
        c != 'c' && c != 'x' && c != 'v' && c != 'z' && c != 'Z' && c != 'r' && c != 'a' ==> (is_key_call(seq![c], is_ctrl, is_shift, r)
            ==> r == Some(Call::Command(BaseCommand::InsertChar(c)))),
        is_key_call(seq!['c'], true, is_shift, r) ==> r == Some(Call::CopyText),
        is_key_call(seq!['x'], true, is_shift, r) ==> r == Some(Call::CutText),
        is_key_call(seq!['v'], true, is_shift, r) ==> (r matches Some(Call::PasteTextBlock(t)) && t@.len() == 0),
        is_key_call(seq!['z'], true, false, r) ==> r == Some(Call::Command(BaseCommand::Undo)),
        is_key_call(seq!['Z'], true, false, r) ==> r == Some(Call::Command(BaseCommand::Undo)),
        is_key_call(seq!['z'], true, true, r) ==> r == Some(Call::Command(BaseCommand::Redo)),
        is_key_call(seq!['Z'], true, true, r) ==> r == Some(Call::Command(BaseCommand::Redo)),
        is_key_call(seq!['r'], true, is_shift, r) ==> r == Some(Call::Command(BaseCommand::Redo)),
        is_key_call(seq!['a'], true, is_shift, r) ==> r == Some(Call::Command(BaseCommand::SelectAll)),
{
}

/// The cursor of a view.
pub open spec fn cursor_of(v: EditorView) -> Point2<usize> {
    v.0.1
}

/// What the editor's deleting commands do: backspace removes the cell that
/// starts one column before the cursor and moves the cursor there (at the
/// start of a line it does nothing); delete removes the cell that starts at
/// the cursor and leaves the cursor where it is. Both can always be applied.
pub proof fn law_editor_deletes(virtual_edit: bool, v: EditorView)
    ensures
        ({
            let g = v.0.0;
            let c = cursor_of(v);
            let back = command_step(virtual_edit, v, base_command(EditorCommand::DeleteBack));
            let fwd = command_step(virtual_edit, v, base_command(EditorCommand::DeleteForward));
            &&& back.1
            &&& c.x > 0 ==> back.0.0.0 == delete_char_spec(g, (c.x - 1) as usize, c.y)
            &&& c.x > 0 ==> cursor_of(back.0) == Point2 { x: (c.x - 1) as usize, y: c.y }
            &&& c.x == 0 ==> back.0 == v
            &&& fwd.1
            &&& fwd.0.0.0 == delete_char_spec(g, c.x, c.y)
            &&& cursor_of(fwd.0) == c
            &&& fwd.0.1 == v.1 && fwd.0.2 == v.2
        }),
{
    reveal(command_effect);
}

/// What the editor's moves along a line do to the cursor, leaving the
/// cells and the selection as they are: left and right go one column when
/// the cursor moves freely, and home goes to the start of the line.
#[verifier::rlimit(20)]
pub proof fn law_editor_line_moves(v: EditorView)
    ensures
        ({
            let c = cursor_of(v);
            let left = command_step(true, v, base_command(EditorCommand::MoveLeft));
            let right = command_step(true, v, base_command(EditorCommand::MoveRight));
            let home = command_step(true, v, base_command(EditorCommand::MoveLeftStart));
            &&& cursor_of(left.0) == Point2 { x: sub_sat(c.x, 1), y: c.y }
            &&& cursor_of(right.0) == Point2 { x: add_sat(c.x, 1), y: c.y }
            &&& cursor_of(home.0) == Point2 { x: 0usize, y: c.y }
            &&& left.0.0.0 == v.0.0 && right.0.0.0 == v.0.0 && home.0.0.0 == v.0.0
            &&& left.0.1 == v.1 && right.0.1 == v.1 && home.0.1 == v.1
            &&& !left.2 && !right.2 && !home.2
        }),
{
    reveal(command_effect);
}

/// What the editor's moves across lines do to the cursor when it moves
/// freely, leaving the cells and the selection as they are: up and down go
/// one line, and setting the position puts it at the given column and line.
#[verifier::rlimit(20)]
pub proof fn law_editor_line_changes(v: EditorView, x: i32, y: i32)
    ensures
        ({
            let c = cursor_of(v);
            let up = command_step(true, v, base_command(EditorCommand::MoveUp));
            let down = command_step(true, v, base_command(EditorCommand::MoveDown));
            let at = command_step(true, v, base_command(EditorCommand::SetPosition(x, y)));
            &&& cursor_of(up.0) == Point2 { x: c.x, y: sub_sat(c.y, 1) }
            &&& cursor_of(down.0) == Point2 { x: c.x, y: add_sat(c.y, 1) }
            &&& cursor_of(at.0) == Point2 { x: x as usize, y: y as usize }
            &&& up.0.0.0 == v.0.0 && down.0.0.0 == v.0.0 && at.0.0.0 == v.0.0
            &&& up.0.1 == v.1 && down.0.1 == v.1 && at.0.1 == v.1
            &&& !up.2 && !down.2 && !at.2
        }),
{
    reveal(command_effect);
}

/// Typing a character with the editor puts it in at the cursor and moves
/// the cursor past it; breaking the line moves the cursor to the start of
/// the next line.
pub proof fn law_editor_typing(virtual_edit: bool, v: EditorView, ch: char)
    ensures
        ({
            let g = v.0.0;
            let c = cursor_of(v);
            let typed = command_step(virtual_edit, v, base_command(EditorCommand::InsertChar(ch)));
            let broken = command_step(virtual_edit, v, base_command(EditorCommand::BreakLine));
            &&& typed.0.0.0 == crate::text_buffer::insert_char_spec(g, c.x, c.y, ch)
            &&& cursor_of(typed.0) == Point2 { x: add_sat(c.x, crate::width::char_width(ch)->0), y: c.y }
            &&& typed.1 == (c.y < usize::MAX && crate::width::char_width(ch) is Some)
            &&& broken.0.0.0 == crate::text_buffer::break_line_spec(g, c.x, c.y)
            &&& cursor_of(broken.0) == Point2 { x: 0usize, y: (c.y + 1) as usize }
        }),
{
    reveal(command_effect);
}

/// Two lines that agree on their first `n` cells agree on where each of
/// those cells starts.
proof fn lemma_same_prefix(a: Seq<Ch>, b: Seq<Ch>, n: int, col: int, j: int)
    requires
        0 <= j < n <= a.len(),
        n <= b.len(),
        a.take(n) == b.take(n),
        is_column_at(a, col, j),
    ensures
        is_column_at(b, col, j),
        b[j] == a[j],
{
    assert forall|k: int| 0 <= k <= j implies prefix_width(b, k) == prefix_width(a, k) by {
        assert(b.take(k) =~= b.take(n).take(k));
        assert(a.take(k) =~= a.take(n).take(k));
    }
    assert(b[j] == b.take(n)[j]);
    assert(a[j] == a.take(n)[j]);
}

/// Replacing the cell at column `at` of line `y` leaves the other lines as
/// they are, makes no line shorter, and adds lines only past the end.
proof fn lemma_replace_keeps_lines(g: Seq<Seq<Ch>>, at: usize, y: usize, c: char)
    requires
        can_replace(g, at, y),
    ensures
        replace_char_spec(g, at, y, c).len() >= g.len(),
        replace_char_spec(g, at, y, c).len() > y,
        forall|y2: int| 0 <= y2 < g.len() && y2 != y ==> #[trigger] replace_char_spec(g, at, y, c)[y2] == g[y2],
        forall|y2: int| 0 <= y2 < g.len() ==> #[trigger] replace_char_spec(g, at, y, c)[y2].len() >= g[y2].len(),
{
    let gl = ensure_line_spec(g, y);
    assert(forall|y2: int| 0 <= y2 < g.len() ==> gl[y2] == g[y2]);
}

/// Replacing the cell at column `at` of line `y` puts `c` there.
proof fn lemma_replace_places(g: Seq<Seq<Ch>>, at: usize, y: usize, c: char)
    requires
        can_replace(g, at, y),
        replace_char_spec(g, at, y, c)[y as int].len() <= usize::MAX,
    ensures
        char_at(replace_char_spec(g, at, y, c), at, y) == Some(c),
{
    lemma_replace_keeps_lines(g, at, y, c);
    let g1 = ensure_cell_spec(g, at, y);
    let line = g1[y as int];
    lemma_column_some(line, at as int);
    let i = cell_index_at(line, at as int)->0;
    let r = replace_char_spec(g, at, y, c);
    let nl = line.update(i, ch_of(c));
    assert(r[y as int] == nl);
    assert forall|k: int| 0 <= k <= i implies prefix_width(nl, k) == prefix_width(line, k) by {
        assert(nl.take(k) =~= line.take(k));
    }
    assert(is_column_at(nl, at as int, i));
    lemma_column_unique(nl, at as int, i);
    assert(nl[i] == ch_of(c));
}

/// Replacing the cell at column `at` of line `y` leaves a cell that starts
/// before `at` on that line as it is.
proof fn lemma_replace_keeps_before(g: Seq<Seq<Ch>>, at: usize, y: usize, c: char, col: usize)
    requires
        can_replace(g, at, y),
        char_at(g, col, y) is Some,
        col < at,
        replace_char_spec(g, at, y, c)[y as int].len() <= usize::MAX,
    ensures
        char_at(replace_char_spec(g, at, y, c), col, y) == char_at(g, col, y),
{
    lemma_replace_keeps_lines(g, at, y, c);
    let old_line = g[y as int];
    lemma_column_some(old_line, col as int);
    let j = cell_index_at(old_line, col as int)->0;
    let gl = ensure_line_spec(g, y);
    assert(gl[y as int] == old_line);
    let g1 = ensure_cell_spec(g, at, y);
    let line = g1[y as int];
    assert(line.take(old_line.len() as int) =~= old_line.take(old_line.len() as int));
    lemma_column_some(line, at as int);
    let i = cell_index_at(line, at as int)->0;
    lemma_same_prefix(old_line, line, old_line.len() as int, col as int, j);
    if i <= j {
        lemma_prefix_mono(line, i, j);
    }
    let r = replace_char_spec(g, at, y, c);
    let nl = line.update(i, ch_of(c));
    assert(r[y as int] == nl);
    assert(nl.take(j + 1) =~= old_line.take(j + 1));
    lemma_same_prefix(old_line, nl, j + 1, col as int, j);
    lemma_column_unique(nl, col as int, j);
}

/// A line of characters replaced from column `x` of line `y` on, each
/// character one or more columns wide: character `j` stands at column `x`
/// plus the width of the characters before it; the other lines stay.
proof fn lemma_replace_chars_places(g: Seq<Seq<Ch>>, x: int, y: int, cs: Seq<char>)
    requires
        replace_chars_state(g, x, y, cs).1,
        0 <= x,
        all_visible(cs),
        0 <= y < replace_chars_state(g, x, y, cs).0.len() ==> replace_chars_state(g, x, y, cs).0[y].len() <= usize::MAX,
    ensures
        forall|j: int|
            0 <= j < cs.len() ==> char_at(replace_chars_state(g, x, y, cs).0, (x + widths(#[trigger] cs.take(j))) as usize, y as usize)
                == Some(cs[j]),
        replace_chars_state(g, x, y, cs).0.len() >= g.len(),
        forall|y2: int| 0 <= y2 < g.len() && y2 != y ==> #[trigger] replace_chars_state(g, x, y, cs).0[y2] == g[y2],
        forall|y2: int| 0 <= y2 < g.len() ==> #[trigger] replace_chars_state(g, x, y, cs).0[y2].len() >= g[y2].len(),
    decreases cs.len(),
{
    if cs.len() > 0 {
        let pre = cs.drop_last();
        assert forall|k: int| 0 <= k < pre.len() implies #[trigger] ch_of(pre[k]).width > 0 by {
            assert(pre[k] == cs[k]);
        }
        let g1 = replace_chars_state(g, x, y, pre).0;
        let at = x + widths(pre);
        let c = cs.last();
        lemma_replace_keeps_lines(g1, at as usize, y as usize, c);
        lemma_replace_chars_places(g, x, y, pre);
        lemma_replace_places(g1, at as usize, y as usize, c);
        assert(cs.take(cs.len() - 1) =~= pre);
        assert forall|j: int| 0 <= j < cs.len() implies char_at(
            replace_chars_state(g, x, y, cs).0,
            (x + widths(#[trigger] cs.take(j))) as usize,
            y as usize,
        ) == Some(cs[j]) by {
            if j < cs.len() - 1 {
                assert(cs.take(j) =~= pre.take(j));
                assert(pre.take(j + 1).drop_last() =~= pre.take(j));
                assert(ch_of(pre[j]).width > 0);
                lemma_widths_mono(pre, j + 1, pre.len() as int);
                assert(pre.take(pre.len() as int) =~= pre);
                assert(pre[j] == cs[j]);
                lemma_replace_keeps_before(g1, at as usize, y as usize, c, (x + widths(pre.take(j))) as usize);
            }
        }
    }
}

/// Lines pasted as a block with its top left corner at `(x, y)`, each
/// character one or more columns wide: character `j` of line `k` stands on
/// line `y + k` at column `x` plus the width of the characters before it.
proof fn lemma_paste_places(g: Seq<Seq<Ch>>, x: int, y: int, ls: Seq<Seq<char>>)
    requires
        paste_lines_state(g, x, y, ls).1,
        0 <= x,
        0 <= y,
        forall|k: int| 0 <= k < ls.len() ==> all_visible(#[trigger] ls[k]),
        crate::laws::grid_fits(paste_lines_state(g, x, y, ls).0),
    ensures
        forall|k: int, j: int|
            0 <= k < ls.len() && 0 <= j < ls[k].len() ==> char_at(
                paste_lines_state(g, x, y, ls).0,
                (x + widths(#[trigger] ls[k].take(j))) as usize,
                (y + k) as usize,
            ) == Some(ls[k][j]),
    decreases ls.len(),
{
    if ls.len() > 0 {
        let pre = ls.drop_last();
        assert forall|k: int| 0 <= k < pre.len() implies all_visible(#[trigger] pre[k]) by {
            assert(pre[k] == ls[k]);
        }
        let g1 = paste_lines_state(g, x, y, pre).0;
        let line_y = y + ls.len() - 1;
        let last = ls.last();
        assert(all_visible(ls[ls.len() - 1]));
        let r = replace_chars_state(g1, x, line_y, last).0;
        assert(paste_lines_state(g, x, y, ls).0 == r);
        lemma_replace_chars_places(g1, x, line_y, last);
        assert(crate::laws::grid_fits(g1)) by {
            assert forall|i: int| 0 <= i < g1.len() implies #[trigger] g1[i].len() <= usize::MAX by {
                assert(r[i].len() >= g1[i].len());
            }
        }
        lemma_paste_places(g, x, y, pre);
        assert forall|k: int, j: int| 0 <= k < ls.len() && 0 <= j < ls[k].len() implies char_at(
            paste_lines_state(g, x, y, ls).0,
            (x + widths(#[trigger] ls[k].take(j))) as usize,
            (y + k) as usize,
        ) == Some(ls[k][j]) by {
            if k < ls.len() - 1 {
                assert(pre[k] == ls[k]);
                assert(char_at(g1, (x + widths(pre[k].take(j))) as usize, (y + k) as usize) == Some(pre[k][j]));
                let r = replace_chars_state(g1, x, line_y, last).0;
                assert(r[y + k] == g1[y + k]);
            } else {
                assert(ls[k] == last);
            }
        }
    }
}

/// Pasting a block of text puts every line of it at the cursor's column,
/// one line under the other from the cursor's line down: character `j` of
/// line `k` of the block stands on line `y + k` at column `x` plus the width
/// of the characters before it, where `(x, y)` is the cursor, so long as
/// every character takes up at least one column. The editor pastes as the
/// base editor does.
pub proof fn law_paste_block_at_cursor(virtual_edit: bool, v: EditorView, text: String)
    requires
        command_step(virtual_edit, v, BaseCommand::PasteTextBlock(text)).1,
        forall|k: int| 0 <= k < str_lines(text@).len() ==> all_visible(#[trigger] str_lines(text@)[k]),
        crate::laws::grid_fits(command_step(virtual_edit, v, BaseCommand::PasteTextBlock(text)).0.0.0),
    ensures
        forall|k: int, j: int|
            0 <= k < str_lines(text@).len() && 0 <= j < str_lines(text@)[k].len() ==> char_at(
                command_step(virtual_edit, v, BaseCommand::PasteTextBlock(text)).0.0.0,
                (cursor_of(v).x + widths(#[trigger] str_lines(text@)[k].take(j))) as usize,
                (cursor_of(v).y + k) as usize,
            ) == Some(str_lines(text@)[k][j]),
        command_step(virtual_edit, v, base_command(EditorCommand::PasteTextBlock(text))) == command_step(
            virtual_edit,
            v,
            BaseCommand::PasteTextBlock(text),
        ),
{
    reveal(command_effect);
    let c = cursor_of(v);
    lemma_paste_places(v.0.0, c.x as int, c.y as int, str_lines(text@));
}

/// Every cell of the line is one column wide.
pub open spec fn unit_line(line: Seq<Ch>) -> bool {
    forall|i: int| 0 <= i < line.len() ==> #[trigger] line[i].width == 1
}

/// Every character takes up one column.
pub open spec fn unit_chars(cs: Seq<char>) -> bool {
    forall|i: int| 0 <= i < cs.len() ==> #[trigger] ch_of(cs[i]).width == 1
}

proof fn lemma_unit_prefix(line: Seq<Ch>, i: int)
    requires
        unit_line(line),
        0 <= i <= line.len(),
    ensures
        prefix_width(line, i) == i,
    decreases i,
{
    if i > 0 {
        lemma_unit_prefix(line, i - 1);
        lemma_prefix_step(line, i - 1);
    }
}

/// In a line of one-column cells, cell `x` starts at column `x`.
proof fn lemma_unit_column(line: Seq<Ch>, x: int)
    requires
        unit_line(line),
        0 <= x < line.len(),
    ensures
        cell_index_at(line, x) == Some(x),
{
    lemma_unit_prefix(line, x);
    assert forall|k: int| 0 <= k < x implies prefix_width(line, k) != x by {
        lemma_unit_prefix(line, k);
    }
    assert(is_column_at(line, x, x));
    lemma_column_unique(line, x, x);
}

proof fn lemma_unit_widths(cs: Seq<char>, n: int)
    requires
        unit_chars(cs),
        0 <= n <= cs.len(),
    ensures
        widths(cs.take(n)) == n,
    decreases n,
{
    if n > 0 {
        lemma_unit_widths(cs, n - 1);
        assert(cs.take(n).drop_last() =~= cs.take(n - 1));
        assert(ch_of(cs[n - 1]).width == 1);
    }
}

/// Merging characters into line `y` leaves the other lines as they are,
/// makes no line shorter and adds lines only past the end.
proof fn lemma_merge_chars_lines(st: EditState, y: int, cs: Seq<char>)
    requires
        merge_chars_state(st, y, cs).1,
        0 <= y <= usize::MAX,
    ensures
        merge_chars_state(st, y, cs).0.0.len() >= st.0.len(),
        forall|y2: int| 0 <= y2 < st.0.len() && y2 != y ==> #[trigger] merge_chars_state(st, y, cs).0.0[y2] == st.0[y2],
        forall|y2: int| 0 <= y2 < st.0.len() ==> #[trigger] merge_chars_state(st, y, cs).0.0[y2].len() >= st.0[y2].len(),
    decreases cs.len(),
{
    if cs.len() > 0 {
        let pre = cs.drop_last();
        lemma_merge_chars_lines(st, y, pre);
        let s1 = merge_chars_state(st, y, pre).0;
        let x = widths(pre);
        let c = cs.last();
        if c != BLANK_CH {
            lemma_replace_keeps_lines(s1.0, x as usize, y as usize, c);
        }
    }
}

/// Merging lines leaves the lines past the merged ones as they are, makes
/// no line shorter and adds lines only past the end.
proof fn lemma_merge_lines_lines(st: EditState, ls: Seq<Seq<char>>)
    requires
        merge_lines_state(st, ls).1,
        ls.len() <= usize::MAX,
    ensures
        merge_lines_state(st, ls).0.0.len() >= st.0.len(),
        forall|y2: int| ls.len() <= y2 < st.0.len() ==> #[trigger] merge_lines_state(st, ls).0.0[y2] == st.0[y2],
        forall|y2: int| 0 <= y2 < st.0.len() ==> #[trigger] merge_lines_state(st, ls).0.0[y2].len() >= st.0[y2].len(),
    decreases ls.len(),
{
    if ls.len() > 0 {
        let pre = ls.drop_last();
        lemma_merge_lines_lines(st, pre);
        let s1 = merge_lines_state(st, pre).0;
        lemma_merge_chars_lines(s1, ls.len() - 1, ls.last());
    }
}

/// Merging one-column characters into a line of one-column cells, before
/// column `j` is reached: the line keeps its length, its one-column cells
/// and its cell `j`.
proof fn lemma_merge_before(st: EditState, y: int, cs: Seq<char>, j: int)
    requires
        merge_chars_state(st, y, cs).1,
        unit_chars(cs),
        0 <= y < st.0.len(),
        st.0.len() <= usize::MAX,
        unit_line(st.0[y]),
        cs.len() <= j < st.0[y].len(),
        st.0[y].len() <= usize::MAX,
    ensures
        merge_chars_state(st, y, cs).0.0.len() == st.0.len(),
        unit_line(merge_chars_state(st, y, cs).0.0[y]),
        merge_chars_state(st, y, cs).0.0[y].len() == st.0[y].len(),
        merge_chars_state(st, y, cs).0.0[y][j] == st.0[y][j],
    decreases cs.len(),
{
    if cs.len() > 0 {
        let pre = cs.drop_last();
        assert forall|i: int| 0 <= i < pre.len() implies #[trigger] ch_of(pre[i]).width == 1 by {
            assert(pre[i] == cs[i]);
        }
        lemma_merge_before(st, y, pre, j);
        let s1 = merge_chars_state(st, y, pre).0;
        let x = widths(pre);
        lemma_unit_widths(cs, pre.len() as int);
        assert(cs.take(pre.len() as int) =~= pre);
        let c = cs.last();
        if c != BLANK_CH {
            let g1 = s1.0;
            let line = g1[y];
            assert(line_width_spec(g1, y) == line.len()) by {
                lemma_unit_prefix(line, line.len() as int);
                lemma_prefix_full(line);
            }
            let ge = ensure_cell_spec(g1, x as usize, y as usize);
            assert(ensure_line_spec(g1, y as usize) == g1);
            assert(ge[y] =~= line);
            assert(ge =~= g1);
            lemma_unit_column(line, x as int);
            let r = replace_char_spec(g1, x as usize, y as usize, c);
            assert(r[y] == line.update(x as int, ch_of(c)));
            assert(ch_of(c).width == 1);
        }
    }
}

/// Merging one-column characters into a line of one-column cells leaves
/// the cell under a blank of the merged line as it was.
proof fn lemma_merge_at_blank(st: EditState, y: int, cs: Seq<char>, j: int)
    requires
        merge_chars_state(st, y, cs).1,
        unit_chars(cs),
        0 <= y < st.0.len(),
        st.0.len() <= usize::MAX,
        unit_line(st.0[y]),
        0 <= j < cs.len(),
        cs[j] == BLANK_CH,
        j < st.0[y].len(),
        st.0[y].len() <= usize::MAX,
        merge_chars_state(st, y, cs).0.0[y].len() <= usize::MAX,
    ensures
        char_at(merge_chars_state(st, y, cs).0.0, j as usize, y as usize) == char_at(st.0, j as usize, y as usize),
    decreases cs.len(),
{
    let pre = cs.drop_last();
    assert forall|i: int| 0 <= i < pre.len() implies #[trigger] ch_of(pre[i]).width == 1 by {
        assert(pre[i] == cs[i]);
    }
    lemma_unit_column(st.0[y], j);
    lemma_merge_chars_lines(st, y, cs);
    if cs.len() == j + 1 {
        lemma_merge_before(st, y, pre, j);
        let g = merge_chars_state(st, y, pre).0.0;
        lemma_unit_column(g[y], j);
    } else {
        let s1 = merge_chars_state(st, y, pre).0;
        let x = widths(pre);
        let c = cs.last();
        lemma_merge_chars_lines(st, y, pre);
        if c != BLANK_CH {
            lemma_replace_keeps_lines(s1.0, x as usize, y as usize, c);
        }
        assert(pre[j] == cs[j]);
        lemma_merge_at_blank(st, y, pre, j);
        if c != BLANK_CH {
            lemma_unit_widths(cs, pre.len() as int);
            assert(cs.take(pre.len() as int) =~= pre);
            lemma_replace_keeps_before(s1.0, x as usize, y as usize, c, j as usize);
        }
    }
}

/// Merging lines of one-column characters leaves the cell under a blank of
/// merged line `k` as it was, where line `k` is of one-column cells.
proof fn lemma_merge_lines_blank(st: EditState, ls: Seq<Seq<char>>, k: int, j: int)
    requires
        merge_lines_state(st, ls).1,
        ls.len() <= usize::MAX,
        0 <= k < ls.len(),
        0 <= j < ls[k].len(),
        ls[k][j] == BLANK_CH,
        unit_chars(ls[k]),
        k < st.0.len(),
        unit_line(st.0[k]),
        j < st.0[k].len(),
        crate::laws::grid_fits(st.0),
        crate::laws::grid_fits(merge_lines_state(st, ls).0.0),
    ensures
        char_at(merge_lines_state(st, ls).0.0, j as usize, k as usize) == char_at(st.0, j as usize, k as usize),
    decreases ls.len(),
{
    let pre = ls.drop_last();
    let n = ls.len();
    let s1 = merge_lines_state(st, pre).0;
    let last = ls.last();
    let fin = merge_lines_state(st, ls).0.0;
    lemma_merge_chars_lines(s1, n - 1, last);
    lemma_merge_lines_lines(st, pre);
    assert(crate::laws::grid_fits(s1.0)) by {
        assert forall|i: int| 0 <= i < s1.0.len() implies #[trigger] s1.0[i].len() <= usize::MAX by {
            assert(fin[i].len() >= s1.0[i].len());
        }
    }
    if k < n - 1 {
        assert(pre[k] == ls[k]);
        lemma_merge_lines_blank(st, pre, k, j);
        assert(fin[k] == s1.0[k]);
    } else {
        assert(s1.0[k] == st.0[k]);
        lemma_merge_at_blank(s1, k, last, j);
    }
}

/// Merging a text block over the content leaves every cell that lies
/// under a blank of the block as it was: where block line `k` holds a blank
/// at column `j`, the character at column `j` of line `k` is the same after
/// the merge as before. This is stated for a line of one-column cells and a
/// block line of one-column characters, where columns and cells coincide.
/// The editor merges as the base editor does.
pub proof fn law_merge_keeps_cells_under_blanks(virtual_edit: bool, v: EditorView, text: String, k: int, j: int)
    requires
        command_step(virtual_edit, v, BaseCommand::MergeText(text)).1,
        str_lines(text@).len() <= usize::MAX,
        0 <= k < str_lines(text@).len(),
        0 <= j < str_lines(text@)[k].len(),
        str_lines(text@)[k][j] == BLANK_CH,
        unit_chars(str_lines(text@)[k]),
        k < v.0.0.len(),
        unit_line(v.0.0[k]),
        j < v.0.0[k].len(),
        crate::laws::grid_fits(v.0.0),
        crate::laws::grid_fits(command_step(virtual_edit, v, BaseCommand::MergeText(text)).0.0.0),
    ensures
        char_at(command_step(virtual_edit, v, BaseCommand::MergeText(text)).0.0.0, j as usize, k as usize) == char_at(
            v.0.0,
            j as usize,
            k as usize,
        ),
        command_step(virtual_edit, v, base_command(EditorCommand::MergeText(text))) == command_step(
            virtual_edit,
            v,
            BaseCommand::MergeText(text),
        ),
{
    reveal(command_effect);
    lemma_merge_lines_blank(v.0, str_lines(text@), k, j);
}

/// Merging characters into line `y`, each one or more columns wide: each
/// character other than a blank stands at the column where the characters
/// before it end.
proof fn lemma_merge_chars_places(st: EditState, y: int, cs: Seq<char>)
    requires
        merge_chars_state(st, y, cs).1,
        0 <= y <= usize::MAX,
        all_visible(cs),
        y < merge_chars_state(st, y, cs).0.0.len() ==> merge_chars_state(st, y, cs).0.0[y].len() <= usize::MAX,
    ensures
        forall|j: int|
            0 <= j < cs.len() && cs[j] != BLANK_CH ==> char_at(
                merge_chars_state(st, y, cs).0.0,
                widths(#[trigger] cs.take(j)) as usize,
                y as usize,
            ) == Some(cs[j]),
    decreases cs.len(),
{
    if cs.len() > 0 {
        let pre = cs.drop_last();
        assert forall|k: int| 0 <= k < pre.len() implies #[trigger] ch_of(pre[k]).width > 0 by {
            assert(pre[k] == cs[k]);
        }
        let s1 = merge_chars_state(st, y, pre).0;
        let x = widths(pre);
        let c = cs.last();
        if c != BLANK_CH {
            lemma_replace_keeps_lines(s1.0, x as usize, y as usize, c);
        }
        lemma_merge_chars_places(st, y, pre);
        assert(cs.take(cs.len() - 1) =~= pre);
        if c != BLANK_CH {
            lemma_replace_places(s1.0, x as usize, y as usize, c);
        }
        assert forall|j: int| 0 <= j < cs.len() && cs[j] != BLANK_CH implies char_at(
            merge_chars_state(st, y, cs).0.0,
            widths(#[trigger] cs.take(j)) as usize,
            y as usize,
        ) == Some(cs[j]) by {
            if j < cs.len() - 1 {
                assert(cs.take(j) =~= pre.take(j));
                assert(pre[j] == cs[j]);
                if c != BLANK_CH {
                    assert(pre.take(j + 1).drop_last() =~= pre.take(j));
                    assert(ch_of(pre[j]).width > 0);
                    lemma_widths_mono(pre, j + 1, pre.len() as int);
                    assert(pre.take(pre.len() as int) =~= pre);
                    lemma_replace_keeps_before(s1.0, x as usize, y as usize, c, widths(pre.take(j)) as usize);
                }
            }
        }
    }
}

/// Merging lines, each character one or more columns wide: each character
/// of line `k` other than a blank stands on line `k` at the column where
/// the characters before it end.
proof fn lemma_merge_lines_places(st: EditState, ls: Seq<Seq<char>>)
    requires
        merge_lines_state(st, ls).1,
        ls.len() <= usize::MAX,
        forall|k: int| 0 <= k < ls.len() ==> all_visible(#[trigger] ls[k]),
        crate::laws::grid_fits(merge_lines_state(st, ls).0.0),
    ensures
        forall|k: int, j: int|
            0 <= k < ls.len() && 0 <= j < ls[k].len() && ls[k][j] != BLANK_CH ==> char_at(
                merge_lines_state(st, ls).0.0,
                widths(#[trigger] ls[k].take(j)) as usize,
                k as usize,
            ) == Some(ls[k][j]),
    decreases ls.len(),
{
    if ls.len() > 0 {
        let pre = ls.drop_last();
        assert forall|k: int| 0 <= k < pre.len() implies all_visible(#[trigger] pre[k]) by {
            assert(pre[k] == ls[k]);
        }
        let n = ls.len();
        let s1 = merge_lines_state(st, pre).0;
        let last = ls.last();
        let fin = merge_lines_state(st, ls).0.0;
        lemma_merge_chars_lines(s1, n - 1, last);
        assert(crate::laws::grid_fits(s1.0)) by {
            assert forall|i: int| 0 <= i < s1.0.len() implies #[trigger] s1.0[i].len() <= usize::MAX by {
                assert(fin[i].len() >= s1.0[i].len());
            }
        }
        lemma_merge_lines_places(st, pre);
        assert(all_visible(ls[n - 1]));
        lemma_merge_chars_places(s1, n - 1, last);
        assert forall|k: int, j: int| 0 <= k < ls.len() && 0 <= j < ls[k].len() && ls[k][j] != BLANK_CH implies char_at(
            fin,
            widths(#[trigger] ls[k].take(j)) as usize,
            k as usize,
        ) == Some(ls[k][j]) by {
            if k < n - 1 {
                assert(pre[k] == ls[k]);
                assert(char_at(s1.0, widths(pre[k].take(j)) as usize, k as usize) == Some(pre[k][j]));
                assert(fin[k] == s1.0[k]);
            } else {
                assert(ls[k] == last);
            }
        }
    }
}

/// Merging a text block over the content puts each character of the block
/// other than a blank on the line of the same number, at the column where
/// the characters before it on its block line end, so long as every
/// character takes up at least one column.
pub proof fn law_merge_places_block(virtual_edit: bool, v: EditorView, text: String)
    requires
        command_step(virtual_edit, v, BaseCommand::MergeText(text)).1,
        str_lines(text@).len() <= usize::MAX,
        forall|k: int| 0 <= k < str_lines(text@).len() ==> all_visible(#[trigger] str_lines(text@)[k]),
        crate::laws::grid_fits(command_step(virtual_edit, v, BaseCommand::MergeText(text)).0.0.0),
    ensures
        forall|k: int, j: int|
            0 <= k < str_lines(text@).len() && 0 <= j < str_lines(text@)[k].len() && str_lines(text@)[k][j] != BLANK_CH
                ==> char_at(
                command_step(virtual_edit, v, BaseCommand::MergeText(text)).0.0.0,
                widths(#[trigger] str_lines(text@)[k].take(j)) as usize,
                k as usize,
            ) == Some(str_lines(text@)[k][j]),
{
    reveal(command_effect);
    lemma_merge_lines_places(v.0, str_lines(text@));
}

/// Every other command of the editor does what the base editor's command
/// of the same name does.
pub proof fn law_editor_commands_as_base(virtual_edit: bool, v: EditorView, ch: char, text: String, s: Point2<i32>, e: Point2<i32>)
    ensures
        command_step(virtual_edit, v, base_command(EditorCommand::IndentForward)) == command_step(virtual_edit, v, BaseCommand::IndentForward),
        command_step(virtual_edit, v, base_command(EditorCommand::IndentBackward)) == command_step(virtual_edit, v, BaseCommand::IndentBackward),
        command_step(virtual_edit, v, base_command(EditorCommand::MoveRightEnd)) == command_step(virtual_edit, v, BaseCommand::MoveRightEnd),
        command_step(virtual_edit, v, base_command(EditorCommand::ReplaceChar(ch))) == command_step(virtual_edit, v, BaseCommand::ReplaceChar(ch)),
        command_step(virtual_edit, v, base_command(EditorCommand::InsertText(text))) == command_step(virtual_edit, v, BaseCommand::InsertText(text)),
        command_step(virtual_edit, v, base_command(EditorCommand::SetContent(text))) == command_step(virtual_edit, v, BaseCommand::SetContent(text)),
        command_step(virtual_edit, v, base_command(EditorCommand::Undo)) == command_step(virtual_edit, v, BaseCommand::Undo),
        command_step(virtual_edit, v, base_command(EditorCommand::Redo)) == command_step(virtual_edit, v, BaseCommand::Redo),
        command_step(virtual_edit, v, base_command(EditorCommand::BumpHistory)) == command_step(virtual_edit, v, BaseCommand::BumpHistory),
        command_step(virtual_edit, v, base_command(EditorCommand::SetSelection(s, e))) == command_step(virtual_edit, v, BaseCommand::SetSelection(s, e)),
        command_step(virtual_edit, v, base_command(EditorCommand::SelectAll)) == command_step(virtual_edit, v, BaseCommand::SelectAll),
        command_step(virtual_edit, v, base_command(EditorCommand::ClearSelection)) == command_step(virtual_edit, v, BaseCommand::ClearSelection),
{
}

} // verus!
