use vstd::prelude::*;

use crate::action::{apply_seq_state, inverse_seq, location_spec, Action};
use crate::history::{keep_front, record_history, redo_ok, undo_ok, Recorded, HISTORY_SIZE, UNDO_SIZE};
use crate::point::Point2;
use crate::text::{split_lines, char_lines, str_lines};
use crate::text_buffer::{
    add_sat, block_ok, block_text, can_replace, cell_rows, cut_block_text, char_at, cut_block_spec, cut_linear_spec, delete_char_spec,
    ensure_cell_spec, grid_string, insert_char_spec, insert_text_ok, insert_text_spec, join_line_spec,
    linear_ok, linear_text, break_line_spec, replace_char_spec, sub_sat, widths, TextBuffer,
};
use crate::util::{cast_point, cast_point_spec, normalize_points, normalize_spec, order_points, order_spec};
use crate::width::{char_width, str_width, unicode_char_width, Ch, BLANK_CH};

verus! {

/// The character has the Unicode White_Space property (PropList.txt):
/// the controls tab through carriage return, space, next line, no-break
/// space, ogham space mark, the spaces from en quad through hair space, line
/// and paragraph separator, narrow no-break space, medium mathematical space
/// and ideographic space.
pub open spec fn white_space(c: char) -> bool {
    let n = c as u32;
    ||| 0x9 <= n <= 0xD
    ||| n == 0x20
    ||| n == 0x85
    ||| n == 0xA0
    ||| n == 0x1680
    ||| 0x2000 <= n <= 0x200A
    ||| n == 0x2028
    ||| n == 0x2029
    ||| n == 0x202F
    ||| n == 0x205F
    ||| n == 0x3000
}

/// Whether the character has the Unicode White_Space property, as
/// `char::is_whitespace` tells.
fn char_is_whitespace(c: char) -> (b: bool)
    ensures
        b == white_space(c),
{
    let n: u32 = c as u32;
    (0x9 <= n && n <= 0xD) || n == 0x20 || n == 0x85 || n == 0xA0 || n == 0x1680 || (0x2000 <= n && n <= 0x200A)
        || n == 0x2028 || n == 0x2029 || n == 0x202F || n == 0x205F || n == 0x3000
}

/// How a selection covers the text.
#[derive(Debug, Clone, Copy, PartialEq, Eq)]
pub enum SelectionMode {
    Linear,
    Block,
}

impl SelectionMode {
    pub fn default() -> (r: Self)
        ensures
            r == SelectionMode::Linear,
    {
        SelectionMode::Linear
    }
}

/// The two ends of a selection, and how it covers the text between them.
#[derive(Debug)]
pub struct Selection {
    pub start: Option<Point2<i32>>,
    pub end: Option<Point2<i32>>,
    pub mode: SelectionMode,
}

impl Selection {
    pub fn default() -> (r: Self)
        ensures
            r.start is None,
            r.end is None,
            r.mode == SelectionMode::Linear,
    {
        Selection { start: None, end: None, mode: SelectionMode::Linear }
    }
}

/// `loc` lies in a linear selection between `start` and `end`: from the
/// earlier of the two to the later, in reading order, both included.
pub open spec fn in_linear_selection(start: Point2<i32>, end: Point2<i32>, loc: Point2<i32>) -> bool {
    let (s, e) = order_spec(start, end);
    if loc.y == s.y {
        if s.y == e.y {
            loc.x >= s.x && loc.x <= e.x
        } else {
            loc.x >= s.x
        }
    } else if loc.y > s.y && loc.y < e.y {
        true
    } else if loc.y == e.y {
        loc.x <= e.x
    } else {
        false
    }
}

/// `loc` lies in the rectangle spanned by `start` and `end`.
pub open spec fn in_block_selection(start: Point2<i32>, end: Point2<i32>, loc: Point2<i32>) -> bool {
    let (s, e) = normalize_spec(start, end);
    loc.x >= s.x && loc.x <= e.x && loc.y >= s.y && loc.y <= e.y
}

/// The state an edit works on: the cells, the cursor, the groups that can
/// be undone and the groups that can be redone.
pub type EditState = (Seq<Seq<Ch>>, Point2<usize>, Seq<Seq<Action>>, Seq<Seq<Action>>);

/// An edit state and a selection: its start, its end and its mode.
pub type EditorView = (EditState, Option<Point2<i32>>, Option<Point2<i32>>, SelectionMode);

/// The deletion of `c` at `p`.
pub open spec fn delete_action(p: Point2<usize>, c: char) -> Action {
    Action::Delete(p, c)
}

/// The deletions of the characters `cs`, one after the other, at `p`.
pub open spec fn deletes_at(p: Point2<usize>, cs: Seq<char>) -> Seq<Action>
    decreases cs.len(),
{
    if cs.len() == 0 {
        Seq::empty()
    } else {
        deletes_at(p, cs.drop_last()).push(delete_action(p, cs.last()))
    }
}

/// Appends to `acts` the deletions of the characters `cs` at `p`.
fn push_deletes(acts: &mut Vec<Action>, p: Point2<usize>, cs: &Vec<char>)
    ensures
        final(acts)@ == old(acts)@ + deletes_at(p, cs@),
{
    let ghost a0 = acts@;
    let mut k: usize = 0;
    assert(cs@.take(0) =~= Seq::<char>::empty());
    assert(a0 + deletes_at(p, cs@.take(0)) =~= a0);
    while k < cs.len()
        invariant
            k <= cs.len(),
            acts@ == a0 + deletes_at(p, cs@.take(k as int)),
        decreases cs.len() - k,
    {
        let ghost before = acts@;
        acts.push(Action::Delete(p, cs[k]));
        proof {
            assert(cs@.take(k + 1).drop_last() =~= cs@.take(k as int));
            assert(cs@.take(k + 1).last() == cs@[k as int]);
            assert(deletes_at(p, cs@.take(k + 1)) == deletes_at(p, cs@.take(k as int)).push(delete_action(p, cs@[k as int])));
            assert(acts@ =~= a0 + deletes_at(p, cs@.take(k + 1)));
        }
        k = k + 1;
    }
    assert(cs@.take(cs.len() as int) =~= cs@);
}

/// For each of the lines `ls`, at line `q.y`: its characters deleted at
/// `q`, then the emptied line joined to the line before it at `s`.
pub open spec fn whole_line_cuts(q: Point2<usize>, s: Point2<usize>, ls: Seq<Seq<char>>) -> Seq<Action>
    decreases ls.len(),
{
    if ls.len() == 0 {
        Seq::empty()
    } else {
        whole_line_cuts(q, s, ls.drop_last()) + deletes_at(q, ls.last()) + seq![Action::JoinLine(s)]
    }
}

/// The edits that take away the lines `ls` of a linear cut from `s` on,
/// in the order they are made: the rest of line `s.y` deleted at `s`; each
/// whole line in between deleted at the start of the next line and joined
/// away; the start of the last line deleted at the start of the next line,
/// which stays a line of its own.
pub open spec fn cut_actions(s: Point2<usize>, ls: Seq<Seq<char>>) -> Seq<Action> {
    let q = Point2 { x: 0usize, y: crate::text_buffer::add_sat(s.y, 1) };
    if ls.len() == 0 {
        Seq::empty()
    } else if ls.len() == 1 {
        deletes_at(s, ls[0])
    } else {
        deletes_at(s, ls[0]) + whole_line_cuts(q, s, ls.subrange(1, ls.len() - 1)) + deletes_at(q, ls.last())
    }
}

/// The character a replacement at `(x, y)` replaces.
pub open spec fn replaced_char(grid: Seq<Seq<Ch>>, x: usize, y: usize) -> char {
    char_at(ensure_cell_spec(grid, x, y), x, y)->0
}

/// `command_set_position(x, y)` then `command_replace_char(c)`.
pub open spec fn replace_at_state(st: EditState, x: usize, y: usize, c: char) -> EditState {
    let p = Point2 { x, y };
    (
        replace_char_spec(st.0, x, y, c),
        p,
        record_history(st.2, Action::Replace(p, replaced_char(st.0, x, y), c)),
        Seq::empty(),
    )
}

/// Merging the characters `cs` into line `y`: each character other than a
/// blank replaces the cell at the column where the previous characters
/// ended. The state, and whether each step could be done.
pub open spec fn merge_chars_state(st: EditState, y: int, cs: Seq<char>) -> (EditState, bool)
    decreases cs.len(),
{
    if cs.len() == 0 {
        (st, true)
    } else {
        let (s1, ok) = merge_chars_state(st, y, cs.drop_last());
        let x = widths(cs.drop_last());
        let c = cs.last();
        let step_ok = widths(cs) <= usize::MAX && (c != BLANK_CH ==> can_replace(s1.0, x as usize, y as usize));
        let s2 = if c != BLANK_CH {
            replace_at_state(s1, x as usize, y as usize, c)
        } else {
            s1
        };
        (s2, ok && step_ok)
    }
}

/// Merging lines of text over the buffer, line `k` over line `k`.
pub open spec fn merge_lines_state(st: EditState, ls: Seq<Seq<char>>) -> (EditState, bool)
    decreases ls.len(),
{
    if ls.len() == 0 {
        (st, true)
    } else {
        let (s1, ok) = merge_lines_state(st, ls.drop_last());
        let (s2, ok2) = merge_chars_state(s1, ls.len() - 1, ls.last());
        (s2, ok && ok2)
    }
}

/// A struct with text_buffer, selection commands, and history recording for undo and redo editing
pub struct TextEdit {
    pub text_buffer: TextBuffer,
    /// for undo and redo
    recorded: Recorded,
    selection: Selection,
}

impl TextEdit {
    /// The cells of the buffer.
    pub closed spec fn grid(&self) -> Seq<Seq<Ch>> {
        self.text_buffer.grid()
    }

    /// The cursor of the buffer.
    pub closed spec fn cursor(&self) -> Point2<usize> {
        self.text_buffer.cursor()
    }

    /// The groups of actions that can be undone, most recent first.
    pub closed spec fn history(&self) -> Seq<Seq<Action>> {
        self.recorded.history()
    }

    /// The groups of actions that can be redone, most recently undone first.
    pub closed spec fn undone(&self) -> Seq<Seq<Action>> {
        self.recorded.undone()
    }

    /// The start of the selection.
    pub closed spec fn sel_start(&self) -> Option<Point2<i32>> {
        self.selection.start
    }

    /// The end of the selection.
    pub closed spec fn sel_end(&self) -> Option<Point2<i32>> {
        self.selection.end
    }

    /// How the selection covers the text.
    pub closed spec fn sel_mode(&self) -> SelectionMode {
        self.selection.mode
    }

    /// The state, and the selection.
    pub open spec fn view_all(&self) -> EditorView {
        (self.state(), self.sel_start(), self.sel_end(), self.sel_mode())
    }

    /// The cells, the cursor and the history.
    pub open spec fn state(&self) -> EditState {
        (self.grid(), self.cursor(), self.history(), self.undone())
    }

    pub fn default() -> (r: Self)
        ensures
            r.grid() == Seq::<Seq<Ch>>::empty(),
            r.cursor() == (Point2::<usize> { x: 0, y: 0 }),
            r.history() == Seq::<Seq<Action>>::empty(),
            r.undone() == Seq::<Seq<Action>>::empty(),
            r.sel_start() is None,
            r.sel_end() is None,
            r.sel_mode() == SelectionMode::Linear,
    {
        TextEdit { text_buffer: TextBuffer::default(), recorded: Recorded::new(), selection: Selection::default() }
    }

    pub fn from_str(content: &str) -> (r: Self)
        ensures
            r.grid() == crate::text_buffer::cells_grid(str_lines(content@)),
            r.cursor() == (Point2::<usize> { x: 0, y: 0 }),
            r.history() == Seq::<Seq<Action>>::empty(),
            r.undone() == Seq::<Seq<Action>>::empty(),
            r.sel_start() is None,
            r.sel_end() is None,
            r.sel_mode() == SelectionMode::Linear,
    {
        let text_buffer = TextBuffer::new_from_str(content);
        TextEdit { text_buffer, recorded: Recorded::new(), selection: Selection::default() }
    }

    pub fn text_buffer(&self) -> (r: &TextBuffer)
        ensures
            r.grid() == self.grid(),
            r.cursor() == self.cursor(),
    {
        &self.text_buffer
    }

    pub fn set_selection(&mut self, start: Point2<i32>, end: Point2<i32>)
        ensures
            final(self).sel_start() == Some(start),
            final(self).sel_end() == Some(end),
            final(self).sel_mode() == old(self).sel_mode(),
            final(self).state() == old(self).state(),
    {
        self.selection.start = Some(start);
        self.selection.end = Some(end);
    }

    pub fn set_selection_start(&mut self, start: Point2<i32>)
        ensures
            final(self).sel_start() == Some(start),
            final(self).sel_end() == old(self).sel_end(),
            final(self).sel_mode() == old(self).sel_mode(),
            final(self).state() == old(self).state(),
    {
        self.selection.start = Some(start);
    }

    pub fn clear(&mut self)
        ensures
            final(self).grid() == Seq::<Seq<Ch>>::empty(),
            final(self).cursor() == old(self).cursor(),
            final(self).history() == Seq::<Seq<Action>>::empty(),
            final(self).undone() == Seq::<Seq<Action>>::empty(),
            final(self).sel_start() is None,
            final(self).sel_end() is None,
            final(self).sel_mode() == old(self).sel_mode(),
    {
        self.text_buffer.clear();
        self.clear_selection();
        self.recorded.clear();
    }

    pub fn set_selection_end(&mut self, end: Point2<i32>)
        ensures
            final(self).sel_start() == old(self).sel_start(),
            final(self).sel_end() == Some(end),
            final(self).sel_mode() == old(self).sel_mode(),
            final(self).state() == old(self).state(),
    {
        self.selection.end = Some(end);
    }

    pub fn selection(&self) -> (r: &Selection)
        ensures
            r.start == self.sel_start(),
            r.end == self.sel_end(),
            r.mode == self.sel_mode(),
    {
        &self.selection
    }

    /// clear the text selection
    pub fn clear_selection(&mut self)
        ensures
            final(self).sel_start() is None,
            final(self).sel_end() is None,
            final(self).sel_mode() == old(self).sel_mode(),
            final(self).state() == old(self).state(),
    {
        self.selection.start = None;
        self.selection.end = None;
    }

    pub fn set_selection_mode(&mut self, mode: SelectionMode)
        ensures
            final(self).sel_start() == old(self).sel_start(),
            final(self).sel_end() == old(self).sel_end(),
            final(self).sel_mode() == mode,
            final(self).state() == old(self).state(),
    {
        self.selection.mode = mode;
    }

    pub fn command_set_selection(&mut self, start: Point2<i32>, end: Point2<i32>)
        ensures
            final(self).sel_start() == Some(start),
            final(self).sel_end() == Some(end),
            final(self).sel_mode() == old(self).sel_mode(),
            final(self).state() == old(self).state(),
    {
        self.set_selection(start, end)
    }
}

impl TextEdit {
    pub fn command_insert_char(&mut self, ch: char)
        requires
            old(self).cursor().y < usize::MAX,
            char_width(ch) is Some,
        ensures
            final(self).grid() == insert_char_spec(old(self).grid(), old(self).cursor().x, old(self).cursor().y, ch),
            final(self).cursor() == (Point2 { x: add_sat(old(self).cursor().x, char_width(ch)->0), y: old(self).cursor().y }),
            final(self).history() == record_history(old(self).history(), Action::Insert(old(self).cursor(), ch)),
            final(self).undone() == Seq::<Seq<Action>>::empty(),
            final(self).sel_start() == old(self).sel_start(),
            final(self).sel_end() == old(self).sel_end(),
            final(self).sel_mode() == old(self).sel_mode(),
    {
        let cursor = self.text_buffer.get_position();
        self.text_buffer.command_insert_char(ch);
        self.recorded.insert_char(cursor, ch);
    }

    pub fn get_char(&self, x: usize, y: usize) -> (r: Option<char>)
        ensures
            r == char_at(self.grid(), x, y),
    {
        self.text_buffer.get_char(x, y)
    }

    /// Inserts `ch` at the cursor, as `command_insert_char` does, when the
    /// character has a display width and the cursor is not on the last line
    /// a `usize` can count; returns whether it did, and otherwise changes
    /// nothing.
    pub fn try_command_insert_char(&mut self, ch: char) -> (done: bool)
        ensures
            done == (old(self).cursor().y < usize::MAX && char_width(ch) is Some),
            done ==> final(self).grid() == insert_char_spec(old(self).grid(), old(self).cursor().x, old(self).cursor().y, ch),
            done ==> final(self).cursor() == (Point2 { x: add_sat(old(self).cursor().x, char_width(ch)->0), y: old(self).cursor().y }),
            done ==> final(self).history() == record_history(old(self).history(), Action::Insert(old(self).cursor(), ch)),
            done ==> final(self).undone() == Seq::<Seq<Action>>::empty(),
            done ==> final(self).view_all().1 == old(self).view_all().1 && final(self).view_all().2 == old(self).view_all().2
                && final(self).view_all().3 == old(self).view_all().3,
            !done ==> final(self).view_all() == old(self).view_all(),
    {
        let cursor = self.get_position();
        if cursor.y < usize::MAX && crate::width::has_width(ch) {
            self.command_insert_char(ch);
            true
        } else {
            false
        }
    }


    /// Inserts the character when a non-blank character follows the cursor,
    /// else replaces the character under the cursor and moves right.
    pub fn command_smart_replace_insert_char(&mut self, ch: char)
        requires
            smart_replace_ok(old(self).grid(), old(self).cursor(), ch),
        ensures
            smart_right_char(old(self).grid(), old(self).cursor()) ==> {
                &&& final(self).grid() == insert_char_spec(old(self).grid(), old(self).cursor().x, old(self).cursor().y, ch)
                &&& final(self).cursor() == (Point2 { x: add_sat(old(self).cursor().x, char_width(ch)->0), y: old(self).cursor().y })
                &&& final(self).history() == record_history(old(self).history(), Action::Insert(old(self).cursor(), ch))
            },
            !smart_right_char(old(self).grid(), old(self).cursor()) ==> {
                &&& final(self).grid() == replace_char_spec(old(self).grid(), old(self).cursor().x, old(self).cursor().y, ch)
                &&& final(self).cursor() == (Point2 { x: (old(self).cursor().x + 1) as usize, y: old(self).cursor().y })
                &&& final(self).history() == record_history(
                    old(self).history(),
                    Action::Replace(old(self).cursor(), replaced_char(old(self).grid(), old(self).cursor().x, old(self).cursor().y), ch),
                )
            },
            final(self).undone() == Seq::<Seq<Action>>::empty(),
            final(self).sel_start() == old(self).sel_start(),
            final(self).sel_end() == old(self).sel_end(),
            final(self).sel_mode() == old(self).sel_mode(),
    {
        let cursor = self.text_buffer.get_position();
        let has_right_char = if let Some(ch) = self.get_char(cursor.x + 1, cursor.y) {
            !char_is_whitespace(ch)
        } else {
            false
        };
        if has_right_char {
            self.command_insert_char(ch);
        } else {
            self.command_replace_char(ch);
            self.command_move_right();
        }
    }

    /// Applies `command_smart_replace_insert_char(ch)` where it can be
    /// applied, and returns whether it was: a control character cannot be
    /// inserted, a cursor at the last column cannot move right, and a cell
    /// inside a wide character cannot be replaced. Where it was not, the
    /// edit is left as it is.
    pub fn try_smart_replace_insert_char(&mut self, ch: char) -> (done: bool)
        ensures
            done == smart_replace_ok(old(self).grid(), old(self).cursor(), ch),
            !done ==> *final(self) == *old(self),
            done ==> {
                &&& smart_right_char(old(self).grid(), old(self).cursor()) ==> {
                        &&& final(self).grid() == insert_char_spec(old(self).grid(), old(self).cursor().x, old(self).cursor().y, ch)
                        &&& final(self).cursor() == (Point2 { x: add_sat(old(self).cursor().x, char_width(ch)->0), y: old(self).cursor().y })
                        &&& final(self).history() == record_history(old(self).history(), Action::Insert(old(self).cursor(), ch))
                    }
                &&& !smart_right_char(old(self).grid(), old(self).cursor()) ==> {
                        &&& final(self).grid() == replace_char_spec(old(self).grid(), old(self).cursor().x, old(self).cursor().y, ch)
                        &&& final(self).cursor() == (Point2 { x: (old(self).cursor().x + 1) as usize, y: old(self).cursor().y })
                        &&& final(self).history() == record_history(
                            old(self).history(),
                            Action::Replace(old(self).cursor(), replaced_char(old(self).grid(), old(self).cursor().x, old(self).cursor().y), ch),
                        )
                    }
                &&& final(self).undone() == Seq::<Seq<Action>>::empty()
                &&& final(self).sel_start() == old(self).sel_start()
                &&& final(self).sel_end() == old(self).sel_end()
                &&& final(self).sel_mode() == old(self).sel_mode()
            },
    {
        let cursor = self.text_buffer.get_position();
        if cursor.x == usize::MAX {
            return false;
        }
        let has_right_char = if let Some(c) = self.get_char(cursor.x + 1, cursor.y) {
            !char_is_whitespace(c)
        } else {
            false
        };
        let able = if has_right_char {
            cursor.y < usize::MAX && unicode_char_width(ch).is_some()
        } else {
            self.text_buffer.can_replace_char(cursor.x, cursor.y)
        };
        if able {
            self.command_smart_replace_insert_char(ch);
        }
        able
    }

    pub fn command_replace_char(&mut self, ch: char)
        requires
            can_replace(old(self).grid(), old(self).cursor().x, old(self).cursor().y),
        ensures
            final(self).grid() == replace_char_spec(old(self).grid(), old(self).cursor().x, old(self).cursor().y, ch),
            final(self).cursor() == old(self).cursor(),
            final(self).history() == record_history(
                old(self).history(),
                Action::Replace(old(self).cursor(), replaced_char(old(self).grid(), old(self).cursor().x, old(self).cursor().y), ch),
            ),
            final(self).undone() == Seq::<Seq<Action>>::empty(),
            final(self).sel_start() == old(self).sel_start(),
            final(self).sel_end() == old(self).sel_end(),
            final(self).sel_mode() == old(self).sel_mode(),
    {
        let cursor = self.text_buffer.get_position();
        if let Some(old_ch) = self.text_buffer.command_replace_char(ch) {
            self.recorded.replace_char(cursor, old_ch, ch);
        }
    }

    pub fn command_delete_back(&mut self)
        ensures
            old(self).cursor().x > 0 ==> {
                let p = Point2 { x: (old(self).cursor().x - 1) as usize, y: old(self).cursor().y };
                &&& final(self).grid() == delete_char_spec(old(self).grid(), p.x, p.y)
                &&& final(self).cursor() == p
                &&& final(self).history() == match char_at(old(self).grid(), p.x, p.y) {
                    Some(c) => record_history(old(self).history(), Action::Delete(p, c)),
                    None => old(self).history(),
                }
                &&& char_at(old(self).grid(), p.x, p.y) is Some ==> final(self).undone() == Seq::<Seq<Action>>::empty()
                &&& char_at(old(self).grid(), p.x, p.y) is None ==> final(self).undone() == old(self).undone()
            },
            old(self).cursor().x == 0 ==> final(self).state() == old(self).state(),
            final(self).sel_start() == old(self).sel_start(),
            final(self).sel_end() == old(self).sel_end(),
            final(self).sel_mode() == old(self).sel_mode(),
    {
        let ch = self.text_buffer.command_delete_back();
        let cursor = self.text_buffer.get_position();
        self.recorded.delete(cursor, ch);
    }

    pub fn command_delete_forward(&mut self)
        ensures
            final(self).grid() == delete_char_spec(old(self).grid(), old(self).cursor().x, old(self).cursor().y),
            final(self).cursor() == old(self).cursor(),
            final(self).history() == match char_at(old(self).grid(), old(self).cursor().x, old(self).cursor().y) {
                Some(c) => record_history(old(self).history(), Action::Delete(old(self).cursor(), c)),
                None => old(self).history(),
            },
            char_at(old(self).grid(), old(self).cursor().x, old(self).cursor().y) is Some ==> final(self).undone()
                == Seq::<Seq<Action>>::empty(),
            char_at(old(self).grid(), old(self).cursor().x, old(self).cursor().y) is None ==> final(self).undone()
                == old(self).undone(),
            final(self).sel_start() == old(self).sel_start(),
            final(self).sel_end() == old(self).sel_end(),
            final(self).sel_mode() == old(self).sel_mode(),
    {
        let ch = self.text_buffer.command_delete_forward();
        let cursor = self.text_buffer.get_position();
        self.recorded.delete(cursor, ch);
    }

    pub fn command_move_up(&mut self)
        ensures
            final(self).cursor() == (Point2 { x: old(self).cursor().x, y: sub_sat(old(self).cursor().y, 1) }),
            final(self).grid() == old(self).grid(),
            unchanged_but_cursor(*old(self), *final(self)),
    {
        self.text_buffer.move_up();
    }

    pub fn command_move_up_clamped(&mut self)
        ensures
            final(self).cursor() == crate::text_buffer::move_vertical_clamped(
                old(self).grid(),
                old(self).cursor(),
                sub_sat(old(self).cursor().y, 1),
            ),
            final(self).grid() == old(self).grid(),
            unchanged_but_cursor(*old(self), *final(self)),
    {
        self.text_buffer.move_up_clamped();
    }

    pub fn command_move_down(&mut self)
        ensures
            final(self).cursor() == (Point2 { x: old(self).cursor().x, y: add_sat(old(self).cursor().y, 1) }),
            final(self).grid() == old(self).grid(),
            unchanged_but_cursor(*old(self), *final(self)),
    {
        self.text_buffer.move_down();
    }

    pub fn command_move_down_clamped(&mut self)
        ensures
            final(self).cursor() == crate::text_buffer::move_vertical_clamped(
                old(self).grid(),
                old(self).cursor(),
                add_sat(old(self).cursor().y, 1),
            ),
            final(self).grid() == old(self).grid(),
            unchanged_but_cursor(*old(self), *final(self)),
    {
        self.text_buffer.move_down_clamped();
    }

    pub fn command_move_left(&mut self)
        ensures
            final(self).cursor() == (Point2 { x: sub_sat(old(self).cursor().x, 1), y: old(self).cursor().y }),
            final(self).grid() == old(self).grid(),
            unchanged_but_cursor(*old(self), *final(self)),
    {
        self.text_buffer.move_left();
    }

    pub fn command_move_left_start(&mut self)
        ensures
            final(self).cursor() == (Point2 { x: 0usize, y: old(self).cursor().y }),
            final(self).grid() == old(self).grid(),
            unchanged_but_cursor(*old(self), *final(self)),
    {
        self.text_buffer.move_left_start();
    }

    pub fn command_move_right(&mut self)
        ensures
            final(self).cursor() == (Point2 { x: add_sat(old(self).cursor().x, 1), y: old(self).cursor().y }),
            final(self).grid() == old(self).grid(),
            unchanged_but_cursor(*old(self), *final(self)),
    {
        self.text_buffer.move_right();
    }

    pub fn command_move_right_end(&mut self)
        ensures
            final(self).cursor() == (Point2 {
                x: crate::text_buffer::line_len(old(self).grid(), old(self).cursor().y as int),
                y: old(self).cursor().y,
            }),
            final(self).grid() == old(self).grid(),
            unchanged_but_cursor(*old(self), *final(self)),
    {
        self.text_buffer.move_right_end();
    }

    pub fn command_move_right_clamped(&mut self)
        ensures
            final(self).cursor() == (if old(self).cursor().x < crate::text_buffer::line_len(old(self).grid(), old(self).cursor().y as int) {
                Point2 { x: add_sat(old(self).cursor().x, 1), y: old(self).cursor().y }
            } else {
                old(self).cursor()
            }),
            final(self).grid() == old(self).grid(),
            unchanged_but_cursor(*old(self), *final(self)),
    {
        self.text_buffer.move_right_clamped();
    }

    pub fn command_break_line(&mut self)
        requires
            old(self).cursor().y < usize::MAX,
        ensures
            final(self).grid() == break_line_spec(old(self).grid(), old(self).cursor().x, old(self).cursor().y),
            final(self).cursor() == (Point2 { x: 0usize, y: (old(self).cursor().y + 1) as usize }),
            final(self).history() == record_history(old(self).history(), Action::BreakLine(old(self).cursor())),
            final(self).undone() == Seq::<Seq<Action>>::empty(),
            final(self).sel_start() == old(self).sel_start(),
            final(self).sel_end() == old(self).sel_end(),
            final(self).sel_mode() == old(self).sel_mode(),
    {
        let pos = self.text_buffer.get_position();
        self.text_buffer.command_break_line(pos.x, pos.y);
        self.recorded.break_line(pos);
    }

    pub fn command_join_line(&mut self)
        requires
            old(self).cursor().y + 1 < old(self).grid().len(),
        ensures
            final(self).grid() == join_line_spec(old(self).grid(), old(self).cursor().y),
            final(self).cursor() == old(self).cursor(),
            final(self).history() == record_history(old(self).history(), Action::JoinLine(old(self).cursor())),
            final(self).undone() == Seq::<Seq<Action>>::empty(),
            final(self).sel_start() == old(self).sel_start(),
            final(self).sel_end() == old(self).sel_end(),
            final(self).sel_mode() == old(self).sel_mode(),
    {
        let pos = self.text_buffer.get_position();
        self.text_buffer.command_join_line(pos.x, pos.y);
        self.recorded.join_line(pos);
    }

    pub fn command_insert_text(&mut self, text: &str)
        requires
            insert_text_ok(old(self).grid(), old(self).cursor().x, old(self).cursor().y, text@),
        ensures
            final(self).grid() == insert_text_spec(old(self).grid(), old(self).cursor().x, old(self).cursor().y, text@),
            final(self).cursor() == (Point2 { x: add_sat(old(self).cursor().x, str_width(text@)), y: old(self).cursor().y }),
            final(self).history() == old(self).history(),
            final(self).undone() == old(self).undone(),
            final(self).sel_start() == old(self).sel_start(),
            final(self).sel_end() == old(self).sel_end(),
            final(self).sel_mode() == old(self).sel_mode(),
    {
        self.text_buffer.command_insert_text(text);
    }

    pub fn command_set_position(&mut self, cursor_x: usize, cursor_y: usize)
        ensures
            final(self).cursor() == (Point2 { x: cursor_x, y: cursor_y }),
            final(self).grid() == old(self).grid(),
            unchanged_but_cursor(*old(self), *final(self)),
    {
        self.text_buffer.set_position(cursor_x, cursor_y);
    }

    pub fn command_set_position_clamped(&mut self, cursor_x: usize, cursor_y: usize)
        ensures
            final(self).cursor() == crate::text_buffer::clamped_position(old(self).grid(), cursor_x, cursor_y),
            final(self).grid() == old(self).grid(),
            unchanged_but_cursor(*old(self), *final(self)),
    {
        self.text_buffer.set_position_clamped(cursor_x, cursor_y);
    }

    pub fn command_select_all(&mut self)
        ensures
            final(self).sel_start() == Some(Point2::<i32> { x: 0, y: 0 }),
            final(self).sel_end() == Some(Point2::<i32> {
                x: sub_sat(crate::text_buffer::line_width_spec(old(self).grid(), sub_sat(old(self).grid().len() as usize, 1) as int), 1) as i32,
                y: sub_sat(old(self).grid().len() as usize, 1) as i32,
            }),
            final(self).sel_mode() == old(self).sel_mode(),
            final(self).state() == old(self).state(),
    {
        let start = Point2::new(0, 0);
        let max = self.text_buffer.last_char_position();
        let end = Point2::new(max.x as i32, max.y as i32);
        self.set_selection(start, end);
    }

    pub fn command_select_all_block_mode(&mut self)
        ensures
            final(self).sel_start() == Some(Point2::<i32> { x: 0, y: 0 }),
            final(self).sel_end() == Some(Point2::<i32> {
                x: crate::text_buffer::max_width(old(self).grid()) as i32,
                y: sub_sat(old(self).grid().len() as usize, 1) as i32,
            }),
            final(self).sel_mode() == old(self).sel_mode(),
            final(self).state() == old(self).state(),
    {
        let start = Point2::new(0, 0);
        let max = self.text_buffer.max_position();
        let end = Point2::new(max.x as i32, max.y as i32);
        self.set_selection(start, end);
    }

    /// Make a history separator for the undo/redo
    /// This is used for breaking undo action list
    pub fn bump_history(&mut self)
        ensures
            final(self).history() == seq![Seq::<Action>::empty()] + old(self).history(),
            final(self).undone() == old(self).undone(),
            final(self).grid() == old(self).grid(),
            final(self).cursor() == old(self).cursor(),
            final(self).sel_start() == old(self).sel_start(),
            final(self).sel_end() == old(self).sel_end(),
            final(self).sel_mode() == old(self).sel_mode(),
    {
        self.recorded.bump_history();
    }

    pub fn command_undo(&mut self)
        requires
            undo_ok(old(self).grid(), old(self).history()),
        ensures
            final(self).state() == crate::base_editor::undo_state(old(self).state()),
            final(self).sel_start() == old(self).sel_start(),
            final(self).sel_end() == old(self).sel_end(),
            final(self).sel_mode() == old(self).sel_mode(),
    {
        if let Some(location) = self.recorded.undo(&mut self.text_buffer) {
            self.text_buffer.set_position(location.x, location.y);
        }
    }

    pub fn command_redo(&mut self)
        requires
            redo_ok(old(self).grid(), old(self).undone()),
        ensures
            old(self).undone().len() == 0 ==> final(self).state() == old(self).state(),
            old(self).undone().len() > 0 ==> {
                let group = old(self).undone()[0];
                &&& final(self).grid() == apply_seq_state(old(self).grid(), group).0
                &&& final(self).undone() == old(self).undone().drop_first()
                &&& final(self).history() == seq![group] + old(self).history()
                &&& final(self).cursor() == (if group.len() > 0 { location_spec(group.last()) } else { old(self).cursor() })
            },
            final(self).sel_start() == old(self).sel_start(),
            final(self).sel_end() == old(self).sel_end(),
            final(self).sel_mode() == old(self).sel_mode(),
    {
        if let Some(location) = self.recorded.redo(&mut self.text_buffer) {
            self.text_buffer.set_position(location.x, location.y);
        }
    }
}

/// Only the cursor differs between the two.
pub open spec fn unchanged_but_cursor(a: TextEdit, b: TextEdit) -> bool {
    &&& b.history() == a.history()
    &&& b.undone() == a.undone()
    &&& b.sel_start() == a.sel_start()
    &&& b.sel_end() == a.sel_end()
    &&& b.sel_mode() == a.sel_mode()
}

/// `command_smart_replace_insert_char(ch)` can be applied: the cursor is
/// not at the last column, and the character can be inserted where a
/// non-blank character follows the cursor, else the cell under the cursor
/// can be replaced.
pub open spec fn smart_replace_ok(grid: Seq<Seq<Ch>>, cursor: Point2<usize>, ch: char) -> bool {
    &&& cursor.x < usize::MAX
    &&& smart_right_char(grid, cursor) ==> cursor.y < usize::MAX && char_width(ch) is Some
    &&& !smart_right_char(grid, cursor) ==> can_replace(grid, cursor.x, cursor.y)
}

/// A character that is not white space follows the cursor.
pub open spec fn smart_right_char(grid: Seq<Seq<Ch>>, cursor: Point2<usize>) -> bool {
    match char_at(grid, (cursor.x + 1) as usize, cursor.y) {
        Some(c) => !white_space(c),
        None => false,
    }
}

/// The ends of a selection lie at non-negative coordinates.
pub open spec fn ends_nonneg(start: Point2<i32>, end: Point2<i32>) -> bool {
    start.x >= 0 && start.y >= 0 && end.x >= 0 && end.y >= 0
}

/// Taking the linear selection can be done: when both ends are set they lie
/// at non-negative coordinates and, taken in reading order, within the grid.
pub open spec fn linear_selection_ok(grid: Seq<Seq<Ch>>, start: Option<Point2<i32>>, end: Option<Point2<i32>>) -> bool {
    match (start, end) {
        (Some(s), Some(e)) => {
            let (a, b) = order_spec(s, e);
            ends_nonneg(s, e) && linear_ok(grid, cast_point_spec(a), cast_point_spec(b))
        },
        _ => true,
    }
}

/// Taking the block selection can be done: when both ends are set they lie
/// at non-negative coordinates.
pub open spec fn block_selection_ok(start: Option<Point2<i32>>, end: Option<Point2<i32>>) -> bool {
    match (start, end) {
        (Some(s), Some(e)) => ends_nonneg(s, e),
        _ => true,
    }
}

/// Cutting the block selection can be done.
pub open spec fn block_cut_ok(grid: Seq<Seq<Ch>>, start: Option<Point2<i32>>, end: Option<Point2<i32>>) -> bool {
    match (start, end) {
        (Some(s), Some(e)) => ends_nonneg(s, e) && block_ok(grid, cast_point_spec(s), cast_point_spec(e)),
        _ => true,
    }
}

/// The text of the linear selection, when both ends are set.
pub open spec fn linear_selected_text(grid: Seq<Seq<Ch>>, start: Option<Point2<i32>>, end: Option<Point2<i32>>) -> Option<Seq<char>> {
    match (start, end) {
        (Some(s), Some(e)) => {
            let (a, b) = order_spec(s, e);
            Some(linear_text(grid, cast_point_spec(a), cast_point_spec(b)))
        },
        _ => None,
    }
}

/// The text of the block selection, when both ends are set.
pub open spec fn block_selected_text(grid: Seq<Seq<Ch>>, start: Option<Point2<i32>>, end: Option<Point2<i32>>) -> Option<Seq<char>> {
    match (start, end) {
        (Some(s), Some(e)) => Some(block_text(grid, cast_point_spec(s), cast_point_spec(e))),
        _ => None,
    }
}

pub open spec fn opt_string_view(o: Option<String>) -> Option<Seq<char>> {
    match o {
        Some(s) => Some(s@),
        None => None,
    }
}

impl TextEdit {
    pub fn is_selected(&self, loc: Point2<i32>) -> (b: bool)
        ensures
            b == (match self.sel_mode() {
                SelectionMode::Linear => self.sel_start() is Some && self.sel_end() is Some
                    && in_linear_selection(self.sel_start()->0, self.sel_end()->0, loc),
                SelectionMode::Block => self.sel_start() is Some && self.sel_end() is Some
                    && in_block_selection(self.sel_start()->0, self.sel_end()->0, loc),
            }),
    {
        match self.selection.mode {
            SelectionMode::Linear => self.is_selected_in_linear_mode(loc),
            SelectionMode::Block => self.is_selected_in_block_mode(loc),
        }
    }

    pub fn is_selected_in_linear_mode(&self, loc: Point2<i32>) -> (b: bool)
        ensures
            b == (self.sel_start() is Some && self.sel_end() is Some && in_linear_selection(
                self.sel_start()->0,
                self.sel_end()->0,
                loc,
            )),
    {
        match (self.selection.start, self.selection.end) {
            (Some(start), Some(end)) => {
                let (start, end) = order_points(start, end);
                let only_one_line = start.y == end.y;
                let in_first_line = loc.y == start.y;
                let in_inner_line = loc.y > start.y && loc.y < end.y;
                let in_last_line = loc.y == end.y;
                if in_first_line {
                    if only_one_line {
                        loc.x >= start.x && loc.x <= end.x
                    } else {
                        loc.x >= start.x
                    }
                } else if in_inner_line {
                    true
                } else if in_last_line {
                    if only_one_line {
                        loc.x >= start.x && loc.x <= end.x
                    } else {
                        loc.x <= end.x
                    }
                } else {
                    // outside line
                    false
                }
            },
            _ => false,
        }
    }

    pub fn is_selected_in_block_mode(&self, loc: Point2<i32>) -> (b: bool)
        ensures
            b == (self.sel_start() is Some && self.sel_end() is Some && in_block_selection(
                self.sel_start()->0,
                self.sel_end()->0,
                loc,
            )),
    {
        match (self.selection.start, self.selection.end) {
            (Some(start), Some(end)) => {
                let (start, end) = normalize_points(start, end);
                loc.x >= start.x && loc.x <= end.x && loc.y >= start.y && loc.y <= end.y
            },
            _ => false,
        }
    }

    pub fn selected_text(&self) -> (r: Option<String>)
        requires
            self.sel_mode() == SelectionMode::Linear ==> linear_selection_ok(self.grid(), self.sel_start(), self.sel_end()),
            self.sel_mode() == SelectionMode::Block ==> block_selection_ok(self.sel_start(), self.sel_end()),
        ensures
            opt_string_view(r) == (match self.sel_mode() {
                SelectionMode::Linear => linear_selected_text(self.grid(), self.sel_start(), self.sel_end()),
                SelectionMode::Block => block_selected_text(self.grid(), self.sel_start(), self.sel_end()),
            }),
    {
        match self.selection.mode {
            SelectionMode::Linear => self.selected_text_in_linear_mode(),
            SelectionMode::Block => self.selected_text_in_block_mode(),
        }
    }

    pub fn selected_text_in_linear_mode(&self) -> (r: Option<String>)
        requires
            linear_selection_ok(self.grid(), self.sel_start(), self.sel_end()),
        ensures
            opt_string_view(r) == linear_selected_text(self.grid(), self.sel_start(), self.sel_end()),
    {
        match (self.selection.start, self.selection.end) {
            (Some(start), Some(end)) => {
                let (start, end) = order_points(start, end);
                Some(self.text_buffer.get_text_in_linear_mode(cast_point(start), cast_point(end)))
            },
            _ => None,
        }
    }

    pub fn selected_text_in_block_mode(&self) -> (r: Option<String>)
        requires
            block_selection_ok(self.sel_start(), self.sel_end()),
        ensures
            opt_string_view(r) == block_selected_text(self.grid(), self.sel_start(), self.sel_end()),
    {
        match (self.selection.start, self.selection.end) {
            (Some(start), Some(end)) => Some(
                self.text_buffer.get_text_in_block_mode(cast_point(start), cast_point(end)),
            ),
            _ => None,
        }
    }

    pub fn get_position(&self) -> (p: Point2<usize>)
        ensures
            p == self.cursor(),
    {
        self.text_buffer.get_position()
    }

    pub fn max_position(&self) -> (p: Point2<usize>)
        ensures
            p.x == crate::text_buffer::max_width(self.grid()),
            p.y == sub_sat(self.grid().len() as usize, 1),
    {
        self.text_buffer.max_position()
    }

    pub fn get_content(&self) -> (r: String)
        ensures
            r@ == grid_string(self.grid()),
    {
        self.text_buffer.to_string()
    }

    pub fn total_lines(&self) -> (n: usize)
        ensures
            n == self.grid().len(),
    {
        self.text_buffer.total_lines()
    }

    /// A copy of the cells of the buffer, line by line.
    pub fn cells(&self) -> (r: Vec<Vec<Ch>>)
        ensures
            cell_rows(r@) == self.grid(),
    {
        self.text_buffer.cells()
    }

    /// Whether the buffer holds exactly the cells `rows`.
    pub fn has_cells(&self, rows: &Vec<Vec<Ch>>) -> (b: bool)
        ensures
            b == (self.grid() == cell_rows(rows@)),
    {
        self.text_buffer.has_cells(rows)
    }


    pub fn lines(&self) -> (r: Vec<String>)
        ensures
            r@.map_values(|l: String| l@) == crate::text_buffer::grid_text(self.grid()),
    {
        self.text_buffer.lines()
    }

    /// return the number of characters to represent the line number of the last line of the text
    /// buffer
    pub fn numberline_wide(&self) -> (n: usize)
        ensures
            n == crate::text_buffer::decimal_len(self.grid().len()),
    {
        self.text_buffer.numberline_wide()
    }
}

/// The history after cutting `text` from `s` in linear mode: the edits
/// that take it away, as a group of their own; unchanged when there are none.
pub open spec fn cut_history(history: Seq<Seq<Action>>, s: Point2<usize>, text: Seq<char>) -> Seq<Seq<Action>> {
    let acts = cut_actions(s, str_lines(text));
    if acts.len() == 0 {
        history
    } else {
        keep_front(seq![acts] + history, HISTORY_SIZE as nat)
    }
}

/// The undone groups after cutting `text` from `s` in linear mode: none
/// once an edit is recorded.
pub open spec fn cut_undone(undone: Seq<Seq<Action>>, s: Point2<usize>, text: Seq<char>) -> Seq<Seq<Action>> {
    if cut_actions(s, str_lines(text)).len() > 0 {
        Seq::empty()
    } else {
        undone
    }
}

impl TextEdit {
    pub fn cut_selected_text(&mut self) -> (r: Option<String>)
        requires
            old(self).sel_mode() == SelectionMode::Linear ==> linear_selection_ok(
                old(self).grid(),
                old(self).sel_start(),
                old(self).sel_end(),
            ),
            old(self).sel_mode() == SelectionMode::Block ==> block_cut_ok(
                old(self).grid(),
                old(self).sel_start(),
                old(self).sel_end(),
            ),
        ensures
            old(self).sel_mode() == SelectionMode::Linear ==> cut_linear_done(*old(self), *final(self), r),
            old(self).sel_mode() == SelectionMode::Block ==> cut_block_done(*old(self), *final(self), r),
    {
        match self.selection.mode {
            SelectionMode::Linear => self.cut_selected_text_in_linear_mode(),
            SelectionMode::Block => self.cut_selected_text_in_block_mode(),
        }
    }

    pub fn cut_selected_text_in_linear_mode(&mut self) -> (r: Option<String>)
        requires
            linear_selection_ok(old(self).grid(), old(self).sel_start(), old(self).sel_end()),
        ensures
            cut_linear_done(*old(self), *final(self), r),
    {
        match (self.selection.start, self.selection.end) {
            (Some(start), Some(end)) => {
                let (start, end) = order_points(start, end);
                let start = cast_point(start);
                let end = cast_point(end);
                let cut_text = self.text_buffer.cut_text_in_linear_mode(start, end);
                self.record_deleted_text(start, cut_text.as_str());
                Some(cut_text)
            },
            _ => None,
        }
    }

    /// Records the edits that take away `cut_text`, cut from `start` on, as a
    /// group of their own, so that one undo puts the text back.
    fn record_deleted_text(&mut self, start: Point2<usize>, cut_text: &str)
        ensures
            final(self).history() == cut_history(old(self).history(), start, cut_text@),
            final(self).undone() == cut_undone(old(self).undone(), start, cut_text@),
            final(self).grid() == old(self).grid(),
            final(self).cursor() == old(self).cursor(),
            final(self).sel_start() == old(self).sel_start(),
            final(self).sel_end() == old(self).sel_end(),
            final(self).sel_mode() == old(self).sel_mode(),
    {
        let lines = split_lines(cut_text);
        let ghost ls = char_lines(lines@);
        let next = Point2::new(0, start.y.saturating_add(1));
        let mut acts: Vec<Action> = Vec::new();
        let n = lines.len();
        if n > 0 {
            push_deletes(&mut acts, start, &lines[0]);
            assert(acts@ =~= deletes_at(start, ls[0]));
            if n > 1 {
                let ghost mid = ls.subrange(1, n - 1);
                let mut j: usize = 1;
                assert(mid.take(0) =~= Seq::<Seq<char>>::empty());
                while j < n - 1
                    invariant
                        1 <= j <= n - 1,
                        n == lines@.len(),
                        ls == char_lines(lines@),
                        mid == ls.subrange(1, n - 1),
                        acts@ == deletes_at(start, ls[0]) + whole_line_cuts(next, start, mid.take(j - 1)),
                    decreases n - 1 - j,
                {
                    let ghost before = acts@;
                    push_deletes(&mut acts, next, &lines[j]);
                    acts.push(Action::JoinLine(start));
                    proof {
                        assert(mid.take(j as int).drop_last() =~= mid.take(j - 1));
                        assert(mid.take(j as int).last() == ls[j as int]);
                        assert(acts@ =~= deletes_at(start, ls[0]) + whole_line_cuts(next, start, mid.take(j as int)));
                    }
                    j = j + 1;
                }
                assert(mid.take(n - 2) =~= mid);
                push_deletes(&mut acts, next, &lines[n - 1]);
                assert(acts@ =~= cut_actions(start, ls));
            } else {
                assert(acts@ =~= cut_actions(start, ls));
            }
        } else {
            assert(acts@ =~= cut_actions(start, ls));
        }
        if acts.len() > 0 {
            self.recorded.record_group(acts);
        }
    }

    pub fn cut_selected_text_in_block_mode(&mut self) -> (r: Option<String>)
        requires
            block_cut_ok(old(self).grid(), old(self).sel_start(), old(self).sel_end()),
        ensures
            cut_block_done(*old(self), *final(self), r),
    {
        match (self.selection.start, self.selection.end) {
            (Some(start), Some(end)) => Some(
                self.text_buffer.cut_text_in_block_mode(cast_point(start), cast_point(end)),
            ),
            _ => None,
        }
    }
}

/// What `cut_selected_text_in_linear_mode` does: with both ends set, the
/// selected text is cut and returned, and its characters recorded as deleted
/// when it is not empty; else nothing changes and `None` is returned.
pub open spec fn cut_linear_done(before: TextEdit, after: TextEdit, r: Option<String>) -> bool {
    &&& after.cursor() == before.cursor()
    &&& after.sel_start() == before.sel_start()
    &&& after.sel_end() == before.sel_end()
    &&& after.sel_mode() == before.sel_mode()
    &&& match (before.sel_start(), before.sel_end()) {
        (Some(s0), Some(e0)) => {
            let (s, e) = order_spec(s0, e0);
            let text = linear_text(before.grid(), cast_point_spec(s), cast_point_spec(e));
            &&& opt_string_view(r) == Some(text)
            &&& after.grid() == cut_linear_spec(before.grid(), cast_point_spec(s), cast_point_spec(e))
            &&& after.history() == cut_history(before.history(), cast_point_spec(s), text)
            &&& after.undone() == cut_undone(before.undone(), cast_point_spec(s), text)
        },
        _ => r is None && after.state() == before.state(),
    }
}

/// What `cut_selected_text_in_block_mode` does: with both ends set, the
/// cells of the selected block are cut and returned; else `None` is returned. The history
/// is left as it is.
pub open spec fn cut_block_done(before: TextEdit, after: TextEdit, r: Option<String>) -> bool {
    &&& after.cursor() == before.cursor()
    &&& after.history() == before.history()
    &&& after.undone() == before.undone()
    &&& after.sel_start() == before.sel_start()
    &&& after.sel_end() == before.sel_end()
    &&& after.sel_mode() == before.sel_mode()
    &&& match (before.sel_start(), before.sel_end()) {
        (Some(s), Some(e)) => {
            &&& opt_string_view(r) == Some(cut_block_text(before.grid(), cast_point_spec(s), cast_point_spec(e)))
            &&& after.grid() == cut_block_spec(before.grid(), cast_point_spec(s), cast_point_spec(e))
        },
        _ => r is None && after.grid() == before.grid(),
    }
}

pub proof fn lemma_merge_chars_ok_prefix(st: EditState, y: int, cs: Seq<char>, k: int)
    requires
        0 <= k <= cs.len(),
        merge_chars_state(st, y, cs).1,
    ensures
        merge_chars_state(st, y, cs.take(k)).1,
    decreases cs.len() - k,
{
    if k < cs.len() {
        assert(cs.drop_last().take(k) =~= cs.take(k));
        lemma_merge_chars_ok_prefix(st, y, cs.drop_last(), k);
    } else {
        assert(cs.take(k) =~= cs);
    }
}

pub proof fn lemma_merge_lines_ok_prefix(st: EditState, ls: Seq<Seq<char>>, k: int)
    requires
        0 <= k <= ls.len(),
        merge_lines_state(st, ls).1,
    ensures
        merge_lines_state(st, ls.take(k)).1,
    decreases ls.len() - k,
{
    if k < ls.len() {
        assert(ls.drop_last().take(k) =~= ls.take(k));
        lemma_merge_lines_ok_prefix(st, ls.drop_last(), k);
    } else {
        assert(ls.take(k) =~= ls);
    }
}

impl TextEdit {
    pub fn paste_text_in_block_mode(&mut self, text_block: String)
        requires
            crate::text_buffer::paste_lines_state(
                old(self).grid(),
                old(self).cursor().x as int,
                old(self).cursor().y as int,
                str_lines(text_block@),
            ).1,
        ensures
            final(self).grid() == crate::text_buffer::paste_lines_state(
                old(self).grid(),
                old(self).cursor().x as int,
                old(self).cursor().y as int,
                str_lines(text_block@),
            ).0,
            final(self).cursor() == old(self).cursor(),
            final(self).history() == old(self).history(),
            final(self).undone() == old(self).undone(),
            final(self).sel_start() == old(self).sel_start(),
            final(self).sel_end() == old(self).sel_end(),
            final(self).sel_mode() == old(self).sel_mode(),
    {
        self.text_buffer.paste_text_in_block_mode(text_block);
    }

    /// Merges one line of a text block into line `y`.
    fn merge_line(&mut self, y: usize, line: &Vec<char>)
        requires
            merge_chars_state(old(self).state(), y as int, line@).1,
        ensures
            final(self).state() == merge_chars_state(old(self).state(), y as int, line@).0,
            final(self).sel_start() == old(self).sel_start(),
            final(self).sel_end() == old(self).sel_end(),
            final(self).sel_mode() == old(self).sel_mode(),
    {
        let ghost st0 = self.state();
        let ghost cs = line@;
        let mut width: usize = 0;
        let mut k: usize = 0;
        assert(cs.take(0) =~= Seq::<char>::empty());
        while k < line.len()
            invariant
                k <= line.len(),
                cs == line@,
                merge_chars_state(st0, y as int, cs).1,
                width == widths(cs.take(k as int)),
                self.state() == merge_chars_state(st0, y as int, cs.take(k as int)).0,
                self.sel_start() == old(self).sel_start(),
                self.sel_end() == old(self).sel_end(),
                self.sel_mode() == old(self).sel_mode(),
            decreases line.len() - k,
        {
            proof {
                lemma_merge_chars_ok_prefix(st0, y as int, cs, k + 1);
                assert(cs.take(k + 1).drop_last() =~= cs.take(k as int));
            }
            let ch = line[k];
            if ch != BLANK_CH {
                let x = width;
                self.command_set_position(x, y);
                self.command_replace_char(ch);
            }
            width = width + crate::width::Ch::new(ch).width;
            k = k + 1;
        }
        assert(cs.take(k as int) =~= cs);
    }

    /// paste the text block overlaying on the text content of the buffer
    /// excluding the whitespace
    pub fn command_merge_text(&mut self, text_block: String)
        requires
            merge_lines_state(old(self).state(), str_lines(text_block@)).1,
        ensures
            final(self).state() == merge_lines_state(old(self).state(), str_lines(text_block@)).0,
            final(self).sel_start() == old(self).sel_start(),
            final(self).sel_end() == old(self).sel_end(),
            final(self).sel_mode() == old(self).sel_mode(),
    {
        let lines = split_lines(text_block.as_str());
        let ghost ls = char_lines(lines@);
        let ghost st0 = self.state();
        let mut i: usize = 0;
        assert(ls.take(0) =~= Seq::<Seq<char>>::empty());
        while i < lines.len()
            invariant
                i <= lines.len(),
                ls == char_lines(lines@),
                merge_lines_state(st0, ls).1,
                self.state() == merge_lines_state(st0, ls.take(i as int)).0,
                self.sel_start() == old(self).sel_start(),
                self.sel_end() == old(self).sel_end(),
                self.sel_mode() == old(self).sel_mode(),
            decreases lines.len() - i,
        {
            proof {
                lemma_merge_lines_ok_prefix(st0, ls, i + 1);
                assert(ls.take(i + 1).drop_last() =~= ls.take(i as int));
            }
            self.merge_line(i, &lines[i]);
            i = i + 1;
        }
        assert(ls.take(i as int) =~= ls);
    }
}

} // verus!
