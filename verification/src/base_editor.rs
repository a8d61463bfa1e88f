use vstd::prelude::*;

use std::marker::PhantomData;
use std::sync::Arc;

use crate::action::{apply_seq_state, inverse_seq, location_spec, Action};
use crate::history::{keep_front, record_history, redo_ok, skip_separators, undo_ok, UNDO_SIZE};
use crate::options::BaseOptions;
use crate::point::Point2;
use crate::text::str_lines;
use crate::text_buffer::{
    add_sat, break_line_spec, can_replace, cells_grid, char_at, clamped_position, column_at, delete_char_spec,
    ensure_before_cell_spec, ensure_line_spec,
    insert_char_spec, insert_text_ok, insert_text_spec, line_len, line_width_spec, move_vertical_clamped,
    paste_lines_state, replace_char_spec, sub_sat, TextBuffer,
};
use crate::text_edit::{
    merge_lines_state, replaced_char, EditState, EditorView, Selection, SelectionMode, TextEdit,
};
use crate::width::{char_width, str_width, Ch};

verus! {

/// Something that turns an input into an output: the inputs it takes are
/// `accepts`, and what it may produce for one is `produces`.
pub trait Handler<IN, OUT> {
    spec fn accepts(&self, input: IN) -> bool;

    spec fn produces(&self, input: IN, out: OUT) -> bool;

    fn handle(&self, input: IN) -> (out: OUT)
        requires
            self.accepts(input),
        ensures
            self.produces(input, out),
    ;
}

/// A function, as a handler.
#[verifier::reject_recursive_types(IN)]
#[verifier::reject_recursive_types(OUT)]
pub struct FnHandler<IN, OUT, F: Fn(IN) -> OUT> {
    func: F,
    _marker: PhantomData<(IN, OUT)>,
}

impl<IN, OUT, F: Fn(IN) -> OUT> Handler<IN, OUT> for FnHandler<IN, OUT, F> {
    closed spec fn accepts(&self, input: IN) -> bool {
        call_requires(self.func, (input,))
    }

    closed spec fn produces(&self, input: IN, out: OUT) -> bool {
        call_ensures(self.func, (input,), out)
    }

    fn handle(&self, input: IN) -> (out: OUT) {
        (self.func)(input)
    }
}

/// Calls `std::sync::Arc::clone`, which gives another pointer to the same
/// value.
#[verifier::external_body]
fn share<T>(a: &Arc<T>) -> (r: Arc<T>)
    ensures
        r == *a,
{
    Arc::clone(a)
}

/// A listener: a function kept to be called with an input. Clones share
/// the one function.
#[verifier::reject_recursive_types(IN)]
#[verifier::reject_recursive_types(OUT)]
pub struct Callback<IN, OUT> {
    func: Arc<Box<dyn Handler<IN, OUT>>>,
}

impl<IN: 'static, OUT: 'static> Callback<IN, OUT> {
    /// Keeps `func`: the callback takes the inputs `func` takes, and what it
    /// produces for one is what `func` may return for it.
    pub fn from<F: Fn(IN) -> OUT + 'static>(func: F) -> (r: Self)
        ensures
            forall|i: IN| r.accepts(i) == call_requires(func, (i,)),
            forall|i: IN, o: OUT| r.produces(i, o) ==> call_ensures(func, (i,), o),
    {
        let handler = FnHandler { func, _marker: PhantomData };
        let ghost f = func;
        let b: Box<FnHandler<IN, OUT, F>> = Box::new(handler);
        let d: Box<dyn Handler<IN, OUT>> = b;
        let a = Arc::new(d);
        assert(*a == d);
        let r = Callback { func: a };
        assert forall|i: IN| r.accepts(i) == call_requires(f, (i,)) by {
            assert(d.accepts(i) == b.accepts(i));
        }
        assert forall|i: IN, o: OUT| r.produces(i, o) implies call_ensures(f, (i,), o) by {
            assert(d.produces(i, o) == b.produces(i, o));
        }
        r
    }
}

/// A function of no arguments, as a handler of `()`.
#[verifier::reject_recursive_types(OUT)]
pub struct ThunkHandler<OUT, F: Fn() -> OUT> {
    func: F,
    _marker: PhantomData<OUT>,
}

impl<OUT, F: Fn() -> OUT> Handler<(), OUT> for ThunkHandler<OUT, F> {
    closed spec fn accepts(&self, input: ()) -> bool {
        call_requires(self.func, ())
    }

    closed spec fn produces(&self, input: (), out: OUT) -> bool {
        call_ensures(self.func, (), out)
    }

    fn handle(&self, input: ()) -> (out: OUT) {
        (self.func)()
    }
}

impl<OUT: 'static> Callback<(), OUT> {
    /// Keeps `func`, a function of no arguments, to be called with `()`.
    pub fn from_thunk<F: Fn() -> OUT + 'static>(func: F) -> (r: Self)
        ensures
            r.accepts(()) == call_requires(func, ()),
            forall|o: OUT| r.produces((), o) ==> call_ensures(func, (), o),
    {
        let handler = ThunkHandler { func, _marker: PhantomData };
        let ghost f = func;
        let b: Box<ThunkHandler<OUT, F>> = Box::new(handler);
        let d: Box<dyn Handler<(), OUT>> = b;
        let a = Arc::new(d);
        assert(*a == d);
        let r = Callback { func: a };
        assert(d.accepts(()) == b.accepts(()));
        assert forall|o: OUT| r.produces((), o) implies call_ensures(f, (), o) by {
            assert(d.produces((), o) == b.produces((), o));
        }
        r
    }
}

impl<IN, OUT> Callback<IN, OUT> {
    /// Whether the callback takes `input`.
    pub closed spec fn accepts(&self, input: IN) -> bool {
        self.func.accepts(input)
    }

    /// What the callback may produce for an input.
    pub closed spec fn produces(&self, input: IN, out: OUT) -> bool {
        self.func.produces(input, out)
    }

    /// The callback takes every input.
    pub open spec fn accepts_all(&self) -> bool {
        forall|i: IN| #[trigger] self.accepts(i)
    }

    /// This method calls the actual callback.
    pub fn emit(&self, input: IN) -> (out: OUT)
        requires
            self.accepts(input),
        ensures
            self.produces(input, out),
    {
        self.func.handle(input)
    }
}

impl<IN, OUT> Clone for Callback<IN, OUT> {
    fn clone(&self) -> (r: Self)
        ensures
            r == *self,
    {
        Callback { func: share(&self.func) }
    }
}

#[derive(Debug)]
pub enum Command {
    IndentForward,
    IndentBackward,
    BreakLine,
    DeleteBack,
    DeleteForward,
    MoveUp,
    MoveDown,
    MoveLeft,
    MoveLeftStart,
    MoveRight,
    MoveRightEnd,
    InsertChar(char),
    ReplaceChar(char),
    InsertText(String),
    PasteTextBlock(String),
    MergeText(String),
    /// set a new content to the editor, resetting to a new history for undo/redo
    SetContent(String),
    Undo,
    Redo,
    BumpHistory,
    SetSelection(Point2<i32>, Point2<i32>),
    SelectAll,
    ClearSelection,
    SetPosition(Point2<i32>),
}

/// The text inserted to indent forward: four blanks.
pub open spec fn indent_text() -> Seq<char> {
    seq![' ', ' ', ' ', ' ']
}

/// The state with the cursor at `c`.
pub open spec fn with_cursor(v: EditorView, c: Point2<usize>) -> EditorView {
    ((v.0.0, c, v.0.2, v.0.3), v.1, v.2, v.3)
}

/// The view with the edit state `st`.
pub open spec fn with_state(v: EditorView, st: EditState) -> EditorView {
    (st, v.1, v.2, v.3)
}

/// Deleting the cell at `p` and recording it when there is one.
pub open spec fn delete_state(st: EditState, p: Point2<usize>) -> EditState {
    let (g, c, h, u) = st;
    match char_at(g, p.x, p.y) {
        Some(ch) => (delete_char_spec(g, p.x, p.y), p, record_history(h, Action::Delete(p, ch)), Seq::empty()),
        None => (delete_char_spec(g, p.x, p.y), p, h, u),
    }
}

/// Undoing the front group of the history that holds an edit: the
/// separators before it are dropped, the group is undone, and the cursor
/// goes where its first edit was made.
pub open spec fn undo_state(st: EditState) -> EditState {
    let (g, c, h0, u) = st;
    let h = skip_separators(h0);
    if h.len() == 0 {
        (g, c, h, u)
    } else {
        let group = h[0];
        (
            apply_seq_state(g, inverse_seq(group)).0,
            location_spec(group[0]),
            h.drop_first(),
            keep_front(seq![group] + u, UNDO_SIZE as nat),
        )
    }
}

/// Redoing the front group of the undone groups.
pub open spec fn redo_state(st: EditState) -> EditState {
    let (g, c, h, u) = st;
    if u.len() == 0 {
        st
    } else {
        let group = u[0];
        (
            apply_seq_state(g, group).0,
            if group.len() > 0 { location_spec(group.last()) } else { c },
            seq![group] + h,
            u.drop_first(),
        )
    }
}

/// A command applied to an editor: the view afterwards, and whether the
/// command can be applied (it stays within range).
#[verifier::opaque]
pub open spec fn command_effect(virtual_edit: bool, v: EditorView, cmd: Command) -> (EditorView, bool) {
    let (st, s, e, m) = v;
    let (g, c, h, u) = st;
    match cmd {
        Command::IndentForward => (
            with_state(
                v,
                (insert_text_spec(g, c.x, c.y, indent_text()), Point2 { x: add_sat(c.x, str_width(indent_text())), y: c.y }, h, u),
            ),
            insert_text_ok(g, c.x, c.y, indent_text()),
        ),
        Command::IndentBackward => (v, true),
        Command::BreakLine => (
            with_state(
                v,
                (break_line_spec(g, c.x, c.y), Point2 { x: 0usize, y: (c.y + 1) as usize }, record_history(h, Action::BreakLine(c)), Seq::empty()),
            ),
            c.y < usize::MAX,
        ),
        Command::DeleteBack => (
            if c.x > 0 {
                with_state(v, delete_state(st, Point2 { x: (c.x - 1) as usize, y: c.y }))
            } else {
                v
            },
            true,
        ),
        Command::DeleteForward => (with_state(v, delete_state(st, c)), true),
        Command::MoveUp => (
            with_cursor(
                v,
                if virtual_edit {
                    Point2 { x: c.x, y: sub_sat(c.y, 1) }
                } else {
                    move_vertical_clamped(g, c, sub_sat(c.y, 1))
                },
            ),
            true,
        ),
        Command::MoveDown => (
            with_cursor(
                v,
                if virtual_edit {
                    Point2 { x: c.x, y: add_sat(c.y, 1) }
                } else {
                    move_vertical_clamped(g, c, add_sat(c.y, 1))
                },
            ),
            true,
        ),
        Command::MoveLeft => (with_cursor(v, Point2 { x: sub_sat(c.x, 1), y: c.y }), true),
        Command::MoveLeftStart => (with_cursor(v, Point2 { x: 0usize, y: c.y }), true),
        Command::MoveRight => (
            with_cursor(
                v,
                if virtual_edit || c.x < line_len(g, c.y as int) {
                    Point2 { x: add_sat(c.x, 1), y: c.y }
                } else {
                    c
                },
            ),
            true,
        ),
        Command::MoveRightEnd => (with_cursor(v, Point2 { x: line_len(g, c.y as int), y: c.y }), true),
        Command::PasteTextBlock(text) => (
            with_state(v, (paste_lines_state(g, c.x as int, c.y as int, str_lines(text@)).0, c, h, u)),
            paste_lines_state(g, c.x as int, c.y as int, str_lines(text@)).1,
        ),
        Command::MergeText(text) => (
            with_state(v, merge_lines_state(st, str_lines(text@)).0),
            merge_lines_state(st, str_lines(text@)).1,
        ),
        Command::InsertChar(ch) => (
            with_state(
                v,
                (
                    insert_char_spec(g, c.x, c.y, ch),
                    Point2 { x: add_sat(c.x, char_width(ch)->0), y: c.y },
                    record_history(h, Action::Insert(c, ch)),
                    Seq::empty(),
                ),
            ),
            c.y < usize::MAX && char_width(ch) is Some,
        ),
        Command::ReplaceChar(ch) => (
            with_state(
                v,
                (
                    replace_char_spec(g, c.x, c.y, ch),
                    c,
                    record_history(h, Action::Replace(c, replaced_char(g, c.x, c.y), ch)),
                    Seq::empty(),
                ),
            ),
            can_replace(g, c.x, c.y),
        ),
        Command::InsertText(text) => (
            with_state(
                v,
                (insert_text_spec(g, c.x, c.y, text@), Point2 { x: add_sat(c.x, str_width(text@)), y: c.y }, h, u),
            ),
            insert_text_ok(g, c.x, c.y, text@),
        ),
        Command::SetContent(content) => (
            (
                (cells_grid(str_lines(content@)), Point2 { x: 0usize, y: 0usize }, Seq::empty(), Seq::empty()),
                None,
                None,
                SelectionMode::Linear,
            ),
            true,
        ),
        Command::Undo => (with_state(v, undo_state(st)), undo_ok(g, h)),
        Command::Redo => (with_state(v, redo_state(st)), redo_ok(g, u)),
        Command::BumpHistory => (with_state(v, (g, c, seq![Seq::<Action>::empty()] + h, u)), true),
        Command::SetSelection(start, end) => ((st, Some(start), Some(end), m), true),
        Command::SelectAll => (
            (
                st,
                Some(Point2::<i32> { x: 0, y: 0 }),
                Some(
                    Point2::<i32> {
                        x: sub_sat(line_width_spec(g, sub_sat(g.len() as usize, 1) as int), 1) as i32,
                        y: sub_sat(g.len() as usize, 1) as i32,
                    },
                ),
                m,
            ),
            true,
        ),
        Command::ClearSelection => ((st, None, None, m), true),
        Command::SetPosition(pos) => (
            with_cursor(
                v,
                if virtual_edit {
                    Point2 { x: pos.x as usize, y: pos.y as usize }
                } else {
                    clamped_position(g, pos.x as usize, pos.y as usize)
                },
            ),
            true,
        ),
    }
}

/// A command applied to an editor: the view afterwards, whether the command
/// can be applied, and whether it changes the content, that is whether the
/// cells afterwards differ from the cells before.
pub open spec fn command_step(virtual_edit: bool, v: EditorView, cmd: Command) -> (EditorView, bool, bool) {
    let (after, ok) = command_effect(virtual_edit, v, cmd);
    (after, ok, after.0.0 != v.0.0)
}

/// Carries out `command` on `text_edit`, moving the cursor freely when
/// `virtual_edit` is set and within the text otherwise.
fn run_command(text_edit: &mut TextEdit, virtual_edit: bool, command: Command)
    requires
        command_effect(virtual_edit, old(text_edit).view_all(), command).1,
    ensures
        final(text_edit).view_all() == command_effect(virtual_edit, old(text_edit).view_all(), command).0,
{
    proof {
        reveal(command_effect);
    }
    match command {
        Command::IndentForward => {
            let indent = "    ";
            proof {
                reveal_strlit("    ");
            }
            assert(indent@ =~= indent_text());
            text_edit.command_insert_text(indent);
        },
        Command::IndentBackward => {},
        Command::BreakLine => {
            text_edit.command_break_line();
        },
        Command::DeleteBack => {
            text_edit.command_delete_back();
        },
        Command::DeleteForward => {
            text_edit.command_delete_forward();
        },
        Command::MoveUp => {
            if virtual_edit {
                text_edit.command_move_up();
            } else {
                text_edit.command_move_up_clamped();
            }
        },
        Command::MoveDown => {
            if virtual_edit {
                text_edit.command_move_down();
            } else {
                text_edit.command_move_down_clamped();
            }
        },
        Command::PasteTextBlock(text) => {
            text_edit.paste_text_in_block_mode(text);
        },
        Command::MergeText(text) => {
            text_edit.command_merge_text(text);
        },
        Command::MoveLeft => {
            text_edit.command_move_left();
        },
        Command::MoveLeftStart => {
            text_edit.command_move_left_start();
        },
        Command::MoveRightEnd => {
            text_edit.command_move_right_end();
        },
        Command::MoveRight => {
            if virtual_edit {
                text_edit.command_move_right();
            } else {
                text_edit.command_move_right_clamped();
            }
        },
        Command::InsertChar(c) => {
            text_edit.command_insert_char(c);
        },
        Command::ReplaceChar(c) => {
            text_edit.command_replace_char(c);
        },
        Command::InsertText(text) => {
            text_edit.command_insert_text(text.as_str());
        },
        Command::SetContent(content) => {
            *text_edit = TextEdit::from_str(content.as_str());
        },
        Command::Undo => {
            text_edit.command_undo();
        },
        Command::Redo => {
            text_edit.command_redo();
        },
        Command::BumpHistory => {
            text_edit.bump_history();
        },
        Command::SetSelection(start, end) => {
            text_edit.command_set_selection(start, end);
        },
        Command::SelectAll => {
            text_edit.command_select_all();
        },
        Command::ClearSelection => {
            text_edit.clear_selection();
        },
        Command::SetPosition(pos) => {
            let x: usize = pos.x as usize;
            let y: usize = pos.y as usize;
            if virtual_edit {
                text_edit.command_set_position(x, y);
            } else {
                text_edit.command_set_position_clamped(x, y);
            }
        },
    }
}

/// Applies `command` to `text_edit`, moving the cursor freely when
/// `virtual_edit` is set and within the text otherwise; returns whether the
/// command changes the content.
pub fn apply_command(text_edit: &mut TextEdit, virtual_edit: bool, command: Command) -> (changed: bool)
    requires
        command_step(virtual_edit, old(text_edit).view_all(), command).1,
    ensures
        final(text_edit).view_all() == command_step(virtual_edit, old(text_edit).view_all(), command).0,
        changed == command_step(virtual_edit, old(text_edit).view_all(), command).2,
{
    proof {
        reveal(command_effect);
    }
    let ghost g = text_edit.view_all().0.0;
    let cursor = text_edit.get_position();
    match &command {
        Command::InsertChar(c) => {
            proof {
                lemma_insert_char_changes(g, cursor.x, cursor.y, *c);
            }
            run_command(text_edit, virtual_edit, command);
            true
        },
        Command::BreakLine => {
            proof {
                lemma_break_line_changes(g, cursor.x, cursor.y);
            }
            run_command(text_edit, virtual_edit, command);
            true
        },
        Command::DeleteForward => {
            let present = text_edit.get_char(cursor.x, cursor.y).is_some();
            proof {
                lemma_delete_changes(g, cursor.x, cursor.y);
            }
            run_command(text_edit, virtual_edit, command);
            present
        },
        Command::DeleteBack => {
            let present = cursor.x > 0 && text_edit.get_char(cursor.x - 1, cursor.y).is_some();
            proof {
                if cursor.x > 0 {
                    lemma_delete_changes(g, (cursor.x - 1) as usize, cursor.y);
                }
            }
            run_command(text_edit, virtual_edit, command);
            present
        },
        Command::IndentBackward | Command::MoveUp | Command::MoveDown | Command::MoveLeft | Command::MoveLeftStart
        | Command::MoveRight | Command::MoveRightEnd | Command::BumpHistory | Command::SetSelection(_, _)
        | Command::SelectAll | Command::ClearSelection | Command::SetPosition(_) => {
            run_command(text_edit, virtual_edit, command);
            false
        },
        _ => {
            let before = text_edit.cells();
            run_command(text_edit, virtual_edit, command);
            !text_edit.has_cells(&before)
        },
    }
}

/// Typing a character on a line that a `usize` can count changes the cells:
/// the line it goes on grows by one cell, or is made to exist.
proof fn lemma_insert_char_changes(g: Seq<Seq<Ch>>, x: usize, y: usize, c: char)
    requires
        y < usize::MAX,
    ensures
        insert_char_spec(g, x, y, c) != g,
{
    let g1 = ensure_line_spec(g, y);
    assert(g1.len() >= g.len() && g1.len() > y);
    assert(forall|i: int| 0 <= i < g.len() ==> g1[i] == g[i]);
    let g2 = ensure_before_cell_spec(g, x, y);
    assert(g2.len() == g1.len());
    assert(g2[y as int].len() >= g1[y as int].len());
    let r = insert_char_spec(g, x, y, c);
    assert(r.len() == g2.len());
    assert(r[y as int].len() == g2[y as int].len() + 1);
    if (y as int) < g.len() {
        assert(r[y as int].len() != g[y as int].len());
    } else {
        assert(r.len() != g.len());
    }
}

/// Breaking a line that a `usize` can count adds a line.
proof fn lemma_break_line_changes(g: Seq<Seq<Ch>>, x: usize, y: usize)
    requires
        y < usize::MAX,
    ensures
        break_line_spec(g, x, y) != g,
{
    let g1 = ensure_line_spec(g, y);
    assert(g1.len() >= g.len() && g1.len() > y);
    let g2 = ensure_before_cell_spec(g, x, y);
    assert(g2.len() == g1.len());
    assert(break_line_spec(g, x, y).len() == g2.len() + 1);
}

/// Deleting at a column changes the cells exactly when a cell starts there.
proof fn lemma_delete_changes(g: Seq<Seq<Ch>>, x: usize, y: usize)
    ensures
        (delete_char_spec(g, x, y) != g) == (char_at(g, x, y) is Some),
{
    if let Some(i) = column_at(g, x as int, y as int) {
        assert(delete_char_spec(g, x, y)[y as int].len() + 1 == g[y as int].len());
    }
}

/// Applies the commands in order to `text_edit`; returns whether any of
/// them changes the content.
pub fn apply_commands(text_edit: &mut TextEdit, virtual_edit: bool, commands: Vec<Command>) -> (changed: bool)
    requires
        commands_step(virtual_edit, old(text_edit).view_all(), commands@).1,
    ensures
        final(text_edit).view_all() == commands_step(virtual_edit, old(text_edit).view_all(), commands@).0,
        changed == commands_step(virtual_edit, old(text_edit).view_all(), commands@).2,
{
    let ghost cmds = commands@;
    let ghost v0 = text_edit.view_all();
    let mut changed = false;
    let mut commands = commands;
    assert(cmds.take(0) =~= Seq::<Command>::empty());
    assert(cmds.skip(0) =~= cmds);
    let n: usize = commands.len();
    let mut k: usize = 0;
    while commands.len() > 0
        invariant
            k <= cmds.len(),
            cmds.len() == n,
            commands@ == cmds.skip(k as int),
            commands_step(virtual_edit, v0, cmds).1,
            text_edit.view_all() == commands_step(virtual_edit, v0, cmds.take(k as int)).0,
            changed == commands_step(virtual_edit, v0, cmds.take(k as int)).2,
        decreases commands@.len(),
    {
        let command = commands.remove(0);
        proof {
            lemma_commands_step_next(virtual_edit, v0, cmds, k as int);
            assert(commands@ =~= cmds.skip(k + 1));
        }
        let c = apply_command(text_edit, virtual_edit, command);
        changed = changed || c;
        k = k + 1;
    }
    assert(cmds.take(k as int) =~= cmds);
    changed
}

/// Gives the content of `text_edit` to each change listener, then tells
/// each notify listener; returns their messages in that order.
pub fn emit_to_listeners<XMSG>(
    change_listeners: &Vec<Callback<String, XMSG>>,
    change_notify_listeners: &Vec<Callback<(), XMSG>>,
    text_edit: &TextEdit,
) -> (r: Vec<XMSG>)
    requires
        listeners_accept(change_listeners@, change_notify_listeners@, crate::text_buffer::grid_string(text_edit.grid())),
    ensures
        emitted(change_listeners@, change_notify_listeners@, crate::text_buffer::grid_string(text_edit.grid()), r@),
{
    let mut extern_msgs: Vec<XMSG> = Vec::new();
    let ghost content_view = crate::text_buffer::grid_string(text_edit.grid());
    if change_listeners.len() > 0 {
        let content = text_edit.get_content();
        let mut i: usize = 0;
        while i < change_listeners.len()
            invariant
                i <= change_listeners@.len(),
                content@ == content_view,
                listeners_accept(change_listeners@, change_notify_listeners@, content_view),
                extern_msgs@.len() == i,
                forall|j: int|
                    0 <= j < i ==> #[trigger] answers_content(change_listeners@[j], content_view, extern_msgs@[j]),
            decreases change_listeners@.len() - i,
        {
            let input = content.clone();
            let msg = change_listeners[i].emit(input);
            proof {
                assert(input@ == content_view);
            }
            extern_msgs.push(msg);
            i = i + 1;
        }
    }
    let n: usize = extern_msgs.len();
    let mut i: usize = 0;
    while i < change_notify_listeners.len()
        invariant
            i <= change_notify_listeners@.len(),
            n == change_listeners@.len(),
            listeners_accept(change_listeners@, change_notify_listeners@, content_view),
            extern_msgs@.len() == n + i,
            forall|j: int|
                0 <= j < n ==> #[trigger] answers_content(change_listeners@[j], content_view, extern_msgs@[j]),
            forall|j: int| 0 <= j < i ==> #[trigger] change_notify_listeners@[j].produces((), extern_msgs@[n + j]),
        decreases change_notify_listeners@.len() - i,
    {
        let msg = change_notify_listeners[i].emit(());
        extern_msgs.push(msg);
        i = i + 1;
    }
    extern_msgs
}

/// An editor with core functionality platform specific UI
#[verifier::reject_recursive_types(XMSG)]
pub struct BaseEditor<XMSG> {
    options: BaseOptions,
    text_edit: TextEdit,
    /// Other components can listen to the an event.
    /// When the content of the text editor changes, the change listener will be emitted
    change_listeners: Vec<Callback<String, XMSG>>,
    /// a cheaper listener which doesn't need to assemble the text content
    /// of the text editor everytime
    change_notify_listeners: Vec<Callback<(), XMSG>>,
    _phantom: PhantomData<XMSG>,
}

impl<XMSG> BaseEditor<XMSG> {
    /// The content, cursor, history and selection of the editor.
    pub closed spec fn view(&self) -> EditorView {
        self.text_edit.view_all()
    }

    /// The text edit the editor works on.
    pub closed spec fn edit(&self) -> TextEdit {
        self.text_edit
    }

    /// The options of the editor.
    pub closed spec fn options(&self) -> BaseOptions {
        self.options
    }

    /// The listeners told of the content when it changes.
    pub closed spec fn change_listeners(&self) -> Seq<Callback<String, XMSG>> {
        self.change_listeners@
    }

    /// The listeners told that the content changed.
    pub closed spec fn change_notify_listeners(&self) -> Seq<Callback<(), XMSG>> {
        self.change_notify_listeners@
    }

    /// The cells of the editor's buffer.
    pub open spec fn grid(&self) -> Seq<Seq<Ch>> {
        self.view().0.0
    }

    pub fn default() -> (r: Self)
        ensures
            r.view() == ((Seq::<Seq<Ch>>::empty(), Point2::<usize> { x: 0, y: 0 }, Seq::<Seq<Action>>::empty(), Seq::<Seq<Action>>::empty()), None::<Point2<i32>>, None::<Point2<i32>>, SelectionMode::Linear),
            r.options().selection_mode == SelectionMode::Linear,
            !r.options().use_virtual_edit,
            r.change_listeners().len() == 0,
            r.change_notify_listeners().len() == 0,
    {
        Self {
            options: BaseOptions::default(),
            text_edit: TextEdit::default(),
            change_listeners: Vec::new(),
            change_notify_listeners: Vec::new(),
            _phantom: PhantomData,
        }
    }

    pub fn from_str(options: &BaseOptions, content: &str) -> (r: Self)
        ensures
            r.view() == ((cells_grid(str_lines(content@)), Point2::<usize> { x: 0, y: 0 }, Seq::<Seq<Action>>::empty(), Seq::<Seq<Action>>::empty()), None::<Point2<i32>>, None::<Point2<i32>>, SelectionMode::Linear),
            r.options() == *options,
            r.change_listeners().len() == 0,
            r.change_notify_listeners().len() == 0,
    {
        let text_edit = TextEdit::from_str(content);
        BaseEditor {
            options: *options,
            text_edit,
            change_listeners: Vec::new(),
            change_notify_listeners: Vec::new(),
            _phantom: PhantomData,
        }
    }

    /// The text edit the editor works on.
    pub fn as_ref(&self) -> (r: &TextEdit)
        ensures
            *r == self.edit(),
    {
        &self.text_edit
    }

    pub fn text_buffer(&self) -> (r: &TextBuffer)
        ensures
            r.grid() == self.view().0.0,
            r.cursor() == self.view().0.1,
    {
        self.text_edit.text_buffer()
    }

    pub fn set_selection(&mut self, start: Point2<i32>, end: Point2<i32>)
        ensures
            final(self).view() == (old(self).view().0, Some(start), Some(end), old(self).view().3),
            same_setup(*old(self), *final(self)),
    {
        self.text_edit.set_selection(start, end);
    }

    pub fn selection(&self) -> (r: &Selection)
        ensures
            r.start == self.view().1,
            r.end == self.view().2,
            r.mode == self.view().3,
    {
        self.text_edit.selection()
    }

    pub fn selected_text(&self) -> (r: Option<String>)
        requires
            self.options().selection_mode == SelectionMode::Linear ==> crate::text_edit::linear_selection_ok(
                self.grid(),
                self.view().1,
                self.view().2,
            ),
            self.options().selection_mode == SelectionMode::Block ==> crate::text_edit::block_selection_ok(
                self.view().1,
                self.view().2,
            ),
        ensures
            crate::text_edit::opt_string_view(r) == (match self.options().selection_mode {
                SelectionMode::Linear => crate::text_edit::linear_selected_text(self.grid(), self.view().1, self.view().2),
                SelectionMode::Block => crate::text_edit::block_selected_text(self.grid(), self.view().1, self.view().2),
            }),
    {
        match self.options.selection_mode {
            SelectionMode::Linear => self.text_edit.selected_text_in_linear_mode(),
            SelectionMode::Block => self.text_edit.selected_text_in_block_mode(),
        }
    }

    pub fn cut_selected_text(&mut self) -> (r: Option<String>)
        requires
            old(self).options().selection_mode == SelectionMode::Linear ==> crate::text_edit::linear_selection_ok(
                old(self).grid(),
                old(self).view().1,
                old(self).view().2,
            ),
            old(self).options().selection_mode == SelectionMode::Block ==> crate::text_edit::block_cut_ok(
                old(self).grid(),
                old(self).view().1,
                old(self).view().2,
            ),
        ensures
            old(self).edit().view_all() == old(self).view(),
            final(self).edit().view_all() == final(self).view(),
            same_setup(*old(self), *final(self)),
            old(self).options().selection_mode == SelectionMode::Linear ==> crate::text_edit::cut_linear_done(
                old(self).edit(),
                final(self).edit(),
                r,
            ),
            old(self).options().selection_mode == SelectionMode::Block ==> crate::text_edit::cut_block_done(
                old(self).edit(),
                final(self).edit(),
                r,
            ),
    {
        match self.options.selection_mode {
            SelectionMode::Linear => self.text_edit.cut_selected_text_in_linear_mode(),
            SelectionMode::Block => self.text_edit.cut_selected_text_in_block_mode(),
        }
    }

    pub fn is_selected(&self, loc: Point2<i32>) -> (b: bool)
        ensures
            b == (self.view().1 is Some && self.view().2 is Some && match self.options().selection_mode {
                SelectionMode::Linear => crate::text_edit::in_linear_selection(self.view().1->0, self.view().2->0, loc),
                SelectionMode::Block => crate::text_edit::in_block_selection(self.view().1->0, self.view().2->0, loc),
            }),
    {
        match self.options.selection_mode {
            SelectionMode::Linear => self.text_edit.is_selected_in_linear_mode(loc),
            SelectionMode::Block => self.text_edit.is_selected_in_block_mode(loc),
        }
    }

    pub fn clear_selection(&mut self)
        ensures
            final(self).view() == (old(self).view().0, None::<Point2<i32>>, None::<Point2<i32>>, old(self).view().3),
            same_setup(*old(self), *final(self)),
    {
        self.text_edit.clear_selection()
    }

    pub fn set_selection_start(&mut self, start: Point2<i32>)
        ensures
            final(self).view() == (old(self).view().0, Some(start), old(self).view().2, old(self).view().3),
            same_setup(*old(self), *final(self)),
    {
        self.text_edit.set_selection_start(start);
    }

    pub fn set_selection_end(&mut self, end: Point2<i32>)
        ensures
            final(self).view() == (old(self).view().0, old(self).view().1, Some(end), old(self).view().3),
            same_setup(*old(self), *final(self)),
    {
        self.text_edit.set_selection_end(end);
    }

    pub fn get_char(&self, loc: Point2<usize>) -> (r: Option<char>)
        ensures
            r == char_at(self.grid(), loc.x, loc.y),
    {
        self.text_edit.get_char(loc.x, loc.y)
    }

    pub fn get_position(&self) -> (p: Point2<usize>)
        ensures
            p == self.view().0.1,
    {
        self.text_edit.get_position()
    }

    pub fn get_content(&self) -> (r: String)
        ensures
            r@ == crate::text_buffer::grid_string(self.grid()),
    {
        self.text_edit.get_content()
    }

    pub fn total_lines(&self) -> (n: usize)
        ensures
            n == self.grid().len(),
    {
        self.text_edit.total_lines()
    }

    pub fn numberline_wide(&self) -> (n: usize)
        ensures
            n == crate::text_buffer::decimal_len(self.grid().len()),
    {
        self.text_edit.numberline_wide()
    }

    pub fn clear(&mut self)
        ensures
            final(self).view() == ((Seq::<Seq<Ch>>::empty(), old(self).view().0.1, Seq::<Seq<Action>>::empty(), Seq::<Seq<Action>>::empty()), None::<Point2<i32>>, None::<Point2<i32>>, old(self).view().3),
            same_setup(*old(self), *final(self)),
    {
        self.text_edit.clear();
    }
}

/// The options and listeners of the two editors are the same.
pub open spec fn same_setup<XMSG>(a: BaseEditor<XMSG>, b: BaseEditor<XMSG>) -> bool {
    &&& b.options() == a.options()
    &&& b.change_listeners() == a.change_listeners()
    &&& b.change_notify_listeners() == a.change_notify_listeners()
}

/// Commands applied in order: the view afterwards, whether each could be
/// applied, and whether any changed the content.
pub open spec fn commands_step(virtual_edit: bool, v: EditorView, cmds: Seq<Command>) -> (EditorView, bool, bool)
    decreases cmds.len(),
{
    if cmds.len() == 0 {
        (v, true, false)
    } else {
        let (v1, ok1, ch1) = commands_step(virtual_edit, v, cmds.drop_last());
        let (v2, ok2, ch2) = command_step(virtual_edit, v1, cmds.last());
        (v2, ok1 && ok2, ch1 || ch2)
    }
}

pub proof fn lemma_commands_ok_prefix(virtual_edit: bool, v: EditorView, cmds: Seq<Command>, k: int)
    requires
        0 <= k <= cmds.len(),
        commands_step(virtual_edit, v, cmds).1,
    ensures
        commands_step(virtual_edit, v, cmds.take(k)).1,
    decreases cmds.len() - k,
{
    if k < cmds.len() {
        assert(cmds.drop_last().take(k) =~= cmds.take(k));
        lemma_commands_ok_prefix(virtual_edit, v, cmds.drop_last(), k);
    } else {
        assert(cmds.take(k) =~= cmds);
    }
}

proof fn lemma_commands_step_next(virtual_edit: bool, v: EditorView, cmds: Seq<Command>, k: int)
    requires
        0 <= k < cmds.len(),
        commands_step(virtual_edit, v, cmds).1,
    ensures
        command_step(virtual_edit, commands_step(virtual_edit, v, cmds.take(k)).0, cmds[k]).1,
        commands_step(virtual_edit, v, cmds.take(k + 1)) == ({
            let prev = commands_step(virtual_edit, v, cmds.take(k));
            let next = command_step(virtual_edit, prev.0, cmds[k]);
            (next.0, prev.1 && next.1, prev.2 || next.2)
        }),
{
    lemma_commands_ok_prefix(virtual_edit, v, cmds, k + 1);
    assert(cmds.take(k + 1).drop_last() =~= cmds.take(k));
}

/// Every change listener takes a string holding `content`, and every
/// notify listener takes `()`.
pub open spec fn listeners_accept<XMSG>(
    change: Seq<Callback<String, XMSG>>,
    notify: Seq<Callback<(), XMSG>>,
    content: Seq<char>,
) -> bool {
    &&& forall|i: int, s: String| 0 <= i < change.len() && s@ == content ==> #[trigger] change[i].accepts(s)
    &&& forall|i: int| 0 <= i < notify.len() ==> #[trigger] notify[i].accepts(())
}

/// `msg` is what `listener` may give back for a string holding `content`.
pub open spec fn answers_content<XMSG>(listener: Callback<String, XMSG>, content: Seq<char>, msg: XMSG) -> bool {
    exists|s: String| s@ == content && #[trigger] listener.produces(s, msg)
}

/// The messages the listeners of an editor may give back when the content
/// is `content`: one from each change listener, given the content, then
/// one from each notify listener.
pub open spec fn emitted<XMSG>(
    change: Seq<Callback<String, XMSG>>,
    notify: Seq<Callback<(), XMSG>>,
    content: Seq<char>,
    msgs: Seq<XMSG>,
) -> bool {
    &&& msgs.len() == change.len() + notify.len()
    &&& forall|i: int|
        0 <= i < change.len() ==> #[trigger] answers_content(change[i], content, msgs[i])
    &&& forall|i: int| 0 <= i < notify.len() ==> #[trigger] notify[i].produces((), msgs[change.len() + i])
}

impl<XMSG> BaseEditor<XMSG> {
    /// Applies the commands in order; when any of them changes the content
    /// the listeners are told and their messages returned.
    pub fn process_commands(&mut self, commands: Vec<Command>) -> (r: Vec<XMSG>)
        requires
            commands_step(old(self).options().use_virtual_edit, old(self).view(), commands@).1,
            commands_step(old(self).options().use_virtual_edit, old(self).view(), commands@).2 ==> listeners_accept(
                old(self).change_listeners(),
                old(self).change_notify_listeners(),
                crate::text_buffer::grid_string(commands_step(old(self).options().use_virtual_edit, old(self).view(), commands@).0.0.0),
            ),
        ensures
            final(self).view() == commands_step(old(self).options().use_virtual_edit, old(self).view(), commands@).0,
            same_setup(*old(self), *final(self)),
            commands_step(old(self).options().use_virtual_edit, old(self).view(), commands@).2 ==> emitted(
                final(self).change_listeners(),
                final(self).change_notify_listeners(),
                crate::text_buffer::grid_string(final(self).grid()),
                r@,
            ),
            !commands_step(old(self).options().use_virtual_edit, old(self).view(), commands@).2 ==> r@.len() == 0,
    {
        let changed = apply_commands(&mut self.text_edit, self.options.use_virtual_edit, commands);
        if changed {
            self.emit_on_change_listeners()
        } else {
            Vec::new()
        }
    }

    /// process the supplied command to text_edit
    pub fn process_command(&mut self, command: Command) -> (changed: bool)
        requires
            command_step(old(self).options().use_virtual_edit, old(self).view(), command).1,
        ensures
            final(self).view() == command_step(old(self).options().use_virtual_edit, old(self).view(), command).0,
            changed == command_step(old(self).options().use_virtual_edit, old(self).view(), command).2,
            same_setup(*old(self), *final(self)),
    {
        apply_command(&mut self.text_edit, self.options.use_virtual_edit, command)
    }

    pub fn emit_on_change_listeners(&self) -> (r: Vec<XMSG>)
        requires
            listeners_accept(self.change_listeners(), self.change_notify_listeners(), crate::text_buffer::grid_string(self.grid())),
        ensures
            emitted(
                self.change_listeners(),
                self.change_notify_listeners(),
                crate::text_buffer::grid_string(self.grid()),
                r@,
            ),
    {
        emit_to_listeners(&self.change_listeners, &self.change_notify_listeners, &self.text_edit)
    }
}

impl<XMSG: 'static> BaseEditor<XMSG> {
    /// Attach a callback to this editor where it is invoked when the content is changed.
    ///
    /// Note:The content is extracted into string and used as a parameter to the function.
    /// This may be a costly operation when the editor has lot of text on it.
    pub fn on_change<F>(self, f: F) -> (r: Self) where F: Fn(String) -> XMSG + 'static
        ensures
            r.view() == self.view(),
            r.options() == self.options(),
            r.change_listeners().len() == self.change_listeners().len() + 1,
            r.change_listeners().take(self.change_listeners().len() as int) == self.change_listeners(),
            forall|i: String| r.change_listeners().last().accepts(i) == call_requires(f, (i,)),
            forall|i: String, o: XMSG| r.change_listeners().last().produces(i, o) ==> call_ensures(f, (i,), o),
            r.change_notify_listeners() == self.change_notify_listeners(),
    {
        let mut s = self;
        s.add_on_change_listener(f);
        s
    }

    pub fn add_on_change_listener<F>(&mut self, f: F) where F: Fn(String) -> XMSG + 'static
        ensures
            final(self).view() == old(self).view(),
            final(self).options() == old(self).options(),
            final(self).change_listeners().len() == old(self).change_listeners().len() + 1,
            final(self).change_listeners().take(old(self).change_listeners().len() as int) == old(self).change_listeners(),
            forall|i: String| final(self).change_listeners().last().accepts(i) == call_requires(f, (i,)),
            forall|i: String, o: XMSG| final(self).change_listeners().last().produces(i, o) ==> call_ensures(f, (i,), o),
            final(self).change_notify_listeners() == old(self).change_notify_listeners(),
    {
        let cb = Callback::from(f);
        self.change_listeners.push(cb);
        assert(self.change_listeners@.take(old(self).change_listeners@.len() as int) =~= old(self).change_listeners@);
    }

    /// Attach an callback to this editor where it is invoked when the content is changed.
    /// The callback function just notifies the parent component that uses the BaseEditor component.
    /// It will be up to the parent component to extract the content of the editor manually.
    ///
    /// This is intended to be used in a debounced or throttled functionality where the component
    /// decides when to do an expensive operation based on time and recency.
    pub fn on_change_notify<F>(self, f: F) -> (r: Self) where F: Fn(()) -> XMSG + 'static
        ensures
            r.view() == self.view(),
            r.options() == self.options(),
            r.change_listeners() == self.change_listeners(),
            r.change_notify_listeners().len() == self.change_notify_listeners().len() + 1,
            r.change_notify_listeners().take(self.change_notify_listeners().len() as int) == self.change_notify_listeners(),
            r.change_notify_listeners().last().accepts(()) == call_requires(f, ((),)),
            forall|o: XMSG| r.change_notify_listeners().last().produces((), o) ==> call_ensures(f, ((),), o),
    {
        let mut s = self;
        s.add_on_change_notify(f);
        s
    }

    pub fn add_on_change_notify<F>(&mut self, f: F) where F: Fn(()) -> XMSG + 'static
        ensures
            final(self).view() == old(self).view(),
            final(self).options() == old(self).options(),
            final(self).change_listeners() == old(self).change_listeners(),
            final(self).change_notify_listeners().len() == old(self).change_notify_listeners().len() + 1,
            final(self).change_notify_listeners().take(old(self).change_notify_listeners().len() as int) == old(self).change_notify_listeners(),
            final(self).change_notify_listeners().last().accepts(()) == call_requires(f, ((),)),
            forall|o: XMSG| final(self).change_notify_listeners().last().produces((), o) ==> call_ensures(f, ((),), o),
    {
        let cb = Callback::from(f);
        self.change_notify_listeners.push(cb);
        assert(self.change_notify_listeners@.take(old(self).change_notify_listeners@.len() as int) =~= old(self).change_notify_listeners@);
    }
}

} // verus!
