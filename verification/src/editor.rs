use vstd::prelude::*;

pub use crate::base_editor::Callback;
use crate::base_editor::{apply_command, apply_commands, command_step, commands_step, emit_to_listeners, emitted, listeners_accept};
use crate::base_editor::Command as BaseCommand;
use crate::options::Options;
use crate::point::Point2;
use crate::text::str_lines;
use crate::text_buffer::{cells_grid, char_at, decimal_len, grid_string, TextBuffer};
use crate::text_edit::{
    block_cut_ok, block_selected_text, block_selection_ok, cut_block_done, cut_linear_done, linear_selected_text,
    linear_selection_ok, opt_string_view, EditorView, Selection, SelectionMode, TextEdit,
};
use crate::width::Ch;
use crate::action::Action;

verus! {

/// A command to an editor; a position is given as its column and line.
#[derive(Debug)]
pub enum Command {
    IndentForward,
    IndentBackward,
    BreakLine,
    DeleteBack,
    DeleteForward,
    MoveUp,
    MoveDown,
    MoveLeft,
    MoveLeftStart,
    MoveRight,
    MoveRightEnd,
    InsertChar(char),
    ReplaceChar(char),
    InsertText(String),
    PasteTextBlock(String),
    MergeText(String),
    /// set a new content to the editor, resetting to a new history for undo/redo
    SetContent(String),
    Undo,
    Redo,
    BumpHistory,
    SetSelection(Point2<i32>, Point2<i32>),
    SelectAll,
    ClearSelection,
    SetPosition(i32, i32),
}

/// The base editor command that does what `cmd` does.
pub open spec fn base_command(cmd: Command) -> BaseCommand {
    match cmd {
        Command::IndentForward => BaseCommand::IndentForward,
        Command::IndentBackward => BaseCommand::IndentBackward,
        Command::BreakLine => BaseCommand::BreakLine,
        Command::DeleteBack => BaseCommand::DeleteBack,
        Command::DeleteForward => BaseCommand::DeleteForward,
        Command::MoveUp => BaseCommand::MoveUp,
        Command::MoveDown => BaseCommand::MoveDown,
        Command::MoveLeft => BaseCommand::MoveLeft,
        Command::MoveLeftStart => BaseCommand::MoveLeftStart,
        Command::MoveRight => BaseCommand::MoveRight,
        Command::MoveRightEnd => BaseCommand::MoveRightEnd,
        Command::InsertChar(c) => BaseCommand::InsertChar(c),
        Command::ReplaceChar(c) => BaseCommand::ReplaceChar(c),
        Command::InsertText(t) => BaseCommand::InsertText(t),
        Command::PasteTextBlock(t) => BaseCommand::PasteTextBlock(t),
        Command::MergeText(t) => BaseCommand::MergeText(t),
        Command::SetContent(t) => BaseCommand::SetContent(t),
        Command::Undo => BaseCommand::Undo,
        Command::Redo => BaseCommand::Redo,
        Command::BumpHistory => BaseCommand::BumpHistory,
        Command::SetSelection(s, e) => BaseCommand::SetSelection(s, e),
        Command::SelectAll => BaseCommand::SelectAll,
        Command::ClearSelection => BaseCommand::ClearSelection,
        Command::SetPosition(x, y) => BaseCommand::SetPosition(Point2 { x, y }),
    }
}

fn to_base_command(cmd: Command) -> (r: BaseCommand)
    ensures
        r == base_command(cmd),
{
    match cmd {
        Command::IndentForward => BaseCommand::IndentForward,
        Command::IndentBackward => BaseCommand::IndentBackward,
        Command::BreakLine => BaseCommand::BreakLine,
        Command::DeleteBack => BaseCommand::DeleteBack,
        Command::DeleteForward => BaseCommand::DeleteForward,
        Command::MoveUp => BaseCommand::MoveUp,
        Command::MoveDown => BaseCommand::MoveDown,
        Command::MoveLeft => BaseCommand::MoveLeft,
        Command::MoveLeftStart => BaseCommand::MoveLeftStart,
        Command::MoveRight => BaseCommand::MoveRight,
        Command::MoveRightEnd => BaseCommand::MoveRightEnd,
        Command::InsertChar(c) => BaseCommand::InsertChar(c),
        Command::ReplaceChar(c) => BaseCommand::ReplaceChar(c),
        Command::InsertText(t) => BaseCommand::InsertText(t),
        Command::PasteTextBlock(t) => BaseCommand::PasteTextBlock(t),
        Command::MergeText(t) => BaseCommand::MergeText(t),
        Command::SetContent(t) => BaseCommand::SetContent(t),
        Command::Undo => BaseCommand::Undo,
        Command::Redo => BaseCommand::Redo,
        Command::BumpHistory => BaseCommand::BumpHistory,
        Command::SetSelection(s, e) => BaseCommand::SetSelection(s, e),
        Command::SelectAll => BaseCommand::SelectAll,
        Command::ClearSelection => BaseCommand::ClearSelection,
        Command::SetPosition(x, y) => BaseCommand::SetPosition(Point2::new(x, y)),
    }
}

/// The base editor commands that do what `cmds` do, in the same order.
pub open spec fn base_commands(cmds: Seq<Command>) -> Seq<BaseCommand> {
    cmds.map_values(|c: Command| base_command(c))
}

/// An editor with core functionality platform specific UI
#[verifier::reject_recursive_types(XMSG)]
pub struct Editor<XMSG> {
    options: Options,
    text_edit: TextEdit,
    /// Other components can listen to the an event.
    /// When the content of the text editor changes, the change listener will be emitted
    change_listeners: Vec<Callback<String, XMSG>>,
    /// a cheaper listener which doesn't need to assemble the text content
    /// of the text editor everytime
    change_notify_listeners: Vec<Callback<(), XMSG>>,
}

/// The options and listeners of the two editors are the same.
pub open spec fn same_setup<XMSG>(a: Editor<XMSG>, b: Editor<XMSG>) -> bool {
    &&& b.options() == a.options()
    &&& b.change_listeners() == a.change_listeners()
    &&& b.change_notify_listeners() == a.change_notify_listeners()
}

impl<XMSG> Editor<XMSG> {
    /// The content, cursor, history and selection of the editor.
    pub closed spec fn view(&self) -> EditorView {
        self.text_edit.view_all()
    }

    /// The text edit the editor works on.
    pub closed spec fn edit(&self) -> TextEdit {
        self.text_edit
    }

    /// The options of the editor.
    pub closed spec fn options(&self) -> Options {
        self.options
    }

    /// The listeners told of the content when it changes.
    pub closed spec fn change_listeners(&self) -> Seq<Callback<String, XMSG>> {
        self.change_listeners@
    }

    /// The listeners told that the content changed.
    pub closed spec fn change_notify_listeners(&self) -> Seq<Callback<(), XMSG>> {
        self.change_notify_listeners@
    }

    /// The cells of the editor's buffer.
    pub open spec fn grid(&self) -> Seq<Seq<Ch>> {
        self.view().0.0
    }

    pub fn from_str(options: Options, content: &str) -> (r: Self)
        ensures
            r.view() == ((cells_grid(str_lines(content@)), Point2::<usize> { x: 0, y: 0 }, Seq::<Seq<Action>>::empty(), Seq::<Seq<Action>>::empty()), None::<Point2<i32>>, None::<Point2<i32>>, SelectionMode::Linear),
            r.options() == options,
            r.change_listeners().len() == 0,
            r.change_notify_listeners().len() == 0,
    {
        let text_edit = TextEdit::from_str(content);
        Editor { options, text_edit, change_listeners: Vec::new(), change_notify_listeners: Vec::new() }
    }

    pub fn text_buffer(&self) -> (r: &TextBuffer)
        ensures
            r.grid() == self.view().0.0,
            r.cursor() == self.view().0.1,
    {
        self.text_edit.text_buffer()
    }

    pub fn set_selection(&mut self, start: Point2<i32>, end: Point2<i32>)
        ensures
            final(self).view() == (old(self).view().0, Some(start), Some(end), old(self).view().3),
            same_setup(*old(self), *final(self)),
    {
        self.text_edit.set_selection(start, end);
    }

    pub fn selection(&self) -> (r: &Selection)
        ensures
            r.start == self.view().1,
            r.end == self.view().2,
            r.mode == self.view().3,
    {
        self.text_edit.selection()
    }

    pub fn set_selection_start(&mut self, start: Point2<i32>)
        ensures
            final(self).view() == (old(self).view().0, Some(start), old(self).view().2, old(self).view().3),
            same_setup(*old(self), *final(self)),
    {
        self.text_edit.set_selection_start(start);
    }

    pub fn set_selection_end(&mut self, end: Point2<i32>)
        ensures
            final(self).view() == (old(self).view().0, old(self).view().1, Some(end), old(self).view().3),
            same_setup(*old(self), *final(self)),
    {
        self.text_edit.set_selection_end(end);
    }

    pub fn get_char(&self, x: usize, y: usize) -> (r: Option<char>)
        ensures
            r == char_at(self.grid(), x, y),
    {
        self.text_edit.get_char(x, y)
    }

    pub fn get_position(&self) -> (p: Point2<usize>)
        ensures
            p == self.view().0.1,
    {
        self.text_edit.get_position()
    }

    pub fn get_content(&self) -> (r: String)
        ensures
            r@ == grid_string(self.grid()),
    {
        self.text_edit.get_content()
    }

    pub fn total_lines(&self) -> (n: usize)
        ensures
            n == self.grid().len(),
    {
        self.text_edit.total_lines()
    }

    /// Applies the commands in order; when any of them changes the content
    /// the listeners are told and their messages returned.
    pub fn process_commands(&mut self, commands: Vec<Command>) -> (r: Vec<XMSG>)
        requires
            commands_step(old(self).options().use_virtual_edit, old(self).view(), base_commands(commands@)).1,
            commands_step(old(self).options().use_virtual_edit, old(self).view(), base_commands(commands@)).2 ==> listeners_accept(
                old(self).change_listeners(),
                old(self).change_notify_listeners(),
                grid_string(commands_step(old(self).options().use_virtual_edit, old(self).view(), base_commands(commands@)).0.0.0),
            ),
        ensures
            final(self).view() == commands_step(old(self).options().use_virtual_edit, old(self).view(), base_commands(commands@)).0,
            same_setup(*old(self), *final(self)),
            commands_step(old(self).options().use_virtual_edit, old(self).view(), base_commands(commands@)).2 ==> emitted(
                final(self).change_listeners(),
                final(self).change_notify_listeners(),
                grid_string(final(self).grid()),
                r@,
            ),
            !commands_step(old(self).options().use_virtual_edit, old(self).view(), base_commands(commands@)).2 ==> r@.len() == 0,
    {
        let ghost cmds = commands@;
        let mut base: Vec<BaseCommand> = Vec::new();
        let mut commands = commands;
        let n: usize = commands.len();
        let mut k: usize = 0;
        assert(cmds.skip(0) =~= cmds);
        while commands.len() > 0
            invariant
                k <= n,
                cmds.len() == n,
                commands@ == cmds.skip(k as int),
                base@ == base_commands(cmds.take(k as int)),
            decreases commands@.len(),
        {
            let command = commands.remove(0);
            proof {
                assert(command == cmds[k as int]);
                assert(commands@ =~= cmds.skip(k + 1));
            }
            base.push(to_base_command(command));
            proof {
                assert(base_commands(cmds.take(k + 1)) =~= base_commands(cmds.take(k as int)).push(base_command(cmds[k as int])));
            }
            k = k + 1;
        }
        assert(cmds.take(k as int) =~= cmds);
        let changed = apply_commands(&mut self.text_edit, self.options.use_virtual_edit, base);
        if changed {
            self.content_has_changed()
        } else {
            Vec::new()
        }
    }

    pub fn process_command(&mut self, command: Command) -> (changed: bool)
        requires
            command_step(old(self).options().use_virtual_edit, old(self).view(), base_command(command)).1,
        ensures
            final(self).view() == command_step(old(self).options().use_virtual_edit, old(self).view(), base_command(command)).0,
            changed == command_step(old(self).options().use_virtual_edit, old(self).view(), base_command(command)).2,
            same_setup(*old(self), *final(self)),
    {
        let base = to_base_command(command);
        apply_command(&mut self.text_edit, self.options.use_virtual_edit, base)
    }

    pub fn selected_text(&self) -> (r: Option<String>)
        requires
            self.view().3 == SelectionMode::Linear ==> linear_selection_ok(self.grid(), self.view().1, self.view().2),
            self.view().3 == SelectionMode::Block ==> block_selection_ok(self.view().1, self.view().2),
        ensures
            opt_string_view(r) == (match self.view().3 {
                SelectionMode::Linear => linear_selected_text(self.grid(), self.view().1, self.view().2),
                SelectionMode::Block => block_selected_text(self.grid(), self.view().1, self.view().2),
            }),
    {
        self.text_edit.selected_text()
    }

    pub fn cut_selected_text(&mut self) -> (r: Option<String>)
        requires
            old(self).view().3 == SelectionMode::Linear ==> linear_selection_ok(
                old(self).grid(),
                old(self).view().1,
                old(self).view().2,
            ),
            old(self).view().3 == SelectionMode::Block ==> block_cut_ok(
                old(self).grid(),
                old(self).view().1,
                old(self).view().2,
            ),
        ensures
            old(self).edit().view_all() == old(self).view(),
            final(self).edit().view_all() == final(self).view(),
            same_setup(*old(self), *final(self)),
            old(self).view().3 == SelectionMode::Linear ==> cut_linear_done(old(self).edit(), final(self).edit(), r),
            old(self).view().3 == SelectionMode::Block ==> cut_block_done(old(self).edit(), final(self).edit(), r),
    {
        self.text_edit.cut_selected_text()
    }

    pub fn selected_text_block_mode(&self) -> (r: Option<String>)
        requires
            block_selection_ok(self.view().1, self.view().2),
        ensures
            opt_string_view(r) == block_selected_text(self.grid(), self.view().1, self.view().2),
    {
        self.text_edit.selected_text_in_block_mode()
    }

    pub fn cut_selected_text_block_mode(&mut self) -> (r: Option<String>)
        requires
            block_cut_ok(old(self).grid(), old(self).view().1, old(self).view().2),
        ensures
            old(self).edit().view_all() == old(self).view(),
            final(self).edit().view_all() == final(self).view(),
            same_setup(*old(self), *final(self)),
            cut_block_done(old(self).edit(), final(self).edit(), r),
    {
        self.text_edit.cut_selected_text_in_block_mode()
    }

    pub fn clear(&mut self)
        ensures
            final(self).view() == ((Seq::<Seq<Ch>>::empty(), old(self).view().0.1, Seq::<Seq<Action>>::empty(), Seq::<Seq<Action>>::empty()), None::<Point2<i32>>, None::<Point2<i32>>, old(self).view().3),
            same_setup(*old(self), *final(self)),
    {
        self.text_edit.clear();
    }

    /// call this when a command changes the text_edit content: the
    /// listeners are told and their messages returned.
    pub fn content_has_changed(&self) -> (r: Vec<XMSG>)
        requires
            listeners_accept(self.change_listeners(), self.change_notify_listeners(), grid_string(self.grid())),
        ensures
            emitted(self.change_listeners(), self.change_notify_listeners(), grid_string(self.grid()), r@),
    {
        emit_to_listeners(&self.change_listeners, &self.change_notify_listeners, &self.text_edit)
    }

    pub fn numberline_wide(&self) -> (n: usize)
        ensures
            n == decimal_len(self.grid().len()),
    {
        self.text_edit.numberline_wide()
    }
}

impl<XMSG: 'static> Editor<XMSG> {
    /// Attach a callback to this editor where it is invoked when the content is changed.
    ///
    /// Note:The content is extracted into string and used as a parameter to the function.
    /// This may be a costly operation when the editor has lot of text on it.
    pub fn on_change<F>(self, f: F) -> (r: Self) where F: Fn(String) -> XMSG + 'static
        ensures
            r.view() == self.view(),
            r.options() == self.options(),
            r.change_listeners().len() == self.change_listeners().len() + 1,
            r.change_listeners().take(self.change_listeners().len() as int) == self.change_listeners(),
            forall|i: String| r.change_listeners().last().accepts(i) == call_requires(f, (i,)),
            forall|i: String, o: XMSG| r.change_listeners().last().produces(i, o) ==> call_ensures(f, (i,), o),
            r.change_notify_listeners() == self.change_notify_listeners(),
    {
        let mut s = self;
        s.add_on_change_listener(f);
        s
    }

    pub fn add_on_change_listener<F>(&mut self, f: F) where F: Fn(String) -> XMSG + 'static
        ensures
            final(self).view() == old(self).view(),
            final(self).options() == old(self).options(),
            final(self).change_listeners().len() == old(self).change_listeners().len() + 1,
            final(self).change_listeners().take(old(self).change_listeners().len() as int) == old(self).change_listeners(),
            forall|i: String| final(self).change_listeners().last().accepts(i) == call_requires(f, (i,)),
            forall|i: String, o: XMSG| final(self).change_listeners().last().produces(i, o) ==> call_ensures(f, (i,), o),
            final(self).change_notify_listeners() == old(self).change_notify_listeners(),
    {
        let cb = Callback::from(f);
        self.change_listeners.push(cb);
        assert(self.change_listeners@.take(old(self).change_listeners@.len() as int) =~= old(self).change_listeners@);
    }

    /// Attach an callback to this editor where it is invoked when the content is changed.
    /// The callback function just notifies the parent component that uses the Editor component.
    /// It will be up to the parent component to extract the content of the editor manually.
    pub fn on_change_notify<F>(self, f: F) -> (r: Self) where F: Fn(()) -> XMSG + 'static
        ensures
            r.view() == self.view(),
            r.options() == self.options(),
            r.change_listeners() == self.change_listeners(),
            r.change_notify_listeners().len() == self.change_notify_listeners().len() + 1,
            r.change_notify_listeners().take(self.change_notify_listeners().len() as int) == self.change_notify_listeners(),
            r.change_notify_listeners().last().accepts(()) == call_requires(f, ((),)),
            forall|o: XMSG| r.change_notify_listeners().last().produces((), o) ==> call_ensures(f, ((),), o),
    {
        let mut s = self;
        s.add_on_change_notify(f);
        s
    }

    pub fn add_on_change_notify<F>(&mut self, f: F) where F: Fn(()) -> XMSG + 'static
        ensures
            final(self).view() == old(self).view(),
            final(self).options() == old(self).options(),
            final(self).change_listeners() == old(self).change_listeners(),
            final(self).change_notify_listeners().len() == old(self).change_notify_listeners().len() + 1,
            final(self).change_notify_listeners().take(old(self).change_notify_listeners().len() as int) == old(self).change_notify_listeners(),
            final(self).change_notify_listeners().last().accepts(()) == call_requires(f, ((),)),
            forall|o: XMSG| final(self).change_notify_listeners().last().produces((), o) ==> call_ensures(f, ((),), o),
    {
        let cb = Callback::from(f);
        self.change_notify_listeners.push(cb);
        assert(self.change_notify_listeners@.take(old(self).change_notify_listeners@.len() as int) =~= old(self).change_notify_listeners@);
    }
}

} // verus!
