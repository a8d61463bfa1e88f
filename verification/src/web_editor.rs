//! What the editor decides on input from a web page: the call a key press
//! makes, and what pointer presses and moves do to the cursor and the
//! selection. The page itself (its events, its measurements, the clipboard)
//! lies outside; it hands over the key's name and the grid position.
use vstd::prelude::*;

use crate::base_editor::{command_effect, command_step, commands_step, BaseEditor, Callback, Command};
use crate::point::Point2;
use crate::text_edit::EditorView;

verus! {

/// The look of the mouse pointer over the editor.
#[derive(Debug, Clone, Copy, PartialEq, Eq)]
pub enum MouseCursor {
    Text,
    Move,
    Pointer,
    CrossHair,
}

impl MouseCursor {
    pub fn default() -> (r: Self)
        ensures
            r == MouseCursor::Text,
    {
        MouseCursor::Text
    }

    /// The CSS name of the pointer's look.
    pub fn to_str(&self) -> (r: &'static str)
        ensures
            r@ == (match *self {
                MouseCursor::Text => "text"@,
                MouseCursor::Move => "move"@,
                MouseCursor::Pointer => "default"@,
                MouseCursor::CrossHair => "crosshair"@,
            }),
    {
        match self {
            MouseCursor::Text => "text",
            MouseCursor::Move => "move",
            MouseCursor::Pointer => "default",
            MouseCursor::CrossHair => "crosshair",
        }
    }
}

/// A call the web editor makes on a key press.
#[derive(Debug)]
pub enum Call {
    Command(Command),
    /// execute paste text
    PasteTextBlock(String),
    MergeText(String),
    /// execute copy text
    CopyText,
    /// execute cut text
    CutText,
}

/// The command a key with a name of more than one character gives, if any.
pub open spec fn named_key_command(key: Seq<char>) -> Option<Command> {
    if key == "Tab"@ {
        Some(Command::IndentForward)
    } else if key == "Enter"@ {
        Some(Command::BreakLine)
    } else if key == "Backspace"@ {
        Some(Command::DeleteBack)
    } else if key == "Delete"@ {
        Some(Command::DeleteForward)
    } else if key == "ArrowUp"@ {
        Some(Command::MoveUp)
    } else if key == "ArrowDown"@ {
        Some(Command::MoveDown)
    } else if key == "ArrowLeft"@ {
        Some(Command::MoveLeft)
    } else if key == "ArrowRight"@ {
        Some(Command::MoveRight)
    } else if key == "Home"@ {
        Some(Command::MoveLeftStart)
    } else if key == "End"@ {
        Some(Command::MoveRightEnd)
    } else {
        None
    }
}

/// `call` is what a press of the key named `key` makes: a single character
/// is typed, unless it is one of the control shortcuts (copy, cut, paste,
/// undo, redo, select all); a named key moves or edits.
pub open spec fn is_key_call(key: Seq<char>, is_ctrl: bool, is_shift: bool, call: Option<Call>) -> bool {
    if key.len() == 1 {
        let c = key[0];
        if is_ctrl && c == 'c' {
            call == Some(Call::CopyText)
        } else if is_ctrl && c == 'x' {
            call == Some(Call::CutText)
        } else if is_ctrl && c == 'v' {
            call matches Some(Call::PasteTextBlock(text)) && text@ == Seq::<char>::empty()
        } else if is_ctrl && (c == 'z' || c == 'Z') {
            call == Some(Call::Command(if is_shift { Command::Redo } else { Command::Undo }))
        } else if is_ctrl && c == 'r' {
            call == Some(Call::Command(Command::Redo))
        } else if is_ctrl && c == 'a' {
            call == Some(Call::Command(Command::SelectAll))
        } else {
            call == Some(Call::Command(Command::InsertChar(c)))
        }
    } else {
        call == match named_key_command(key) {
            Some(command) => Some(Call::Command(command)),
            None => None,
        }
    }
}

/// The characters of `s`, in order.
pub(crate) fn key_chars(s: &str) -> (v: Vec<char>)
    ensures
        v@ == s@,
{
    let mut v: Vec<char> = Vec::new();
    for c in it: s.chars()
        invariant
            it.seq() == s@,
            v@ == s@.take(it.index() as int),
    {
        assert(s@.take(it.index() + 1) =~= s@.take(it.index() as int).push(c));
        v.push(c);
    }
    assert(s@.take(s@.len() as int) =~= s@);
    v
}

/// Whether the key is named `name`.
pub(crate) fn key_is(key: &str, name: &str) -> (b: bool)
    ensures
        b == (key@ == name@),
{
    let a: String = key.to_owned();
    let b: String = name.to_owned();
    a == b
}

fn named_key(key: &str) -> (r: Option<Command>)
    ensures
        r == named_key_command(key@),
{
    if key_is(key, "Tab") {
        Some(Command::IndentForward)
    } else if key_is(key, "Enter") {
        Some(Command::BreakLine)
    } else if key_is(key, "Backspace") {
        Some(Command::DeleteBack)
    } else if key_is(key, "Delete") {
        Some(Command::DeleteForward)
    } else if key_is(key, "ArrowUp") {
        Some(Command::MoveUp)
    } else if key_is(key, "ArrowDown") {
        Some(Command::MoveDown)
    } else if key_is(key, "ArrowLeft") {
        Some(Command::MoveLeft)
    } else if key_is(key, "ArrowRight") {
        Some(Command::MoveRight)
    } else if key_is(key, "Home") {
        Some(Command::MoveLeftStart)
    } else if key_is(key, "End") {
        Some(Command::MoveRightEnd)
    } else {
        None
    }
}

/// The call a press of the key named `key` makes, with the control and
/// shift keys held or not.
pub fn keyevent_to_call(key: &str, is_ctrl: bool, is_shift: bool) -> (r: Option<Call>)
    ensures
        is_key_call(key@, is_ctrl, is_shift, r),
{
    let chars = key_chars(key);
    if chars.len() == 1 {
        let c = chars[0];
        let call = if is_ctrl && c == 'c' {
            Call::CopyText
        } else if is_ctrl && c == 'x' {
            Call::CutText
        } else if is_ctrl && c == 'v' {
            Call::PasteTextBlock(String::new())
        } else if is_ctrl && (c == 'z' || c == 'Z') {
            if is_shift {
                Call::Command(Command::Redo)
            } else {
                Call::Command(Command::Undo)
            }
        } else if is_ctrl && c == 'r' {
            Call::Command(Command::Redo)
        } else if is_ctrl && c == 'a' {
            Call::Command(Command::SelectAll)
        } else {
            Call::Command(Command::InsertChar(c))
        };
        Some(call)
    } else {
        match named_key(key) {
            Some(command) => Some(Call::Command(command)),
            None => None,
        }
    }
}

/// A press, move or release of the pointer, at a position of the grid
/// (negative coordinates already moved to the edge), with whether the
/// primary button is the one pressed or released.
#[derive(Debug, Clone, Copy)]
pub enum PointerEvent {
    Click(Point2<i32>),
    Down(Point2<i32>, bool),
    Move(Point2<i32>),
    Up(Point2<i32>, bool),
}

/// What a pointer event does to the editor's view and to whether a
/// selection is being made: the view and that flag afterwards.
pub open spec fn pointer_step(
    virtual_edit: bool,
    v: EditorView,
    is_selecting: bool,
    allow_text_selection: bool,
    show_context_menu: bool,
    event: PointerEvent,
) -> (EditorView, bool) {
    match event {
        PointerEvent::Click(cursor) => (command_step(virtual_edit, v, Command::SetPosition(cursor)).0, is_selecting),
        PointerEvent::Down(cursor, primary) => {
            if primary {
                let selecting = is_selecting || allow_text_selection;
                let v1 = if allow_text_selection && selecting && !show_context_menu {
                    (v.0, Some(cursor), v.2, v.3)
                } else {
                    v
                };
                (command_step(virtual_edit, v1, Command::SetPosition(cursor)).0, selecting)
            } else {
                (v, is_selecting)
            }
        },
        PointerEvent::Move(cursor) => {
            if allow_text_selection && is_selecting && !show_context_menu && v.1 is Some {
                ((v.0, v.1, Some(cursor), v.3), is_selecting)
            } else {
                (v, is_selecting)
            }
        },
        PointerEvent::Up(cursor, primary) => {
            if primary {
                let v1 = command_step(virtual_edit, v, Command::SetPosition(cursor)).0;
                if is_selecting {
                    ((v1.0, v1.1, Some(cursor), v1.3), false)
                } else {
                    (v1, is_selecting)
                }
            } else {
                (v, is_selecting)
            }
        },
    }
}

proof fn lemma_one_command(virtual_edit: bool, v: EditorView, command: Command)
    ensures
        commands_step(virtual_edit, v, seq![command]) == ({
            let r = command_step(virtual_edit, v, command);
            (r.0, r.1, r.2)
        }),
{
    assert(seq![command].drop_last() =~= Seq::<Command>::empty());
    assert(commands_step(virtual_edit, v, Seq::<Command>::empty()) == (v, true, false));
}

proof fn lemma_moves_and_selections(virtual_edit: bool, v: EditorView, cursor: Point2<i32>, start: Point2<i32>)
    ensures
        command_step(virtual_edit, v, Command::SetPosition(cursor)).1,
        !command_step(virtual_edit, v, Command::SetPosition(cursor)).2,
        command_step(virtual_edit, v, Command::SetPosition(cursor)).0.1 == v.1,
        command_step(virtual_edit, v, Command::SetPosition(cursor)).0.2 == v.2,
        command_step(virtual_edit, v, Command::SetPosition(cursor)).0.3 == v.3,
        command_step(virtual_edit, v, Command::SetSelection(start, cursor)) == ((v.0, Some(start), Some(cursor), v.3), true, false),
{
    reveal(command_effect);
}

impl<XMSG> BaseEditor<XMSG> {
    /// How many columns the line numbers take, with one column of padding,
    /// when they are shown.
    pub fn numberline_wide_with_padding(&self, show_line_numbers: bool) -> (n: usize)
        ensures
            n == (if show_line_numbers { crate::text_buffer::decimal_len(self.grid().len()) + 1 } else { 0 }),
    {
        if show_line_numbers {
            let wide = self.numberline_wide();
            let buffer = self.text_buffer();
            proof {
                buffer.lemma_len_bound();
                crate::text_buffer::lemma_decimal_len_usize(self.grid().len());
            }
            wide + 1
        } else {
            0
        }
    }

    /// Runs `command` on the editor as a batch of its own; it can be taken
    /// and changes no content, so that no listener is told.
    fn run_move(&mut self, command: Command)
        requires
            commands_step(old(self).options().use_virtual_edit, old(self).view(), seq![command]).1,
            !commands_step(old(self).options().use_virtual_edit, old(self).view(), seq![command]).2,
        ensures
            final(self).view() == commands_step(old(self).options().use_virtual_edit, old(self).view(), seq![command]).0,
            crate::base_editor::same_setup(*old(self), *final(self)),
    {
        let mut commands: Vec<Command> = Vec::new();
        commands.push(command);
        assert(commands@ =~= seq![command]);
        let _ = self.process_commands(commands);
    }

    /// What a pointer event does while the editor is ready: a click moves
    /// the cursor there; a primary press moves it there and, where text can
    /// be selected and no context menu shows, starts a selection there; a
    /// move while selecting stretches the selection to it; a primary release
    /// moves the cursor there and ends the selection there. `is_selecting`
    /// tells whether a selection is being made. No content changes, so no
    /// listener is told.
    pub fn process_pointer(
        &mut self,
        is_selecting: &mut bool,
        allow_text_selection: bool,
        show_context_menu: bool,
        event: PointerEvent,
    )
        ensures
            (final(self).view(), *final(is_selecting)) == pointer_step(
                old(self).options().use_virtual_edit,
                old(self).view(),
                *old(is_selecting),
                allow_text_selection,
                show_context_menu,
                event,
            ),
            crate::base_editor::same_setup(*old(self), *final(self)),
    {
        let ghost ve = self.options().use_virtual_edit;
        match event {
            PointerEvent::Click(cursor) => {
                proof {
                    lemma_one_command(ve, self.view(), Command::SetPosition(cursor));
                    lemma_moves_and_selections(ve, self.view(), cursor, cursor);
                }
                self.run_move(Command::SetPosition(cursor));
            },
            PointerEvent::Down(cursor, primary) => {
                if primary {
                    if allow_text_selection {
                        *is_selecting = true;
                    }
                    if allow_text_selection && *is_selecting && !show_context_menu {
                        self.set_selection_start(cursor);
                    }
                    proof {
                        lemma_one_command(ve, self.view(), Command::SetPosition(cursor));
                        lemma_moves_and_selections(ve, self.view(), cursor, cursor);
                    }
                    self.run_move(Command::SetPosition(cursor));
                }
            },
            PointerEvent::Move(cursor) => {
                if allow_text_selection && *is_selecting && !show_context_menu {
                    if let Some(start) = self.selection().start {
                        self.set_selection_end(cursor);
                        proof {
                            lemma_one_command(ve, self.view(), Command::SetSelection(start, cursor));
                            lemma_moves_and_selections(ve, self.view(), cursor, start);
                        }
                        self.run_move(Command::SetSelection(start, cursor));
                    }
                }
            },
            PointerEvent::Up(cursor, primary) => {
                if primary {
                    proof {
                        lemma_one_command(ve, self.view(), Command::SetPosition(cursor));
                        lemma_moves_and_selections(ve, self.view(), cursor, cursor);
                    }
                    self.run_move(Command::SetPosition(cursor));
                    if *is_selecting {
                        *is_selecting = false;
                        self.set_selection_end(cursor);
                        let selection = self.selection();
                        if let (Some(start), Some(end)) = (selection.start, selection.end) {
                            proof {
                                lemma_one_command(ve, self.view(), Command::SetSelection(start, end));
                                lemma_moves_and_selections(ve, self.view(), end, start);
                            }
                            self.run_move(Command::SetSelection(start, end));
                        }
                    }
                }
            },
        }
    }
}

/// An action picked from the editor's context menu.
#[derive(Debug, Clone, Copy, PartialEq, Eq)]
pub enum MenuAction {
    Undo,
    Redo,
    Cut,
    Copy,
    Paste,
    Delete,
    SelectAll,
}

/// The call a menu action makes; pasting and deleting from the menu are not
/// offered.
pub open spec fn menu_call(action: MenuAction) -> Call {
    match action {
        MenuAction::Undo => Call::Command(Command::Undo),
        MenuAction::Redo => Call::Command(Command::Redo),
        MenuAction::Cut => Call::CutText,
        MenuAction::Copy => Call::CopyText,
        _ => Call::Command(Command::SelectAll),
    }
}

/// The call the web editor makes for an action picked from its context
/// menu: undo, redo and select all go to the editor as commands, cut and
/// copy go through the clipboard.
pub fn menu_action_to_call(action: MenuAction) -> (r: Call)
    requires
        action != MenuAction::Paste,
        action != MenuAction::Delete,
    ensures
        r == menu_call(action),
{
    match action {
        MenuAction::Undo => Call::Command(Command::Undo),
        MenuAction::Redo => Call::Command(Command::Redo),
        MenuAction::Cut => Call::CutText,
        MenuAction::Copy => Call::CopyText,
        _ => Call::Command(Command::SelectAll),
    }
}

/// What the web editor waits for before it is ready: the element it draws
/// in to be mounted, and the fonts to be loaded and measured.
#[derive(Debug, Clone, Copy, PartialEq, Eq)]
pub enum ReadyEvent {
    Mounted,
    FontsReady,
}

/// Whether the fonts are ready and whether the editor is mounted, after
/// `event`.
pub open spec fn ready_step(fonts_ready: bool, mounted: bool, event: ReadyEvent) -> (bool, bool) {
    match event {
        ReadyEvent::Mounted => (fonts_ready, true),
        ReadyEvent::FontsReady => (true, mounted),
    }
}

/// `msgs` holds, in order, what each listener may give back when told the
/// editor is ready.
pub open spec fn told_ready<XMSG>(listeners: Seq<Callback<(), XMSG>>, msgs: Seq<XMSG>) -> bool {
    &&& msgs.len() == listeners.len()
    &&& forall|i: int| 0 <= i < listeners.len() ==> #[trigger] listeners[i].produces((), msgs[i])
}

/// The readiness of the web editor, and the listeners told when it is
/// ready.
#[verifier::reject_recursive_types(XMSG)]
pub struct Readiness<XMSG> {
    is_fonts_ready: bool,
    is_mounted: bool,
    /// emitted when the editor is ready
    ready_listener: Vec<Callback<(), XMSG>>,
}

impl<XMSG> Readiness<XMSG> {
    /// Whether the fonts are loaded and measured.
    pub closed spec fn fonts_ready(&self) -> bool {
        self.is_fonts_ready
    }

    /// Whether the editor's element is mounted.
    pub closed spec fn mounted(&self) -> bool {
        self.is_mounted
    }

    /// The listeners told when the editor is ready.
    pub closed spec fn listeners(&self) -> Seq<Callback<(), XMSG>> {
        self.ready_listener@
    }

    /// Every listener takes `()`.
    pub open spec fn listeners_take_unit(&self) -> bool {
        forall|i: int| 0 <= i < self.listeners().len() ==> #[trigger] self.listeners()[i].accepts(())
    }

    pub fn new() -> (r: Self)
        ensures
            !r.fonts_ready(),
            !r.mounted(),
            r.listeners().len() == 0,
    {
        Readiness { is_fonts_ready: false, is_mounted: false, ready_listener: Vec::new() }
    }

    /// returns true if the editor is ready
    pub fn is_ready(&self) -> (b: bool)
        ensures
            b == (self.fonts_ready() && self.mounted()),
    {
        self.is_fonts_ready && self.is_mounted
    }

    /// Tells each listener, in order, that the editor is ready, when it is;
    /// returns their messages.
    fn try_ready_listener(&self) -> (r: Vec<XMSG>)
        requires
            self.listeners_take_unit(),
        ensures
            self.fonts_ready() && self.mounted() ==> told_ready(self.listeners(), r@),
            !(self.fonts_ready() && self.mounted()) ==> r@.len() == 0,
    {
        let mut msgs: Vec<XMSG> = Vec::new();
        if self.is_ready() {
            let mut i: usize = 0;
            while i < self.ready_listener.len()
                invariant
                    i <= self.ready_listener@.len(),
                    msgs@.len() == i,
                    self.listeners_take_unit(),
                    forall|j: int| 0 <= j < i ==> #[trigger] self.ready_listener@[j].produces((), msgs@[j]),
                decreases self.ready_listener@.len() - i,
            {
                assert(self.listeners()[i as int].accepts(()));
                let msg = self.ready_listener[i].emit(());
                msgs.push(msg);
                i = i + 1;
            }
        }
        msgs
    }

    /// Takes note of `event`; once the editor is ready, each event tells the
    /// listeners so and returns their messages.
    pub fn process_event(&mut self, event: ReadyEvent) -> (r: Vec<XMSG>)
        requires
            old(self).listeners_take_unit(),
        ensures
            (final(self).fonts_ready(), final(self).mounted()) == ready_step(
                old(self).fonts_ready(),
                old(self).mounted(),
                event,
            ),
            final(self).listeners() == old(self).listeners(),
            final(self).fonts_ready() && final(self).mounted() ==> told_ready(final(self).listeners(), r@),
            !(final(self).fonts_ready() && final(self).mounted()) ==> r@.len() == 0,
    {
        match event {
            ReadyEvent::Mounted => {
                self.is_mounted = true;
            },
            ReadyEvent::FontsReady => {
                self.is_fonts_ready = true;
            },
        }
        assert(self.listeners() == old(self).listeners());
        self.try_ready_listener()
    }
}

impl<XMSG: 'static> Readiness<XMSG> {
    /// Adds `f` to the listeners told when the editor is ready.
    pub fn on_ready<F>(&mut self, f: F) where F: Fn() -> XMSG + 'static
        ensures
            final(self).fonts_ready() == old(self).fonts_ready(),
            final(self).mounted() == old(self).mounted(),
            final(self).listeners().len() == old(self).listeners().len() + 1,
            final(self).listeners().take(old(self).listeners().len() as int) == old(self).listeners(),
            call_requires(f, ()) ==> final(self).listeners().last().accepts(()),
            forall|o: XMSG| final(self).listeners().last().produces((), o) ==> call_ensures(f, (), o),
    {
        let cb = Callback::from_thunk(f);
        self.ready_listener.push(cb);
        assert(self.ready_listener@.take(old(self).ready_listener@.len() as int) =~= old(self).ready_listener@);
    }
}

} // verus!
