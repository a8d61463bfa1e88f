//! The key map of the editor that draws itself in a web page on top of an
//! `Editor`: a key press becomes an editor command or a clipboard call.
use vstd::prelude::*;

use crate::editor::Command as EditorCommand;
use crate::web_editor::{key_chars, key_is};

verus! {

/// What a key press asks of the editor.
#[derive(Debug)]
pub enum Command {
    EditorCommand(EditorCommand),
    PasteText,
    CopyText,
    CutText,
}

/// The editor command a key with a name of more than one character gives,
/// if any.
pub open spec fn named_key_editor_command(key: Seq<char>) -> Option<EditorCommand> {
    if key == "Tab"@ {
        Some(EditorCommand::IndentForward)
    } else if key == "Enter"@ {
        Some(EditorCommand::BreakLine)
    } else if key == "Backspace"@ {
        Some(EditorCommand::DeleteBack)
    } else if key == "Delete"@ {
        Some(EditorCommand::DeleteForward)
    } else if key == "ArrowUp"@ {
        Some(EditorCommand::MoveUp)
    } else if key == "ArrowDown"@ {
        Some(EditorCommand::MoveDown)
    } else if key == "ArrowLeft"@ {
        Some(EditorCommand::MoveLeft)
    } else if key == "ArrowRight"@ {
        Some(EditorCommand::MoveRight)
    } else {
        None
    }
}

/// `command` is what a press of the key named `key` asks for: a single
/// character is typed, unless it is one of the control shortcuts (copy,
/// cut, paste, undo, redo, select all); a named key moves or edits.
pub open spec fn is_key_command(key: Seq<char>, is_ctrl: bool, is_shift: bool, command: Option<Command>) -> bool {
    if key.len() == 1 {
        let c = key[0];
        if is_ctrl && c == 'c' {
            command == Some(Command::CopyText)
        } else if is_ctrl && c == 'x' {
            command == Some(Command::CutText)
        } else if is_ctrl && c == 'v' {
            command == Some(Command::PasteText)
        } else if is_ctrl && (c == 'z' || c == 'Z') {
            command == Some(Command::EditorCommand(if is_shift { EditorCommand::Redo } else { EditorCommand::Undo }))
        } else if is_ctrl && c == 'a' {
            command == Some(Command::EditorCommand(EditorCommand::SelectAll))
        } else {
            command == Some(Command::EditorCommand(EditorCommand::InsertChar(c)))
        }
    } else {
        command == match named_key_editor_command(key) {
            Some(c) => Some(Command::EditorCommand(c)),
            None => None,
        }
    }
}

fn named_key(key: &str) -> (r: Option<EditorCommand>)
    ensures
        r == named_key_editor_command(key@),
{
    if key_is(key, "Tab") {
        Some(EditorCommand::IndentForward)
    } else if key_is(key, "Enter") {
        Some(EditorCommand::BreakLine)
    } else if key_is(key, "Backspace") {
        Some(EditorCommand::DeleteBack)
    } else if key_is(key, "Delete") {
        Some(EditorCommand::DeleteForward)
    } else if key_is(key, "ArrowUp") {
        Some(EditorCommand::MoveUp)
    } else if key_is(key, "ArrowDown") {
        Some(EditorCommand::MoveDown)
    } else if key_is(key, "ArrowLeft") {
        Some(EditorCommand::MoveLeft)
    } else if key_is(key, "ArrowRight") {
        Some(EditorCommand::MoveRight)
    } else {
        None
    }
}

/// The command a press of the key named `key` asks for, with the control
/// and shift keys held or not.
pub fn keyevent_to_command(key: &str, is_ctrl: bool, is_shift: bool) -> (r: Option<Command>)
    ensures
        is_key_command(key@, is_ctrl, is_shift, r),
{
    let chars = key_chars(key);
    if chars.len() == 1 {
        let c = chars[0];
        let command = if is_ctrl && c == 'c' {
            Command::CopyText
        } else if is_ctrl && c == 'x' {
            Command::CutText
        } else if is_ctrl && c == 'v' {
            Command::PasteText
        } else if is_ctrl && (c == 'z' || c == 'Z') {
            if is_shift {
                Command::EditorCommand(EditorCommand::Redo)
            } else {
                Command::EditorCommand(EditorCommand::Undo)
            }
        } else if is_ctrl && c == 'a' {
            Command::EditorCommand(EditorCommand::SelectAll)
        } else {
            Command::EditorCommand(EditorCommand::InsertChar(c))
        };
        Some(command)
    } else {
        match named_key(key) {
            Some(command) => Some(Command::EditorCommand(command)),
            None => None,
        }
    }
}

} // verus!
