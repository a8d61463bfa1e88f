use ultron_core::base_editor::{BaseEditor, Command};
use ultron_core::editor_web::{keyevent_to_command, Command as WebCommand};
use ultron_core::web_editor::{
    keyevent_to_call, menu_action_to_call, Call, MenuAction, MouseCursor, PointerEvent, ReadyEvent, Readiness,
};
use ultron_core::editor::Command as EditorCommand;
use ultron_core::{BaseOptions, Point2};

#[test]
fn a_character_key_types_it() {
    assert!(matches!(keyevent_to_call("a", false, false), Some(Call::Command(Command::InsertChar('a')))));
    assert!(matches!(keyevent_to_call("文", false, true), Some(Call::Command(Command::InsertChar('文')))));
}

#[test]
fn control_shortcuts() {
    assert!(matches!(keyevent_to_call("c", true, false), Some(Call::CopyText)));
    assert!(matches!(keyevent_to_call("x", true, false), Some(Call::CutText)));
    match keyevent_to_call("v", true, false) {
        Some(Call::PasteTextBlock(text)) => assert_eq!(text, ""),
        _ => panic!("ctrl-v pastes"),
    }
    assert!(matches!(keyevent_to_call("z", true, false), Some(Call::Command(Command::Undo))));
    assert!(matches!(keyevent_to_call("Z", true, true), Some(Call::Command(Command::Redo))));
    assert!(matches!(keyevent_to_call("r", true, false), Some(Call::Command(Command::Redo))));
    assert!(matches!(keyevent_to_call("a", true, false), Some(Call::Command(Command::SelectAll))));
    assert!(matches!(keyevent_to_call("q", true, false), Some(Call::Command(Command::InsertChar('q')))));
}

#[test]
fn named_keys() {
    assert!(matches!(keyevent_to_call("Tab", false, false), Some(Call::Command(Command::IndentForward))));
    assert!(matches!(keyevent_to_call("Enter", false, false), Some(Call::Command(Command::BreakLine))));
    assert!(matches!(keyevent_to_call("Backspace", false, false), Some(Call::Command(Command::DeleteBack))));
    assert!(matches!(keyevent_to_call("Delete", false, false), Some(Call::Command(Command::DeleteForward))));
    assert!(matches!(keyevent_to_call("ArrowUp", false, false), Some(Call::Command(Command::MoveUp))));
    assert!(matches!(keyevent_to_call("ArrowDown", false, false), Some(Call::Command(Command::MoveDown))));
    assert!(matches!(keyevent_to_call("ArrowLeft", false, false), Some(Call::Command(Command::MoveLeft))));
    assert!(matches!(keyevent_to_call("ArrowRight", false, false), Some(Call::Command(Command::MoveRight))));
    assert!(matches!(keyevent_to_call("Home", false, false), Some(Call::Command(Command::MoveLeftStart))));
    assert!(matches!(keyevent_to_call("End", false, false), Some(Call::Command(Command::MoveRightEnd))));
    assert!(keyevent_to_call("Shift", false, true).is_none());
    assert!(keyevent_to_call("", false, false).is_none());
}

#[test]
fn dragging_the_pointer_selects() {
    let mut editor: BaseEditor<()> = BaseEditor::from_str(&BaseOptions::default(), "Hello\nworld");
    let mut selecting = false;
    editor.process_pointer(&mut selecting, true, false, PointerEvent::Down(Point2::new(1, 0), true));
    assert!(selecting);
    assert_eq!(editor.get_position(), Point2::new(1, 0));
    editor.process_pointer(&mut selecting, true, false, PointerEvent::Move(Point2::new(2, 1)));
    assert_eq!(editor.selection().end, Some(Point2::new(2, 1)));
    editor.process_pointer(&mut selecting, true, false, PointerEvent::Up(Point2::new(3, 1), true));
    assert!(!selecting);
    assert_eq!(editor.get_position(), Point2::new(3, 1));
    assert_eq!(editor.selection().start, Some(Point2::new(1, 0)));
    assert_eq!(editor.selection().end, Some(Point2::new(3, 1)));
    assert_eq!(editor.selected_text(), Some("ello\nworl".to_string()));
}

#[test]
fn no_selection_when_text_selection_is_off_or_a_menu_shows() {
    let mut editor: BaseEditor<()> = BaseEditor::from_str(&BaseOptions::default(), "Hello");
    let mut selecting = false;
    editor.process_pointer(&mut selecting, false, false, PointerEvent::Down(Point2::new(2, 0), true));
    assert!(!selecting);
    assert_eq!(editor.selection().start, None);
    editor.process_pointer(&mut selecting, true, true, PointerEvent::Down(Point2::new(3, 0), true));
    assert!(selecting);
    assert_eq!(editor.selection().start, None);
    editor.process_pointer(&mut selecting, true, false, PointerEvent::Down(Point2::new(4, 0), false));
    assert_eq!(editor.get_position(), Point2::new(3, 0));
    editor.process_pointer(&mut selecting, true, false, PointerEvent::Click(Point2::new(9, 0)));
    assert_eq!(editor.get_position(), Point2::new(4, 0));
}

#[test]
fn numberline_padding() {
    let editor: BaseEditor<()> = BaseEditor::from_str(&BaseOptions::default(), "1\n2\n3\n4\n5\n6\n7\n8\n9\n10\n11");
    assert_eq!(editor.numberline_wide_with_padding(true), 3);
    assert_eq!(editor.numberline_wide_with_padding(false), 0);
}

#[test]
fn mouse_cursor_names() {
    assert_eq!(MouseCursor::default().to_str(), "text");
    assert_eq!(MouseCursor::Move.to_str(), "move");
    assert_eq!(MouseCursor::Pointer.to_str(), "default");
    assert_eq!(MouseCursor::CrossHair.to_str(), "crosshair");
}

#[test]
fn menu_actions_make_calls() {
    assert!(matches!(menu_action_to_call(MenuAction::Undo), Call::Command(Command::Undo)));
    assert!(matches!(menu_action_to_call(MenuAction::Redo), Call::Command(Command::Redo)));
    assert!(matches!(menu_action_to_call(MenuAction::Cut), Call::CutText));
    assert!(matches!(menu_action_to_call(MenuAction::Copy), Call::CopyText));
    assert!(matches!(menu_action_to_call(MenuAction::SelectAll), Call::Command(Command::SelectAll)));
}

#[test]
fn ready_listeners_wait_for_fonts_and_mount() {
    let mut readiness: Readiness<&'static str> = Readiness::new();
    readiness.on_ready(|| "ready");
    readiness.on_ready(|| "set");
    assert!(!readiness.is_ready());
    assert!(readiness.process_event(ReadyEvent::Mounted).is_empty());
    assert!(!readiness.is_ready());
    assert_eq!(readiness.process_event(ReadyEvent::FontsReady), vec!["ready", "set"]);
    assert!(readiness.is_ready());
    assert_eq!(readiness.process_event(ReadyEvent::Mounted), vec!["ready", "set"]);

    let mut fonts_first: Readiness<u8> = Readiness::new();
    fonts_first.on_ready(|| 7);
    assert!(fonts_first.process_event(ReadyEvent::FontsReady).is_empty());
    assert_eq!(fonts_first.process_event(ReadyEvent::Mounted), vec![7]);
}

#[test]
fn web_editor_keys_make_commands() {
    assert!(matches!(
        keyevent_to_command("a", false, false),
        Some(WebCommand::EditorCommand(EditorCommand::InsertChar('a')))
    ));
    assert!(matches!(keyevent_to_command("c", true, false), Some(WebCommand::CopyText)));
    assert!(matches!(keyevent_to_command("x", true, false), Some(WebCommand::CutText)));
    assert!(matches!(keyevent_to_command("v", true, false), Some(WebCommand::PasteText)));
    assert!(matches!(keyevent_to_command("z", true, false), Some(WebCommand::EditorCommand(EditorCommand::Undo))));
    assert!(matches!(keyevent_to_command("Z", true, true), Some(WebCommand::EditorCommand(EditorCommand::Redo))));
    assert!(matches!(keyevent_to_command("a", true, false), Some(WebCommand::EditorCommand(EditorCommand::SelectAll))));
    assert!(matches!(
        keyevent_to_command("r", true, false),
        Some(WebCommand::EditorCommand(EditorCommand::InsertChar('r')))
    ));
    assert!(matches!(keyevent_to_command("Tab", false, false), Some(WebCommand::EditorCommand(EditorCommand::IndentForward))));
    assert!(matches!(keyevent_to_command("Enter", false, false), Some(WebCommand::EditorCommand(EditorCommand::BreakLine))));
    assert!(matches!(keyevent_to_command("Backspace", false, false), Some(WebCommand::EditorCommand(EditorCommand::DeleteBack))));
    assert!(matches!(keyevent_to_command("Delete", false, false), Some(WebCommand::EditorCommand(EditorCommand::DeleteForward))));
    assert!(matches!(keyevent_to_command("ArrowUp", false, false), Some(WebCommand::EditorCommand(EditorCommand::MoveUp))));
    assert!(matches!(keyevent_to_command("ArrowRight", false, false), Some(WebCommand::EditorCommand(EditorCommand::MoveRight))));
    assert!(keyevent_to_command("Home", false, false).is_none());
    assert!(keyevent_to_command("Shift", false, true).is_none());
}
