use ultron_core::base_editor::{BaseEditor, Command};
use ultron_core::{BaseOptions, Point2, TextBuffer, TextEdit};

fn editor_at(raw: &str, x: i32, y: i32) -> BaseEditor<()> {
    let mut editor: BaseEditor<()> = BaseEditor::from_str(&BaseOptions::default(), raw);
    editor.process_command(Command::SetPosition(Point2::new(x, y)));
    editor
}

#[test]
fn undo_insert_char_gives_content_back() {
    let mut editor = editor_at("Hello world", 5, 0);
    editor.process_command(Command::BumpHistory);
    editor.process_command(Command::InsertChar('X'));
    assert_eq!(editor.get_content(), "HelloX world");
    assert_eq!(editor.get_position(), Point2::new(6, 0));
    editor.process_command(Command::Undo);
    assert_eq!(editor.get_content(), "Hello world");
    assert_eq!(editor.get_position(), Point2::new(5, 0));
    editor.process_command(Command::Redo);
    assert_eq!(editor.get_content(), "HelloX world");
}

#[test]
fn undo_delete_forward_gives_content_back() {
    let mut editor = editor_at("Hello world", 0, 0);
    editor.process_command(Command::BumpHistory);
    editor.process_command(Command::DeleteForward);
    assert_eq!(editor.get_content(), "ello world");
    editor.process_command(Command::Undo);
    assert_eq!(editor.get_content(), "Hello world");
    assert_eq!(editor.get_position(), Point2::new(0, 0));
    editor.process_command(Command::Redo);
    assert_eq!(editor.get_content(), "ello world");
}

#[test]
fn undo_replace_char_gives_content_back() {
    let mut editor = editor_at("Hello", 1, 0);
    editor.process_command(Command::BumpHistory);
    editor.process_command(Command::ReplaceChar('a'));
    assert_eq!(editor.get_content(), "Hallo");
    editor.process_command(Command::Undo);
    assert_eq!(editor.get_content(), "Hello");
    editor.process_command(Command::Redo);
    assert_eq!(editor.get_content(), "Hallo");
}

#[test]
fn undo_break_line_gives_content_back() {
    let mut editor = editor_at("Hello world", 5, 0);
    editor.process_command(Command::BumpHistory);
    editor.process_command(Command::BreakLine);
    assert_eq!(editor.get_content(), "Hello\n world");
    assert_eq!(editor.get_position(), Point2::new(0, 1));
    editor.process_command(Command::Undo);
    assert_eq!(editor.get_content(), "Hello world");
    assert_eq!(editor.get_position(), Point2::new(5, 0));
    editor.process_command(Command::Redo);
    assert_eq!(editor.get_content(), "Hello\n world");
}

#[test]
fn undo_undoes_a_whole_group() {
    let mut editor = editor_at("Hello", 5, 0);
    editor.process_command(Command::BumpHistory);
    editor.process_command(Command::InsertChar('!'));
    editor.process_command(Command::InsertChar('!'));
    assert_eq!(editor.get_content(), "Hello!!");
    editor.process_command(Command::Undo);
    assert_eq!(editor.get_content(), "Hello");
}

#[test]
fn undo_with_empty_history_changes_nothing() {
    let mut edit = TextEdit::from_str("abc");
    edit.command_undo();
    assert_eq!(edit.get_content(), "abc");
    edit.command_redo();
    assert_eq!(edit.get_content(), "abc");
}

#[test]
fn text_roundtrip() {
    for raw in ["", "a", "Hello\nworld", "x\n\ny", "文件\r系统", "line\n\n"] {
        let buffer = TextBuffer::new_from_str(raw);
        if raw.ends_with('\n') {
            assert_eq!(buffer.to_string(), "line\n");
        } else {
            assert_eq!(buffer.to_string(), raw);
        }
    }
}

#[test]
fn crlf_is_read_as_a_line_break() {
    let buffer = TextBuffer::new_from_str("a\r\nb");
    assert_eq!(buffer.to_string(), "a\nb");
}

#[test]
fn ensure_cell_exist_reaches_the_column() {
    let mut buffer = TextBuffer::new_from_str("ab");
    buffer.ensure_cell_exist(6, 3);
    assert_eq!(buffer.total_lines(), 4);
    assert_eq!(buffer.line_width(3), 7);
    assert_eq!(buffer.line_width(0), 2);
}

#[test]
fn get_char_after_insert_char() {
    let mut buffer = TextBuffer::new_from_str("Hello 文件");
    buffer.insert_char(6, 0, 'Z');
    assert_eq!(buffer.get_char(6, 0), Some('Z'));
    buffer.insert_char(11, 0, 'E');
    assert_eq!(buffer.get_char(11, 0), Some('E'));
    assert_eq!(buffer.to_string(), "Hello Z文件E");
}

#[test]
fn selection_does_not_depend_on_its_direction() {
    let raw = "Hello\nworld\nand you";
    let mut forward: BaseEditor<()> = BaseEditor::from_str(&BaseOptions::default(), raw);
    let mut backward: BaseEditor<()> = BaseEditor::from_str(&BaseOptions::default(), raw);
    forward.set_selection(Point2::new(1, 0), Point2::new(3, 2));
    backward.set_selection(Point2::new(3, 2), Point2::new(1, 0));
    for y in 0..3 {
        for x in 0..8 {
            let loc = Point2::new(x, y);
            assert_eq!(forward.is_selected(loc), backward.is_selected(loc));
        }
    }
}

#[test]
fn two_batches_are_one_batch() {
    let mut one: BaseEditor<()> = BaseEditor::from_str(&BaseOptions::default(), "abc");
    let mut two: BaseEditor<()> = BaseEditor::from_str(&BaseOptions::default(), "abc");
    one.process_commands(vec![
        Command::MoveRightEnd,
        Command::InsertChar('d'),
        Command::BreakLine,
        Command::InsertText("ef".to_string()),
    ]);
    two.process_commands(vec![Command::MoveRightEnd, Command::InsertChar('d')]);
    two.process_commands(vec![Command::BreakLine, Command::InsertText("ef".to_string())]);
    assert_eq!(one.get_content(), "abcd\nef");
    assert_eq!(two.get_content(), one.get_content());
    assert_eq!(two.get_position(), one.get_position());
    assert_eq!(one.get_position(), Point2::new(2, 1));
}

#[test]
fn typed_text_goes_in_as_cells() {
    let mut buffer = TextBuffer::new_from_str("a文b");
    buffer.insert_text(3, 0, "xy件");
    assert_eq!(buffer.to_string(), "a文xy件b");
    assert_eq!(buffer.get_char(3, 0), Some('x'));
    assert_eq!(buffer.get_char(5, 0), Some('件'));
    assert_eq!(buffer.get_char(7, 0), Some('b'));
}

#[test]
fn a_separator_is_no_undo_step() {
    let mut t = TextEdit::from_str("Hello");
    t.command_insert_char('a');
    t.bump_history();
    assert_eq!(t.get_content(), "aHello");
    t.command_undo();
    assert_eq!(t.get_content(), "Hello");
    t.command_redo();
    assert_eq!(t.get_content(), "aHello");
}

#[test]
fn undo_after_a_cut_puts_the_text_back() {
    let mut t = TextEdit::from_str("Hello world");
    t.set_selection(Point2::new(6, 0), Point2::new(10, 0));
    assert_eq!(t.cut_selected_text(), Some("world".to_string()));
    assert_eq!(t.get_content(), "Hello ");
    t.command_undo();
    assert_eq!(t.get_content(), "Hello world");
    t.command_redo();
    assert_eq!(t.get_content(), "Hello ");
}

#[test]
fn undo_after_a_cut_over_lines_puts_the_text_back() {
    let raw = "before text\nHello world\nmiddle\nafter text";
    let mut t = TextEdit::from_str(raw);
    t.set_selection(Point2::new(6, 0), Point2::new(4, 3));
    assert_eq!(t.cut_selected_text(), Some(" text\nHello world\nmiddle\nafter".to_string()));
    assert_eq!(t.get_content(), "before\n text");
    t.command_undo();
    assert_eq!(t.get_content(), raw);
}

#[test]
fn commands_report_whether_the_content_changed() {
    let mut editor: BaseEditor<()> = BaseEditor::from_str(&BaseOptions::default(), "Hello");
    assert!(!editor.process_command(Command::IndentBackward));
    assert_eq!(editor.get_content(), "Hello");
    assert!(!editor.process_command(Command::DeleteBack));
    assert_eq!(editor.get_content(), "Hello");
    assert!(!editor.process_command(Command::Undo));
    assert!(!editor.process_command(Command::Redo));
    assert!(!editor.process_command(Command::ReplaceChar('H')));
    assert_eq!(editor.get_content(), "Hello");
    assert!(editor.process_command(Command::ReplaceChar('J')));
    assert_eq!(editor.get_content(), "Jello");
    assert!(!editor.process_command(Command::BumpHistory));
    assert!(editor.process_command(Command::DeleteForward));
    assert_eq!(editor.get_content(), "ello");
    assert!(editor.process_command(Command::Undo));
    assert_eq!(editor.get_content(), "Jello");
    assert!(!editor.process_command(Command::InsertText(String::new())));
    assert!(editor.process_command(Command::IndentForward));
    assert_eq!(editor.get_content(), "    Jello");
}

#[test]
fn deleting_past_the_end_changes_nothing() {
    let mut editor: BaseEditor<()> = BaseEditor::from_str(&BaseOptions::default(), "ab");
    assert!(!editor.process_command(Command::MoveRightEnd));
    assert_eq!(editor.get_position(), Point2::new(2, 0));
    assert!(!editor.process_command(Command::DeleteForward));
    assert_eq!(editor.get_content(), "ab");
    let msgs = editor.process_commands(vec![Command::DeleteForward, Command::MoveLeft]);
    assert!(msgs.is_empty());
}
