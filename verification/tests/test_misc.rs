use ultron_core::base_editor::{BaseEditor, Command};
use ultron_core::editor::Command as EditorCommand;
use ultron_core::util::{clamp_to_edge, normalize_number};
use ultron_core::{Action, BaseOptions, Callback, Editor, Options, Point2, TextBuffer, TextEdit};

#[test]
fn normalize_number_orders_the_pair() {
    assert_eq!(normalize_number(3, 7), (3, 7));
    assert_eq!(normalize_number(7, 3), (3, 7));
    assert_eq!(normalize_number(5, 5), (5, 5));
}

#[test]
fn clamp_to_edge_moves_negatives_to_zero() {
    assert_eq!(clamp_to_edge(Point2::new(-3, 4)), Point2::new(0, 4));
    assert_eq!(clamp_to_edge(Point2::new(2, -1)), Point2::new(2, 0));
    assert_eq!(clamp_to_edge(Point2::new(2, 9)), Point2::new(2, 9));
}

#[test]
fn callback_emits_what_the_function_gives() {
    let cb: Callback<i32, i32> = Callback::from(|x: i32| x.wrapping_mul(2));
    assert_eq!(cb.emit(21), 42);
}

#[test]
fn callback_clones_share_the_function() {
    let cb: Callback<i32, i32> = Callback::from(|x: i32| x + 1);
    assert_eq!(cb.emit(41), 42);
    let copy = cb.clone();
    assert_eq!(copy.emit(41), 42);
    assert_eq!(cb.emit(1), copy.emit(1));
}

#[test]
fn listeners_are_told_of_a_change() {
    let editor: BaseEditor<String> = BaseEditor::from_str(&BaseOptions::default(), "ab");
    let mut editor = editor
        .on_change(|content: String| format!("changed: {}", content))
        .on_change_notify(|_: ()| "notified".to_string());
    let msgs = editor.process_commands(vec![Command::MoveRightEnd, Command::InsertChar('c')]);
    assert_eq!(msgs, vec!["changed: abc".to_string(), "notified".to_string()]);
    let msgs = editor.process_commands(vec![Command::MoveLeft, Command::SelectAll]);
    assert!(msgs.is_empty());
}

#[test]
fn editor_commands_with_positions() {
    let mut editor: Editor<u8> = Editor::from_str(Options::default(), "Hello\nworld");
    editor.add_on_change_notify(|_: ()| 7u8);
    let msgs = editor.process_commands(vec![
        EditorCommand::SetPosition(5, 1),
        EditorCommand::InsertText("!!".to_string()),
    ]);
    assert_eq!(msgs, vec![7u8]);
    assert_eq!(editor.get_content(), "Hello\nworld!!");
    assert_eq!(editor.get_position(), Point2::new(7, 1));
    assert!(!editor.process_command(EditorCommand::SetPosition(40, 9)));
    assert_eq!(editor.get_position(), Point2::new(6, 1));
    assert_eq!(editor.get_char(0, 1), Some('w'));
    assert_eq!(editor.total_lines(), 2);
}

#[test]
fn set_position_clamps_without_virtual_edit() {
    let mut editor: BaseEditor<()> = BaseEditor::from_str(&BaseOptions::default(), "ab\ncdef");
    editor.process_command(Command::SetPosition(Point2::new(10, 0)));
    assert_eq!(editor.get_position(), Point2::new(1, 0));
    let mut options = BaseOptions::default();
    options.use_virtual_edit = true;
    let mut editor: BaseEditor<()> = BaseEditor::from_str(&options, "ab\ncdef");
    editor.process_command(Command::SetPosition(Point2::new(10, 5)));
    assert_eq!(editor.get_position(), Point2::new(10, 5));
}

#[test]
fn insert_text_moves_by_its_display_width() {
    let mut edit = TextEdit::from_str("ab");
    edit.command_set_position(1, 0);
    edit.command_insert_text("文件");
    assert_eq!(edit.get_content(), "a文件b");
    assert_eq!(edit.get_position(), Point2::new(5, 0));
}

#[test]
fn smart_replace_inserts_before_a_word_and_replaces_before_a_blank() {
    let mut edit = TextEdit::from_str("ab cd");
    edit.command_set_position(0, 0);
    edit.command_smart_replace_insert_char('X');
    assert_eq!(edit.get_content(), "Xab cd");
    edit.command_set_position(2, 0);
    edit.command_smart_replace_insert_char('Y');
    assert_eq!(edit.get_content(), "XaY cd");
    assert_eq!(edit.get_position(), Point2::new(3, 0));
}

#[test]
fn control_characters_take_no_column() {
    let buffer = TextBuffer::new_from_str("a\tb");
    assert_eq!(buffer.line_width(0), 2);
}

#[test]
fn an_action_and_its_inverse() {
    let mut buffer = TextBuffer::new_from_str("Hello");
    let insert = Action::Insert(Point2::new(2, 0), 'x');
    insert.apply(&mut buffer);
    assert_eq!(buffer.to_string(), "Hexllo");
    insert.invert().apply(&mut buffer);
    assert_eq!(buffer.to_string(), "Hello");
    let brk = Action::BreakLine(Point2::new(2, 0));
    brk.apply(&mut buffer);
    assert_eq!(buffer.to_string(), "He\nllo");
    brk.invert().apply(&mut buffer);
    assert_eq!(buffer.to_string(), "Hello");
    assert_eq!(brk.location(), Point2::new(2, 0));
    assert!(insert.same_variant(&Action::Insert(Point2::new(0, 0), 'y')));
    assert!(!insert.same_variant(&brk));
}

#[test]
fn numberline_wide_counts_digits() {
    let raw = "1\n2\n3\n4\n5\n6\n7\n8\n9\n10";
    let buffer = TextBuffer::new_from_str(raw);
    assert_eq!(buffer.numberline_wide(), 2);
}

#[test]
fn smart_replace_is_refused_for_a_control_character() {
    let mut edit = TextEdit::from_str("ab cd");
    edit.command_set_position(0, 0);
    assert!(!edit.try_smart_replace_insert_char('\u{7}'));
    assert_eq!(edit.get_content(), "ab cd");
    assert!(edit.try_smart_replace_insert_char('Z'));
    assert_eq!(edit.get_content(), "Zab cd");
}

#[test]
fn replacing_inside_a_wide_character_cannot_be_done() {
    let buffer = TextBuffer::new_from_str("a文b");
    assert!(buffer.can_replace_char(1, 0));
    assert!(!buffer.can_replace_char(2, 0));
    assert!(buffer.can_replace_char(3, 0));
    assert!(buffer.can_replace_char(9, 4));
}

#[test]
fn smart_replace_treats_a_tab_as_blank() {
    let mut edit = TextEdit::from_str("ab\tcd");
    edit.command_set_position(1, 0);
    edit.command_smart_replace_insert_char('Y');
    assert_eq!(edit.get_content(), "aY\tcd");
}

#[test]
fn smart_replace_treats_a_no_break_space_as_blank() {
    let mut edit = TextEdit::from_str("ab\u{a0}cd");
    edit.command_set_position(1, 0);
    edit.command_smart_replace_insert_char('Y');
    assert_eq!(edit.get_content(), "aY\u{a0}cd");
    let mut edit = TextEdit::from_str("abxcd");
    edit.command_set_position(1, 0);
    edit.command_smart_replace_insert_char('Y');
    assert_eq!(edit.get_content(), "aYbxcd");
}

#[test]
fn width_is_tested_before_typing() {
    assert!(ultron_core::width::has_width('a'));
    assert!(ultron_core::width::has_width('文'));
    assert!(!ultron_core::width::has_width('\u{7}'));
    let mut edit = TextEdit::from_str("ab");
    assert!(edit.try_command_insert_char('x'));
    assert_eq!(edit.get_content(), "xab");
    assert_eq!(edit.get_position(), Point2::new(1, 0));
    assert!(!edit.try_command_insert_char('\u{1b}'));
    assert_eq!(edit.get_content(), "xab");
    assert_eq!(edit.get_position(), Point2::new(1, 0));
}
