use ultron_core::base_editor::{BaseEditor, Command};
use ultron_core::{BaseOptions, Editor, Options, Point2, SelectionMode};

#[test]
fn test_editor_test_text_selection() {
    let raw = "Hello world";
    let mut editor: BaseEditor<()> = BaseEditor::from_str(&BaseOptions::default(), raw);
    editor.set_selection(Point2::new(0, 0), Point2::new(4, 0));
    let txt = editor.selected_text();
    assert_eq!(txt, Some("Hello".to_string()));

    let mut editor: Editor<()> = Editor::from_str(Options::default(), raw);
    editor.set_selection(Point2::new(0, 0), Point2::new(4, 0));
    let txt = editor.selected_text();
    assert_eq!(txt, Some("Hello".to_string()));
}

#[test]
fn test_editor_test_text_selection_world() {
    let raw = "Hello world";
    let mut editor: BaseEditor<()> = BaseEditor::from_str(&BaseOptions::default(), raw);
    editor.set_selection(Point2::new(6, 0), Point2::new(10, 0));
    let txt = editor.selected_text();
    assert_eq!(txt, Some("world".to_string()));

    let mut editor: Editor<()> = Editor::from_str(Options::default(), raw);
    editor.set_selection(Point2::new(6, 0), Point2::new(10, 0));
    let txt = editor.selected_text();
    assert_eq!(txt, Some("world".to_string()));
}

#[test]
fn test_editor_test_cut_text() {
    let raw = "Hello world";
    let mut editor = BaseEditor::<()>::from_str(&BaseOptions::default(), raw);
    editor.set_selection(Point2::new(0, 0), Point2::new(4, 0));
    let txt = editor.cut_selected_text();
    assert_eq!(txt, Some("Hello".to_string()));
    assert_eq!(editor.get_content(), " world");

    let mut editor = Editor::<()>::from_str(Options::default(), raw);
    editor.set_selection(Point2::new(0, 0), Point2::new(4, 0));
    let txt = editor.cut_selected_text();
    assert_eq!(txt, Some("Hello".to_string()));
    assert_eq!(editor.get_content(), " world");
}

#[test]
fn test_editor_test_cut_text_multi_line() {
    let raw = "before text\nHello world\nafter text";
    let mut editor = BaseEditor::<()>::from_str(&BaseOptions::default(), raw);
    editor.set_selection(Point2::new(0, 1), Point2::new(4, 1));
    let txt = editor.cut_selected_text();
    assert_eq!(txt, Some("Hello".to_string()));
    assert_eq!(editor.get_content(), "before text\n world\nafter text");

    let mut editor = Editor::<()>::from_str(Options::default(), raw);
    editor.set_selection(Point2::new(0, 1), Point2::new(4, 1));
    let txt = editor.cut_selected_text();
    assert_eq!(txt, Some("Hello".to_string()));
    assert_eq!(editor.get_content(), "before text\n world\nafter text");
}

#[test]
fn test_text_is_selected_linear() {
    let raw = "Hello world";
    let mut editor: BaseEditor<()> = BaseEditor::from_str(&BaseOptions::default(), raw);
    editor.set_selection(Point2::new(6, 0), Point2::new(10, 0));
    assert!(editor.is_selected(Point2::new(6, 0)));
    assert!(editor.is_selected(Point2::new(7, 0)));
    assert!(editor.is_selected(Point2::new(8, 0)));
    assert!(editor.is_selected(Point2::new(9, 0)));
    assert!(editor.is_selected(Point2::new(10, 0)));

    assert!(!editor.is_selected(Point2::new(5, 0)));
    assert!(!editor.is_selected(Point2::new(7, 1)));
    assert!(!editor.is_selected(Point2::new(11, 0)));
}

#[test]
fn test_text_is_selected_linear_multiline() {
    let raw = "Hello\nworld\nand you with \neveryone";
    let mut editor: BaseEditor<()> = BaseEditor::from_str(&BaseOptions::default(), raw);
    editor.set_selection(Point2::new(1, 1), Point2::new(2, 2));
    let txt = editor.selected_text();
    assert_eq!(txt, Some("orld\nand".to_string()));
    assert!(editor.is_selected(Point2::new(1, 1)));
    assert!(editor.is_selected(Point2::new(2, 1)));
    assert!(editor.is_selected(Point2::new(3, 1)));
    assert!(editor.is_selected(Point2::new(4, 1)));
    assert!(editor.is_selected(Point2::new(5, 1)));
    assert!(editor.is_selected(Point2::new(0, 2)));
    assert!(editor.is_selected(Point2::new(1, 2)));
    assert!(editor.is_selected(Point2::new(2, 2)));

    assert!(!editor.is_selected(Point2::new(3, 2)));
    assert!(!editor.is_selected(Point2::new(0, 0)));
    assert!(!editor.is_selected(Point2::new(0, 1)));
    assert!(!editor.is_selected(Point2::new(2, 0)));
    assert!(!editor.is_selected(Point2::new(3, 0)));
    assert!(!editor.is_selected(Point2::new(4, 0)));
}

#[test]
fn test_text_is_selected_block_multiline() {
    let raw = "Hello\nworld\nand you with \neveryone";
    let mut editor: BaseEditor<()> = BaseEditor::from_str(
        &BaseOptions {
            selection_mode: SelectionMode::Block,
            ..BaseOptions::default()
        },
        raw,
    );
    editor.set_selection(Point2::new(1, 1), Point2::new(2, 2));
    let txt = editor.selected_text();
    assert_eq!(txt, Some("or\nnd".to_string()));
    assert!(editor.is_selected(Point2::new(1, 1)));
    assert!(editor.is_selected(Point2::new(2, 1)));
    assert!(editor.is_selected(Point2::new(1, 2)));
    assert!(editor.is_selected(Point2::new(2, 2)));

    assert!(!editor.is_selected(Point2::new(5, 1)));
    assert!(!editor.is_selected(Point2::new(0, 2)));

    assert!(!editor.is_selected(Point2::new(3, 2)));
    assert!(!editor.is_selected(Point2::new(0, 0)));
    assert!(!editor.is_selected(Point2::new(0, 1)));
    assert!(!editor.is_selected(Point2::new(2, 0)));
    assert!(!editor.is_selected(Point2::new(3, 0)));
    assert!(!editor.is_selected(Point2::new(4, 0)));
}

#[test]
fn linear_selection_runs_in_reading_order() {
    let mut e: BaseEditor<()> = BaseEditor::from_str(&BaseOptions::default(), "Hello\nworld");
    e.set_selection(Point2::new(5, 0), Point2::new(2, 1));
    assert!(!e.is_selected(Point2::new(3, 0)));
    assert!(e.is_selected(Point2::new(5, 0)));
    assert!(e.is_selected(Point2::new(0, 1)));
    assert!(e.is_selected(Point2::new(2, 1)));
    assert!(!e.is_selected(Point2::new(4, 1)));
}

#[test]
fn a_selection_made_right_to_left_gives_the_same_text() {
    let mut e: BaseEditor<()> = BaseEditor::from_str(&BaseOptions::default(), "Hello world");
    e.set_selection(Point2::new(4, 0), Point2::new(0, 0));
    assert_eq!(e.selected_text(), Some("Hello".to_string()));
    assert_eq!(e.cut_selected_text(), Some("Hello".to_string()));
    assert_eq!(e.get_content(), " world");
}

#[test]
fn a_change_listener_gets_the_content_once_per_batch() {
    let mut e = BaseEditor::<String>::from_str(&BaseOptions::default(), "Hello");
    e.add_on_change_listener(|s: String| s);
    let msgs = e.process_commands(vec![Command::MoveRight, Command::InsertChar('Y')]);
    assert_eq!(msgs, vec!["HYello".to_string()]);
}
