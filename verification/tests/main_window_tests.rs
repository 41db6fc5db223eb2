use grep_iced::main_window::{Action, MainWindow, Message};

#[test]
fn new_window_is_empty() {
    let w = MainWindow::new();
    assert_eq!(w.file_path, "");
    assert_eq!(w.file_path_buf, "");
    assert_eq!(w.file_output_text, "");
    assert_eq!(w.search_word, "");
    assert!(w.search_word_output.is_empty());
}

#[test]
fn title_names_the_window() {
    let w = MainWindow::new();
    assert_eq!(w.title(), "Grep-Iced");
}

#[test]
fn path_input_updates_the_path_buffer_only() {
    let mut w = MainWindow::new();
    let action = w.update(Message::UserFilePathUpdate("/tmp/notes.txt".to_string()));
    assert!(matches!(action, Action::DoNothing));
    assert_eq!(w.file_path_buf, "/tmp/notes.txt");
    assert_eq!(w.file_path, "");
    assert_eq!(w.search_word, "");
}

#[test]
fn search_input_updates_the_search_word_only() {
    let mut w = MainWindow::new();
    let action = w.update(Message::UserSearchWordUpdate("an".to_string()));
    assert!(matches!(action, Action::DoNothing));
    assert_eq!(w.search_word, "an");
    assert_eq!(w.file_path_buf, "");
}

#[test]
fn open_dialog_requests_the_file_dialog() {
    let mut w = MainWindow::new();
    let action = w.update(Message::OpenDialog);
    assert!(matches!(action, Action::PickFile));
    assert_eq!(w.file_path, "");
}

#[test]
fn search_button_requests_loading_the_current_path() {
    let mut w = MainWindow::new();
    w.apply_dialog_selection(Some("/tmp/notes.txt".to_string()));
    let action = w.update(Message::BtnFileSearch);
    match action {
        Action::LoadFile(path) => assert_eq!(path, "/tmp/notes.txt"),
        _ => panic!("expected a load request"),
    }
}

#[test]
fn dialog_selection_sets_path_and_buffer() {
    let mut w = MainWindow::new();
    w.apply_dialog_selection(Some("/home/user/a.txt".to_string()));
    assert_eq!(w.file_path, "/home/user/a.txt");
    assert_eq!(w.file_path_buf, "/home/user/a.txt");
}

#[test]
fn cancelled_dialog_clears_the_path() {
    let mut w = MainWindow::new();
    w.apply_dialog_selection(Some("/home/user/a.txt".to_string()));
    w.apply_dialog_selection(None);
    assert_eq!(w.file_path, "");
    assert_eq!(w.file_path_buf, "");
}

#[test]
fn successful_load_stores_text_and_search_result() {
    let mut w = MainWindow::new();
    w.update(Message::UserSearchWordUpdate("an".to_string()));
    w.apply_load_result(Ok("apple\nbanana\ncherry".to_string()));
    assert_eq!(w.file_output_text, "apple\nbanana\ncherry");
    assert_eq!(w.search_word_output, vec!["banana".to_string()]);
}

#[test]
fn file_search_rescans_the_current_document() {
    let mut w = MainWindow::new();
    w.apply_load_result(Ok("line1\nline2\n".to_string()));
    w.update(Message::UserSearchWordUpdate("line".to_string()));
    let found = w.file_search();
    assert_eq!(found, vec!["line1".to_string(), "line2".to_string()]);
}

#[test]
fn failed_load_shows_error_and_keeps_stale_result() {
    let mut w = MainWindow::new();
    w.update(Message::UserSearchWordUpdate("an".to_string()));
    w.apply_load_result(Ok("apple\nbanana".to_string()));
    w.apply_load_result(Err("No such file or directory (os error 2)".to_string()));
    assert_eq!(
        w.file_output_text,
        "Error opening file: No such file or directory (os error 2)"
    );
    assert_eq!(w.search_word_output, vec!["banana".to_string()]);
}
