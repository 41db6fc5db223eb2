//! The state of the search window and its pure transitions.
//!
//! The window holds a file path, the loaded document, a search word and
//! the last filtering result. Everything that decides what the next state
//! is lives here and is verified; performing the file dialog, reading the
//! file and drawing widgets is I/O that a front end does around it,
//! feeding the outcome back in through [`MainWindow::apply_dialog_selection`]
//! and [`MainWindow::apply_load_result`].

use crate::line_filter;
use vstd::prelude::*;
use vstd::string::StringExecFns;

verus! {

pub struct MainWindow {
    /// The path of the file to load, as selected or typed by the user.
    pub file_path: String,
    /// The content of the path input field.
    pub file_path_buf: String,
    /// The loaded document, or an error message when loading failed.
    pub file_output_text: String,
    /// The search term typed by the user.
    pub search_word: String,
    /// The lines of the document that contained the search word when the
    /// search was last run.
    pub search_word_output: Vec<String>,
}

#[derive(Debug, Clone)]
pub enum Message {
    UserFilePathUpdate(String),
    UserSearchWordUpdate(String),
    OpenDialog,
    BtnFileSearch,
}

/// What the front end must do after a state transition: nothing, show the
/// native file dialog, or load the file at the given path. The outcome
/// comes back through [`MainWindow::apply_dialog_selection`] or
/// [`MainWindow::apply_load_result`].
#[derive(Debug, Clone)]
pub enum Action {
    DoNothing,
    PickFile,
    LoadFile(String),
}

impl MainWindow {
    /// A window with no file loaded and nothing typed yet.
    pub fn new() -> (w: MainWindow)
        ensures
            w.file_path@ == Seq::<char>::empty(),
            w.file_path_buf@ == Seq::<char>::empty(),
            w.file_output_text@ == Seq::<char>::empty(),
            w.search_word@ == Seq::<char>::empty(),
            w.search_word_output@ == Seq::<String>::empty(),
    {
        MainWindow {
            file_path: String::new(),
            file_path_buf: String::new(),
            file_output_text: String::new(),
            search_word: String::new(),
            search_word_output: Vec::new(),
        }
    }

    /// The window's title.
    pub fn title(&self) -> (t: String)
        ensures
            t@ == "Grep-Iced"@,
    {
        String::from_str("Grep-Iced")
    }

    /// The lines of the loaded document that contain the current search
    /// word, in their original order.
    pub fn file_search(&self) -> (r: Vec<String>)
        ensures
            r.deep_view() == line_filter::filter_spec(self.file_output_text@, self.search_word@),
    {
        line_filter::filter(self.file_output_text.as_str(), self.search_word.as_str())
    }

    /// One step of the window's state machine: apply `message` to the
    /// state and say what the front end must do next.
    pub fn update(&mut self, message: Message) -> (action: Action)
        ensures
            (match message {
                Message::UserFilePathUpdate(x) => {
                    &&& final(self).file_path_buf == x
                    &&& final(self).file_path == old(self).file_path
                    &&& final(self).file_output_text == old(self).file_output_text
                    &&& final(self).search_word == old(self).search_word
                    &&& final(self).search_word_output == old(self).search_word_output
                    &&& action is DoNothing
                },
                Message::UserSearchWordUpdate(x) => {
                    &&& final(self).search_word == x
                    &&& final(self).file_path == old(self).file_path
                    &&& final(self).file_path_buf == old(self).file_path_buf
                    &&& final(self).file_output_text == old(self).file_output_text
                    &&& final(self).search_word_output == old(self).search_word_output
                    &&& action is DoNothing
                },
                Message::OpenDialog => {
                    &&& *final(self) == *old(self)
                    &&& action is PickFile
                },
                Message::BtnFileSearch => {
                    &&& *final(self) == *old(self)
                    &&& action matches Action::LoadFile(p) && p == old(self).file_path
                },
            }),
    {
        match message {
            Message::UserFilePathUpdate(x) => {
                self.file_path_buf = x;
                Action::DoNothing
            },
            Message::UserSearchWordUpdate(x) => {
                self.search_word = x;
                Action::DoNothing
            },
            Message::OpenDialog => Action::PickFile,
            Message::BtnFileSearch => Action::LoadFile(self.file_path.clone()),
        }
    }

    /// Take the outcome of the native file dialog: a chosen path, or no
    /// selection, which clears the path. The chosen path is shown in the
    /// path input field as well.
    pub fn apply_dialog_selection(&mut self, selection: Option<String>)
        ensures
            (match selection {
                Some(path) => {
                    &&& final(self).file_path == path
                    &&& final(self).file_path_buf == path
                },
                None => {
                    &&& final(self).file_path@ == Seq::<char>::empty()
                    &&& final(self).file_path_buf@ == Seq::<char>::empty()
                },
            }),
            final(self).file_output_text == old(self).file_output_text,
            final(self).search_word == old(self).search_word,
            final(self).search_word_output == old(self).search_word_output,
    {
        match selection {
            Some(path) => {
                self.file_path_buf = path.clone();
                self.file_path = path;
            },
            None => {
                self.file_path = String::new();
                self.file_path_buf = String::new();
            },
        }
    }

    /// Take the outcome of loading the file at `file_path`. On success the
    /// document is stored and searched at once with the current search
    /// word; on failure an error message replaces the document text and
    /// the previous search result is left as it was.
    pub fn apply_load_result(&mut self, loaded: Result<String, String>)
        ensures
            (match loaded {
                Ok(text) => {
                    &&& final(self).file_output_text == text
                    &&& final(self).search_word_output.deep_view() == line_filter::filter_spec(
                        text@,
                        old(self).search_word@,
                    )
                },
                Err(message) => {
                    &&& final(self).file_output_text@ == "Error opening file: "@ + message@
                    &&& final(self).search_word_output == old(self).search_word_output
                },
            }),
            final(self).file_path == old(self).file_path,
            final(self).file_path_buf == old(self).file_path_buf,
            final(self).search_word == old(self).search_word,
    {
        match loaded {
            Ok(text) => {
                self.file_output_text = text;
                self.search_word_output = self.file_search();
            },
            Err(message) => {
                let mut shown = String::from_str("Error opening file: ");
                shown.append(message.as_str());
                self.file_output_text = shown;
            },
        }
    }
}

} // verus!
