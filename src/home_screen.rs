use vstd::prelude::*;
use vstd::string::*;
use crate::chat_interface::{edit, edit_line};

verus! {

/// What the application does after a key on the home screen.
#[derive(PartialEq, Eq, Structural, Clone, Copy, Debug)]
pub enum HomeScreenAction {
    Continue,
    StartChat,
    Quit,
}

/// State of the home screen: the directory to index, and whether it is
/// being edited, with the cursor (a character position) while it is.
pub struct HomeScreen {
    pub directory: String,
    pub directory_cursor_position: usize,
    pub is_editing_directory: bool,
}

impl HomeScreen {
    /// The cursor stands within the directory.
    pub open spec fn wf(&self) -> bool {
        self.directory_cursor_position <= self.directory@.len()
    }

    /// A home screen that proposes `directory`, not being edited.
    pub fn new(directory: String) -> (r: Self)
        ensures
            r.wf(),
            r.directory@ == directory@,
            r.directory_cursor_position == 0,
            !r.is_editing_directory,
    {
        HomeScreen { directory, directory_cursor_position: 0, is_editing_directory: false }
    }

    /// Handles one key. While editing, enter or escape end the editing and
    /// other keys edit the directory; otherwise `d` starts editing with the
    /// cursor at the end, `c` starts the chat and escape quits.
    pub fn handle_input(&mut self, key: char) -> (r: HomeScreenAction)
        requires
            old(self).wf(),
        ensures
            final(self).wf(),
            old(self).is_editing_directory ==> r == HomeScreenAction::Continue && if key == '\n'
                || key == '\x1b' {
                !final(self).is_editing_directory && final(self).directory_cursor_position == 0
                    && final(self).directory@ == old(self).directory@
            } else {
                final(self).is_editing_directory && (
                final(self).directory@,
                final(self).directory_cursor_position as nat,
                ) == edit(old(self).directory@, old(self).directory_cursor_position as nat, key)
            },
            !old(self).is_editing_directory ==> final(self).directory@ == old(self).directory@ && if key
                == 'd' || key == 'D' {
                r == HomeScreenAction::Continue && final(self).is_editing_directory
                    && final(self).directory_cursor_position == old(self).directory@.len()
            } else {
                r == (if key == 'c' || key == 'C' {
                    HomeScreenAction::StartChat
                } else if key == '\x1b' {
                    HomeScreenAction::Quit
                } else {
                    HomeScreenAction::Continue
                }) && *final(self) == *old(self)
            },
    {
        if self.is_editing_directory {
            if key == '\n' || key == '\x1b' {
                self.is_editing_directory = false;
                self.directory_cursor_position = 0;
            } else {
                let (s, c) = edit_line(self.directory.as_str(), self.directory_cursor_position, key);
                self.directory = s;
                self.directory_cursor_position = c;
            }
            HomeScreenAction::Continue
        } else if key == 'd' || key == 'D' {
            self.is_editing_directory = true;
            self.directory_cursor_position = self.directory.as_str().unicode_len();
            HomeScreenAction::Continue
        } else if key == 'c' || key == 'C' {
            HomeScreenAction::StartChat
        } else if key == '\x1b' {
            HomeScreenAction::Quit
        } else {
            HomeScreenAction::Continue
        }
    }

    /// The directory chosen on this screen.
    pub fn get_directory(&self) -> (r: String)
        ensures
            r@ == self.directory@,
    {
        self.directory.clone()
    }
}

} // verus!
