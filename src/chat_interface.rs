use vstd::prelude::*;
use vstd::string::*;
use crate::text::push_char;

verus! {

/// A single chat message.
pub struct Message {
    pub sender: String,
    pub content: String,
}

/// State of the chat screen: the conversation, the line being typed with
/// its cursor (a character position), and how the history is scrolled.
pub struct ChatInterface {
    pub messages: Vec<Message>,
    pub input: String,
    pub input_cursor_position: usize,
    pub scroll_offset: usize,
    pub scroll_to_bottom: bool,
}

pub open spec fn message_view(m: Message) -> (Seq<char>, Seq<char>) {
    (m.sender@, m.content@)
}

pub open spec fn message_views(ms: Seq<Message>) -> Seq<(Seq<char>, Seq<char>)> {
    ms.map_values(|m: Message| message_view(m))
}

/// Printable ASCII: what typing can add to a line.
pub open spec fn is_typed(c: char) -> bool {
    ' ' <= c <= '~'
}

/// Unicode white space, as `char::is_whitespace` tells it.
pub open spec fn is_white(c: char) -> bool {
    ('\t' <= c <= '\r') || c == ' ' || c == '\u{85}' || c == '\u{A0}' || c == '\u{1680}' || (
    '\u{2000}' <= c <= '\u{200A}') || c == '\u{2028}' || c == '\u{2029}' || c == '\u{202F}'
        || c == '\u{205F}' || c == '\u{3000}'
}

pub open spec fn is_blank(s: Seq<char>) -> bool {
    forall|j: int| 0 <= j < s.len() ==> is_white(#[trigger] s[j])
}

/// The line and cursor after an editing key: backspace (`\x08` or `\x7f`)
/// deletes before the cursor, escape clears, printable ASCII is inserted at
/// the cursor (while the cursor can still move right); any other key
/// changes nothing.
pub open spec fn edit(line: Seq<char>, cursor: nat, key: char) -> (Seq<char>, nat) {
    if key == '\x08' || key == '\x7f' {
        if cursor > 0 {
            (line.take(cursor - 1) + line.skip(cursor as int), (cursor - 1) as nat)
        } else {
            (line, cursor)
        }
    } else if key == '\x1b' {
        (seq![], 0)
    } else if is_typed(key) && cursor < usize::MAX {
        (line.take(cursor as int).push(key) + line.skip(cursor as int), cursor + 1)
    } else {
        (line, cursor)
    }
}

/// Whether `c` is white space.
pub fn is_white_char(c: char) -> (r: bool)
    ensures
        r == is_white(c),
{
    ('\t' <= c && c <= '\r') || c == ' ' || c == '\u{85}' || c == '\u{A0}' || c == '\u{1680}' || (
    '\u{2000}' <= c && c <= '\u{200A}') || c == '\u{2028}' || c == '\u{2029}' || c == '\u{202F}'
        || c == '\u{205F}' || c == '\u{3000}'
}

/// Whether `s` holds nothing but white space.
pub fn is_blank_text(s: &str) -> (r: bool)
    ensures
        r == is_blank(s@),
{
    for c in it: s.chars()
        invariant
            it.seq() == s@,
            is_blank(s@.take(it.index() as int)),
    {
        assert(c == s@[it.index() as int]);
        if !is_white_char(c) {
            return false;
        }
        assert(s@.take(it.index() + 1) =~= s@.take(it.index() as int).push(c));
    }
    assert(s@.take(s@.len() as int) =~= s@);
    true
}

/// `line` and `cursor` after `key`, as `edit` says.
pub fn edit_line(line: &str, cursor: usize, key: char) -> (r: (String, usize))
    requires
        cursor <= line@.len(),
    ensures
        (r.0@, r.1 as nat) == edit(line@, cursor as nat, key),
        r.1 <= r.0@.len(),
{
    let len = line.unicode_len();
    if key == '\x08' || key == '\x7f' {
        if cursor > 0 {
            let mut s = String::from_str(line.substring_char(0, cursor - 1));
            s.append(line.substring_char(cursor, len));
            assert(line@.subrange(cursor as int, len as int) =~= line@.skip(cursor as int));
            (s, cursor - 1)
        } else {
            (String::from_str(line), cursor)
        }
    } else if key == '\x1b' {
        let s = String::new();
        assert(s@ =~= Seq::<char>::empty());
        (s, 0)
    } else if ' ' <= key && key <= '~' && cursor < usize::MAX {
        let mut s = String::from_str(line.substring_char(0, cursor));
        push_char(&mut s, key);
        s.append(line.substring_char(cursor, len));
        assert(line@.subrange(cursor as int, len as int) =~= line@.skip(cursor as int));
        (s, cursor + 1)
    } else {
        (String::from_str(line), cursor)
    }
}

impl ChatInterface {
    /// The cursor stands within the line being typed.
    pub open spec fn wf(&self) -> bool {
        self.input_cursor_position <= self.input@.len()
    }

    /// An empty conversation with an empty input line.
    pub fn new() -> (r: Self)
        ensures
            r.wf(),
            r.messages@.len() == 0,
            r.input@.len() == 0,
            r.input_cursor_position == 0,
            r.scroll_offset == 0,
            !r.scroll_to_bottom,
    {
        ChatInterface {
            messages: Vec::new(),
            input: String::new(),
            input_cursor_position: 0,
            scroll_offset: 0,
            scroll_to_bottom: false,
        }
    }

    /// Appends a message to the history and asks the view to follow it.
    pub fn add_message(&mut self, sender: &str, content: &str)
        ensures
            message_views(final(self).messages@) == message_views(old(self).messages@).push(
                (sender@, content@),
            ),
            final(self).scroll_to_bottom,
            final(self).input == old(self).input,
            final(self).input_cursor_position == old(self).input_cursor_position,
            final(self).scroll_offset == old(self).scroll_offset,
    {
        let m = Message { sender: String::from_str(sender), content: String::from_str(content) };
        let ghost before = self.messages@;
        self.messages.push(m);
        assert(message_views(self.messages@) =~= message_views(before).push(message_view(m)));
        self.scroll_to_bottom = true;
    }

    /// Handles one key. Enter sends the line as a message from `User`
    /// unless it is blank; other keys edit the line as `edit` says.
    pub fn handle_input(&mut self, key: char)
        requires
            old(self).wf(),
        ensures
            final(self).wf(),
            key == '\n' && !is_blank(old(self).input@) ==> message_views(final(self).messages@)
                == message_views(old(self).messages@).push((seq!['U', 's', 'e', 'r'], old(self).input@))
                && final(self).input@.len() == 0 && final(self).input_cursor_position == 0
                && final(self).scroll_to_bottom,
            key == '\n' && is_blank(old(self).input@) ==> *final(self) == *old(self),
            key != '\n' ==> (final(self).input@, final(self).input_cursor_position as nat) == edit(
                old(self).input@,
                old(self).input_cursor_position as nat,
                key,
            ) && final(self).messages@ == old(self).messages@ && final(self).scroll_to_bottom
                == old(self).scroll_to_bottom,
            final(self).scroll_offset == old(self).scroll_offset,
    {
        if key == '\n' {
            if !is_blank_text(self.input.as_str()) {
                let line = self.input.clone();
                self.input = String::new();
                let who = "User";
                proof {
                    reveal_strlit("User");
                    assert(who@ =~= seq!['U', 's', 'e', 'r']);
                }
                self.add_message(who, line.as_str());
                self.input_cursor_position = 0;
            }
        } else {
            let (s, c) = edit_line(self.input.as_str(), self.input_cursor_position, key);
            self.input = s;
            self.input_cursor_position = c;
        }
    }

    /// Scrolls the history one line up, stopping at the top.
    pub fn scroll_up(&mut self)
        ensures
            final(self).scroll_offset == if old(self).scroll_offset > 0 {
                (old(self).scroll_offset - 1) as usize
            } else {
                0
            },
            final(self).messages@ == old(self).messages@,
            final(self).input == old(self).input,
            final(self).input_cursor_position == old(self).input_cursor_position,
            final(self).scroll_to_bottom == old(self).scroll_to_bottom,
    {
        if self.scroll_offset > 0 {
            self.scroll_offset = self.scroll_offset - 1;
        }
    }

    /// Scrolls the history one line down; the offset saturates.
    pub fn scroll_down(&mut self)
        ensures
            final(self).scroll_offset == if old(self).scroll_offset < usize::MAX {
                (old(self).scroll_offset + 1) as usize
            } else {
                usize::MAX
            },
            final(self).messages@ == old(self).messages@,
            final(self).input == old(self).input,
            final(self).input_cursor_position == old(self).input_cursor_position,
            final(self).scroll_to_bottom == old(self).scroll_to_bottom,
    {
        if self.scroll_offset < usize::MAX {
            self.scroll_offset = self.scroll_offset + 1;
        }
    }

    /// Settles the scroll position for a history of `total_lines` lines
    /// shown `height` at a time: when asked to follow the bottom, the last
    /// lines fill the view; then the offset is kept on an existing line.
    /// Returns the range of lines to show.
    pub fn settle_scroll(&mut self, total_lines: usize, height: usize) -> (r: (usize, usize))
        ensures
            ({
                let wanted = if old(self).scroll_to_bottom {
                    if total_lines > height {
                        (total_lines - height) as usize
                    } else {
                        0
                    }
                } else {
                    old(self).scroll_offset
                };
                final(self).scroll_offset == if wanted >= total_lines && total_lines > 0 {
                    (total_lines - 1) as usize
                } else if wanted >= total_lines {
                    0
                } else {
                    wanted
                }
            }),
            !final(self).scroll_to_bottom,
            r.0 == final(self).scroll_offset,
            r.1 == if r.0 + height < total_lines {
                (r.0 + height) as usize
            } else {
                total_lines
            },
            final(self).messages@ == old(self).messages@,
            final(self).input == old(self).input,
            final(self).input_cursor_position == old(self).input_cursor_position,
    {
        if self.scroll_to_bottom {
            if total_lines > height {
                self.scroll_offset = total_lines - height;
            } else {
                self.scroll_offset = 0;
            }
            self.scroll_to_bottom = false;
        }
        if self.scroll_offset >= total_lines {
            self.scroll_offset = if total_lines > 0 {
                total_lines - 1
            } else {
                0
            };
        }
        let start = self.scroll_offset;
        let end = if height < total_lines - start {
            start + height
        } else {
            total_lines
        };
        (start, end)
    }

    /// The most recent message, if any.
    pub fn get_last_message(&self) -> (r: Option<&Message>)
        ensures
            self.messages@.len() == 0 ==> r is None,
            self.messages@.len() > 0 ==> r == Some(&self.messages@.last()),
    {
        let n = self.messages.len();
        if n == 0 {
            None
        } else {
            Some(&self.messages[n - 1])
        }
    }
}

impl Default for ChatInterface {
    fn default() -> (r: Self)
        ensures
            r.wf(),
            r.messages@.len() == 0,
            r.input@.len() == 0,
            r.input_cursor_position == 0,
            r.scroll_offset == 0,
            !r.scroll_to_bottom,
    {
        Self::new()
    }
}

} // verus!
