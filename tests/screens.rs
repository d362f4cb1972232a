use fisher::wrap::{split_words, wrap_text};
use fisher::model::sender_to_role;
use fisher::{ChatInterface, HomeScreen, HomeScreenAction};

fn type_text(chat: &mut ChatInterface, s: &str) {
    for c in s.chars() {
        chat.handle_input(c);
    }
}

#[test]
fn chat_sends_typed_line() {
    let mut chat = ChatInterface::new();
    assert!(chat.get_last_message().is_none());
    type_text(&mut chat, "hellp");
    chat.handle_input('\x08');
    type_text(&mut chat, "o");
    assert_eq!(chat.input, "hello");
    assert_eq!(chat.input_cursor_position, 5);
    chat.handle_input('\n');
    let m = chat.get_last_message().unwrap();
    assert_eq!(m.sender, "User");
    assert_eq!(m.content, "hello");
    assert_eq!(chat.input, "");
    assert_eq!(chat.input_cursor_position, 0);
    assert!(chat.scroll_to_bottom);
}

#[test]
fn chat_ignores_blank_lines_and_control_keys() {
    let mut chat = ChatInterface::new();
    type_text(&mut chat, "   ");
    chat.handle_input('\n');
    assert!(chat.messages.is_empty());
    assert_eq!(chat.input, "   ");
    chat.handle_input('\x1b');
    assert_eq!(chat.input, "");
    assert_eq!(chat.input_cursor_position, 0);
    chat.handle_input('\x7f');
    chat.handle_input('\u{1}');
    chat.handle_input('é');
    assert_eq!(chat.input, "");
}

#[test]
fn chat_edits_at_cursor() {
    let mut chat = ChatInterface::new();
    type_text(&mut chat, "ac");
    chat.input_cursor_position = 1;
    chat.handle_input('b');
    assert_eq!(chat.input, "abc");
    assert_eq!(chat.input_cursor_position, 2);
    chat.handle_input('\x08');
    assert_eq!(chat.input, "ac");
    assert_eq!(chat.input_cursor_position, 1);
}

#[test]
fn chat_messages_and_scrolling() {
    let mut chat = ChatInterface::new();
    chat.add_message("LLM", "hi");
    assert_eq!(chat.get_last_message().unwrap().sender, "LLM");
    chat.scroll_up();
    assert_eq!(chat.scroll_offset, 0);
    chat.scroll_down();
    chat.scroll_down();
    chat.scroll_up();
    assert_eq!(chat.scroll_offset, 1);
    chat.scroll_offset = usize::MAX;
    chat.scroll_down();
    assert_eq!(chat.scroll_offset, usize::MAX);
}

#[test]
fn home_screen_edits_directory() {
    let mut home = HomeScreen::new("/tmp/docs".to_string());
    assert_eq!(home.handle_input('x'), HomeScreenAction::Continue);
    assert_eq!(home.handle_input('d'), HomeScreenAction::Continue);
    assert!(home.is_editing_directory);
    assert_eq!(home.directory_cursor_position, 9);
    home.handle_input('\x08');
    home.handle_input('\x08');
    home.handle_input('\x08');
    home.handle_input('\x08');
    type_text_home(&mut home, "notes");
    assert_eq!(home.handle_input('\n'), HomeScreenAction::Continue);
    assert!(!home.is_editing_directory);
    assert_eq!(home.get_directory(), "/tmp/notes");
    assert_eq!(home.handle_input('C'), HomeScreenAction::StartChat);
    assert_eq!(home.handle_input('\x1b'), HomeScreenAction::Quit);
}

fn type_text_home(home: &mut HomeScreen, s: &str) {
    for c in s.chars() {
        assert_eq!(home.handle_input(c), HomeScreenAction::Continue);
    }
}

#[test]
fn escape_while_editing_keeps_directory() {
    let mut home = HomeScreen::new("/d".to_string());
    home.handle_input('D');
    home.handle_input('x');
    assert_eq!(home.handle_input('\x1b'), HomeScreenAction::Continue);
    assert!(!home.is_editing_directory);
    assert_eq!(home.directory, "/dx");
    assert_eq!(home.directory_cursor_position, 0);
}

#[test]
fn roles_of_senders() {
    assert_eq!(sender_to_role("User"), "user");
    assert_eq!(sender_to_role("LLM"), "model");
    assert_eq!(sender_to_role("someone"), "user");
}

#[test]
fn scroll_follows_bottom_then_stays_in_range() {
    let mut chat = ChatInterface::new();
    chat.add_message("User", "hi");
    assert_eq!(chat.settle_scroll(30, 10), (20, 30));
    assert!(!chat.scroll_to_bottom);
    assert_eq!(chat.settle_scroll(30, 10), (20, 30));
    chat.scroll_offset = 50;
    assert_eq!(chat.settle_scroll(30, 10), (29, 30));
    chat.scroll_to_bottom = true;
    assert_eq!(chat.settle_scroll(5, 10), (0, 5));
    chat.scroll_offset = 3;
    assert_eq!(chat.settle_scroll(0, 10), (0, 0));
}

#[test]
fn history_lines_wrap_at_width() {
    assert_eq!(split_words("  one\ttwo \n three "), vec!["one", "two", "three"]);
    assert_eq!(wrap_text("hello world foo", 11), vec!["hello world", "foo"]);
    assert_eq!(wrap_text("hello world", 10), vec!["hello", "world"]);
    assert_eq!(wrap_text("abcdefghij xy", 4), vec!["abcd", "efgh", "ij", "xy"]);
    assert_eq!(wrap_text("aa abcdefgh", 4), vec!["aa", "abcd", "efgh"]);
    assert_eq!(wrap_text("ab", 0), vec!["a", "b"]);
    assert!(wrap_text("   ", 5).is_empty());
}

#[test]
fn default_chat_is_empty() {
    let chat = ChatInterface::default();
    assert!(chat.messages.is_empty());
    assert_eq!(chat.input, "");
    assert_eq!(chat.scroll_offset, 0);
    assert!(!chat.scroll_to_bottom);
}
