use mech_game_ddev::{ChatInput, ChatKey, MAX_CHAT_LEN};

fn typed(chat: &mut ChatInput, s: &str) {
    for c in s.chars() {
        assert_eq!(chat.press(ChatKey::Typed(c)), None);
    }
}

#[test]
fn enter_opens_then_sends() {
    let mut chat = ChatInput::new();
    assert!(!chat.open);
    assert_eq!(chat.press(ChatKey::Enter), None);
    assert!(chat.open);
    typed(&mut chat, "gl hf");
    assert_eq!(chat.press(ChatKey::Enter), Some("gl hf".to_string()));
    assert!(!chat.open);
    assert!(chat.text.is_empty());
}

#[test]
fn closed_box_ignores_typing() {
    let mut chat = ChatInput::new();
    typed(&mut chat, "abc");
    assert!(chat.text.is_empty());
}

#[test]
fn empty_line_closes_without_sending() {
    let mut chat = ChatInput::new();
    chat.press(ChatKey::Enter);
    assert_eq!(chat.press(ChatKey::Enter), None);
    assert!(!chat.open);
}

#[test]
fn backspace_and_line_breaks() {
    let mut chat = ChatInput::new();
    chat.press(ChatKey::Enter);
    typed(&mut chat, "ab\r\nc\u{8}\u{8}");
    assert_eq!(chat.text, vec!['a']);
    typed(&mut chat, "\u{8}\u{8}");
    assert!(chat.text.is_empty());
}

#[test]
fn escape_drops_the_line() {
    let mut chat = ChatInput::new();
    chat.press(ChatKey::Enter);
    typed(&mut chat, "oops");
    assert_eq!(chat.press(ChatKey::Escape), None);
    assert!(!chat.open);
    assert!(chat.text.is_empty());
}

#[test]
fn only_printable_ascii_is_kept() {
    let mut chat = ChatInput::new();
    chat.press(ChatKey::Enter);
    typed(&mut chat, "é/gg\t~");
    assert_eq!(chat.press(ChatKey::Enter), Some("/gg~".to_string()));
}

#[test]
fn line_stops_at_the_limit() {
    let mut chat = ChatInput::new();
    chat.press(ChatKey::Enter);
    for _ in 0..MAX_CHAT_LEN + 20 {
        chat.press(ChatKey::Typed('x'));
    }
    assert_eq!(chat.text.len(), 100);
    assert_eq!(chat.press(ChatKey::Enter), Some("x".repeat(100)));
}
