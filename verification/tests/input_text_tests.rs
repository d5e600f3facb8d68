use seija::input_text::{EditEvent, EditKey, EditResult, ImeEvent, InputTextCache};

fn typed(c: &mut InputTextCache, s: &str) {
    for ch in s.chars() {
        c.on_ime_event(ImeEvent::ReceivedCharacter(ch));
    }
}

#[test]
fn typing_inserts_after_caret() {
    let mut c = InputTextCache::new();
    c.place_cursor(-1);
    typed(&mut c, "abc");
    assert_eq!(c.text(), "abc");
    assert_eq!(c.cursor(), 2);
    c.on_key(EditKey::Left);
    c.on_key(EditKey::Left);
    let r = c.on_ime_event(ImeEvent::ReceivedCharacter('x'));
    assert_eq!(r, EditResult { text_changed: true, caret_moved: true });
    assert_eq!(c.text(), "axbc");
    assert_eq!(c.cursor(), 1);
}

#[test]
fn control_characters_are_ignored() {
    let mut c = InputTextCache::new();
    c.set_text("ab");
    let r = c.on_ime_event(ImeEvent::ReceivedCharacter('\u{8}'));
    assert_eq!(r, EditResult { text_changed: false, caret_moved: false });
    assert_eq!(c.text(), "ab");
    assert_eq!(c.cursor(), 0);
}

#[test]
fn commit_into_empty_text_and_after_caret() {
    let mut c = InputTextCache::new();
    c.place_cursor(-1);
    c.on_ime_event(ImeEvent::Commit("你好".to_string()));
    assert_eq!(c.text(), "你好");
    assert_eq!(c.cursor(), 1);
    c.on_key(EditKey::Left);
    c.on_ime_event(ImeEvent::Commit("xy".to_string()));
    assert_eq!(c.text(), "你xy好");
    assert_eq!(c.cursor(), 2);
}

#[test]
fn backspace_removes_char_before_caret() {
    let mut c = InputTextCache::new();
    c.set_text("hello");
    c.place_cursor(2);
    let r = c.on_key(EditKey::Backspace);
    assert_eq!(r, EditResult { text_changed: true, caret_moved: true });
    assert_eq!(c.text(), "helo");
    assert_eq!(c.cursor(), 1);
    c.place_cursor(-1);
    let r = c.on_key(EditKey::Backspace);
    assert_eq!(r, EditResult { text_changed: false, caret_moved: false });
    assert_eq!(c.text(), "helo");
}

#[test]
fn backspace_undoes_typing() {
    let mut c = InputTextCache::new();
    c.set_text("abc");
    c.place_cursor(1);
    c.on_ime_event(ImeEvent::ReceivedCharacter('z'));
    assert_eq!(c.text(), "abzc");
    c.on_key(EditKey::Backspace);
    assert_eq!(c.text(), "abc");
    assert_eq!(c.cursor(), 1);
}

#[test]
fn arrows_stay_within_text() {
    let mut c = InputTextCache::new();
    c.set_text("ab");
    c.place_cursor(-1);
    assert!(!c.on_key(EditKey::Left).caret_moved);
    assert_eq!(c.cursor(), -1);
    assert!(c.on_key(EditKey::Right).caret_moved);
    assert!(c.on_key(EditKey::Right).caret_moved);
    assert_eq!(c.cursor(), 1);
    assert!(!c.on_key(EditKey::Right).caret_moved);
    assert_eq!(c.cursor(), 1);
    assert_eq!(c.on_key(EditKey::Other), EditResult { text_changed: false, caret_moved: false });
}

#[test]
fn click_past_end_pulls_caret_back() {
    let mut c = InputTextCache::new();
    c.set_text("abc");
    c.place_cursor(3);
    assert_eq!(c.cursor(), 2);
    c.place_cursor(0);
    assert_eq!(c.cursor(), 0);
    let mut e = InputTextCache::new();
    e.place_cursor(0);
    assert_eq!(e.cursor(), 0);
    assert_eq!(e.char_count(), 0);
}

#[test]
fn a_frame_of_edits_keeps_the_caret_in_the_text() {
    let mut c = InputTextCache::new();
    c.set_text("ab");
    c.place_cursor(-1);
    c.on_edits(&vec![
        EditEvent::Ime(ImeEvent::ReceivedCharacter('x')),
        EditEvent::Key(EditKey::Right),
        EditEvent::Ime(ImeEvent::Commit(String::from("yz"))),
        EditEvent::Key(EditKey::Backspace),
        EditEvent::Key(EditKey::Right),
        EditEvent::Key(EditKey::Right),
    ]);
    assert_eq!(c.text(), "xayb");
    assert_eq!(c.cursor(), 3);
}
