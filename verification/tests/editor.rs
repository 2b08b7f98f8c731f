//! The line editor.

use seer::editor::{
    backward_whitespace_word, backward_word, byte_len, forward_word, next_char_boundary,
    prev_char_boundary, split_text, EditAction, LineEditor,
};
use seer::key::{KeyCode, KeyEvent, KeyModifiers};

const PLAIN: KeyModifiers =
    KeyModifiers { shift: false, control: false, alt: false, other: false };

fn key(code: KeyCode) -> KeyEvent {
    KeyEvent::new(code, PLAIN)
}

fn ctrl(c: char) -> KeyEvent {
    KeyEvent::new(KeyCode::Char(c), KeyModifiers { control: true, ..PLAIN })
}

fn alt(c: char) -> KeyEvent {
    KeyEvent::new(KeyCode::Char(c), KeyModifiers { alt: true, ..PLAIN })
}

fn feed(e: &mut LineEditor, s: &str) {
    for c in s.chars() {
        assert!(matches!(e.handle_edit(key(KeyCode::Char(c))), EditAction::Handled));
    }
}

#[test]
fn line_editor_typing_inserts_at_cursor() {
    let mut e = LineEditor::new(String::new());
    feed(&mut e, "name=Nexus");
    assert_eq!(e.text, "name=Nexus");
    assert_eq!(e.cursor, "name=Nexus".len());
}

#[test]
fn line_editor_backspace_deletes_char_before_cursor() {
    let mut e = LineEditor::new(String::new());
    feed(&mut e, "abc");
    e.handle_edit(key(KeyCode::Backspace));
    assert_eq!(e.text, "ab");
    assert_eq!(e.cursor, 2);
}

#[test]
fn line_editor_left_right_home_end_move_cursor() {
    let mut e = LineEditor::new(String::new());
    feed(&mut e, "abc");
    e.handle_edit(key(KeyCode::Left));
    assert_eq!(e.cursor, 2);
    e.handle_edit(key(KeyCode::Home));
    assert_eq!(e.cursor, 0);
    e.handle_edit(key(KeyCode::Right));
    assert_eq!(e.cursor, 1);
    e.handle_edit(key(KeyCode::End));
    assert_eq!(e.cursor, 3);
}

#[test]
fn line_editor_delete_removes_char_after_cursor() {
    let mut e = LineEditor::new(String::new());
    feed(&mut e, "abc");
    e.handle_edit(key(KeyCode::Home));
    e.handle_edit(key(KeyCode::Delete));
    assert_eq!(e.text, "bc");
    assert_eq!(e.cursor, 0);
}

#[test]
fn line_editor_ctrl_a_and_ctrl_e_jump_to_line_ends() {
    let mut e = LineEditor::new(String::new());
    feed(&mut e, "abc");
    e.handle_edit(ctrl('a'));
    assert_eq!(e.cursor, 0);
    e.handle_edit(ctrl('e'));
    assert_eq!(e.cursor, 3);
}

#[test]
fn line_editor_ctrl_k_kills_to_end_of_line() {
    let mut e = LineEditor::new(String::new());
    feed(&mut e, "level>=warn name=Nexus");
    e.handle_edit(ctrl('a'));
    for _ in 0.."level>=warn".len() {
        e.handle_edit(key(KeyCode::Right));
    }
    e.handle_edit(ctrl('k'));
    assert_eq!(e.text, "level>=warn");
    assert_eq!(e.cursor, "level>=warn".len());
}

#[test]
fn line_editor_ctrl_k_at_end_is_noop() {
    let mut e = LineEditor::new(String::new());
    feed(&mut e, "abc");
    e.handle_edit(ctrl('k'));
    assert_eq!(e.text, "abc");
    assert_eq!(e.cursor, 3);
}

#[test]
fn line_editor_ctrl_u_kills_to_start_of_line() {
    let mut e = LineEditor::new(String::new());
    feed(&mut e, "level>=warn name=Nexus");
    for _ in 0..3 {
        e.handle_edit(key(KeyCode::Left));
    }
    let cursor_before = e.cursor;
    e.handle_edit(ctrl('u'));
    assert_eq!(e.text, "xus");
    assert_eq!(e.cursor, 0);
    assert!(cursor_before > 0);
}

#[test]
fn line_editor_ctrl_u_at_start_is_noop() {
    let mut e = LineEditor::new(String::new());
    feed(&mut e, "abc");
    e.handle_edit(key(KeyCode::Home));
    e.handle_edit(ctrl('u'));
    assert_eq!(e.text, "abc");
    assert_eq!(e.cursor, 0);
}

#[test]
fn line_editor_ctrl_w_kills_previous_whitespace_word() {
    let mut e = LineEditor::new(String::new());
    feed(&mut e, "level>=warn name=Nexus");
    e.handle_edit(ctrl('w'));
    assert_eq!(e.text, "level>=warn ");
    assert_eq!(e.cursor, "level>=warn ".len());
}

#[test]
fn line_editor_ctrl_w_consumes_trailing_whitespace_first() {
    let mut e = LineEditor::new(String::new());
    feed(&mut e, "name=Nexus   ");
    e.handle_edit(ctrl('w'));
    assert_eq!(e.text, "");
    assert_eq!(e.cursor, 0);
}

#[test]
fn line_editor_alt_b_moves_back_one_alphanumeric_word() {
    let mut e = LineEditor::new(String::new());
    feed(&mut e, "level>=warn name=Nexus");
    e.handle_edit(alt('b'));
    assert_eq!(&e.text[e.cursor..], "Nexus");
    e.handle_edit(alt('b'));
    assert_eq!(&e.text[e.cursor..], "name=Nexus");
    e.handle_edit(alt('b'));
    assert_eq!(&e.text[e.cursor..], "warn name=Nexus");
    e.handle_edit(alt('b'));
    assert_eq!(e.cursor, 0);
    e.handle_edit(alt('b'));
    assert_eq!(e.cursor, 0);
}

#[test]
fn line_editor_alt_f_moves_forward_one_alphanumeric_word() {
    let mut e = LineEditor::new(String::new());
    feed(&mut e, "level>=warn name=Nexus");
    e.handle_edit(key(KeyCode::Home));
    e.handle_edit(alt('f'));
    assert_eq!(&e.text[..e.cursor], "level");
    e.handle_edit(alt('f'));
    assert_eq!(&e.text[..e.cursor], "level>=warn");
    e.handle_edit(alt('f'));
    assert_eq!(&e.text[..e.cursor], "level>=warn name");
    e.handle_edit(alt('f'));
    assert_eq!(e.cursor, e.text.len());
    e.handle_edit(alt('f'));
    assert_eq!(e.cursor, e.text.len());
}

#[test]
fn line_editor_keeps_to_whole_characters() {
    let mut e = LineEditor::new(String::new());
    feed(&mut e, "aßπ𝄞");
    assert_eq!(e.cursor, byte_len("aßπ𝄞"));
    for left in ["aßπ", "aß", "a", ""] {
        e.move_left();
        assert_eq!(&e.text[..e.cursor], left);
    }
    e.move_right();
    e.move_right();
    assert_eq!(&e.text[..e.cursor], "aß");
    e.backspace();
    assert_eq!(e.text, "aπ𝄞");
    e.delete();
    assert_eq!(e.text, "a𝄞");
    assert_eq!(e.cursor, 1);
}

#[test]
fn motion_keeps_the_text() {
    let mut e = LineEditor::new("level>=warn ä".to_string());
    let keys = [
        key(KeyCode::Left),
        key(KeyCode::Home),
        key(KeyCode::Right),
        key(KeyCode::End),
        ctrl('a'),
        ctrl('e'),
        alt('b'),
        alt('f'),
    ];
    for k in keys {
        assert_eq!(e.handle_edit(k), EditAction::Handled);
        assert_eq!(e.text, "level>=warn ä");
        assert!(e.text.is_char_boundary(e.cursor));
    }
}

#[test]
fn backspace_undoes_typing() {
    let mut e = LineEditor::new("abc".to_string());
    e.move_left();
    let cursor = e.cursor;
    e.handle_edit(key(KeyCode::Char('ß')));
    assert_eq!(e.text, "abßc");
    e.backspace();
    assert_eq!(e.text, "abc");
    assert_eq!(e.cursor, cursor);
}

#[test]
fn keys_without_a_meaning_are_left_to_others() {
    let mut e = LineEditor::new("abc".to_string());
    for k in [key(KeyCode::Enter), key(KeyCode::Esc), key(KeyCode::Tab), ctrl('t')] {
        assert_eq!(e.handle_edit(k), EditAction::Unhandled);
    }
    assert_eq!(e.text, "abc");
}

#[test]
fn boundaries_and_words_are_found_in_bytes() {
    let s = "ab ßc";
    assert_eq!(next_char_boundary(s, 3), 5);
    assert_eq!(prev_char_boundary(s, 5), 3);
    assert_eq!(prev_char_boundary(s, 0), 0);
    assert_eq!(next_char_boundary(s, s.len()), s.len());
    assert_eq!(forward_word(s, 0), 2);
    // words are made of ASCII letters and digits
    assert_eq!(forward_word(s, 2), s.len());
    assert_eq!(backward_word(s, s.len()), 5);
    assert_eq!(backward_word(s, 5), 0);
    assert_eq!(backward_whitespace_word(s, 3), 0);
    assert_eq!(split_text(s, 3), ("ab ", "ßc"));
}

#[test]
fn kills_take_what_lies_on_one_side() {
    let mut e = LineEditor::new("one two".to_string());
    e.kill_word_backward();
    assert_eq!(e.text, "one ");
    e.move_left();
    e.kill_to_end();
    assert_eq!(e.text, "one");
    e.kill_to_start();
    assert_eq!(e.text, "");
}
