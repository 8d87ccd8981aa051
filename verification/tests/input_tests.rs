use ted::input::{escape_step, ESCAPE_CHAR};
use ted::input::{backspace, convert_to_key, kbd, Input, Key};
use ted::state::is_displayable;

#[test]
fn kbd_doctest() {
    assert_eq!(kbd("a"), Input { key: Key::Key('a'), control: false, alt: false });
    assert_eq!(kbd("C-a"), Input { key: Key::Key('a'), control: true, alt: false });
    assert_eq!(kbd("A-a"), Input { key: Key::Key('a'), control: false, alt: true });
    assert_eq!(kbd("C-A-a"), Input { key: Key::Key('a'), control: true, alt: true });
    assert_eq!(kbd("F1"), Input { key: Key::Function(1), control: false, alt: false });
    assert_eq!(kbd("C-F1"), Input { key: Key::Function(1), control: true, alt: false });
    assert_eq!(kbd("A-F1"), Input { key: Key::Function(1), control: false, alt: true });
    assert_eq!(kbd("C-A-F1"), Input { key: Key::Function(1), control: true, alt: true });
    assert_eq!(kbd("Backspace"), Input { key: backspace(), control: false, alt: false });
    assert_eq!(kbd("C-Backspace"), Input { key: backspace(), control: true, alt: false });
    assert_eq!(kbd("A-Backspace"), Input { key: backspace(), control: false, alt: true });
    assert_eq!(kbd("C-A-Backspace"), Input { key: backspace(), control: true, alt: true });
}

#[test]
fn input_format_debug_test() {
    assert_eq!("C-A-F1", Input { control: true, alt: true, key: Key::Function(1) }.debug_string());
    assert_eq!("C-F1", Input { control: true, alt: false, key: Key::Function(1) }.debug_string());
    assert_eq!("A-F1", Input { control: false, alt: true, key: Key::Function(1) }.debug_string());
    assert_eq!("F1", Input { control: false, alt: false, key: Key::Function(1) }.debug_string());
    assert_eq!("C-A-1", Input { control: true, alt: true, key: Key::Key('1') }.debug_string());
    assert_eq!("C-1", Input { control: true, alt: false, key: Key::Key('1') }.debug_string());
    assert_eq!("A-1", Input { control: false, alt: true, key: Key::Key('1') }.debug_string());
    assert_eq!("1", Input { control: false, alt: false, key: Key::Key('1') }.debug_string());
}

#[test]
fn convert_to_key_1() {
    assert_ne!(convert_to_key(2 as char, true), kbd("C-A-a"));
    assert_eq!(convert_to_key(1 as char, true), kbd("C-A-a"));
    assert_eq!(convert_to_key(2 as char, false), kbd("C-b"));
}

#[test]
fn curses_renderer_convert_to_key_1() {
    assert_ne!(convert_to_key(2 as char, true), kbd("C-A-a"));
    assert_eq!(convert_to_key(1 as char, true), kbd("C-A-a"));
    assert_eq!(convert_to_key(2 as char, false), kbd("C-b"));
}

#[test]
fn is_displayable_newline() {
    assert!(is_displayable('\n'));
}

#[test]
fn is_displayable_ascii() {
    assert!(is_displayable('a'));
    assert!(is_displayable('!'));
}

#[test]
fn is_not_displayable_feed() {
    assert!(!is_displayable('\r'));
}

#[test]
fn is_displayable_space() {
    assert!(is_displayable(' '));
}

#[test]
fn is_displayable_tab() {
    assert!(is_displayable('\t'));
}

#[test]
fn kbd_unknown_word_is_first_character() {
    assert_eq!(kbd("x"), Input { key: Key::Key('x'), control: false, alt: false });
    assert_eq!(kbd("C-@"), Input { key: Key::Key('@'), control: true, alt: false });
}

#[test]
fn convert_to_key_plain_and_escape() {
    assert_eq!(convert_to_key('a', false), kbd("a"));
    assert_eq!(convert_to_key('a', true), kbd("A-a"));
}

#[test]
fn escape_makes_the_next_key_alt() {
    assert_eq!(escape_step(false, ESCAPE_CHAR), (true, None));
    assert_eq!(escape_step(true, 'b'), (false, Some(kbd("A-b"))));
    assert_eq!(escape_step(false, '\u{2}'), (false, Some(kbd("C-b"))));
    assert_eq!(escape_step(true, '\u{1}'), (false, Some(kbd("C-A-a"))));
}
