use emma::key::{Key, Modifier, Modifiers};

#[test]
fn test_is_modifier() {
    assert!(Key::Modifier(Modifier::Control).is_modifier());
    assert!(!Key::Char('a').is_modifier());
}

#[test]
fn test_to_upper() {
    assert_eq!(Key::Char('a').to_upper(), Key::Char('A'));
    assert_eq!(Key::Char('ß').to_upper(), Key::Char('ß'));
    assert_eq!(Key::Escape.to_upper(), Key::Escape);
}

#[test]
fn test_to_lower() {
    assert_eq!(Key::Char('A').to_lower(), Key::Char('a'));
    assert_eq!(Key::Char('İ').to_lower(), Key::Char('İ'));
    assert_eq!(Key::Escape.to_lower(), Key::Escape);
}

#[test]
fn test_to_char() {
    assert_eq!(Key::Char('a').to_char(), Some('a'));
    assert!(Key::Escape.to_char().is_none());
}

#[test]
fn key_from_char_and_named_keys() {
    assert_eq!(Key::from_char('x'), Key::Char('x'));
    assert_eq!(Key::Return.to_char(), Some('\n'));
    assert_eq!(Key::Space.to_char(), Some(' '));
    assert_eq!(Key::Plus.to_char(), Some('+'));
    assert!(Key::Backspace.to_char().is_none());
    assert!(Key::Modifier(Modifier::Shift).to_char().is_none());
}

#[test]
fn key_case_of_non_ascii() {
    assert_eq!(Key::Char('é').to_upper(), Key::Char('É'));
    assert_eq!(Key::Char('Ω').to_lower(), Key::Char('ω'));
    assert_eq!(Key::Char('1').to_upper(), Key::Char('1'));
}

#[test]
fn modifiers_enable_and_compare() {
    let mut m = Modifiers::new();
    assert!(m.is_empty());
    m.enable_modifier(Modifier::Control);
    assert!(!m.is_empty());
    assert!(m == Modifier::Control);
    m.enable_modifier(Modifier::Shift);
    assert!(m != Modifier::Control);
    assert!(m.control && m.shift && !m.alt);
    let only: Modifiers = Modifiers::from(Modifier::Alt);
    assert!(only == Modifier::Alt);
}

#[test]
fn modifier_names() {
    assert_eq!(Modifier::Alt.to_string(), "alt");
    assert_eq!(Modifier::Control.to_string(), "ctrl");
    assert_eq!(Modifier::Shift.to_string(), "shift");
}

#[test]
fn ascii_keys_change_case() {
    assert_eq!(Key::Char('a').to_upper(), Key::Char('A'));
    assert_eq!(Key::Char('Q').to_lower(), Key::Char('q'));
    assert_eq!(Key::Char('1').to_upper(), Key::Char('1'));
    assert_eq!(Key::Char('é').to_upper(), Key::Char('É'));
}
