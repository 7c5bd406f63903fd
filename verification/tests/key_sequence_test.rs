use emma::key::{Key, Modifier, Modifiers};
use emma::key_sequence::{
    parse_key_sequence_as_items, Error, KeySequence, KeySequenceAtom, ParseItem,
};

fn ctrl() -> Modifiers {
    Modifiers::from(Modifier::Control)
}

fn shift() -> Modifiers {
    Modifiers::from(Modifier::Shift)
}

#[test]
fn key_sequence_test_error_display() {
    assert_eq!(
        Error::UnexpectedModifier(ctrl()).to_string(),
        "unexpected modifier ctrl".to_string()
    );
    assert_eq!(
        Error::UnexpectedKey(Key::Char('a')).to_string(),
        "unexpected key \"a\"".to_string()
    );
    assert_eq!(
        Error::UnexpectedKey(Key::Escape).to_string(),
        "unexpected key <esc>".to_string()
    );
    assert_eq!(
        Error::UnexpectedKey(Key::Backspace).to_string(),
        "unexpected key <backspace>".to_string()
    );
}

#[test]
fn key_sequence_test_parse_key_sequence() {
    assert_eq!(
        parse_key_sequence_as_items("aa"),
        Ok(vec![ParseItem::Key(Key::Char('a')), ParseItem::Key(Key::Char('a'))])
    );
    assert_eq!(
        parse_key_sequence_as_items("<ctrl><shift>"),
        Ok(vec![ParseItem::Modifier(ctrl()), ParseItem::Modifier(shift())])
    );
    assert_eq!(
        parse_key_sequence_as_items("<invalid>"),
        Err(Error::InvalidName("invalid".into()))
    );
}

#[test]
fn key_sequence_test_sequence_from_items() {
    assert_eq!(
        KeySequence::from_items(&[ParseItem::Key(Key::Char('a'))]),
        Ok(KeySequence(vec![KeySequenceAtom {
            modifiers: Modifiers::new(),
            key: Key::Char('a'),
        }]))
    );
    assert_eq!(
        KeySequence::from_items(&[ParseItem::Modifier(ctrl()), ParseItem::Key(Key::Char('a'))]),
        Ok(KeySequence(vec![KeySequenceAtom { modifiers: ctrl(), key: Key::Char('a') }]))
    );
    assert_eq!(
        KeySequence::from_items(&[
            ParseItem::Modifier(ctrl()),
            ParseItem::Key(Key::Char('x')),
            ParseItem::Append,
            ParseItem::Key(Key::Char('a')),
        ]),
        Ok(KeySequence(vec![
            KeySequenceAtom { modifiers: ctrl(), key: Key::Char('x') },
            KeySequenceAtom { modifiers: Modifiers::new(), key: Key::Char('a') },
        ]))
    );
    assert_eq!(
        KeySequence::from_items(&[
            ParseItem::Modifier(ctrl()),
            ParseItem::Key(Key::Char('x')),
            ParseItem::Append,
            ParseItem::Modifier(ctrl()),
            ParseItem::Key(Key::Char('a')),
        ]),
        Ok(KeySequence(vec![
            KeySequenceAtom { modifiers: ctrl(), key: Key::Char('x') },
            KeySequenceAtom { modifiers: ctrl(), key: Key::Char('a') },
        ]))
    );
    assert_eq!(
        KeySequence::from_items(&[ParseItem::Key(Key::Char('a')), ParseItem::Modifier(ctrl())]),
        Err(Error::UnexpectedModifier(ctrl()))
    );
    assert_eq!(KeySequence::from_items(&[ParseItem::Append]), Err(Error::UnexpectedAppend));
}

#[test]
fn key_sequence_parse_named_keys() {
    let seq = KeySequence::parse("<ctrl>x+<esc>").unwrap();
    assert_eq!(
        seq,
        KeySequence(vec![
            KeySequenceAtom { modifiers: ctrl(), key: Key::Char('x') },
            KeySequenceAtom { modifiers: Modifiers::new(), key: Key::Escape },
        ])
    );
    assert_eq!(
        KeySequence::parse("<ret>").unwrap(),
        KeySequence(vec![KeySequenceAtom { modifiers: Modifiers::new(), key: Key::Return }])
    );
    assert!(KeySequence::parse("<bogus>").is_err());
}

#[test]
fn key_sequence_prefix_and_event() {
    let a = KeySequence::parse("<ctrl>x").unwrap();
    let b = KeySequence::parse("<ctrl>x+<ctrl>c").unwrap();
    assert!(b.starts_with(&a));
    assert!(!a.starts_with(&b));
    let atom = KeySequenceAtom::from_event(Key::Char('Q'), shift());
    assert_eq!(atom, KeySequenceAtom { modifiers: shift(), key: Key::Char('q') });
}
