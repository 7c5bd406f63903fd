use emma::action::Action;
use emma::key::Key;
use emma::key_map::{KeyMap, KeyMapLookup, KeyMapStack};
use emma::key_sequence::KeySequence;
use emma::pane_tree::Orientation;

#[test]
fn key_map_test_lookup() {
    let mut stack = KeyMapStack::default();
    stack.push(KeyMap::from_pairs(
        "base",
        vec![("<ctrl>a", Action::Exit), ("<ctrl>b", Action::OpenFile), ("x", Action::Undo)],
    ));
    stack.push(KeyMap::from_pairs(
        "overlay",
        vec![("<ctrl>a", Action::SaveFile), ("<ctrl>c", Action::PreviousPane)],
    ));

    // Overlay overrides base.
    assert_eq!(
        stack.lookup(&KeySequence::parse("<ctrl>a").unwrap()),
        KeyMapLookup::Action(Action::SaveFile)
    );
    // Item only in overlay is used.
    assert_eq!(
        stack.lookup(&KeySequence::parse("<ctrl>c").unwrap()),
        KeyMapLookup::Action(Action::PreviousPane)
    );
    // Item only in base is used.
    assert_eq!(
        stack.lookup(&KeySequence::parse("<ctrl>b").unwrap()),
        KeyMapLookup::Action(Action::OpenFile)
    );
    // Single-character sequence falls through the overlay keymap and is
    // found in the base keymap.
    assert_eq!(stack.lookup(&KeySequence::parse("x").unwrap()), KeyMapLookup::Action(Action::Undo));
    // Simple sequence not in any keymap.
    assert_eq!(
        stack.lookup(&KeySequence::parse("y").unwrap()),
        KeyMapLookup::Action(Action::Insert('y'))
    );
    // Sequence not in any keymap.
    assert_eq!(stack.lookup(&KeySequence::parse("<ctrl>x").unwrap()), KeyMapLookup::BadSequence);
}

#[test]
fn key_map_fall_through_and_insert() {
    let mut stack = KeyMapStack::default();
    stack.push(KeyMap::from_pairs("base", vec![("x", Action::Undo), ("<ctrl>x+<ctrl>c", Action::Exit)]));
    stack.push(KeyMap::from_pairs("overlay", vec![("<ctrl>a", Action::Redo)]));

    // A single key falls through the overlay to the base map.
    assert_eq!(stack.lookup(&KeySequence::parse("x").unwrap()), KeyMapLookup::Action(Action::Undo));
    // A key in no map inserts its char.
    assert_eq!(
        stack.lookup(&KeySequence::parse("y").unwrap()),
        KeyMapLookup::Action(Action::Insert('y'))
    );
    // Shift alone uppercases.
    assert_eq!(
        stack.lookup(&KeySequence::parse("<shift>y").unwrap()),
        KeyMapLookup::Action(Action::Insert('Y'))
    );
    // The start of a longer binding is a prefix.
    assert_eq!(stack.lookup(&KeySequence::parse("<ctrl>x").unwrap()), KeyMapLookup::Prefix);
    // Anything else is a bad sequence.
    assert_eq!(stack.lookup(&KeySequence::parse("<ctrl>z").unwrap()), KeyMapLookup::BadSequence);
    // A lone key without a char has nothing to insert.
    assert_eq!(stack.try_lookup(&KeySequence::parse("<backspace>").unwrap()), None);
}

#[test]
fn key_map_insert_replaces() {
    let mut map = KeyMap::new("test");
    assert_eq!(map.get_name(), "test");
    map.insert(KeySequence::parse("<ctrl>a").unwrap(), Action::Exit);
    map.insert(KeySequence::parse("<ctrl>a").unwrap(), Action::SplitPane(Orientation::Vertical));
    assert_eq!(
        map.lookup(&KeySequence::parse("<ctrl>a").unwrap()),
        KeyMapLookup::Action(Action::SplitPane(Orientation::Vertical))
    );
    assert!(map.parse_and_insert("<nope>", Action::Exit).is_err());
    assert!(map.parse_and_insert("<alt>q", Action::Exit).is_ok());
    assert_eq!(
        map.lookup(&KeySequence::parse("<alt>q").unwrap()),
        KeyMapLookup::Action(Action::Exit)
    );
}

#[test]
fn key_map_base_binds_defaults() {
    let base = KeyMap::base().unwrap();
    assert_eq!(base.get_name(), "base");
    assert_eq!(base.lookup(&KeySequence::parse("<esc>").unwrap()), KeyMapLookup::Action(Action::Exit));
    assert_eq!(base.lookup(&KeySequence::parse("<ctrl>x").unwrap()), KeyMapLookup::Prefix);
    let _ = Key::Escape;
}

#[test]
fn key_map_failed_map_is_skipped() {
    let mut stack = KeyMapStack::default();
    stack.push(KeyMap::from_pairs("bad", vec![("<nope>", Action::Exit)]));
    assert_eq!(
        stack.lookup(&KeySequence::parse("q").unwrap()),
        KeyMapLookup::Action(Action::Insert('q'))
    );
}
