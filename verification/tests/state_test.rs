use emma::action::{Action, Boundary, Direction, Move};
use emma::buffer::{AbsChar, Buffer, BufferId};
use emma::key::{Key, Modifier, Modifiers};
use emma::key_map::KeyMap;
use emma::pane_tree::Orientation;
use emma::overlay::{OpenFile, Overlay};
use emma::highlight::HighlightError;
use emma::state::{AppState, BufferMap, KeyHandler, Outcome, StateError};
use syntect::highlighting::Theme;
use syntect::parsing::SyntaxSet;

fn empty_state() -> AppState {
    AppState::load(KeyHandler::new().unwrap(), Vec::new(), Vec::new(), None)
}

fn active_text(state: &AppState) -> String {
    let pane = state.pane_tree().active();
    state.buffers().get(pane.buffer_id()).unwrap().text().to_string()
}

fn active_cursor(state: &AppState) -> AbsChar {
    let pane = state.pane_tree().active();
    state.buffers().get(pane.buffer_id()).unwrap().cursor(pane.id())
}

#[test]
fn event_test_app_state() {
    let app_state = empty_state();
    let panes = app_state.pane_tree().panes();
    assert_eq!(panes.len(), 1);
    assert!(app_state.pane_tree().active().id().same(panes[0].id()));
    // Scratch buffer.
    assert_eq!(app_state.buffers().len(), 1);
}

#[test]
fn typing_and_editing() {
    let mut state = empty_state();
    for c in "hello".chars() {
        assert_eq!(state.handle_action(Action::Insert(c)), Ok(Outcome::Done(true)));
    }
    assert_eq!(active_text(&state), "hello");
    assert_eq!(active_cursor(&state), AbsChar(5));
    state.handle_action(Action::Delete(Boundary::Grapheme, Direction::Dec)).unwrap();
    assert_eq!(active_text(&state), "hell");
    state
        .handle_action(Action::Move(Move::Boundary(Boundary::BufferEnd), Direction::Dec))
        .unwrap();
    assert_eq!(active_cursor(&state), AbsChar(0));
    state.handle_action(Action::Delete(Boundary::LineEnd, Direction::Inc)).unwrap();
    assert_eq!(active_text(&state), "");
    state.handle_action(Action::Undo).unwrap();
    assert_eq!(active_text(&state), "hell");
    state.handle_action(Action::Redo).unwrap();
    assert_eq!(active_text(&state), "");
}

#[test]
fn delete_at_boundary_changes_nothing() {
    let mut state = empty_state();
    state.handle_action(Action::Delete(Boundary::Grapheme, Direction::Dec)).unwrap();
    assert_eq!(active_text(&state), "");
}

#[test]
fn outside_actions_are_returned() {
    let mut state = empty_state();
    assert_eq!(state.handle_action(Action::Exit), Ok(Outcome::External(Action::Exit)));
    assert_eq!(state.handle_action(Action::SaveFile), Ok(Outcome::External(Action::SaveFile)));
    assert_eq!(
        state.handle_action(Action::RunNonInteractiveProcess),
        Ok(Outcome::External(Action::RunNonInteractiveProcess))
    );
    assert_eq!(state.handle_action(Action::Cancel), Ok(Outcome::Done(false)));
}

#[test]
fn append_to_buffer() {
    let mut state = empty_state();
    let id = state.pane_tree().active().buffer_id().clone();
    let r = state.handle_action(Action::AppendToBuffer(id, "hello!\n".to_string()));
    assert_eq!(r, Ok(Outcome::Done(true)));
    assert_eq!(active_text(&state), "hello!\n");
    let missing = BufferId::from_string("buffer-none".to_string());
    let r = state.handle_action(Action::AppendToBuffer(missing.clone(), "x".to_string()));
    assert_eq!(r, Err(StateError::InvalidBuffer(missing)));
    assert_eq!(r.unwrap_err().to_string(), "invalid buffer: {buf_id}");
}

#[test]
fn split_and_switch_panes() {
    let mut state = empty_state();
    state.handle_action(Action::SplitPane(Orientation::Vertical)).unwrap();
    assert_eq!(state.pane_tree().panes().len(), 2);
    assert_eq!(state.pane_tree().active_index(), 0);
    state.handle_action(Action::NextPane).unwrap();
    assert_eq!(state.pane_tree().active_index(), 1);
    state.handle_action(Action::PreviousPane).unwrap();
    assert_eq!(state.pane_tree().active_index(), 0);
}

#[test]
fn delete_buffer_switches_panes() {
    let extra = Buffer::create_empty();
    let extra_id = extra.id().clone();
    let mut state = AppState::load(KeyHandler::new().unwrap(), Vec::new(), vec![extra], None);
    assert_eq!(state.buffers().len(), 2);
    let scratch = state.pane_tree().active().buffer_id().clone();
    state.handle_action(Action::DeleteBuffer).unwrap();
    assert_eq!(state.buffers().len(), 1);
    assert!(!state.buffers().contains(&scratch));
    assert!(state.pane_tree().active().buffer_id().same(&extra_id));
    assert_eq!(active_cursor(&state), AbsChar(0));
}

#[test]
fn search_next_moves_cursor() {
    let mut state = empty_state();
    let id = state.pane_tree().active().buffer_id().clone();
    state.handle_action(Action::AppendToBuffer(id.clone(), "ab ab ab".to_string())).unwrap();
    assert_eq!(active_text(&state), "ab ab ab");
    // Searching happens in the buffer, for the lines shown in the pane.
    let pane = state.pane_tree().active().clone();
    let mut buf = Buffer::create_empty();
    buf.set_text("ab ab ab");
    buf.set_cursor(pane.id(), AbsChar(1));
    buf.search("ab", &pane, 5);
    emma::state::search_next_in(pane.id(), &mut buf);
    assert_eq!(buf.cursor(pane.id()), AbsChar(3));
}

#[test]
fn key_handler_sequences() {
    let mut state = empty_state();
    let none: Option<Result<KeyMap, emma::key_sequence::Error>> = None;
    let ctrl = Modifiers::from(Modifier::Control);
    // A lone modifier is ignored.
    assert_eq!(state.handle_key(Key::Modifier(Modifier::Control), ctrl, &none), None);
    // A plain key inserts itself.
    assert_eq!(state.handle_key(Key::Char('a'), Modifiers::new(), &none), Some(Action::Insert('a')));
    // "<ctrl>x" starts longer bindings, then "<ctrl>c" completes exit.
    assert_eq!(state.handle_key(Key::Char('x'), ctrl, &none), None);
    assert_eq!(state.handle_key(Key::Char('c'), ctrl, &none), Some(Action::Exit));
    // An unbound sequence is dropped.
    assert_eq!(state.handle_key(Key::Char('z'), ctrl, &none), None);
    assert_eq!(state.handle_key(Key::Char('b'), Modifiers::new(), &none), Some(Action::Insert('b')));
    // The overlay's map is consulted first.
    let overlay = Some(KeyMap::from_pairs("overlay", vec![("b", Action::Confirm)]));
    assert_eq!(state.handle_key(Key::Char('b'), Modifiers::new(), &overlay), Some(Action::Confirm));
}

#[test]
fn key_handler_can_handle() {
    let handler = KeyHandler::new().unwrap();
    let none: Option<Result<KeyMap, emma::key_sequence::Error>> = None;
    assert!(handler.can_handle(Key::Char('a'), Modifiers::new(), &none));
    assert!(handler.can_handle(Key::Escape, Modifiers::new(), &none));
    assert!(handler.can_handle(Key::Backspace, Modifiers::from(Modifier::Alt), &none));
    assert!(handler.can_handle(Key::Modifier(Modifier::Shift), Modifiers::new(), &none));
}

#[test]
fn buffer_map_insert_and_remove() {
    let mut map = BufferMap::new();
    let a = Buffer::create_empty();
    let a_id = a.id().clone();
    map.insert(a);
    assert_eq!(map.len(), 1);
    assert!(map.contains(&a_id));
    assert!(map.find_other(&a_id).is_none());
    let b = Buffer::create_minibuf();
    let b_id = b.id().clone();
    map.insert(b);
    assert_eq!(map.len(), 2);
    assert!(map.find_other(&a_id).unwrap().same(&b_id));
    let removed = map.remove(&a_id).unwrap();
    assert!(removed.id().same(&a_id));
    assert!(map.remove(&a_id).is_none());
    assert_eq!(map.len(), 1);
}

#[test]
fn search_overlay_takes_edits_and_confirms() {
    let mut state = empty_state();
    let id = state.pane_tree().active().buffer_id().clone();
    state.handle_action(Action::AppendToBuffer(id, "xx ab xx ab".to_string())).unwrap();
    state.handle_action(Action::InteractiveSearch).unwrap();
    assert_eq!(state.overlay().unwrap().prompt(), "Search:");
    for c in "ab".chars() {
        state.handle_action(Action::Insert(c)).unwrap();
    }
    // The typed text went to the overlay, not the pane's buffer.
    assert_eq!(state.overlay().unwrap().buffer().text().to_string(), "ab");
    assert_eq!(active_text(&state), "xx ab xx ab");
    state.update_search(10).unwrap();
    assert_eq!(state.handle_action(Action::Confirm), Ok(Outcome::Done(false)));
    assert!(state.overlay().is_none());
    // The cursor (at the start) moved to the first match; the search ended.
    assert_eq!(active_cursor(&state), AbsChar(3));
    let pane = state.pane_tree().active();
    assert!(state.buffers().get(pane.buffer_id()).unwrap().search_state().is_none());
}

#[test]
fn open_file_overlay_confirms_path() {
    let mut state = empty_state();
    let mut w = OpenFile::new("/tmp");
    assert_eq!(w.path_text(), "/tmp/");
    assert_eq!(w.suggestion_pattern(), "/tmp/*");
    w.set_suggestions(vec!["a".to_string(), "b".to_string()]);
    assert_eq!(w.suggestions(), "a | b");
    state.set_overlay(Some(Overlay::OpenFile(w)));
    assert_eq!(state.overlay().unwrap().prompt(), "Open file:");
    state.handle_action(Action::Insert('x')).unwrap();
    match state.handle_action(Action::Confirm) {
        Ok(Outcome::OpenPath(p)) => assert_eq!(p, "/tmp/x"),
        other => panic!("unexpected {:?}", other),
    }
    assert!(state.overlay().is_none());
}

#[test]
fn show_buffer_in_active_pane() {
    let mut state = empty_state();
    let mut buf = Buffer::create_empty();
    buf.set_text("new text");
    let id = buf.id().clone();
    state.show_buffer(buf);
    assert!(state.pane_tree().active().buffer_id().same(&id));
    assert_eq!(active_text(&state), "new text");
    assert_eq!(active_cursor(&state), AbsChar(0));
    assert_eq!(state.buffers().len(), 2);
}

#[test]
fn can_handle_action_reports_missing_other_buffer() {
    let state = empty_state();
    // The scratch buffer is the only one: deleting it has nowhere to go.
    assert!(!state.can_handle_action(&Action::DeleteBuffer));
    assert!(state.can_handle_action(&Action::Insert('a')));
    assert!(state.can_handle_action(&Action::SearchNext));
    assert!(state.can_handle_action(&Action::SplitPane(Orientation::Vertical)));
    assert!(state.can_handle_action(&Action::Exit));

    let extra = Buffer::create_empty();
    let state = AppState::load(KeyHandler::new().unwrap(), Vec::new(), vec![extra], None);
    assert!(state.can_handle_action(&Action::DeleteBuffer));
}

#[test]
fn cursor_lies_in_text_checks_position() {
    let pane = emma::pane_tree::Pane::create_for_widget(BufferId::from_string("b".to_string()));
    let mut buf = Buffer::create_empty();
    assert!(!emma::state::cursor_lies_in_text(&buf, pane.id()));
    buf.set_text("abc");
    buf.set_cursor(pane.id(), AbsChar(3));
    assert!(emma::state::cursor_lies_in_text(&buf, pane.id()));
    buf.set_cursor(pane.id(), AbsChar(4));
    assert!(!emma::state::cursor_lies_in_text(&buf, pane.id()));
}

#[test]
fn search_fits_text_of_searched_buffer() {
    let pane = emma::pane_tree::Pane::create_for_widget(BufferId::from_string("b".to_string()));
    let mut buf = Buffer::create_empty();
    assert!(buf.search_fits_text());
    buf.set_text("ab\nab");
    buf.search("ab", &pane, 2);
    assert!(buf.search_fits_text());
}

#[test]
fn set_active_top_line_scrolls_only_the_active_pane() {
    let mut state = empty_state();
    state.handle_action(Action::SplitPane(Orientation::Horizontal)).unwrap();
    state.set_active_top_line(emma::rope::AbsLine(7));
    let panes = state.pane_tree().panes();
    let active = state.pane_tree().active();
    assert_eq!(active.top_line(), emma::rope::AbsLine(7));
    let others: Vec<_> = panes.iter().filter(|p| !p.id().same(active.id())).collect();
    assert_eq!(others.len(), 1);
    assert_eq!(others[0].top_line(), emma::rope::AbsLine(0));
}

#[test]
fn buffer_map_at_lists_every_buffer() {
    let extra = Buffer::create_empty();
    let extra_id = extra.id().clone();
    let state = AppState::load(KeyHandler::new().unwrap(), Vec::new(), vec![extra], None);
    let buffers = state.buffers();
    let ids: Vec<BufferId> = (0..buffers.len()).map(|i| buffers.at(i).id().clone()).collect();
    assert_eq!(ids.len(), 2);
    assert!(ids.iter().any(|id| id.same(&extra_id)));
    assert!(ids.iter().any(|id| id.same(state.pane_tree().active().buffer_id())));
}

#[test]
fn highlight_buffer_of_the_state() {
    let mut state = empty_state();
    let id = state.pane_tree().active().buffer_id().clone();
    state.handle_action(Action::AppendToBuffer(id.clone(), "one\ntwo".to_string())).unwrap();
    let syntax_set = SyntaxSet::load_defaults_newlines();
    let theme = Theme::default();
    assert!(state.highlight_buffer(&id, &syntax_set, "Plain Text", &theme).unwrap());
    let buf = state.buffers().get(&id).unwrap();
    assert_eq!(buf.style_spans().len(), 2);
    let missing = BufferId::from_string("missing".to_string());
    assert!(!state.highlight_buffer(&missing, &syntax_set, "Plain Text", &theme).unwrap());
}

#[test]
fn key_handler_of_the_state() {
    let state = empty_state();
    let none: Option<Result<KeyMap, emma::key_sequence::Error>> = None;
    assert!(state.key_handler().can_handle(Key::Char('a'), Modifiers::new(), &none));
    assert!(state.key_handler().can_handle(Key::Modifier(Modifier::Control), Modifiers::new(), &none));
}

fn persisted_pane(id: &str, buffer_id: &str, top: usize, active: bool) -> emma::pane_tree::Node {
    emma::pane_tree::Node::Leaf(emma::pane_tree::Pane::from_parts(
        emma::pane_tree::PaneId::from_string(id.to_string()),
        BufferId::from_string(buffer_id.to_string()),
        emma::rope::AbsLine(top),
        active,
        true,
        true,
    ))
}

#[test]
fn load_restores_panes_and_cursors() {
    let text = emma::rope::Rope::from_str("one\ntwo\nthree");
    let file = Buffer::restore(
        BufferId::from_string("file-buffer".to_string()),
        std::path::PathBuf::from("/tmp/example.txt"),
        text,
    );
    let mut cursors = emma::buffer::CursorMap::new();
    cursors.insert(emma::pane_tree::PaneId::from_string("pane-a".to_string()), AbsChar(5));
    let persisted = vec![
        emma::state::PersistedBuffer {
            buffer_id: BufferId::from_string("file-buffer".to_string()),
            path: Some(std::path::PathBuf::from("/tmp/example.txt")),
            cursors,
        },
    ];
    let root = emma::pane_tree::Node::Internal(emma::pane_tree::Internal {
        orientation: Orientation::Horizontal,
        children: vec![
            // On the loaded file, with a persisted cursor.
            persisted_pane("pane-a", "file-buffer", 1, true),
            // On the same file, with no persisted cursor, and a top line
            // past the end of the text.
            persisted_pane("pane-b", "file-buffer", 9, false),
            // On a buffer that is not open.
            persisted_pane("pane-c", "gone-buffer", 0, false),
        ],
    });
    let tree = emma::pane_tree::PaneTree::from_root(root);
    let state = AppState::load(KeyHandler::new().unwrap(), persisted, vec![file], Some(tree));

    let panes = state.pane_tree().panes();
    assert_eq!(panes.len(), 3);
    let file_id = BufferId::from_string("file-buffer".to_string());
    let file = state.buffers().get(&file_id).unwrap();
    assert!(panes[0].buffer_id().same(&file_id));
    assert_eq!(file.cursor(panes[0].id()), AbsChar(5));
    assert_eq!(panes[0].top_line(), emma::rope::AbsLine(1));
    assert!(panes[1].buffer_id().same(&file_id));
    assert_eq!(file.cursor(panes[1].id()), AbsChar(0));
    assert_eq!(panes[1].top_line(), emma::rope::AbsLine(0));
    // The third pane shows the scratch buffer.
    assert!(!panes[2].buffer_id().same(&BufferId::from_string("gone-buffer".to_string())));
    let scratch = state.buffers().get(panes[2].buffer_id()).unwrap();
    assert_eq!(scratch.text().to_string(), "");
    assert_eq!(scratch.cursor(panes[2].id()), AbsChar(0));
    assert_eq!(state.buffers().len(), 2);
    assert!(panes[0].is_active());
}

#[test]
fn load_starts_with_empty_scratch_buffer() {
    let state = empty_state();
    assert_eq!(active_text(&state), "");
    assert_eq!(active_cursor(&state), AbsChar(0));
}

#[test]
fn type_two_chars_and_delete_one() {
    let mut state = empty_state();
    assert!(state.handle_action(Action::Insert('a')).is_ok());
    assert!(state.handle_action(Action::Insert('b')).is_ok());
    assert!(state.handle_action(Action::Delete(Boundary::Grapheme, Direction::Dec)).is_ok());
    assert_eq!(active_text(&state), "a");
    assert_eq!(active_cursor(&state), AbsChar(1));
}

#[test]
fn vertical_split_keeps_first_pane_active() {
    let mut state = empty_state();
    let p0 = state.pane_tree().active().id().clone();
    assert!(state.handle_action(Action::SplitPane(Orientation::Vertical)).is_ok());
    let panes = state.pane_tree().panes();
    assert_eq!(panes.len(), 2);
    assert!(state.pane_tree().active().id().same(&p0));
    assert!(panes[0].id().same(&p0));
    assert_eq!(state.buffers().len(), 1);
    let buf = state.buffers().get(panes[0].buffer_id()).unwrap();
    assert_eq!(buf.cursor(panes[0].id()), AbsChar(0));
    assert_eq!(buf.cursor(panes[1].id()), AbsChar(0));
}

#[test]
fn highlight_buffer_in_checks_the_syntax() {
    let mut state = empty_state();
    let id = state.pane_tree().active().buffer_id().clone();
    state.handle_action(Action::AppendToBuffer(id.clone(), "a\nb\nc".to_string())).unwrap();
    let syntax_set = SyntaxSet::load_defaults_newlines();
    let theme = Theme::default();
    assert!(matches!(
        state.highlight_buffer_in(&id, &syntax_set, "No Such Syntax", &theme),
        Err(HighlightError::UnknownSyntax)
    ));
    assert_eq!(state.buffers().get(&id).unwrap().style_spans().len(), 0);
    assert!(state.highlight_buffer_in(&id, &syntax_set, "Plain Text", &theme).unwrap());
    assert_eq!(state.buffers().get(&id).unwrap().style_spans().len(), 3);
}

#[test]
fn load_keeps_loaded_texts() {
    let mut first = Buffer::create_empty();
    first.set_text("old text");
    let id = first.id().clone();
    let mut second = Buffer::create_empty();
    second.set_text("other\ntext");
    let second_id = second.id().clone();
    let state = AppState::load(KeyHandler::new().unwrap(), Vec::new(), vec![first, second], None);
    assert_eq!(state.buffers().len(), 3);
    assert_eq!(state.buffers().get(&id).unwrap().text().to_string(), "old text");
    assert_eq!(state.buffers().get(&second_id).unwrap().text().to_string(), "other\ntext");
    assert_eq!(active_text(&state), "");
}

#[test]
fn update_search_searches_the_typed_text() {
    let mut state = empty_state();
    let id = state.pane_tree().active().buffer_id().clone();
    state.handle_action(Action::AppendToBuffer(id.clone(), "ab x ab\nxx".to_string())).unwrap();
    state.handle_action(Action::InteractiveSearch).unwrap();
    state.handle_action(Action::Insert('x')).unwrap();
    state.update_search(3).unwrap();
    let pane = state.pane_tree().active();
    let search = state.buffers().get(&id).unwrap().search_state().as_ref().unwrap();
    assert_eq!(search.line_matches(pane, emma::rope::AbsLine(0)).unwrap().spans, vec![3..4]);
    assert_eq!(search.line_matches(pane, emma::rope::AbsLine(1)).unwrap().spans, vec![0..1, 1..2]);
    assert!(search.line_matches(pane, emma::rope::AbsLine(2)).unwrap().spans.is_empty());
}
