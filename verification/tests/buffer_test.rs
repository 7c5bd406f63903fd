use emma::buffer::{
    AbsChar, AbsLine, Boundary, Buffer, Direction, LinePosition, Move, RelChar, PROMPT_END,
};
use emma::pane_tree::{Pane, PaneId};

fn create_buf(text: &str) -> (Buffer, PaneId) {
    let mut buf = Buffer::create_empty();
    buf.set_text(text);
    let pane_id = PaneId::new();
    buf.set_cursor(&pane_id, AbsChar(0));
    (buf, pane_id)
}

fn text_of(buf: &Buffer) -> String {
    buf.text().to_string()
}

#[test]
fn test_move_cursor_line_end() {
    let (mut buf, pane_id) = create_buf("abc\n");
    buf.move_cursor(&pane_id, Move::Boundary(Boundary::LineEnd), Direction::Inc);
    assert_eq!(buf.cursor(&pane_id), AbsChar(3));
}

#[test]
fn test_move_cursor_line_end_no_newline() {
    let (mut buf, pane_id) = create_buf("abc");
    buf.move_cursor(&pane_id, Move::Boundary(Boundary::LineEnd), Direction::Inc);
    assert_eq!(buf.cursor(&pane_id), AbsChar(3));
}

#[test]
fn buffer_ids_and_paths() {
    let buf = Buffer::create_empty();
    assert!(buf.id().as_str().starts_with("buffer-"));
    assert_eq!(buf.id().as_str().len(), 15);
    assert!(buf.path().is_none());
    assert!(!buf.has_non_interactive_process());
    let mini = Buffer::create_minibuf();
    assert!(mini.id().is_minibuf());
    assert_eq!(mini.id().as_str(), "buffer-minibuf");
    assert!(Buffer::create_for_non_interactive_process().has_non_interactive_process());
    let p = Buffer::from_path_and_text(std::path::PathBuf::from("/tmp/x"), emma::rope::Rope::from_str("hi"));
    assert_eq!(p.path().unwrap().to_str(), Some("/tmp/x"));
    assert_eq!(text_of(&p), "hi");
}

#[test]
fn insert_and_delete_move_cursors() {
    let (mut buf, pane) = create_buf("abc");
    let other = PaneId::new();
    buf.set_cursor(&other, AbsChar(2));
    buf.insert_char('x', AbsChar(1));
    assert_eq!(text_of(&buf), "axbc");
    assert_eq!(buf.cursor(&pane), AbsChar(0));
    assert_eq!(buf.cursor(&other), AbsChar(3));
    buf.delete_text(AbsChar(1)..AbsChar(3));
    assert_eq!(text_of(&buf), "ac");
    assert_eq!(buf.cursor(&other), AbsChar(1));
    buf.delete_text(AbsChar(0)..AbsChar(1));
    assert_eq!(text_of(&buf), "c");
    assert_eq!(buf.cursor(&other), AbsChar(0));
}

#[test]
fn delete_undoes_insert_law() {
    let (mut buf, pane) = create_buf("hello");
    buf.set_cursor(&pane, AbsChar(4));
    buf.insert_char('!', AbsChar(2));
    assert_eq!(text_of(&buf), "he!llo");
    buf.delete_text(AbsChar(2)..AbsChar(3));
    assert_eq!(text_of(&buf), "hello");
    assert_eq!(buf.cursor(&pane), AbsChar(4));
}

#[test]
fn undo_after_edit_law() {
    let (mut buf, pane) = create_buf("abc");
    buf.set_cursor(&pane, AbsChar(1));
    buf.insert_char('z', AbsChar(3));
    assert_eq!(text_of(&buf), "abcz");
    buf.undo();
    assert_eq!(text_of(&buf), "abc");
    assert_eq!(buf.cursor(&pane), AbsChar(1));
    buf.redo();
    assert_eq!(text_of(&buf), "abcz");
}

#[test]
fn typing_is_undone_together() {
    let (mut buf, _pane) = create_buf("");
    buf.insert_char('a', AbsChar(0));
    buf.insert_char('b', AbsChar(1));
    buf.insert_char('c', AbsChar(2));
    assert_eq!(text_of(&buf), "abc");
    buf.undo();
    assert_eq!(text_of(&buf), "");
    buf.redo();
    assert_eq!(text_of(&buf), "abc");
    // Nothing further to redo.
    buf.redo();
    assert_eq!(text_of(&buf), "abc");
}

#[test]
fn undo_at_start_stays() {
    let mut buf = Buffer::create_empty();
    buf.undo();
    assert_eq!(text_of(&buf), "");
}

#[test]
fn edit_after_undo_drops_redo() {
    let (mut buf, _pane) = create_buf("ab");
    buf.clear();
    assert_eq!(text_of(&buf), "");
    buf.undo();
    assert_eq!(text_of(&buf), "ab");
    buf.insert_char('x', AbsChar(0));
    assert_eq!(text_of(&buf), "xab");
    buf.redo();
    assert_eq!(text_of(&buf), "xab");
}

#[test]
fn clear_and_set_text_adjust_cursors() {
    let (mut buf, pane) = create_buf("abcdef");
    buf.set_cursor(&pane, AbsChar(5));
    buf.set_text("ab");
    assert_eq!(buf.cursor(&pane), AbsChar(2));
    buf.clear();
    assert_eq!(buf.cursor(&pane), AbsChar(0));
}

#[test]
fn find_boundary_cases() {
    let (buf, _pane) = create_buf("ab\ncd");
    assert_eq!(buf.find_boundary(AbsChar(1), Boundary::LineEnd, Direction::Inc), AbsChar(2));
    assert_eq!(buf.find_boundary(AbsChar(4), Boundary::LineEnd, Direction::Dec), AbsChar(3));
    assert_eq!(buf.find_boundary(AbsChar(4), Boundary::LineEnd, Direction::Inc), AbsChar(5));
    assert_eq!(buf.find_boundary(AbsChar(2), Boundary::BufferEnd, Direction::Inc), AbsChar(5));
    assert_eq!(buf.find_boundary(AbsChar(2), Boundary::BufferEnd, Direction::Dec), AbsChar(0));
    assert_eq!(buf.find_boundary(AbsChar(0), Boundary::Grapheme, Direction::Inc), AbsChar(1));
    assert_eq!(buf.find_boundary(AbsChar(0), Boundary::Grapheme, Direction::Dec), AbsChar(0));
}

#[test]
fn grapheme_moves_over_combining_marks() {
    // "e" followed by a combining acute accent is one grapheme.
    let (mut buf, pane) = create_buf("e\u{301}x");
    buf.move_cursor(&pane, Move::Boundary(Boundary::Grapheme), Direction::Inc);
    assert_eq!(buf.cursor(&pane), AbsChar(2));
    buf.move_cursor(&pane, Move::Boundary(Boundary::Grapheme), Direction::Dec);
    assert_eq!(buf.cursor(&pane), AbsChar(0));
}

#[test]
fn move_lines_keeps_grapheme_column() {
    let (mut buf, pane) = create_buf("abcd\nxyz\nabcdef");
    buf.set_cursor(&pane, AbsChar(3));
    buf.move_cursor(&pane, Move::Line, Direction::Inc);
    assert_eq!(buf.cursor(&pane), AbsChar(8));
    buf.move_cursor(&pane, Move::Line, Direction::Inc);
    assert_eq!(buf.cursor(&pane), AbsChar(12));
    // The last line stays the last.
    buf.move_cursor(&pane, Move::Line, Direction::Inc);
    assert_eq!(buf.cursor(&pane), AbsChar(12));
    buf.move_cursor(&pane, Move::Page, Direction::Dec);
    assert_eq!(buf.cursor(&pane), AbsChar(3));
}

#[test]
fn move_to_shorter_line_stops_before_its_break() {
    // The column is clamped to the end of the line, before its newline.
    let (mut buf, pane) = create_buf("abcd\nx\nabcdef");
    buf.set_cursor(&pane, AbsChar(3));
    buf.move_cursor(&pane, Move::Line, Direction::Inc);
    assert_eq!(buf.cursor(&pane), AbsChar(6));
}

#[test]
fn offset_in_graphemes_is_truncated_before_the_newline() {
    let (buf, _pane) = create_buf("ab\nxyz");
    let mut lp = LinePosition::from_abs_char(AbsChar(0), &buf);
    lp.set_offset_in_graphemes(&buf, 5);
    assert_eq!(lp.line, AbsLine(0));
    assert_eq!(lp.offset, RelChar(2));
    // The last line has no newline: its end is its length.
    let mut last = LinePosition::from_abs_char(AbsChar(3), &buf);
    last.set_offset_in_graphemes(&buf, 5);
    assert_eq!(last.offset, RelChar(3));
}

#[test]
fn markers_clamp_cursor_moves() {
    let (mut buf, pane) = create_buf("> hello");
    buf.set_marker(PROMPT_END.to_string(), AbsChar(2));
    assert_eq!(buf.get_marker(PROMPT_END), Some(AbsChar(2)));
    buf.move_cursor(&pane, Move::Boundary(Boundary::BufferEnd), Direction::Dec);
    assert_eq!(buf.cursor(&pane), AbsChar(2));
}

#[test]
fn line_positions() {
    let (buf, _pane) = create_buf("ab\ncde\n");
    let lp = LinePosition::from_abs_char(AbsChar(4), &buf);
    assert_eq!(lp.line, AbsLine(1));
    assert_eq!(lp.offset, RelChar(1));
    assert_eq!(lp.to_abs_char(&buf), AbsChar(4));
    assert_eq!(lp.grapheme_offset(&buf), 1);
    let mut lp2 = lp;
    lp2.set_offset_in_graphemes(&buf, 10);
    assert_eq!(lp2.offset, RelChar(3));
}

#[test]
fn search_finds_next_match() {
    let (mut buf, pane_id) = create_buf("one two\ntwo one\n");
    let pane = Pane::from_parts(pane_id.clone(), buf.id().clone(), AbsLine(0), true, true, true);
    buf.search("two", &pane, 10);
    let state = buf.search_state().as_ref().unwrap();
    let line0 = state.line_matches(&pane, AbsLine(0)).unwrap();
    assert_eq!(line0.spans, vec![4..7]);
    let line1 = state.line_matches(&pane, AbsLine(1)).unwrap();
    assert_eq!(line1.spans, vec![0..3]);
    let m = state.next_match(LinePosition { line: AbsLine(0), offset: RelChar(5) }).unwrap();
    assert_eq!(m.line, AbsLine(1));
    assert_eq!(m.offset, RelChar(0));
    assert!(state.next_match(LinePosition { line: AbsLine(1), offset: RelChar(1) }).is_none());
    buf.clear_search();
    assert!(buf.search_state().is_none());
}

#[test]
fn remove_cursor_forgets_pane() {
    let (mut buf, pane_id) = create_buf("abc");
    let pane = Pane::from_parts(pane_id.clone(), buf.id().clone(), AbsLine(0), true, true, true);
    assert_eq!(buf.cursors().len(), 1);
    buf.remove_cursor(&pane);
    assert_eq!(buf.cursors().len(), 0);
}

#[test]
fn search_matches_do_not_overlap() {
    let (mut buf, pane_id) = create_buf("aaaaa\nbab\n");
    let pane = Pane::from_parts(pane_id.clone(), buf.id().clone(), AbsLine(0), true, true, true);
    buf.search("aa", &pane, 3);
    let state = buf.search_state().as_ref().unwrap();
    assert_eq!(state.line_matches(&pane, AbsLine(0)).unwrap().spans, vec![0..2, 2..4]);
    assert!(state.line_matches(&pane, AbsLine(1)).unwrap().spans.is_empty());
}

#[test]
fn search_matches_are_byte_ranges() {
    let (mut buf, pane_id) = create_buf("éa éa");
    let pane = Pane::from_parts(pane_id.clone(), buf.id().clone(), AbsLine(0), true, true, true);
    buf.search("a", &pane, 1);
    let state = buf.search_state().as_ref().unwrap();
    assert_eq!(state.line_matches(&pane, AbsLine(0)).unwrap().spans, vec![2..3, 6..7]);
}

#[test]
fn redo_after_undone_insert_law() {
    let (mut buf, pane) = create_buf("abc");
    buf.set_cursor(&pane, AbsChar(1));
    buf.insert_char('x', AbsChar(1));
    assert_eq!(text_of(&buf), "axbc");
    buf.undo();
    assert_eq!(text_of(&buf), "abc");
    buf.redo();
    assert_eq!(text_of(&buf), "axbc");
    assert_eq!(buf.cursor(&pane), AbsChar(2));
    buf.redo();
    assert_eq!(text_of(&buf), "axbc");
    assert_eq!(buf.cursor(&pane), AbsChar(2));
}
