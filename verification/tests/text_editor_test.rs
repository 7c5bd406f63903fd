use emma::action::Direction;
use emma::rope::Rope;
use emma::text_editor::{move_cursor_relative, MovementStep, Position};

fn pos(line: usize, line_offset: usize) -> Position {
    Position { line, line_offset }
}

#[test]
fn visual_positions_wrap_lines() {
    let text = Rope::from_str("ab\ncd\n");
    let mut c = pos(0, 1);
    move_cursor_relative(&mut c, &text, MovementStep::VisualPositions, Direction::Inc);
    assert_eq!(c, pos(0, 2));
    // At the line break the cursor goes to the next line.
    move_cursor_relative(&mut c, &text, MovementStep::VisualPositions, Direction::Inc);
    assert_eq!(c, pos(1, 0));
    move_cursor_relative(&mut c, &text, MovementStep::VisualPositions, Direction::Dec);
    assert_eq!(c, pos(0, 2));
    let mut start = pos(0, 0);
    move_cursor_relative(&mut start, &text, MovementStep::VisualPositions, Direction::Dec);
    assert_eq!(start, pos(0, 0));
}

#[test]
fn display_lines_keep_offset() {
    let text = Rope::from_str("abc\nd\nef");
    let mut c = pos(0, 2);
    move_cursor_relative(&mut c, &text, MovementStep::DisplayLines, Direction::Inc);
    assert_eq!(c, pos(1, 2));
    move_cursor_relative(&mut c, &text, MovementStep::DisplayLines, Direction::Inc);
    assert_eq!(c, pos(2, 2));
    move_cursor_relative(&mut c, &text, MovementStep::DisplayLines, Direction::Inc);
    assert_eq!(c, pos(2, 2));
    move_cursor_relative(&mut c, &text, MovementStep::DisplayLines, Direction::Dec);
    assert_eq!(c, pos(1, 2));
}

#[test]
fn buffer_ends() {
    let text = Rope::from_str("abc\nhello");
    let mut c = pos(0, 1);
    move_cursor_relative(&mut c, &text, MovementStep::BufferEnds, Direction::Inc);
    assert_eq!(c, pos(1, 4));
    move_cursor_relative(&mut c, &text, MovementStep::BufferEnds, Direction::Dec);
    assert_eq!(c, pos(0, 0));
    let trailing = Rope::from_str("abc\n");
    let mut d = pos(0, 0);
    move_cursor_relative(&mut d, &trailing, MovementStep::BufferEnds, Direction::Inc);
    assert_eq!(d, pos(1, 0));
}
