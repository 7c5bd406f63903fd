//! Cursor movement by line and offset, as in a plain text view.

use crate::action::Direction;
use crate::rope::{lemma_line_not_last_nonempty, line_text, spec_len_lines, AbsLine, Rope};
use vstd::prelude::*;

verus! {

/// The units a cursor can move by.
#[derive(Clone, Copy, Debug, PartialEq, Eq, Structural)]
pub enum MovementStep {
    LogicalPositions,
    VisualPositions,
    Words,
    DisplayLines,
    DisplayLineEnds,
    Paragraphs,
    ParagraphEnds,
    Pages,
    BufferEnds,
    HorizontalPages,
}

/// A cursor as a line and a char offset within it.
#[derive(Clone, Copy, Debug, Default, PartialEq, Eq, Structural)]
pub struct Position {
    pub line: usize,
    pub line_offset: usize,
}

/// Where moving `c` by `step` in direction `dir` lands in text `t`: by
/// one char, wrapping to the neighbouring line at a line's last char;
/// by one line, keeping the offset; or to the start of the text or the
/// last char of its last line.
pub open spec fn spec_move_relative(t: Seq<char>, c: Position, step: MovementStep, dir: Direction) -> Position {
    let n = spec_len_lines(t);
    match step {
        MovementStep::VisualPositions => match dir {
            Direction::Dec => if c.line_offset == 0 {
                if c.line > 0 {
                    Position {
                        line: (c.line - 1) as usize,
                        line_offset: (line_text(t, (c.line - 1) as nat).len() - 1) as usize,
                    }
                } else {
                    c
                }
            } else {
                Position { line: c.line, line_offset: (c.line_offset - 1) as usize }
            },
            Direction::Inc => if c.line_offset == line_text(t, c.line as nat).len() - 1 {
                if c.line + 1 < n {
                    Position { line: (c.line + 1) as usize, line_offset: 0 }
                } else {
                    c
                }
            } else {
                Position { line: c.line, line_offset: (c.line_offset + 1) as usize }
            },
        },
        MovementStep::DisplayLines => match dir {
            Direction::Dec => if c.line > 0 {
                Position { line: (c.line - 1) as usize, line_offset: c.line_offset }
            } else {
                c
            },
            Direction::Inc => if c.line + 1 < n {
                Position { line: (c.line + 1) as usize, line_offset: c.line_offset }
            } else {
                c
            },
        },
        MovementStep::BufferEnds => match dir {
            Direction::Dec => Position { line: 0, line_offset: 0 },
            Direction::Inc => {
                let len = line_text(t, (n - 1) as nat).len();
                Position {
                    line: (n - 1) as usize,
                    line_offset: if len >= 1 {
                        (len - 1) as usize
                    } else {
                        0
                    },
                }
            },
        },
        _ => c,
    }
}

/// Move `cursor` within `text` by `step` in direction `dir`.
pub fn move_cursor_relative(cursor: &mut Position, text: &Rope, step: MovementStep, dir: Direction)
    requires
        step == MovementStep::VisualPositions || step == MovementStep::DisplayLines || step
            == MovementStep::BufferEnds,
        old(cursor).line < spec_len_lines(text@),
        step == MovementStep::VisualPositions && dir == Direction::Inc ==> line_text(
            text@,
            old(cursor).line as nat,
        ).len() >= 1,
        step == MovementStep::VisualPositions && dir == Direction::Inc ==> old(cursor).line_offset
            < usize::MAX,
    ensures
        *final(cursor) == spec_move_relative(text@, *old(cursor), step, dir),
{
    let len_lines = text.len_lines();
    match step {
        MovementStep::VisualPositions => {
            if dir == Direction::Dec {
                if cursor.line_offset == 0 {
                    if cursor.line > 0 {
                        cursor.line = cursor.line - 1;
                        proof {
                            lemma_line_not_last_nonempty(text@, cursor.line as nat);
                        }
                        cursor.line_offset = text.line(AbsLine(cursor.line)).len_chars() - 1;
                    }
                } else {
                    cursor.line_offset = cursor.line_offset - 1;
                }
            } else {
                if cursor.line_offset == text.line(AbsLine(cursor.line)).len_chars() - 1 {
                    if cursor.line + 1 < len_lines {
                        cursor.line = cursor.line + 1;
                        cursor.line_offset = 0;
                    }
                } else {
                    cursor.line_offset = cursor.line_offset + 1;
                }
            }
        },
        MovementStep::DisplayLines => {
            if dir == Direction::Dec {
                if cursor.line > 0 {
                    cursor.line = cursor.line - 1;
                }
            } else {
                if cursor.line + 1 < len_lines {
                    cursor.line = cursor.line + 1;
                }
            }
        },
        MovementStep::BufferEnds => {
            if dir == Direction::Dec {
                cursor.line = 0;
                cursor.line_offset = 0;
            } else {
                cursor.line = len_lines - 1;
                cursor.line_offset = text.line(AbsLine(cursor.line)).len_chars().saturating_sub(1);
            }
        },
        _ => {},
    }
}

} // verus!
