use emma::grapheme::{next_grapheme_boundary, prev_grapheme_boundary};
use emma::offset;
use emma::rope::{AbsChar, AbsLine, LineDataVec, RelChar, RelLine, Rope};

#[test]
fn rope_lines_and_chars() {
    let mut rope = Rope::from_str("ab\ncd\n");
    assert_eq!(rope.len_chars(), 6);
    assert_eq!(rope.len_lines(), 3);
    assert_eq!(rope.max_line_index(), AbsLine(2));
    assert_eq!(rope.char_to_line(AbsChar(4)), AbsLine(1));
    assert_eq!(rope.line_to_char(AbsLine(1)), 3);
    assert_eq!(rope.line(AbsLine(1)).to_string(), "cd\n");
    rope.insert(AbsChar(1), "XY");
    assert_eq!(rope.to_string(), "aXYb\ncd\n");
    rope.remove(AbsChar(0)..AbsChar(3));
    assert_eq!(rope.to_string(), "b\ncd\n");
    assert_eq!(rope.slice(AbsChar(2)..AbsChar(4)).to_string(), "cd");
    assert_eq!(Rope::new().len_lines(), 1);
    assert_eq!(rope.clone().to_string(), "b\ncd\n");
}

#[test]
fn rope_line_breaks() {
    // "\r\n" is one break; a lone "\r" is one too.
    let rope = Rope::from_str("a\r\nb\rc");
    assert_eq!(rope.len_lines(), 3);
    assert_eq!(rope.line_to_char(AbsLine(1)), 3);
    assert_eq!(rope.line_to_char(AbsLine(2)), 5);
}

#[test]
fn rope_lines_iterate() {
    let rope = Rope::from_str("x\ny");
    let mut lines = rope.lines();
    let first = lines.next().unwrap();
    assert_eq!(first.index, AbsLine(0));
    assert_eq!(first.slice.to_string(), "x\n");
    let second = lines.next().unwrap();
    assert_eq!(second.slice.to_string(), "y");
    assert!(lines.next().is_none());
    let mut from_one = rope.lines_at(AbsLine(1));
    assert_eq!(from_one.next().unwrap().slice.to_string(), "y");
}

#[test]
fn rope_slice_bytes_and_chars() {
    let rope = Rope::from_str("héllo");
    let s = rope.slice(AbsChar(0)..AbsChar(5));
    assert_eq!(s.len_chars(), 5);
    assert_eq!(s.len_bytes(), 6);
    assert_eq!(s.char_to_byte(2), 3);
    assert_eq!(s.byte_to_char(3), 2);
    assert_eq!(s.slice(1..3).to_string(), "él");
    assert_eq!(s.chunks().concat(), "héllo");
    let (chunk, _, _, _) = s.chunk_at_byte(0);
    assert!(!chunk.is_empty());
}

#[test]
fn grapheme_boundaries() {
    let rope = Rope::from_str("a\u{301}b🇫🇷c");
    let s = rope.slice(AbsChar(0)..AbsChar(rope.len_chars()));
    assert_eq!(next_grapheme_boundary(&s, 0), RelChar(2));
    assert_eq!(next_grapheme_boundary(&s, 2), RelChar(3));
    // A flag is two chars in one grapheme.
    assert_eq!(next_grapheme_boundary(&s, 3), RelChar(5));
    assert_eq!(prev_grapheme_boundary(&s, 5), RelChar(3));
    assert_eq!(prev_grapheme_boundary(&s, 2), RelChar(0));
    assert_eq!(next_grapheme_boundary(&s, 6), RelChar(6));
}

#[test]
fn line_offsets() {
    assert_eq!(AbsLine(5).offset_from(AbsLine(3)), Some(RelLine::new(2)));
    assert_eq!(AbsLine(2).offset_from(AbsLine(3)), None);
    assert_eq!(AbsLine(5).saturating_sub(RelLine::new(7)), AbsLine(0));
    assert_eq!(AbsLine(5) + RelLine::new(2), AbsLine(7));
    assert_eq!(RelLine::new(4).get(), 4);
    assert_eq!(RelChar::zero(), RelChar(0));
    assert_eq!(offset::AbsLine(4).offset_from(1), Some(offset::RelLine(3)));
    assert_eq!(offset::AbsLine(1).saturating_sub(4), offset::AbsLine(0));
}

#[test]
fn line_data_vec() {
    let mut v: LineDataVec<u32> = LineDataVec::with_size(AbsLine(10), 3);
    assert_eq!(v.len(), 3);
    assert_eq!(v.start_line(), AbsLine(10));
    assert_eq!(v.get(AbsLine(10)), Some(&0));
    assert_eq!(v.get(AbsLine(13)), None);
    assert_eq!(v.get(AbsLine(9)), None);
    *v.get_mut(AbsLine(11)).unwrap() = 7;
    assert_eq!(v.get(AbsLine(11)), Some(&7));
    v.push(9);
    let mut it = v.starting_from(AbsLine(11));
    assert_eq!(*it.next().unwrap().data, 7);
    assert_eq!(*it.next().unwrap().data, 0);
    let last = it.next().unwrap();
    assert_eq!(*last.data, 9);
    assert_eq!(last.index, AbsLine(13));
    assert!(it.next().is_none());
    let mut all = v.iter();
    assert_eq!(all.next().unwrap().index, AbsLine(10));
    v.clear();
    assert_eq!(v.len(), 0);
    let empty: LineDataVec<u32> = LineDataVec::new(AbsLine(0));
    assert_eq!(empty.len(), 0);
}

#[test]
fn line_char_round_trip_law() {
    let rope = Rope::from_str("ab\r\ncd\u{2028}e\n");
    for l in 0..rope.len_lines() {
        let start = rope.line_to_char(AbsLine(l));
        assert_eq!(rope.char_to_line(AbsChar(start)), AbsLine(l));
    }
    for c in 0..=rope.len_chars() {
        let m = rope.char_to_line(AbsChar(c));
        assert!(m.0 < rope.len_lines());
        assert!(rope.line_to_char(m) <= c);
    }
    assert_eq!(rope.char_to_line(AbsChar(3)), AbsLine(0));
    assert_eq!(rope.line_to_char(AbsLine(2)), 7);
}

#[test]
fn char_byte_round_trip_law() {
    let rope = Rope::from_str("aé b€𝄞");
    let s = rope.slice(AbsChar(0)..AbsChar(rope.len_chars()));
    for c in 0..=s.len_chars() {
        assert_eq!(s.byte_to_char(s.char_to_byte(c)), c);
    }
    assert_eq!(s.char_to_byte(2), 3);
    assert_eq!(s.byte_to_char(3), 2);
    assert_eq!(s.char_to_byte(5), 8);
    assert_eq!(s.char_to_byte(6), 12);
}

#[test]
fn from_str_keeps_text_chars_and_bytes() {
    let text = "hé\r\n€𝄞 x";
    let rope = Rope::from_str(text);
    assert_eq!(rope.to_string(), text);
    assert_eq!(rope.len_chars(), text.chars().count());
    assert_eq!(rope.slice(AbsChar(0)..AbsChar(rope.len_chars())).len_bytes(), text.len());
}
