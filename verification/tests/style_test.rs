use emma::buffer::LineMatches;
use emma::style::{apply_match_style, cursor_spans, Color, Style, StyleSpan};

fn match_style() -> Style {
    Style::default()
}

fn style1() -> Style {
    let mut style = Style::default();
    style.foreground.r = 1;
    style
}

fn style2() -> Style {
    Style { foreground: Color { r: 0, g: 2, b: 0, a: 255 }, ..Style::default() }
}

fn label(style_spans: &[StyleSpan]) -> Vec<(&'static str, usize)> {
    style_spans
        .iter()
        .map(|span| {
            let name = if span.style == match_style() {
                "match"
            } else if span.style == style1() {
                "style1"
            } else if span.style == style2() {
                "style2"
            } else {
                "unknown"
            };
            (name, span.len)
        })
        .collect()
}

fn expect_styles(base_spans: &[StyleSpan], matches: &LineMatches, expected: &[(&str, usize)]) {
    let mods = apply_match_style(base_spans, matches, &match_style());
    assert_eq!(label(&mods), expected);
}

#[test]
fn test_apply_match_style() {
    let base_spans = vec![StyleSpan { len: 5, style: style1() }];
    let mut matches = LineMatches { spans: vec![] };

    // No matches
    expect_styles(&base_spans, &matches, &[("style1", 5)]);

    // One match, replaces the base span
    matches.spans = vec![0..5];
    expect_styles(&base_spans, &matches, &[("match", 5)]);

    // One match at the start of the base span
    matches.spans = vec![0..3];
    expect_styles(&base_spans, &matches, &[("match", 3), ("style1", 2)]);

    // One match at the end of the base span
    matches.spans = vec![3..5];
    expect_styles(&base_spans, &matches, &[("style1", 3), ("match", 2)]);
}

#[test]
fn match_style_across_spans() {
    let base_spans = vec![
        StyleSpan { len: 2, style: style1() },
        StyleSpan { len: 0, style: style2() },
        StyleSpan { len: 3, style: style2() },
    ];
    // A match over the boundary of two spans is one span.
    let matches = LineMatches { spans: vec![1..3] };
    expect_styles(&base_spans, &matches, &[("style1", 1), ("match", 2), ("style2", 2)]);
    // Overlapping and touching matches merge.
    let matches = LineMatches { spans: vec![0..2, 1..3, 3..4] };
    expect_styles(&base_spans, &matches, &[("match", 4), ("style2", 1)]);
    // An empty span disappears; the total length is kept.
    let none = LineMatches { spans: vec![] };
    let out = apply_match_style(&base_spans, &none, &match_style());
    assert_eq!(label(&out), vec![("style1", 2), ("style2", 3)]);
    assert_eq!(out.iter().map(|s| s.len).sum::<usize>(), 5);
}

#[test]
fn cursor_spans_split_the_cursor_grapheme() {
    let spans = [StyleSpan { len: 3, style: style1() }, StyleSpan { len: 4, style: style2() }];
    let pieces = cursor_spans(&spans, 7, Some((4, 6)), false);
    assert_eq!(
        pieces,
        vec![(0..3, style1(), false), (3..4, style2(), false), (4..6, style2(), true), (6..7, style2(), false)]
    );
    // The cursor at the start of a span leaves no empty piece before it.
    let pieces = cursor_spans(&spans, 7, Some((3, 4)), true);
    assert_eq!(pieces, vec![(0..3, style1(), false), (3..4, style2(), true), (4..7, style2(), false)]);
    // Without a cursor on the line the spans come through whole.
    let pieces = cursor_spans(&spans, 7, None, true);
    assert_eq!(pieces, vec![(0..3, style1(), false), (3..7, style2(), false)]);
}

#[test]
fn cursor_spans_cursor_at_end_of_last_line() {
    let spans = [StyleSpan { len: 2, style: style1() }];
    let pieces = cursor_spans(&spans, 2, Some((2, 2)), true);
    assert_eq!(pieces, vec![(0..2, style1(), false), (2..2, Style::default(), true)]);
    // On another line a cursor past the spans adds nothing.
    let pieces = cursor_spans(&spans, 2, Some((2, 2)), false);
    assert_eq!(pieces, vec![(0..2, style1(), false)]);
}
