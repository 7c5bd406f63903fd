use emma::buffer::Buffer;
use emma::rope::AbsLine;
use syntect::highlighting::Theme;
use syntect::parsing::SyntaxSet;

fn span_total(buf: &Buffer, line: usize) -> usize {
    buf.style_spans().get(AbsLine(line)).unwrap().0.iter().map(|s| s.len).sum()
}

#[test]
fn highlight_spans_cover_each_line() {
    let mut buf = Buffer::create_empty();
    buf.set_text("fn main() {\n    let x = \"\u{e9}t\u{e9}\";\n}");
    let syntax_set = SyntaxSet::load_defaults_newlines();
    let theme = Theme::default();
    buf.recalc_style_spans(&syntax_set, "Plain Text", &theme).unwrap();
    assert_eq!(buf.style_spans().len(), 3);
    assert_eq!(span_total(&buf, 0), "fn main() {\n".chars().count());
    assert_eq!(span_total(&buf, 1), "    let x = \"\u{e9}t\u{e9}\";\n".chars().count());
    assert_eq!(span_total(&buf, 2), 1);
}

#[test]
fn highlight_rust_syntax_splits_line() {
    let mut buf = Buffer::create_empty();
    buf.set_text("fn main() {}");
    let syntax_set = SyntaxSet::load_defaults_newlines();
    let syntax = syntax_set.find_syntax_by_extension("rs").unwrap();
    let theme = Theme::default();
    buf.recalc_style_spans(&syntax_set, &syntax.name, &theme).unwrap();
    assert_eq!(buf.style_spans().len(), 1);
    assert_eq!(span_total(&buf, 0), 12);
}

#[test]
fn highlight_spans_take_the_theme_colors() {
    let mut buf = Buffer::create_empty();
    buf.set_text("plain words");
    let syntax_set = SyntaxSet::load_defaults_newlines();
    let mut theme = Theme::default();
    theme.settings.foreground = Some(syntect::highlighting::Color { r: 1, g: 2, b: 3, a: 255 });
    theme.settings.background = Some(syntect::highlighting::Color { r: 4, g: 5, b: 6, a: 255 });
    buf.recalc_style_spans(&syntax_set, "Plain Text", &theme).unwrap();
    let spans = &buf.style_spans().get(AbsLine(0)).unwrap().0;
    assert!(!spans.is_empty());
    for span in spans {
        assert_eq!((span.style.foreground.r, span.style.foreground.g, span.style.foreground.b), (1, 2, 3));
        assert_eq!((span.style.background.r, span.style.background.g, span.style.background.b), (4, 5, 6));
    }
}
