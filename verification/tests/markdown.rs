use sam_toolkit::panes::{reader_block_heights, reader_row_count};
use sam_toolkit::markdown::{
    bullet_link, html_src, leading_image, numbered_item, post_blocks, truncate, wrap,
    Block, Span, Style, Tone,
};

fn style(tone: Tone) -> Style {
    Style { tone, bold: false, italic: false, underline: false }
}

fn span(text: &str, style: Style) -> Span {
    Span { text: text.to_string(), style }
}

fn text_of(spans: &[Span]) -> String {
    spans.iter().map(|s| s.text.as_str()).collect()
}

fn lines(blocks: &[Block]) -> Vec<String> {
    blocks
        .iter()
        .map(|block| match block {
            Block::Line(line) => text_of(&line.spans),
            Block::Image { url, .. } => format!("[image {url}]"),
        })
        .collect()
}

#[test]
fn inline_marks_emphasis_code_and_links() {
    let (spans, link) = sam_toolkit::markdown::inline("a **b** *c* `d` [e](http://x) [f", Tone::Text);
    let bold = Style { bold: true, ..style(Tone::Text) };
    let italic = Style { italic: true, ..style(Tone::Text) };
    let linked = Style { underline: true, ..style(Tone::Accent) };
    assert_eq!(
        spans,
        vec![
            span("a ", style(Tone::Text)),
            span("b", bold),
            span(" ", style(Tone::Text)),
            span("c", italic),
            span(" ", style(Tone::Text)),
            span("d", style(Tone::Accent)),
            span(" ", style(Tone::Text)),
            span("e", linked),
            span(" ", style(Tone::Text)),
            span("[", style(Tone::Text)),
            span("f", style(Tone::Text)),
        ]
    );
    assert_eq!(link, Some("http://x".to_string()));
}

#[test]
fn inline_keeps_only_the_first_link() {
    let (_, link) = sam_toolkit::markdown::inline("[a](one) and [b](two)", Tone::Text);
    assert_eq!(link, Some("one".to_string()));
    let (spans, link) = sam_toolkit::markdown::inline("`open", Tone::Border);
    assert_eq!(spans, vec![span("open", style(Tone::Accent))]);
    assert_eq!(link, None);
}

#[test]
fn wrap_breaks_at_words_and_merges_styles() {
    let rows = wrap(&vec![span("one two three four", style(Tone::Text))], 9, 0);
    let texts: Vec<String> = rows.iter().map(|row| text_of(row)).collect();
    assert_eq!(texts, vec!["one two", "three", "four"]);
    assert!(rows.iter().all(|row| row.len() == 1));
}

#[test]
fn wrap_indents_continuation_rows_and_splits_long_words() {
    let rows = wrap(&vec![span("ab abcdefghij", style(Tone::Text))], 5, 2);
    let texts: Vec<String> = rows.iter().map(|row| text_of(row)).collect();
    // A word too long for any row is cut at the row edge, with no space
    // before its first piece.
    assert_eq!(texts, vec!["ababc", "  def", "  ghi", "  j"]);
    let rows = wrap(&Vec::new(), 0, 0);
    assert_eq!(rows.len(), 1);
    assert!(rows[0].is_empty());
}

#[test]
fn list_markers_and_images_are_recognised() {
    assert_eq!(numbered_item("12. twelve"), Some("twelve".to_string()));
    assert_eq!(numbered_item("12.twelve"), None);
    assert_eq!(numbered_item(". none"), None);
    assert_eq!(
        leading_image("![alt](/a.png) caption"),
        Some(("alt".to_string(), "/a.png".to_string(), " caption".to_string()))
    );
    assert_eq!(leading_image("![alt](/a.png"), None);
    assert_eq!(html_src(r#"<img src="/b.png" />"#), Some("/b.png".to_string()));
    assert_eq!(html_src("<br />"), None);
    assert_eq!(truncate("abcdef", 4), "abc\u{2026}");
}

#[test]
fn bullet_links_name_in_capitals() {
    let line = bullet_link("site", "https://x");
    assert_eq!(text_of(&line.spans), "\u{2022} SITE https://x");
    assert_eq!(line.link, Some("https://x".to_string()));
}

#[test]
fn posts_render_block_by_block() {
    let body = "# Title\n\nSome *text*\nthat [joins](http://l)\n- item\n1. first\n> quoted\n```rust\nlet x = 1;\n```\n![pic](/p.png) below\n<img\n src=\"/q.png\">\n![gone](/missing.png)";
    let assets = vec!["/p.png".to_string(), "/q.png".to_string()];
    let blocks = post_blocks(body, 18, &assets);
    assert_eq!(
        lines(&blocks),
        vec![
            "Title",
            "",
            "Some text that",
            "joins",
            "\u{2022} item",
            "\u{2022} first",
            "\u{2502} quoted",
            "\u{2500}\u{2500} rust \u{2500}\u{2500}\u{2500}\u{2500}\u{2500}\u{2500}\u{2500}\u{2500}\u{2500}\u{2500}",
            "let x = 1;",
            "\u{2500}\u{2500}  \u{2500}\u{2500}\u{2500}\u{2500}\u{2500}\u{2500}\u{2500}\u{2500}\u{2500}\u{2500}\u{2500}\u{2500}\u{2500}\u{2500}",
            "[image /p.png]",
            "[image /q.png]",
            "below",
        ]
    );
    match &blocks[2] {
        Block::Line(line) => assert_eq!(line.link, Some("http://l".to_string())),
        _ => panic!("a paragraph renders as lines"),
    }
    match &blocks[3] {
        Block::Line(line) => assert_eq!(line.link, None),
        _ => panic!("a paragraph renders as lines"),
    }
}

#[test]
fn reader_heights_count_lines_once_and_artwork_as_measured() {
    let assets = vec!["/p.png".to_string()];
    let blocks = post_blocks("one\n\n![pic](/p.png)\n\ntwo", 40, &assets);
    let images = blocks.iter().filter(|b| matches!(b, Block::Image { .. })).count();
    assert_eq!(images, 1);
    let measured: Vec<usize> =
        blocks.iter().map(|b| if matches!(b, Block::Image { .. }) { 7 } else { 0 }).collect();
    let heights = reader_block_heights(&blocks, &measured);
    let expected: Vec<usize> =
        blocks.iter().map(|b| if matches!(b, Block::Image { .. }) { 7 } else { 1 }).collect();
    assert_eq!(heights, expected);
    assert_eq!(reader_row_count(&heights), blocks.len() - 1 + 7);
    assert_eq!(reader_row_count(&vec![1, 1, 7, 1, 1]), 11);
    assert_eq!(reader_row_count(&Vec::new()), 0);
}
