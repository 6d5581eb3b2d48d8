use adept::markdown::{headings, inline_code_spans, link_destinations, LineIndex};

#[test]
fn line_index_is_one_based_and_utf8_safe() {
    let src = "a\nbb\n\nccc";
    let index = LineIndex::new(src);
    assert_eq!(index.line(0), 1);
    assert_eq!(index.line(1), 1);
    assert_eq!(index.line(2), 2);
    assert_eq!(index.line(5), 3);
    assert_eq!(index.line(6), 4);
}

#[test]
fn line_index_counts_every_newline_before_an_offset_past_the_end() {
    let index = LineIndex::new("a\nb\n");
    assert_eq!(index.line(4), 3);
    assert_eq!(index.line(100), 3);
    let empty = LineIndex::new("");
    assert_eq!(empty.line(0), 1);
}

#[test]
fn line_index_counts_bytes_of_multibyte_characters() {
    // "é" is two bytes: the newline after it is byte 2, so byte 3 starts
    // line 2.
    let index = LineIndex::new("é\nx");
    assert_eq!(index.line(1), 1);
    assert_eq!(index.line(2), 1);
    assert_eq!(index.line(3), 2);
}

#[test]
fn multibyte_char_before_heading_does_not_shift_line() {
    let src = "café — naïve\n\n# Título\n";
    let found = headings(src);
    assert_eq!(found.len(), 1);
    assert_eq!(found[0].line, 3);
    assert_eq!(found[0].value.text, "Título");
}

#[test]
fn detects_atx_and_setext_headings() {
    let src = "Setext One\n==========\n\n## Atx Two\n\nSetext Two\n----------\n";
    let found = headings(src);
    let summary: Vec<_> = found
        .iter()
        .map(|h| (h.value.level, h.value.text.as_str(), h.value.is_setext, h.line))
        .collect();
    assert_eq!(
        summary,
        vec![
            (1, "Setext One", true, 1),
            (2, "Atx Two", false, 4),
            (2, "Setext Two", true, 6),
        ]
    );
}

#[test]
fn indented_atx_heading_is_still_atx() {
    let src = "   # Indented\n";
    let found = headings(src);
    assert_eq!(found.len(), 1);
    assert!(!found[0].value.is_setext);
}

#[test]
fn heading_text_flattens_inline_markup() {
    let src = "# A **bold** `code` [link](x.md)\n";
    let found = headings(src);
    assert_eq!(found[0].value.text, "A bold code link");
}

#[test]
fn link_destination_with_nested_parentheses() {
    let src = "See [it](docs/file_(v2).md) here.\n";
    let found = link_destinations(src);
    assert_eq!(found.len(), 1);
    assert_eq!(found[0].value, "docs/file_(v2).md");
    assert_eq!(found[0].line, 1);
}

#[test]
fn image_destinations_are_included() {
    let src = "Text\n\n![alt](img/logo.png)\n";
    let found = link_destinations(src);
    assert_eq!(found.len(), 1);
    assert_eq!(found[0].value, "img/logo.png");
    assert_eq!(found[0].line, 3);
}

#[test]
fn links_inside_fenced_code_blocks_are_not_returned() {
    let src = "```md\n[a](inside.md)\n```\n\n[b](outside.md)\n";
    let found = link_destinations(src);
    assert_eq!(found.len(), 1);
    assert_eq!(found[0].value, "outside.md");
    assert_eq!(found[0].line, 5);
}

#[test]
fn links_inside_indented_code_blocks_are_not_returned() {
    let src = "Intro\n\n    [a](inside.md)\n\n[b](outside.md)\n";
    let found = link_destinations(src);
    assert_eq!(found.len(), 1);
    assert_eq!(found[0].value, "outside.md");
}

#[test]
fn headings_inside_code_blocks_are_not_returned() {
    let src = "```sh\n# not a heading\n```\n\n    # nor this\n\n# real\n";
    let found = headings(src);
    assert_eq!(found.len(), 1);
    assert_eq!(found[0].value.text, "real");
}

#[test]
fn inline_code_spans_are_located() {
    let src = "Use `foo.md` here.\n\n```\n`not inline`\n```\n\nAnd `bar.py`.\n";
    let found = inline_code_spans(src);
    let summary: Vec<_> = found.iter().map(|c| (c.value.as_str(), c.line)).collect();
    assert_eq!(summary, vec![("foo.md", 1), ("bar.py", 7)]);
}

#[test]
fn heading_levels_follow_the_number_of_hashes() {
    let found = headings("# One\n\n###### Six\n");
    let levels: Vec<u8> = found.iter().map(|h| h.value.level).collect();
    assert_eq!(levels, vec![1, 6]);
    assert_eq!(found[1].line, 3);
}
