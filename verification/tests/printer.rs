use adept::printer::blocks::indent_block;
use adept::printer::inline::{longest_run_of, render_code_span};
use adept::printer::{Alignment, Block, BulletMarker, FenceChar, FmtConfig, Inline, ListItem};
use adept::printer::print_document;

fn text(s: &str) -> Inline {
    Inline::Text(s.to_string())
}

fn para(items: Vec<Inline>) -> Block {
    Block::Paragraph(items)
}

fn item(s: &str) -> ListItem {
    ListItem { checked: None, blocks: vec![para(vec![text(s)])] }
}

#[test]
fn headings_paragraphs_and_rules_are_separated_by_blank_lines() {
    let doc = vec![
        Block::Heading { level: 1, inline: vec![text("Title")] },
        para(vec![text("Some  prose\twith   spaces.")]),
        Block::ThematicBreak,
    ];
    assert_eq!(
        print_document(&doc, &FmtConfig::default()),
        "# Title\n\nSome prose with spaces.\n\n---\n"
    );
}

#[test]
fn an_empty_document_is_a_single_newline() {
    assert_eq!(print_document(&Vec::new(), &FmtConfig::default()), "\n");
}

#[test]
fn heading_levels_are_clamped_to_one_through_six() {
    let doc = vec![
        Block::Heading { level: 0, inline: vec![text("Low")] },
        Block::Heading { level: 9, inline: vec![text("High")] },
        Block::Heading { level: 2, inline: Vec::new() },
    ];
    assert_eq!(print_document(&doc, &FmtConfig::default()), "# Low\n\n###### High\n\n##\n");
}

#[test]
fn prose_wraps_at_the_line_width_without_splitting_words() {
    let mut cfg = FmtConfig::default();
    cfg.line_width = 20;
    let doc = vec![para(vec![text("alpha beta gamma delta epsilon zeta")])];
    assert_eq!(print_document(&doc, &cfg), "alpha beta gamma\ndelta epsilon zeta\n");
}

#[test]
fn without_reflow_a_paragraph_stays_on_one_line() {
    let mut cfg = FmtConfig::default();
    cfg.line_width = 10;
    cfg.reflow_prose = false;
    let doc = vec![para(vec![text("alpha beta gamma delta")])];
    assert_eq!(print_document(&doc, &cfg), "alpha beta gamma delta\n");
}

#[test]
fn a_hard_break_ends_the_line_with_two_spaces() {
    let doc = vec![para(vec![text("one"), Inline::HardBreak, text("two")])];
    assert_eq!(print_document(&doc, &FmtConfig::default()), "one  \ntwo\n");
}

#[test]
fn markdown_characters_in_text_are_escaped() {
    let doc = vec![para(vec![text("a*b [c] d_e")])];
    assert_eq!(print_document(&doc, &FmtConfig::default()), "a\\*b \\[c\\] d\\_e\n");
}

#[test]
fn emphasis_strong_links_and_images_are_single_words() {
    let doc = vec![para(vec![
        Inline::Emphasis(vec![text("soft")]),
        Inline::Strong(vec![text("very bold")]),
        Inline::Link { dest: "x.md".to_string(), title: None, children: vec![text("the doc")] },
        Inline::Image { dest: "i.png".to_string(), title: Some("T".to_string()), alt: "pic".to_string() },
        Inline::Code("a`b".to_string()),
    ])];
    assert_eq!(
        print_document(&doc, &FmtConfig::default()),
        "*soft* **very bold** [the doc](x.md) ![pic](i.png \"T\") ``a`b``\n"
    );
}

#[test]
fn tight_lists_use_the_configured_bullet_and_loose_lists_blank_lines() {
    let mut cfg = FmtConfig::default();
    cfg.bullet_marker = BulletMarker::Star;
    let tight = vec![Block::List { ordered: false, start: 1, tight: true, items: vec![item("a"), item("b")] }];
    assert_eq!(print_document(&tight, &cfg), "* a\n* b\n");
    let loose = vec![Block::List { ordered: true, start: 9, tight: false, items: vec![item("a"), item("b")] }];
    assert_eq!(print_document(&loose, &cfg), "9. a\n\n10. b\n");
}

#[test]
fn task_list_items_carry_their_check_box() {
    let items = vec![
        ListItem { checked: Some(true), blocks: vec![para(vec![text("done")])] },
        ListItem { checked: Some(false), blocks: Vec::new() },
    ];
    let doc = vec![Block::List { ordered: false, start: 1, tight: true, items }];
    assert_eq!(print_document(&doc, &FmtConfig::default()), "- [x] done\n- [ ]\n");
}

#[test]
fn code_fences_outgrow_the_longest_run_inside() {
    let doc = vec![Block::CodeBlock { info: "md".to_string(), literal: "a\n```\nb".to_string() }];
    assert_eq!(print_document(&doc, &FmtConfig::default()), "````md\na\n```\nb\n````\n");
    let mut cfg = FmtConfig::default();
    cfg.fence_char = FenceChar::Tilde;
    let empty = vec![Block::CodeBlock { info: String::new(), literal: String::new() }];
    assert_eq!(print_document(&empty, &cfg), "~~~\n~~~\n");
}

#[test]
fn block_quotes_prefix_every_line() {
    let doc = vec![Block::BlockQuote(vec![para(vec![text("one")]), para(vec![text("two")])])];
    assert_eq!(print_document(&doc, &FmtConfig::default()), "> one\n>\n> two\n");
}

#[test]
fn tables_pad_cells_to_the_column_width_and_mark_alignment() {
    let doc = vec![Block::Table {
        alignments: vec![Alignment::Left, Alignment::Right, Alignment::Center],
        header: vec![vec![text("a")], vec![text("bb")], vec![text("c")]],
        rows: vec![vec![vec![text("xxxx")], vec![text("y")], vec![text("zzzzz")]]],
    }];
    assert_eq!(
        print_document(&doc, &FmtConfig::default()),
        "| a    |  bb |   c   |\n| :--- | --: | :---: |\n| xxxx |   y | zzzzz |\n"
    );
}

#[test]
fn indent_block_prefixes_first_and_following_lines() {
    let lines = vec!["a".to_string(), String::new(), "b".to_string()];
    assert_eq!(indent_block(&lines, "- ", "  "), vec!["- a", "", "  b"]);
    assert_eq!(indent_block(&Vec::new(), "> ", "> "), vec![">"]);
}

#[test]
fn code_spans_pick_a_fence_longer_than_any_backtick_run() {
    assert_eq!(longest_run_of(&"a``b`".chars().collect(), '`'), 2);
    assert_eq!(render_code_span(&"plain".to_string()), "`plain`");
    assert_eq!(render_code_span(&"`tick".to_string()), "`` `tick ``");
    assert_eq!(render_code_span(&" padded ".to_string()), "`  padded  `");
}

#[test]
fn a_document_ends_in_exactly_one_newline() {
    let cfg = FmtConfig::default();
    let out = print_document(&vec![para(vec![Inline::HardBreak])], &cfg);
    assert!(out.ends_with('\n') && !out.ends_with("\n\n"), "{out:?}");
    let out = print_document(&vec![para(vec![text("end"), Inline::HardBreak])], &cfg);
    assert!(out.ends_with('\n') && !out.ends_with("\n\n"), "{out:?}");
    assert!(out.starts_with("end"), "{out:?}");
    let out = print_document(&vec![para(Vec::new())], &cfg);
    assert_eq!(out, "\n");
}

#[test]
fn a_marker_like_word_is_kept_on_the_line_before_it() {
    let mut cfg = FmtConfig::default();
    cfg.line_width = 10;
    for marker in ["-", "+", "#", "######", ">", ">quoted", "1.", "12)", "===", "~~~"] {
        let doc = vec![para(vec![text(&format!("aaaa bbbb {marker} cc"))])];
        assert_eq!(print_document(&doc, &cfg), format!("aaaa bbbb {marker}\ncc\n"), "{marker}");
    }
    let doc = vec![para(vec![text("aaaa bbbb ####### cc")])];
    assert_eq!(print_document(&doc, &cfg), "aaaa bbbb\n####### cc\n");
    let doc = vec![para(vec![text("aaaa bbbb -x cc")])];
    assert_eq!(print_document(&doc, &cfg), "aaaa bbbb\n-x cc\n");
}

#[test]
fn a_marker_like_word_after_a_hard_break_is_escaped() {
    let cfg = FmtConfig::default();
    let cases = [
        ("---", "\\--- and more"),
        ("-", "\\- and more"),
        ("===", "\\=== and more"),
        ("#", "\\# and more"),
        (">", "\\> and more"),
        ("3.", "3\\. and more"),
        ("7)", "7\\) and more"),
    ];
    for (marker, second) in cases {
        let doc = vec![para(vec![
            text("before"),
            Inline::HardBreak,
            text(&format!("{marker} and more")),
        ])];
        assert_eq!(print_document(&doc, &cfg), format!("before  \n{second}\n"), "{marker}");
    }
    let doc = vec![para(vec![text("- first"), Inline::HardBreak, text("plain words")])];
    assert_eq!(print_document(&doc, &cfg), "- first  \nplain words\n");
}
