use memolo::markdown::{markdown_to_blocks, notion_block_type, rich_text, BlockKind};

#[test]
fn rich_text_short_is_one_piece() {
    assert_eq!(rich_text("hello"), vec!["hello".to_string()]);
    assert_eq!(rich_text(""), vec!["".to_string()]);
}

#[test]
fn rich_text_exactly_at_limit() {
    let s = "a".repeat(2000);
    assert_eq!(rich_text(&s), vec![s.clone()]);
}

#[test]
fn rich_text_ascii_over_limit() {
    let s = "a".repeat(2001);
    let parts = rich_text(&s);
    assert_eq!(parts.len(), 2);
    assert_eq!(parts[0].len(), 2000);
    assert_eq!(parts[1], "a");
    let s = "b".repeat(4500);
    let parts = rich_text(&s);
    let lens: Vec<usize> = parts.iter().map(|p| p.len()).collect();
    assert_eq!(lens, vec![2000, 2000, 500]);
}

#[test]
fn rich_text_cuts_between_characters() {
    // 700 characters of 3 bytes each: 2100 bytes.
    let s = "あ".repeat(700);
    let parts = rich_text(&s);
    assert_eq!(parts.len(), 2);
    assert_eq!(parts[0].chars().count(), 666);
    assert_eq!(parts[0].len(), 1998);
    assert_eq!(parts[1].chars().count(), 34);
    assert_eq!(parts.concat(), s);
}

#[test]
fn rich_text_mixed_widths_concat_back() {
    let s = format!("{}{}", "x".repeat(1999), "😀tail");
    let parts = rich_text(&s);
    assert_eq!(parts.len(), 2);
    assert_eq!(parts[0], "x".repeat(1999));
    assert_eq!(parts[1], "😀tail");
    for p in &parts {
        assert!(p.len() <= 2000);
    }
}

fn texts(md: &str) -> Vec<(BlockKind, String)> {
    markdown_to_blocks(md)
        .into_iter()
        .map(|b| (b.kind, b.rich_text.concat()))
        .collect()
}

#[test]
fn headings_lists_and_paragraphs() {
    let md = "# 会議\n\n## 決定事項\n- 予算を承認\n* 次回は月曜\n### 詳細\n本文です。\n";
    assert_eq!(
        texts(md),
        vec![
            (BlockKind::Heading1, "会議".to_string()),
            (BlockKind::Heading2, "決定事項".to_string()),
            (BlockKind::BulletedListItem, "予算を承認".to_string()),
            (BlockKind::BulletedListItem, "次回は月曜".to_string()),
            (BlockKind::Heading3, "詳細".to_string()),
            (BlockKind::Paragraph, "本文です。".to_string()),
        ]
    );
}

#[test]
fn blank_lines_and_whitespace() {
    assert!(markdown_to_blocks("").is_empty());
    assert!(markdown_to_blocks("\n  \n\t\n\u{3000}\n").is_empty());
    assert_eq!(
        texts("  indented  \n##   spaced title   "),
        vec![
            (BlockKind::Paragraph, "  indented".to_string()),
            (BlockKind::Heading2, "spaced title".to_string()),
        ]
    );
}

#[test]
fn markers_need_their_space() {
    assert_eq!(
        texts("#no space\n-dash\n####four\n- "),
        vec![
            (BlockKind::Paragraph, "#no space".to_string()),
            (BlockKind::Paragraph, "-dash".to_string()),
            (BlockKind::Paragraph, "####four".to_string()),
            (BlockKind::Paragraph, "-".to_string()),
        ]
    );
}

#[test]
fn crlf_line_endings() {
    assert_eq!(
        texts("## a\r\n- b\r\nc\r"),
        vec![
            (BlockKind::Heading2, "a".to_string()),
            (BlockKind::BulletedListItem, "b".to_string()),
            (BlockKind::Paragraph, "c".to_string()),
        ]
    );
}

#[test]
fn final_line_break_changes_nothing() {
    let md = "# t\n- x";
    assert_eq!(texts(md), texts(&format!("{md}\n")));
    assert_eq!(texts("a\n\n"), texts("a\n\n\n"));
}

#[test]
fn long_paragraph_is_split() {
    let line = "z".repeat(2500);
    let blocks = markdown_to_blocks(&line);
    assert_eq!(blocks.len(), 1);
    assert_eq!(blocks[0].kind, BlockKind::Paragraph);
    assert_eq!(blocks[0].rich_text.len(), 2);
    assert_eq!(blocks[0].rich_text[0].len(), 2000);
    assert_eq!(blocks[0].rich_text[1].len(), 500);
}

#[test]
fn markers_alone_are_not_empty_headings() {
    assert_eq!(
        texts("## \n-\n*   \n# x"),
        vec![
            (BlockKind::Paragraph, "##".to_string()),
            (BlockKind::Paragraph, "-".to_string()),
            (BlockKind::Paragraph, "*".to_string()),
            (BlockKind::Heading1, "x".to_string()),
        ]
    );
    for (_, t) in texts("# a\n## b\n- c\n\n  d") {
        assert!(!t.is_empty());
    }
}

#[test]
fn block_type_names() {
    assert_eq!(notion_block_type(BlockKind::Heading1), "heading_1");
    assert_eq!(notion_block_type(BlockKind::Heading2), "heading_2");
    assert_eq!(notion_block_type(BlockKind::Heading3), "heading_3");
    assert_eq!(notion_block_type(BlockKind::BulletedListItem), "bulleted_list_item");
    assert_eq!(notion_block_type(BlockKind::Paragraph), "paragraph");
}

#[test]
fn joined_texts_give_joined_blocks() {
    let a = "# x\n- y\r";
    let b = "\n## z\nw";
    let mut both = texts(a);
    both.extend(texts(b));
    assert_eq!(texts(&format!("{a}\n{b}")), both);
}
