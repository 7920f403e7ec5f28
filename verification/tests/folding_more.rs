use zed_markdown_fold::folding::{compute_folding_ranges, try_compute_folding_ranges, FoldKind, FoldRange};

fn spans(text: &str) -> Vec<(FoldKind, u32, u32)> {
    compute_folding_ranges(text)
        .iter()
        .map(|r| (r.kind, r.start_line, r.end_line))
        .collect()
}

#[test]
fn heading_sections_in_report_order() {
    let text = "# Title\n\nSome intro text\n\n## Section A\n\nContent A\n\n## Section B\n\nContent B\n\n### Subsection B1\n\nSub content\n\n# Another Top Level\n\nFinal content";
    assert_eq!(
        spans(text),
        vec![
            (FoldKind::Heading, 0, 14),
            (FoldKind::Heading, 4, 6),
            (FoldKind::Heading, 8, 14),
            (FoldKind::Heading, 12, 14),
            (FoldKind::Heading, 16, 18),
        ]
    );
}

#[test]
fn every_kind_in_one_document() {
    let text = "---\ntitle: x\n---\n# A\n> q1\n> q2\n## B\n```\n# not heading\n```\n| a |\n| b |\n| c |\n\n    code1\n    code2";
    assert_eq!(
        spans(text),
        vec![
            (FoldKind::FrontMatter, 0, 2),
            (FoldKind::Blockquote, 4, 5),
            (FoldKind::CodeBlock, 7, 9),
            (FoldKind::Table, 10, 12),
            (FoldKind::IndentedCode, 14, 15),
            (FoldKind::Heading, 3, 15),
            (FoldKind::Heading, 6, 15),
        ]
    );
}

#[test]
fn heading_inside_code_is_not_a_heading() {
    let text = "# A\n```\n# B\ntext";
    assert_eq!(spans(text), vec![(FoldKind::Heading, 0, 3)]);
}

#[test]
fn crlf_line_endings_and_final_newline() {
    assert_eq!(spans("# A\r\ntext\r\n"), vec![(FoldKind::Heading, 0, 1)]);
    assert_eq!(spans("# A\ntext\n"), vec![(FoldKind::Heading, 0, 1)]);
}

#[test]
fn unclosed_front_matter_is_not_folded() {
    assert_eq!(spans("---\na\n# H\nb"), vec![(FoldKind::Heading, 2, 3)]);
}

#[test]
fn tables_at_end_and_in_the_middle() {
    assert_eq!(spans("| a |\n| b |"), vec![]);
    assert_eq!(spans("| a |\n| b |\n| c |"), vec![(FoldKind::Table, 0, 2)]);
    assert_eq!(spans("| a |\n| b |\ntext"), vec![(FoldKind::Table, 0, 1)]);
    assert_eq!(spans("| a |\n| b |\n| c |\n\n"), vec![(FoldKind::Table, 0, 2)]);
}

#[test]
fn lazy_blockquote_lines_end_the_quote() {
    assert_eq!(spans("> a\nb\n> c"), vec![]);
}

#[test]
fn unicode_whitespace_is_trimmed() {
    assert_eq!(spans("\u{3000}# H\nbody"), vec![(FoldKind::Heading, 0, 1)]);
}

#[test]
fn indented_block_ends_on_last_non_blank_line() {
    assert_eq!(spans("    a\n    b\n\n"), vec![(FoldKind::IndentedCode, 0, 1)]);
}

#[test]
fn blank_heading_section_has_no_fold() {
    assert_eq!(spans("# A\n\n# B\nx"), vec![(FoldKind::Heading, 2, 3)]);
    assert_eq!(spans(""), vec![]);
}

#[test]
fn nested_sections_end_inside_their_parent() {
    let ranges = compute_folding_ranges("# A\n## B\ntext\n### C\nmore\n# D\nend");
    let headings: Vec<&FoldRange> = ranges.iter().filter(|r| r.kind == FoldKind::Heading).collect();
    for outer in &headings {
        for inner in &headings {
            if outer.start_line < inner.start_line && inner.start_line <= outer.end_line {
                assert!(inner.end_line <= outer.end_line);
            }
        }
    }
    assert_eq!(
        spans("# A\n## B\ntext\n### C\nmore\n# D\nend"),
        vec![
            (FoldKind::Heading, 0, 4),
            (FoldKind::Heading, 1, 4),
            (FoldKind::Heading, 3, 4),
            (FoldKind::Heading, 5, 6),
        ]
    );
}

#[test]
fn every_fold_is_well_formed() {
    let text = "---\nt\n---\n# A\n> q\n> r\n\n```\nx\n```\n| a |\n| b |\n| c |\n    i\n    j\n## B\nz";
    let n = text.lines().count() as u32;
    for r in compute_folding_ranges(text) {
        assert!(r.start_line < r.end_line && r.end_line < n);
    }
}

#[test]
fn collapsed_texts() {
    assert_eq!(FoldKind::FrontMatter.collapsed_text().as_deref(), Some("---"));
    assert_eq!(FoldKind::CodeBlock.collapsed_text().as_deref(), Some("..."));
    assert_eq!(FoldKind::Blockquote.collapsed_text().as_deref(), Some("> ..."));
    assert_eq!(FoldKind::Table.collapsed_text().as_deref(), Some("| ..."));
    assert_eq!(FoldKind::IndentedCode.collapsed_text().as_deref(), Some("    ..."));
    assert_eq!(FoldKind::Heading.collapsed_text(), None);
}

#[test]
fn try_compute_agrees_with_compute() {
    let text = "# A\n> q\n> r\ntext";
    let a = try_compute_folding_ranges(text).unwrap();
    assert_eq!(a, compute_folding_ranges(text));
    assert_eq!(a.len(), 2);
}

#[test]
fn blank_line_separates_blockquotes() {
    let text = "> a\n> b\n\n> c\n> d\n\ntext";
    let quotes: Vec<(u32, u32)> = compute_folding_ranges(text)
        .iter()
        .filter(|r| r.collapsed_text().as_deref() == Some("> ..."))
        .map(|r| (r.start_line, r.end_line))
        .collect();
    assert_eq!(quotes, vec![(0, 1), (3, 4)]);
    assert_eq!(spans("> a\n>\n> b"), vec![(FoldKind::Blockquote, 0, 2)]);
}
